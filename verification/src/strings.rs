//! Character-level text helpers: splitting on `/`, joining with `/`, and
//! prefix tests, each proved against a spec function over `Seq<char>`.

use vstd::prelude::*;

verus! {

/// The pieces of `s` split on `'/'`: empty text gives one empty piece, and
/// every separator ends the current piece and starts a new one.
pub open spec fn split_slash(s: Seq<char>) -> Seq<Seq<char>>
    decreases s.len(),
{
    if s.len() == 0 {
        seq![Seq::<char>::empty()]
    } else if s[0] == '/' {
        seq![Seq::<char>::empty()].add(split_slash(s.skip(1)))
    } else {
        let rest = split_slash(s.skip(1));
        seq![seq![s[0]].add(rest[0])].add(rest.skip(1))
    }
}

/// The text of `segs` joined with `'/'` between consecutive segments.
pub open spec fn join_slash(segs: Seq<Seq<char>>) -> Seq<char>
    decreases segs.len(),
{
    if segs.len() == 0 {
        Seq::<char>::empty()
    } else if segs.len() == 1 {
        segs[0]
    } else {
        segs[0].add(seq!['/']).add(join_slash(segs.skip(1)))
    }
}

/// Whether `p` is a leading piece of `s`, character for character.
pub open spec fn is_prefix_of(p: Seq<char>, s: Seq<char>) -> bool {
    p.len() <= s.len() && p == s.subrange(0, p.len() as int)
}

/// Splitting yields at least one piece.
proof fn lemma_split_slash_nonempty(s: Seq<char>)
    ensures
        split_slash(s).len() >= 1,
    decreases s.len(),
{
    if s.len() == 0 {
    } else if s[0] == '/' {
        lemma_split_slash_nonempty(s.skip(1));
    } else {
        lemma_split_slash_nonempty(s.skip(1));
    }
}

/// Text without a separator is a single piece.
proof fn lemma_split_slash_no_sep(s: Seq<char>)
    requires
        forall|j: int| 0 <= j < s.len() ==> s[j] != '/',
    ensures
        split_slash(s) =~~= seq![s],
    decreases s.len(),
{
    if s.len() == 0 {
        assert(seq![Seq::<char>::empty()] =~~= seq![s]);
    } else {
        lemma_split_slash_no_sep(s.skip(1));
        lemma_split_slash_nonempty(s.skip(1));
        assert(split_slash(s.skip(1))[0] == s.skip(1));
        assert(seq![s[0]].add(s.skip(1)) =~= s);
        assert(split_slash(s.skip(1)).skip(1) =~~= Seq::<Seq<char>>::empty());
    }
}

/// Splitting at the first separator: the piece before it, then the split of
/// what follows it.
proof fn lemma_split_slash_first_sep(s: Seq<char>, k: int)
    requires
        0 <= k < s.len(),
        s[k] == '/',
        forall|j: int| 0 <= j < k ==> s[j] != '/',
    ensures
        split_slash(s) =~~= seq![s.subrange(0, k)].add(split_slash(s.skip(k + 1))),
    decreases k,
{
    if k == 0 {
        assert(s.subrange(0, 0) =~= Seq::<char>::empty());
    } else {
        let t = s.skip(1);
        assert(t[k - 1] == s[k]);
        assert(forall|j: int| 0 <= j < k - 1 ==> t[j] == s[j + 1] && t[j] != '/');
        lemma_split_slash_first_sep(t, k - 1);
        lemma_split_slash_nonempty(t.skip(k));
        let rest = split_slash(t);
        assert(rest[0] == t.subrange(0, k - 1));
        assert(rest.skip(1) =~~= split_slash(t.skip(k)));
        assert(t.skip(k) =~= s.skip(k + 1));
        assert(seq![s[0]].add(t.subrange(0, k - 1)) =~= s.subrange(0, k));
    }
}

/// Joining the pieces of a split restores the original text: the remainder
/// that disambiguation joins back together is exactly the tail of the path
/// the resolver split apart.
pub proof fn lemma_join_undoes_split(s: Seq<char>)
    ensures
        join_slash(split_slash(s)) == s,
    decreases s.len(),
{
    if s.len() == 0 {
    } else if s[0] == '/' {
        let t = s.skip(1);
        lemma_join_undoes_split(t);
        lemma_split_slash_nonempty(t);
        let segs = seq![Seq::<char>::empty()].add(split_slash(t));
        assert(segs.skip(1) =~~= split_slash(t));
        assert(segs[0].add(seq!['/']).add(join_slash(split_slash(t))) =~= s);
    } else {
        let t = s.skip(1);
        lemma_join_undoes_split(t);
        lemma_split_slash_nonempty(t);
        let rest = split_slash(t);
        let segs = seq![seq![s[0]].add(rest[0])].add(rest.skip(1));
        if rest.len() == 1 {
            assert(join_slash(rest) == rest[0]);
            assert(segs.len() == 1);
            assert(join_slash(segs) == seq![s[0]].add(rest[0]));
            assert(seq![s[0]].add(t) =~= s);
        } else {
            assert(join_slash(rest) == rest[0].add(seq!['/']).add(join_slash(rest.skip(1))));
            assert(segs.len() >= 2);
            assert(segs.skip(1) =~~= rest.skip(1));
            assert(join_slash(segs) == seq![s[0]].add(rest[0]).add(seq!['/']).add(
                join_slash(rest.skip(1)),
            ));
            assert(seq![s[0]].add(rest[0]).add(seq!['/']).add(join_slash(rest.skip(1))) =~= seq![
                s[0],
            ].add(rest[0].add(seq!['/']).add(join_slash(rest.skip(1)))));
            assert(seq![s[0]].add(t) =~= s);
        }
    }
}

/// Text with a separator splits into at least two pieces.
proof fn lemma_split_slash_sep_two(s: Seq<char>, k: int)
    requires
        0 <= k < s.len(),
        s[k] == '/',
    ensures
        split_slash(s).len() >= 2,
    decreases s.len(),
{
    if k == 0 {
        lemma_split_slash_nonempty(s.skip(1));
    } else {
        assert(s.skip(1)[k - 1] == s[k]);
        lemma_split_slash_sep_two(s.skip(1), k - 1);
    }
}

/// The piece after the last separator is the last piece of the split.
proof fn lemma_split_slash_last(s: Seq<char>, k: int)
    requires
        0 <= k < s.len(),
        s[k] == '/',
        forall|j: int| k < j < s.len() ==> s[j] != '/',
    ensures
        split_slash(s).last() == s.skip(k + 1),
    decreases s.len(),
{
    if k == 0 {
        let t = s.skip(1);
        assert(forall|j: int| 0 <= j < t.len() ==> t[j] == s[j + 1] && t[j] != '/');
        lemma_split_slash_no_sep(t);
    } else {
        let t = s.skip(1);
        assert(t[k - 1] == s[k]);
        assert(forall|j: int| k - 1 < j < t.len() ==> t[j] == s[j + 1] && t[j] != '/');
        lemma_split_slash_last(t, k - 1);
        lemma_split_slash_sep_two(t, k - 1);
        assert(t.skip(k) =~= s.skip(k + 1));
        if s[0] == '/' {
            assert(split_slash(s).last() == split_slash(t).last());
        } else {
            let rest = split_slash(t);
            assert(split_slash(s).last() == seq![seq![s[0]].add(rest[0])].add(rest.skip(1)).last());
            assert(rest.skip(1).len() >= 1);
            assert(seq![seq![s[0]].add(rest[0])].add(rest.skip(1)).last() == rest.last());
        }
    }
}

/// The final piece of `s` split on `'/'`: the basename that extraction
/// flattens a path to.
pub fn basename(s: &str) -> (r: String)
    ensures
        r@ == split_slash(s@).last(),
{
    let len = s.unicode_len();
    let mut last_sep: Option<usize> = None;
    let mut i: usize = 0;
    while i < len
        invariant
            i <= len,
            len == s@.len(),
            last_sep matches Some(k) ==> k < i && s@[k as int] == '/' && (forall|j: int|
                k < j < i ==> s@[j] != '/'),
            last_sep is None ==> forall|j: int| 0 <= j < i ==> s@[j] != '/',
        decreases len - i,
    {
        if s.get_char(i) == '/' {
            last_sep = Some(i);
        }
        i = i + 1;
    }
    match last_sep {
        None => {
            proof {
                lemma_split_slash_no_sep(s@);
            }
            s.to_owned()
        },
        Some(k) => {
            let piece = s.substring_char(k + 1, len);
            proof {
                lemma_split_slash_last(s@, k as int);
                assert(piece@ =~= s@.skip(k + 1));
            }
            piece.to_owned()
        },
    }
}

/// Whether `a` and `b` hold the same characters.
pub fn str_eq(a: &str, b: &str) -> (r: bool)
    ensures
        r == (a@ == b@),
{
    let a_len = a.unicode_len();
    let b_len = b.unicode_len();
    if a_len != b_len {
        return false;
    }
    let mut i: usize = 0;
    while i < a_len
        invariant
            i <= a_len,
            a_len == a@.len(),
            b_len == b@.len(),
            a_len == b_len,
            forall|j: int| 0 <= j < i ==> a@[j] == b@[j],
        decreases a_len - i,
    {
        if a.get_char(i) != b.get_char(i) {
            return false;
        }
        i = i + 1;
    }
    proof {
        assert(a@ =~= b@);
    }
    true
}

/// Whether `s` begins with the characters of `p`.
pub fn str_starts_with(s: &str, p: &str) -> (r: bool)
    ensures
        r == is_prefix_of(p@, s@),
{
    let s_len = s.unicode_len();
    let p_len = p.unicode_len();
    if p_len > s_len {
        return false;
    }
    let mut i: usize = 0;
    while i < p_len
        invariant
            i <= p_len,
            p_len <= s_len,
            s_len == s@.len(),
            p_len == p@.len(),
            forall|j: int| 0 <= j < i ==> p@[j] == s@[j],
        decreases p_len - i,
    {
        if p.get_char(i) != s.get_char(i) {
            proof {
                assert(s@.subrange(0, p@.len() as int)[i as int] == s@[i as int]);
            }
            return false;
        }
        i = i + 1;
    }
    proof {
        assert(p@ =~= s@.subrange(0, p@.len() as int));
    }
    true
}

/// Splits `s` on `'/'` into owned pieces.
pub fn split_path(s: &str) -> (segs: Vec<String>)
    ensures
        segs.deep_view() == split_slash(s@),
{
    let len = s.unicode_len();
    let mut segs: Vec<String> = Vec::new();
    let mut start: usize = 0;
    let mut i: usize = 0;
    proof {
        assert(segs.deep_view() =~~= Seq::<Seq<char>>::empty());
        assert(s@.skip(0) =~= s@);
        assert(Seq::<Seq<char>>::empty().add(split_slash(s@)) =~~= split_slash(s@));
    }
    while i < len
        invariant
            start <= i <= len,
            len == s@.len(),
            forall|j: int| start <= j < i ==> s@[j] != '/',
            split_slash(s@) =~~= segs.deep_view().add(split_slash(s@.skip(start as int))),
        decreases len - i,
    {
        if s.get_char(i) == '/' {
            let piece = s.substring_char(start, i);
            let ghost old_dv = segs.deep_view();
            segs.push(piece.to_owned());
            proof {
                let tail = s@.skip(start as int);
                assert(forall|j: int| 0 <= j < i - start ==> tail[j] == s@[j + start]
                    && tail[j] != '/');
                assert(tail[i - start] == '/');
                lemma_split_slash_first_sep(tail, i - start);
                assert(tail.subrange(0, i - start) =~= s@.subrange(start as int, i as int));
                assert(tail.skip(i - start + 1) =~= s@.skip(i + 1));
                assert(segs.deep_view() =~~= old_dv.push(s@.subrange(start as int, i as int)));
                assert(old_dv.push(s@.subrange(start as int, i as int)) =~~= old_dv.add(
                    seq![s@.subrange(start as int, i as int)],
                ));
            }
            start = i + 1;
        }
        i = i + 1;
    }
    let piece = s.substring_char(start, len);
    let ghost old_dv = segs.deep_view();
    segs.push(piece.to_owned());
    proof {
        let tail = s@.skip(start as int);
        assert(forall|j: int| 0 <= j < tail.len() ==> tail[j] == s@[j + start]
            && tail[j] != '/');
        lemma_split_slash_no_sep(tail);
        assert(s@.subrange(start as int, len as int) =~= tail);
        assert(segs.deep_view() =~~= old_dv.push(tail));
        assert(old_dv.push(tail) =~~= old_dv.add(seq![tail]));
        assert(segs.deep_view() =~~= split_slash(s@));
    }
    segs
}

/// Joining one more segment appends a separator and that segment.
proof fn lemma_join_slash_snoc(segs: Seq<Seq<char>>, i: int)
    requires
        1 <= i < segs.len(),
    ensures
        join_slash(segs.take(i + 1)) =~= join_slash(segs.take(i)).add(seq!['/']).add(segs[i]),
    decreases i,
{
    let t = segs.skip(1);
    if i == 1 {
        assert(segs.take(2)[0] == segs[0]);
        assert(segs.take(2).skip(1) =~~= seq![segs[1]]);
        assert(join_slash(seq![segs[1]]) == segs[1]);
        assert(segs.take(1)[0] == segs[0]);
    } else {
        lemma_join_slash_snoc(t, i - 1);
        assert(segs.take(i + 1).skip(1) =~~= t.take(i));
        assert(segs.take(i).skip(1) =~~= t.take(i - 1));
        assert(t[i - 1] == segs[i]);
        assert(join_slash(segs.take(i + 1)) == segs.take(i + 1)[0].add(seq!['/']).add(
            join_slash(segs.take(i + 1).skip(1)),
        ));
        assert(join_slash(segs.take(i)) == segs.take(i)[0].add(seq!['/']).add(
            join_slash(segs.take(i).skip(1)),
        ));
        assert(segs[0].add(seq!['/']).add(join_slash(t.take(i - 1)).add(seq!['/']).add(t[i - 1]))
            =~= segs[0].add(seq!['/']).add(join_slash(t.take(i - 1))).add(seq!['/']).add(segs[i]));
    }
}

/// Joins `segs` with `'/'` between consecutive segments.
pub fn join_path(segs: &Vec<String>) -> (r: String)
    ensures
        r@ == join_slash(segs.deep_view()),
{
    let mut out = String::new();
    let mut i: usize = 0;
    while i < segs.len()
        invariant
            i <= segs@.len(),
            out@ == join_slash(segs.deep_view().take(i as int)),
        decreases segs@.len() - i,
    {
        if i == 0 {
            out = segs[0].as_str().to_owned();
            proof {
                assert(segs.deep_view().take(1) =~~= seq![segs@[0].deep_view()]);
            }
        } else {
            proof {
                lemma_join_slash_snoc(segs.deep_view(), i as int);
            }
            out.append("/");
            out.append(segs[i].as_str());
            proof {
                reveal_strlit("/");
                assert(seq!['/'] =~= "/"@);
            }
        }
        i = i + 1;
    }
    proof {
        assert(segs.deep_view().take(segs@.len() as int) =~~= segs.deep_view());
    }
    out
}

} // verus!
