//! Branch/path disambiguator: given the remainder segments of a resolved
//! URL and the branch names the remote advertises, decides which leading
//! piece of the remainder is the branch and which trailing piece is the
//! path inside the repository.

use crate::strings::{is_prefix_of, join_path, join_slash, str_eq, str_starts_with};
use vstd::prelude::*;

verus! {

/// Why the remainder could not be split into branch and path.
#[derive(Clone, Copy, PartialEq, Eq, Structural, Debug)]
pub enum ResolutionError {
    /// No candidate branch name is a prefix of the remainder.
    NoBranchMatch,
    /// Two distinct candidate branch names of equal length both match;
    /// `lemma_no_length_tie` shows this cannot happen, so it is never
    /// produced.
    Ambiguous,
    /// The matched branch name consumes the entire remainder, leaving
    /// nothing to extract.
    EmptyPath,
}

/// The outcome of disambiguation: the branch to check out and the path
/// inside the repository, relative to its root.
#[derive(Clone, Debug)]
pub struct ResolvedLocation {
    pub branch_name: String,
    pub relative_path: String,
}

/// Whether branch name `b` matches the joined remainder `j` on a full
/// path-segment boundary: either `b` is all of `j`, or `b` is a strict
/// prefix of `j` with a separator right after it.
pub open spec fn branch_matches(b: Seq<char>, j: Seq<char>) -> bool {
    ||| b == j
    ||| (b.len() < j.len() && is_prefix_of(b, j) && j[b.len() as int] == '/')
}

/// Two branch names of equal length that both match the same remainder are
/// the same name: a length tie between distinct candidates cannot occur,
/// so disambiguation never reports an ambiguity.
pub proof fn lemma_no_length_tie(b1: Seq<char>, b2: Seq<char>, j: Seq<char>)
    requires
        branch_matches(b1, j),
        branch_matches(b2, j),
        b1.len() == b2.len(),
    ensures
        b1 == b2,
{
    if b1 == j {
        assert(b2.len() == j.len());
        assert(b2 == j);
    } else if b2 == j {
        assert(b1.len() == j.len());
        assert(b1 == j);
    } else {
        assert(b1 == j.subrange(0, b1.len() as int));
        assert(b2 == j.subrange(0, b2.len() as int));
    }
}

/// Splits the joined remainder of `remainder_segments` at the longest
/// candidate branch name that matches it on a segment boundary.
pub fn disambiguate(remainder_segments: &Vec<String>, candidate_branches: &Vec<String>) -> (r:
    Result<ResolvedLocation, ResolutionError>)
    ensures
        ({
            let j = join_slash(remainder_segments.deep_view());
            let cands = candidate_branches.deep_view();
            &&& (r == Err::<ResolvedLocation, ResolutionError>(ResolutionError::NoBranchMatch)
                <==> (forall|k: int| 0 <= k < cands.len() ==> !branch_matches(cands[k], j)))
            &&& (r == Err::<ResolvedLocation, ResolutionError>(ResolutionError::EmptyPath) <==> (
            exists|k: int| 0 <= k < cands.len() && cands[k] == j))
            &&& r != Err::<ResolvedLocation, ResolutionError>(ResolutionError::Ambiguous)
            &&& (r is Ok <==> (exists|k: int|
                0 <= k < cands.len() && branch_matches(cands[k], j)) && (forall|k: int|
                0 <= k < cands.len() ==> cands[k] != j))
            &&& (r matches Ok(loc) ==> {
                &&& exists|k: int| 0 <= k < cands.len() && cands[k] == loc.branch_name@
                &&& branch_matches(loc.branch_name@, j)
                &&& loc.branch_name@.len() < j.len()
                &&& loc.relative_path@ == j.skip(loc.branch_name@.len() as int + 1)
                &&& forall|k: int|
                    0 <= k < cands.len() && branch_matches(cands[k], j) ==> cands[k].len()
                        <= loc.branch_name@.len()
            })
        }),
{
    let joined = join_path(remainder_segments);
    let joined_len = joined.as_str().unicode_len();
    let ghost j = join_slash(remainder_segments.deep_view());
    let ghost cands = candidate_branches.deep_view();
    let mut best: Option<usize> = None;
    let mut idx: usize = 0;
    while idx < candidate_branches.len()
        invariant
            idx <= cands.len(),
            cands == candidate_branches.deep_view(),
            j == joined@,
            joined_len == j.len(),
            best matches Some(b) ==> b < idx && branch_matches(cands[b as int], j),
            best matches Some(b) ==> forall|k: int|
                0 <= k < idx && branch_matches(cands[k], j) ==> cands[k].len()
                    <= cands[b as int].len(),
            best is None ==> forall|k: int| 0 <= k < idx ==> !branch_matches(cands[k], j),
        decreases cands.len() - idx,
    {
        let cand = &candidate_branches[idx];
        let cand_len = cand.as_str().unicode_len();
        let matched = if cand_len == joined_len {
            str_eq(cand.as_str(), joined.as_str())
        } else if cand_len < joined_len {
            if str_starts_with(joined.as_str(), cand.as_str()) {
                joined.as_str().get_char(cand_len) == '/'
            } else {
                false
            }
        } else {
            false
        };
        assert(matched == branch_matches(cands[idx as int], j));
        if matched {
            match best {
                None => {
                    best = Some(idx);
                },
                Some(b) => {
                    let best_len = candidate_branches[b].as_str().unicode_len();
                    if cand_len > best_len {
                        best = Some(idx);
                    }
                },
            }
        }
        idx = idx + 1;
    }
    match best {
        None => Err(ResolutionError::NoBranchMatch),
        Some(b) => {
            let branch = &candidate_branches[b];
            let branch_len = branch.as_str().unicode_len();
            if branch_len == joined_len {
                proof {
                    assert(cands[b as int] == j);
                }
                Err(ResolutionError::EmptyPath)
            } else {
                proof {
                    assert(branch_matches(cands[b as int], j) && cands[b as int].len() != j.len());
                    assert(forall|k: int|
                        0 <= k < cands.len() && cands[k] == j ==> branch_matches(cands[k], j)
                            && cands[k].len() <= cands[b as int].len());
                    assert(forall|k: int| 0 <= k < cands.len() ==> cands[k] != j);
                }
                let rel = joined.as_str().substring_char(branch_len + 1, joined_len);
                proof {
                    assert(rel@ =~= j.skip(cands[b as int].len() as int + 1));
                }
                Ok(ResolvedLocation { branch_name: branch.clone(), relative_path: rel.to_owned() })
            }
        },
    }
}

} // verus!
