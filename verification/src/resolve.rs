//! URL resolver: turns an input URI into a normalized reference to a forge
//! repository, a target kind, and the path segments still to be split into
//! branch name and in-repository path.

use crate::strings::{split_path, split_slash, str_eq};
use vstd::prelude::*;

verus! {

/// Why an input URI was rejected, before any network work.
#[derive(Clone, Copy, PartialEq, Eq, Structural, Debug)]
pub enum ParseError {
    /// The input is not a syntactically valid absolute URI.
    Malformed,
    /// The URI has no host component at all.
    MissingHost,
    /// The URI has a host, but not the supported forge's domain.
    UnsupportedHost,
    /// Fewer than three path segments, or the third is neither `tree` nor
    /// `blob`.
    MalformedPath,
}

/// Whether the referenced target is expected to be a directory (`tree`) or a
/// file (`blob`).
#[derive(Clone, Copy, PartialEq, Eq, Structural, Debug)]
pub enum TargetKind {
    Tree,
    Blob,
}

/// The parsed user input: host, repository slugs, target kind, and the raw
/// path segments after the kind, whose branch/path split point is not yet
/// known.
#[derive(Clone, Debug)]
pub struct SourceReference {
    pub host: String,
    pub owner_slug: String,
    pub repo_slug: String,
    pub kind: TargetKind,
    pub remainder_segments: Vec<String>,
}

/// The plain pieces of a parsed URI that the resolver reads.
pub struct UriParts {
    pub host: Option<String>,
    pub path: String,
}

/// Whether the text parses as an absolute URI.
pub uninterp spec fn uri_parses(s: Seq<char>) -> bool;

/// The host text of the parsed URI, if it has a host.
pub uninterp spec fn uri_host(s: Seq<char>) -> Option<Seq<char>>;

/// The path text of the parsed URI.
pub uninterp spec fn uri_path(s: Seq<char>) -> Seq<char>;

/// Relies on url::Url::parse to decide whether the input is an absolute URI,
/// and on url::Url::host_str and url::Url::path to read the host and path
/// text of the parsed value; each outcome depends on the input text alone.
#[verifier::external_body]
fn read_uri(input: &str) -> (r: Option<UriParts>)
    ensures
        r is Some <==> uri_parses(input@),
        r matches Some(p) ==> (p.host matches Some(h) ==> uri_host(input@) == Some(h@)),
        r matches Some(p) ==> (p.host is None ==> uri_host(input@) is None),
        r matches Some(p) ==> p.path@ == uri_path(input@),
{
    match url::Url::parse(input) {
        Ok(u) => Some(
            UriParts { host: u.host_str().map(|h| h.to_string()), path: u.path().to_string() },
        ),
        Err(_) => None,
    }
}

/// The path segments of the parsed URI: its path split on `/`, with one
/// leading separator not opening an empty first segment.
pub open spec fn uri_segments(s: Seq<char>) -> Seq<Seq<char>> {
    let p = uri_path(s);
    if p.len() > 0 && p[0] == '/' {
        split_slash(p.skip(1))
    } else {
        split_slash(p)
    }
}

/// The inputs on which `resolve` succeeds: an absolute URI on the supported
/// forge's domain whose path has at least three segments, the third being
/// `tree` or `blob`.
pub open spec fn resolve_ok(s: Seq<char>) -> bool {
    &&& uri_parses(s)
    &&& uri_host(s) == Some("github.com"@)
    &&& uri_segments(s).len() >= 3
    &&& (uri_segments(s)[2] == "tree"@ || uri_segments(s)[2] == "blob"@)
}

/// Parses an input URI into a `SourceReference`, with each rejection tied
/// exactly to the inputs that earn it.
pub fn resolve(input: &str) -> (r: Result<SourceReference, ParseError>)
    ensures
        r == Err::<SourceReference, ParseError>(ParseError::Malformed) <==> !uri_parses(input@),
        r == Err::<SourceReference, ParseError>(ParseError::MissingHost) <==> uri_parses(input@)
            && uri_host(input@) is None,
        r == Err::<SourceReference, ParseError>(ParseError::UnsupportedHost) <==> uri_parses(
            input@,
        ) && uri_host(input@) is Some && uri_host(input@) != Some("github.com"@),
        r == Err::<SourceReference, ParseError>(ParseError::MalformedPath) <==> uri_parses(input@)
            && uri_host(input@) == Some("github.com"@) && !(uri_segments(input@).len() >= 3 && (
        uri_segments(input@)[2] == "tree"@ || uri_segments(input@)[2] == "blob"@)),
        r is Ok <==> resolve_ok(input@),
        r matches Ok(sr) ==> {
            &&& sr.host@ == "github.com"@
            &&& sr.owner_slug@ == uri_segments(input@)[0]
            &&& sr.repo_slug@ == uri_segments(input@)[1]
            &&& (sr.kind == TargetKind::Tree <==> uri_segments(input@)[2] == "tree"@)
            &&& (sr.kind == TargetKind::Blob <==> uri_segments(input@)[2] == "blob"@)
            &&& sr.remainder_segments.deep_view() == uri_segments(input@).skip(3)
        },
{
    let parts = match read_uri(input) {
        None => {
            return Err(ParseError::Malformed);
        },
        Some(p) => p,
    };
    let host = match parts.host {
        None => {
            return Err(ParseError::MissingHost);
        },
        Some(h) => h,
    };
    if !str_eq(host.as_str(), "github.com") {
        return Err(ParseError::UnsupportedHost);
    }
    let path = parts.path;
    let path_len = path.as_str().unicode_len();
    let trimmed: &str = if path_len > 0 && path.as_str().get_char(0) == '/' {
        let t = path.as_str().substring_char(1, path_len);
        proof {
            assert(t@ =~= uri_path(input@).skip(1));
        }
        t
    } else {
        path.as_str()
    };
    assert(split_slash(trimmed@) == uri_segments(input@));
    let segs = split_path(trimmed);
    if segs.len() < 3 {
        return Err(ParseError::MalformedPath);
    }
    proof {
        reveal_strlit("tree");
        reveal_strlit("blob");
        assert("tree"@[0] != "blob"@[0]);
    }
    let kind = if str_eq(segs[2].as_str(), "tree") {
        TargetKind::Tree
    } else if str_eq(segs[2].as_str(), "blob") {
        TargetKind::Blob
    } else {
        return Err(ParseError::MalformedPath);
    };
    let owner_slug = segs[0].clone();
    let repo_slug = segs[1].clone();
    let mut remainder_segments: Vec<String> = Vec::new();
    let mut i: usize = 3;
    proof {
        assert(remainder_segments.deep_view() =~~= segs.deep_view().subrange(3, 3));
    }
    while i < segs.len()
        invariant
            3 <= i <= segs@.len(),
            segs@.len() >= 3,
            remainder_segments.deep_view() =~~= segs.deep_view().subrange(3, i as int),
        decreases segs@.len() - i,
    {
        let ghost old_dv = remainder_segments.deep_view();
        remainder_segments.push(segs[i].clone());
        proof {
            assert(remainder_segments.deep_view() =~~= old_dv.push(segs@[i as int].deep_view()));
            assert(old_dv.push(segs@[i as int].deep_view()) =~~= segs.deep_view().subrange(
                3,
                i + 1,
            ));
        }
        i = i + 1;
    }
    proof {
        assert(segs.deep_view().subrange(3, segs@.len() as int) =~~= segs.deep_view().skip(3));
    }
    Ok(SourceReference { host, owner_slug, repo_slug, kind, remainder_segments })
}

impl SourceReference {
    /// The HTTPS clone URL of the referenced repository:
    /// `https://<host>/<ownerSlug>/<repoSlug>`.
    pub fn clone_url(&self) -> (r: String)
        ensures
            r@ == "https://"@ + self.host@ + "/"@ + self.owner_slug@ + "/"@ + self.repo_slug@,
    {
        let mut out = "https://".to_owned();
        out.append(self.host.as_str());
        out.append("/");
        out.append(self.owner_slug.as_str());
        out.append("/");
        out.append(self.repo_slug.as_str());
        out
    }
}

} // verus!
