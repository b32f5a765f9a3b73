//! Locating the runtime `config/` directory: walk up from a start directory to
//! the first ancestor that holds the marker, and answer `<ancestor>/config`.

use vstd::prelude::*;

verus! {

/// What `Path::parent` gives for the path spelled `p` (None at a root or for
/// the empty path).
pub uninterp spec fn path_parent_of(p: Seq<char>) -> Option<Seq<char>>;

/// What `Path::join` gives for the path spelled `p` joined with `s`.
pub uninterp spec fn path_join_of(p: Seq<char>, s: Seq<char>) -> Seq<char>;

/// `Path::parent`: the path without its final component, if there is one.
/// The result is named by `path_parent_of`; beyond that it is only claimed
/// that a parent is shorter than its child (it drops the final component).
#[verifier::external_body]
fn path_parent(p: &str) -> (r: Option<String>)
    ensures
        r is None <==> path_parent_of(p@) is None,
        r matches Some(q) ==> path_parent_of(p@) == Some(q@) && q@.len() < p@.len(),
{
    std::path::Path::new(p).parent().map(|q| q.to_string_lossy().into_owned())
}

/// `Path::join`: the path `p` extended with `s`. The result is named by
/// `path_join_of`; nothing more is claimed of it, since the separator and the
/// handling of rooted or prefixed `s` differ from one platform to another.
#[verifier::external_body]
fn path_join(p: &str, s: &str) -> (r: String)
    ensures
        r@ == path_join_of(p@, s@),
{
    std::path::Path::new(p).join(s).to_string_lossy().into_owned()
}

/// The `k`-th ancestor of the path `p` (`p` itself for `k == 0`).
pub open spec fn ancestor(p: Seq<char>, k: nat) -> Option<Seq<char>>
    decreases k,
{
    if k == 0 {
        Some(p)
    } else {
        match ancestor(p, (k - 1) as nat) {
            Some(q) => path_parent_of(q),
            None => None,
        }
    }
}

/// The marker predicate answered `answer` for the directory spelled `d`.
pub open spec fn marker_said<F: Fn(&str) -> bool>(has_marker: F, d: Seq<char>, answer: bool) -> bool {
    exists|s: &str| s@ == d && #[trigger] has_marker.ensures((s,), answer)
}

/// The `j`-th ancestor of `start` exists and the marker predicate refused it.
pub open spec fn ancestor_refused<F: Fn(&str) -> bool>(start: Seq<char>, has_marker: F, j: nat) -> bool {
    ancestor(start, j) matches Some(dj) && marker_said(has_marker, dj, false)
}

/// Walks up from `start` and returns `<ancestor>/config` for the first
/// ancestor (starting with `start` itself) on which `has_biomes` holds, or
/// `None` when no ancestor matches.
pub fn find_config_dir_from<F: Fn(&str) -> bool>(start: &str, has_biomes: F) -> (r: Option<String>)
    requires
        forall|d: &str| has_biomes.requires((d,)),
    ensures
        match r {
            Some(c) => exists|k: nat| {
                &&& #[trigger] ancestor(start@, k) matches Some(d)
                &&& marker_said(has_biomes, d, true)
                &&& c@ == path_join_of(d, "config"@)
                &&& forall|j: nat| j < k ==> #[trigger] ancestor_refused(start@, has_biomes, j)
            },
            None => exists|k: nat| {
                &&& #[trigger] ancestor(start@, k) is None
                &&& forall|j: nat| j < k ==> #[trigger] ancestor_refused(start@, has_biomes, j)
            },
        },
{
    let mut cursor: Option<String> = Some(start.to_owned());
    let ghost mut k: nat = 0;
    let ghost mut measure: nat = start@.len() + 1;
    loop
        invariant
            forall|d: &str| has_biomes.requires((d,)),
            cursor matches Some(c) ==> ancestor(start@, k) == Some(c@) && measure == c@.len() + 1,
            cursor is None ==> ancestor(start@, k) is None && measure == 0,
            forall|j: nat| j < k ==> #[trigger] ancestor_refused(start@, has_biomes, j),
        decreases measure,
    {
        match cursor {
            None => {
                return None;
            },
            Some(d) => {
                let found = has_biomes(d.as_str());
                if found {
                    let joined = path_join(d.as_str(), "config");
                    proof {
                        assert(marker_said(has_biomes, d@, true));
                        assert(ancestor(start@, k) matches Some(dd) && dd == d@);
                    }
                    return Some(joined);
                }
                proof {
                    assert(marker_said(has_biomes, d@, false));
                }
                let next = path_parent(d.as_str());
                proof {
                    assert(ancestor(start@, k + 1) == path_parent_of(d@));
                    assert forall|j: nat| j < k + 1 implies #[trigger] ancestor_refused(start@, has_biomes, j) by {
                        if j == k {
                            assert(ancestor(start@, k) == Some(d@));
                        }
                    }
                    k = k + 1;
                    measure = match next {
                        Some(ref q) => (q@.len() + 1) as nat,
                        None => 0,
                    };
                }
                cursor = next;
            },
        }
    }
}

} // verus!
