//! The project-root inferencer's decisions: the bounded list of ancestor
//! directories of a build-output path, and the choice of the enclosing
//! project among them once the caller has probed each for the
//! build-description marker file.

use vstd::prelude::*;
use crate::paths::normalize_path;
use crate::paths::parent_dir_fwd;
use crate::paths::spec_first_flagged;
use crate::paths::spec_normalize;
use crate::paths::spec_parent_fwd;
use crate::paths::first_flagged;

verus! {

/// Up to `levels` successive parent directories of a path, nearest first.
pub open spec fn spec_ancestors(p: Seq<char>, levels: nat) -> Seq<Seq<char>>
    decreases levels,
{
    if levels == 0 {
        Seq::empty()
    } else {
        match spec_parent_fwd(p) {
            Some(q) => seq![q] + spec_ancestors(q, (levels - 1) as nat),
            None => Seq::empty(),
        }
    }
}

/// Collects up to `levels` ancestor directories of a build-output path,
/// nearest first, as `spec_ancestors` describes.
pub fn ancestor_candidates(p: &str, levels: usize) -> (r: Vec<String>)
    ensures
        r.deep_view() == spec_ancestors(p@, levels as nat),
    decreases levels,
{
    if levels == 0 {
        let r: Vec<String> = Vec::new();
        proof {
            assert(r.deep_view() =~= spec_ancestors(p@, 0));
        }
        return r;
    }
    match parent_dir_fwd(p) {
        Some(q) => {
            let mut rest = ancestor_candidates(q.as_str(), levels - 1);
            rest.insert(0, q);
            proof {
                assert(rest.deep_view() =~= seq![spec_parent_fwd(p@).unwrap()] + spec_ancestors(
                    spec_parent_fwd(p@).unwrap(),
                    (levels - 1) as nat,
                ));
            }
            rest
        },
        None => {
            let r: Vec<String> = Vec::new();
            proof {
                assert(r.deep_view() =~= spec_ancestors(p@, levels as nat));
            }
            r
        },
    }
}

/// The inferred project root: the nearest probed ancestor holding the
/// marker, normalized; else the working directory when it holds the
/// marker; else nothing. A heuristic, not a guarantee.
pub open spec fn spec_project_root(
    candidates: Seq<Seq<char>>,
    has_marker: Seq<bool>,
    cwd: Seq<char>,
    cwd_has_marker: bool,
) -> Option<Seq<char>> {
    match spec_first_flagged(candidates, has_marker) {
        Some(c) => Some(spec_normalize(c)),
        None => if cwd_has_marker {
            Some(spec_normalize(cwd))
        } else {
            None
        },
    }
}

/// Chooses the project root among the probed ancestors, with the working
/// directory as fallback, as `spec_project_root` describes.
pub fn choose_project_root(
    candidates: &Vec<String>,
    has_marker: &Vec<bool>,
    cwd: &str,
    cwd_has_marker: bool,
) -> (r: Option<String>)
    requires
        has_marker@.len() == candidates@.len(),
    ensures
        r.deep_view() == spec_project_root(
            candidates.deep_view(),
            has_marker@,
            cwd@,
            cwd_has_marker,
        ),
{
    match first_flagged(candidates, has_marker) {
        Some(c) => Some(normalize_path(c.as_str())),
        None => {
            if cwd_has_marker {
                Some(normalize_path(cwd))
            } else {
                None
            }
        },
    }
}

} // verus!
