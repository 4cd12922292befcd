//! The propagator: collects the distinct project roots known to the
//! registry and plans, per root, whether its build configuration is
//! regenerated or why it is skipped. One root's outcome never depends on
//! another root's state.

use vstd::prelude::*;
use crate::paths::loose_key;
use crate::paths::loose_eq;
use crate::registry::DevConfig;
use crate::registry::DevConfigView;
use crate::registry::EntryView;

verus! {

/// Whether the list already holds a loosely equal path (case- and
/// separator-insensitive).
pub open spec fn contains_loose(acc: Seq<Seq<char>>, r: Seq<char>) -> bool {
    exists|i: int| 0 <= i < acc.len() && loose_key(acc[i]) == loose_key(r)
}

/// One step of the root-collection fold: append the entry's project root
/// unless a loosely equal one is already present.
pub open spec fn roots_step(acc: Seq<Seq<char>>, e: EntryView) -> Seq<Seq<char>> {
    match e.config.root {
        Some(r) => if contains_loose(acc, r) {
            acc
        } else {
            acc.push(r)
        },
        None => acc,
    }
}

/// The root-collection fold over the remaining entries.
pub open spec fn roots_tail(entries: Seq<EntryView>, acc: Seq<Seq<char>>) -> Seq<Seq<char>>
    decreases entries.len(),
{
    if entries.len() == 0 {
        acc
    } else {
        roots_tail(entries.skip(1), roots_step(acc, entries[0]))
    }
}

/// The distinct project roots across all components, in first-seen order,
/// compared case- and separator-insensitively.
pub open spec fn spec_roots(cfg: DevConfigView) -> Seq<Seq<char>> {
    roots_tail(cfg.components, Seq::empty())
}

/// Whether the vector holds a loosely equal string.
fn vec_contains_loose(v: &Vec<String>, s: &str) -> (r: bool)
    ensures
        r == contains_loose(v.deep_view(), s@),
{
    let mut i: usize = 0;
    while i < v.len()
        invariant
            i <= v@.len(),
            forall|j: int| 0 <= j < i ==> loose_key(v.deep_view()[j]) != loose_key(s@),
        decreases v@.len() - i,
    {
        if loose_eq(v[i].as_str(), s) {
            proof {
                assert(loose_key(v.deep_view()[i as int]) == loose_key(s@));
            }
            return true;
        }
        i += 1;
    }
    proof {
        if contains_loose(v.deep_view(), s@) {
            let j = choose|j: int|
                0 <= j < v.deep_view().len() && loose_key(v.deep_view()[j]) == loose_key(s@);
        }
    }
    false
}

/// Collects the distinct project roots of the registry, as `spec_roots`
/// describes: order-preserving, de-duplicated case- and
/// separator-insensitively.
pub fn collect_roots(cfg: &DevConfig) -> (r: Vec<String>)
    ensures
        r.deep_view() == spec_roots(cfg@),
{
    let mut acc: Vec<String> = Vec::new();
    proof {
        assert(acc.deep_view() =~= Seq::<Seq<char>>::empty());
        assert(cfg@.components.skip(0) =~= cfg@.components);
    }
    let n = cfg.components.len();
    let mut i: usize = 0;
    while i < n
        invariant
            i <= n,
            n == cfg.components@.len(),
            roots_tail(cfg@.components.skip(i as int), acc.deep_view()) == roots_tail(
                cfg@.components,
                Seq::empty(),
            ),
        decreases n - i,
    {
        let ghost pre = acc.deep_view();
        let ghost ev = cfg@.components[i as int];
        let e = &cfg.components[i];
        match &e.config.root {
            Some(root) => {
                if !vec_contains_loose(&acc, root.as_str()) {
                    acc.push(root.clone());
                    proof {
                        assert(acc.deep_view() =~= pre.push(ev.config.root.unwrap()));
                    }
                }
            },
            None => {},
        }
        proof {
            assert(acc.deep_view() == roots_step(pre, ev));
            assert(cfg@.components.skip(i as int).skip(1) =~= cfg@.components.skip(i as int + 1));
            assert(cfg@.components.skip(i as int)[0] == ev);
        }
        i += 1;
    }
    proof {
        assert(cfg@.components.skip(n as int) =~= Seq::<EntryView>::empty());
    }
    acc
}

/// No two strings of the list are loosely equal.
pub open spec fn pairwise_loose_distinct(s: Seq<Seq<char>>) -> bool {
    forall|i: int, j: int|
        0 <= i < j < s.len() ==> loose_key(#[trigger] s[i]) != loose_key(#[trigger] s[j])
}

/// The root-collection fold keeps the list free of loose duplicates.
proof fn lemma_roots_tail_distinct(entries: Seq<EntryView>, acc: Seq<Seq<char>>)
    requires
        pairwise_loose_distinct(acc),
    ensures
        pairwise_loose_distinct(roots_tail(entries, acc)),
    decreases entries.len(),
{
    if entries.len() == 0 {
    } else {
        let acc2 = roots_step(acc, entries[0]);
        assert(pairwise_loose_distinct(acc2)) by {
            match entries[0].config.root {
                Some(r) => {
                    if !contains_loose(acc, r) {
                        assert forall|i: int, j: int|
                            0 <= i < j < acc.push(r).len() implies loose_key(
                            #[trigger] acc.push(r)[i],
                        ) != loose_key(#[trigger] acc.push(r)[j]) by {
                            if j == acc.len() {
                                assert(acc.push(r)[i] == acc[i]);
                                assert(acc.push(r)[j] == r);
                            }
                        }
                    }
                },
                None => {},
            }
        }
        lemma_roots_tail_distinct(entries.skip(1), acc2);
    }
}

/// The collected project roots are distinct: no two compare equal once
/// separators and ASCII case are folded away.
pub proof fn lemma_roots_distinct(cfg: DevConfigView)
    ensures
        pairwise_loose_distinct(spec_roots(cfg)),
{
    lemma_roots_tail_distinct(cfg.components, Seq::empty());
}

/// What the propagator does for one project root.
#[derive(Clone, Copy, Debug, PartialEq, Eq, Structural)]
pub enum RootAction {
    /// The root directory no longer exists; it is reported and skipped.
    SkipMissing,
    /// The directory has no build-description file; it is reported and
    /// skipped.
    SkipNoProject,
    /// The root's build configuration is regenerated.
    Generate,
}

/// The action for one root, decided by that root's own state alone.
pub open spec fn spec_root_action(dir_exists: bool, has_marker: bool) -> RootAction {
    if !dir_exists {
        RootAction::SkipMissing
    } else if !has_marker {
        RootAction::SkipNoProject
    } else {
        RootAction::Generate
    }
}

/// Plans the propagation pass: every root receives an outcome, and each
/// outcome is a function of that root's own probes alone, so one missing
/// or failing root can never abort or change the treatment of the others.
pub fn propagation_plan(roots: &Vec<String>, dir_exists: &Vec<bool>, has_marker: &Vec<bool>) -> (r:
    Vec<RootAction>)
    requires
        dir_exists@.len() == roots@.len(),
        has_marker@.len() == roots@.len(),
    ensures
        r@.len() == roots@.len(),
        forall|i: int|
            0 <= i < r@.len() ==> r@[i] == spec_root_action(dir_exists@[i], has_marker@[i]),
{
    let mut r: Vec<RootAction> = Vec::new();
    let n = roots.len();
    let mut i: usize = 0;
    while i < n
        invariant
            i <= n,
            n == roots@.len(),
            dir_exists@.len() == n,
            has_marker@.len() == n,
            r@.len() == i,
            forall|j: int|
                0 <= j < i ==> r@[j] == spec_root_action(dir_exists@[j], has_marker@[j]),
        decreases n - i,
    {
        if !dir_exists[i] {
            r.push(RootAction::SkipMissing);
        } else if !has_marker[i] {
            r.push(RootAction::SkipNoProject);
        } else {
            r.push(RootAction::Generate);
        }
        i += 1;
    }
    r
}

} // verus!
