use vstd::prelude::*;

use crate::purge::{deletion_of, deletions_of, failures_of, failures_upto, plan_of, removed_paths};
use crate::select::{
    DirEntryInfo, EntryKind, entry_kind, entry_path, entry_selected, scan_fails,
    selected_candidates,
};

verus! {

/// `c` is the candidate of some selected entry.
spec fn from_selected_entry(
    entries: Seq<DirEntryInfo>,
    now: int,
    ttl: int,
    c: (Seq<char>, EntryKind),
) -> bool {
    exists|i: int|
        0 <= i < entries.len() && #[trigger] entry_selected(entries[i], now, ttl) && c == (
            entry_path(entries[i]),
            entry_kind(entries[i]),
        )
}

/// `d` is the removal that some candidate calls for.
spec fn from_candidate(cs: Seq<(Seq<char>, EntryKind)>, d: (Seq<char>, bool)) -> bool {
    exists|j: int| 0 <= j < cs.len() && #[trigger] deletion_of(cs[j]) == Some(d)
}

/// Every candidate comes from a selected entry, and every selected entry
/// gives a candidate.
proof fn lemma_selected_members(entries: Seq<DirEntryInfo>, now: int, ttl: int)
    ensures
        forall|k: int|
            0 <= k < selected_candidates(entries, now, ttl).len() ==> from_selected_entry(
                entries,
                now,
                ttl,
                #[trigger] selected_candidates(entries, now, ttl)[k],
            ),
        forall|i: int|
            0 <= i < entries.len() && #[trigger] entry_selected(entries[i], now, ttl)
                ==> exists|k: int|
                0 <= k < selected_candidates(entries, now, ttl).len()
                    && #[trigger] selected_candidates(entries, now, ttl)[k] == (
                    entry_path(entries[i]),
                    entry_kind(entries[i]),
                ),
    decreases entries.len(),
{
    if entries.len() > 0 {
        let init = entries.drop_last();
        lemma_selected_members(init, now, ttl);
        let sc = selected_candidates(entries, now, ttl);
        let prev = selected_candidates(init, now, ttl);
        assert forall|k: int| 0 <= k < sc.len() implies from_selected_entry(
            entries,
            now,
            ttl,
            #[trigger] sc[k],
        ) by {
            if k < prev.len() {
                assert(from_selected_entry(init, now, ttl, prev[k]));
                let i = choose|i: int|
                    0 <= i < init.len() && #[trigger] entry_selected(init[i], now, ttl) && prev[k]
                        == (entry_path(init[i]), entry_kind(init[i]));
                assert(init[i] == entries[i]);
                assert(sc[k] == prev[k]);
            } else {
                assert(entry_selected(entries[entries.len() - 1], now, ttl));
            }
        }
        assert forall|i: int|
            0 <= i < entries.len() && #[trigger] entry_selected(entries[i], now, ttl) implies exists|
            k: int,
        |
            0 <= k < sc.len() && #[trigger] sc[k] == (entry_path(entries[i]), entry_kind(entries[i])) by {
            if i < init.len() {
                assert(init[i] == entries[i]);
                assert(entry_selected(init[i], now, ttl));
                let k = choose|k: int|
                    0 <= k < prev.len() && #[trigger] prev[k] == (
                        entry_path(init[i]),
                        entry_kind(init[i]),
                    );
                assert(sc[k] == prev[k]);
            } else {
                assert(sc[sc.len() - 1] == (entry_path(entries[i]), entry_kind(entries[i])));
            }
        }
    }
}

/// Every removal comes from a candidate, and every candidate that calls for a
/// removal gets one.
proof fn lemma_deletion_members(cs: Seq<(Seq<char>, EntryKind)>)
    ensures
        forall|k: int|
            0 <= k < deletions_of(cs).len() ==> from_candidate(cs, #[trigger] deletions_of(cs)[k]),
        forall|j: int|
            0 <= j < cs.len() && (#[trigger] deletion_of(cs[j])) is Some ==> exists|k: int|
                0 <= k < deletions_of(cs).len() && Some(#[trigger] deletions_of(cs)[k])
                    == deletion_of(cs[j]),
    decreases cs.len(),
{
    if cs.len() > 0 {
        let init = cs.drop_last();
        lemma_deletion_members(init);
        let ds = deletions_of(cs);
        let prev = deletions_of(init);
        assert forall|k: int| 0 <= k < ds.len() implies from_candidate(cs, #[trigger] ds[k]) by {
            if k < prev.len() {
                assert(from_candidate(init, prev[k]));
                let j = choose|j: int|
                    0 <= j < init.len() && #[trigger] deletion_of(init[j]) == Some(prev[k]);
                assert(init[j] == cs[j]);
                assert(ds[k] == prev[k]);
            } else {
                assert(deletion_of(cs[cs.len() - 1]) == Some(ds[k]));
            }
        }
        assert forall|j: int| 0 <= j < cs.len() && (#[trigger] deletion_of(cs[j])) is Some implies exists|
            k: int,
        | 0 <= k < ds.len() && Some(#[trigger] ds[k]) == deletion_of(cs[j]) by {
            if j < init.len() {
                assert(init[j] == cs[j]);
                assert(deletion_of(init[j]) is Some);
                let k = choose|k: int|
                    0 <= k < prev.len() && Some(#[trigger] prev[k]) == deletion_of(init[j]);
                assert(ds[k] == prev[k]);
            } else {
                assert(Some(ds[ds.len() - 1]) == deletion_of(cs[j]));
            }
        }
    }
}

/// Each failed removal among the first `n` is reported with its reason.
proof fn lemma_failures_cover(
    ds: Seq<(Seq<char>, bool)>,
    outcomes: Seq<Result<(), String>>,
    n: nat,
)
    requires
        n <= ds.len(),
        n <= outcomes.len(),
    ensures
        forall|i: int|
            0 <= i < n && (#[trigger] outcomes[i]) is Err ==> failures_upto(
                ds,
                outcomes,
                n,
            ).contains((ds[i].0, outcomes[i]->Err_0@)),
    decreases n,
{
    if n > 0 {
        lemma_failures_cover(ds, outcomes, (n - 1) as nat);
        let prev = failures_upto(ds, outcomes, (n - 1) as nat);
        let fs = failures_upto(ds, outcomes, n);
        assert forall|i: int| 0 <= i < n && (#[trigger] outcomes[i]) is Err implies fs.contains(
            (ds[i].0, outcomes[i]->Err_0@),
        ) by {
            if i < n - 1 {
                let k = choose|k: int|
                    0 <= k < prev.len() && prev[k] == (ds[i].0, outcomes[i]->Err_0@);
                assert(fs[k] == prev[k]);
            } else {
                assert(fs[fs.len() - 1] == (ds[i].0, outcomes[i]->Err_0@));
            }
        }
    }
}

/// A dry run removes nothing and reports no failure, whatever is handed back
/// as outcomes: the directory stays as it was, so every later scan at the same
/// instant lists the same candidates.
pub proof fn lemma_dry_run_changes_nothing(
    entries: Seq<DirEntryInfo>,
    now: int,
    ttl: int,
    outcomes: Seq<Result<(), String>>,
)
    ensures
        plan_of(selected_candidates(entries, now, ttl), true) == Seq::<(Seq<char>, bool)>::empty(),
        removed_paths(plan_of(selected_candidates(entries, now, ttl), true), outcomes)
            == Set::<Seq<char>>::empty(),
        failures_of(plan_of(selected_candidates(entries, now, ttl), true), outcomes)
            == Seq::<(Seq<char>, Seq<char>)>::empty(),
{
    let ds = plan_of(selected_candidates(entries, now, ttl), true);
    assert(removed_paths(ds, outcomes) =~= Set::<Seq<char>>::empty());
}

/// After a live run in which no removal failed, every selected entry is gone,
/// and no removal touched an entry that was not selected.
///
/// Entries of a kind other than file or directory are left in place by design,
/// so the law speaks of directories whose selected entries are files or
/// directories.
pub proof fn lemma_live_run_removes_all_candidates(
    entries: Seq<DirEntryInfo>,
    now: int,
    ttl: int,
    outcomes: Seq<Result<(), String>>,
)
    requires
        !scan_fails(entries, now, ttl),
        outcomes.len() == plan_of(selected_candidates(entries, now, ttl), false).len(),
        forall|i: int| 0 <= i < outcomes.len() ==> (#[trigger] outcomes[i]) is Ok,
        forall|i: int, j: int|
            0 <= i < entries.len() && 0 <= j < entries.len() && i != j && entries[i].path is Some
                && entries[j].path is Some ==> entry_path(#[trigger] entries[i]) != entry_path(
                #[trigger] entries[j],
            ),
        forall|i: int|
            0 <= i < entries.len() && #[trigger] entry_selected(entries[i], now, ttl)
                ==> entry_kind(entries[i]) != EntryKind::Other,
    ensures
        forall|i: int|
            0 <= i < entries.len() && #[trigger] entry_selected(entries[i], now, ttl)
                ==> removed_paths(
                plan_of(selected_candidates(entries, now, ttl), false),
                outcomes,
            ).contains(entry_path(entries[i])),
        forall|i: int, k: int|
            0 <= i < entries.len() && !entry_selected(entries[i], now, ttl)
                && entries[i].path is Some && 0 <= k < plan_of(
                selected_candidates(entries, now, ttl),
                false,
            ).len() ==> (#[trigger] plan_of(selected_candidates(entries, now, ttl), false)[k]).0
                != entry_path(#[trigger] entries[i]),
{
    let cs = selected_candidates(entries, now, ttl);
    let ds = plan_of(cs, false);
    lemma_selected_members(entries, now, ttl);
    lemma_deletion_members(cs);
    assert forall|i: int|
        0 <= i < entries.len() && #[trigger] entry_selected(entries[i], now, ttl) implies removed_paths(
        ds,
        outcomes,
    ).contains(entry_path(entries[i])) by {
        let j = choose|j: int|
            0 <= j < cs.len() && #[trigger] cs[j] == (entry_path(entries[i]), entry_kind(entries[i]));
        assert(deletion_of(cs[j]) is Some);
        let k = choose|k: int| 0 <= k < ds.len() && Some(#[trigger] ds[k]) == deletion_of(cs[j]);
        assert(outcomes[k] is Ok);
    }
    assert forall|i: int, k: int|
        0 <= i < entries.len() && !entry_selected(entries[i], now, ttl) && entries[i].path is Some
            && 0 <= k < ds.len() implies (#[trigger] ds[k]).0 != entry_path(#[trigger] entries[i]) by {
        assert(from_candidate(cs, ds[k]));
        let j = choose|j: int| 0 <= j < cs.len() && #[trigger] deletion_of(cs[j]) == Some(ds[k]);
        assert(from_selected_entry(entries, now, ttl, cs[j]));
        let m = choose|m: int|
            0 <= m < entries.len() && #[trigger] entry_selected(entries[m], now, ttl) && cs[j] == (
                entry_path(entries[m]),
                entry_kind(entries[m]),
            );
        assert(entries[m].path is Some);
    }
}

/// A failed removal does not stop the batch: every other removal that
/// succeeded took its path away, and the failed one is in the report with its
/// reason.
pub proof fn lemma_batch_not_aborted(
    ds: Seq<(Seq<char>, bool)>,
    outcomes: Seq<Result<(), String>>,
    a: int,
    b: int,
)
    requires
        outcomes.len() == ds.len(),
        0 <= a < ds.len(),
        0 <= b < ds.len(),
        outcomes[a] is Err,
        outcomes[b] is Ok,
    ensures
        removed_paths(ds, outcomes).contains(ds[b].0),
        failures_of(ds, outcomes).contains((ds[a].0, outcomes[a]->Err_0@)),
{
    lemma_failures_cover(ds, outcomes, ds.len());
    assert(outcomes[a] is Err);
}

} // verus!
