use vstd::prelude::*;
use vstd::string::StringExecFns;

use crate::select::{Candidate, EntryKind, candidates_view};

verus! {

/// One removal to perform: the path, and whether it is removed with all its contents.
pub struct Deletion {
    pub path: String,
    pub recursive: bool,
}

impl View for Deletion {
    type V = (Seq<char>, bool);

    open spec fn view(&self) -> (Seq<char>, bool) {
        (self.path@, self.recursive)
    }
}

/// A removal that failed, with the reason the filesystem gave.
pub struct DeletionFailure {
    pub path: String,
    pub reason: String,
}

impl View for DeletionFailure {
    type V = (Seq<char>, Seq<char>);

    open spec fn view(&self) -> (Seq<char>, Seq<char>) {
        (self.path@, self.reason@)
    }
}

/// The result of one run: the listing of every candidate and the failed removals.
pub struct PurgeReport {
    pub listing: String,
    pub failures: Vec<DeletionFailure>,
}

/// The separator placed between the items of a listing.
pub open spec fn separator() -> Seq<char> {
    seq![',', ' ']
}

/// The items of `parts` written one after the other, separated by `", "`.
pub open spec fn joined(parts: Seq<Seq<char>>) -> Seq<char>
    decreases parts.len(),
{
    if parts.len() == 0 {
        Seq::empty()
    } else if parts.len() == 1 {
        parts[0]
    } else {
        joined(parts.drop_last()) + separator() + parts.last()
    }
}

/// The removal that a candidate calls for: recursive for a directory, plain
/// for a file, none for any other kind of entry.
pub open spec fn deletion_of(c: (Seq<char>, EntryKind)) -> Option<(Seq<char>, bool)> {
    match c.1 {
        EntryKind::File => Some((c.0, false)),
        EntryKind::Directory => Some((c.0, true)),
        EntryKind::Other => None,
    }
}

/// The removals that the candidates call for, in their order.
pub open spec fn deletions_of(cs: Seq<(Seq<char>, EntryKind)>) -> Seq<(Seq<char>, bool)>
    decreases cs.len(),
{
    if cs.len() == 0 {
        Seq::empty()
    } else {
        let prev = deletions_of(cs.drop_last());
        match deletion_of(cs.last()) {
            Some(d) => prev.push(d),
            None => prev,
        }
    }
}

/// The removals of a run: none in a dry run, else one per file or directory.
pub open spec fn plan_of(cs: Seq<(Seq<char>, EntryKind)>, dry_run: bool) -> Seq<(Seq<char>, bool)> {
    if dry_run {
        Seq::empty()
    } else {
        deletions_of(cs)
    }
}

/// The views of a sequence of removals.
pub open spec fn deletions_view(ds: Seq<Deletion>) -> Seq<(Seq<char>, bool)> {
    ds.map_values(|d: Deletion| d@)
}

/// The views of a sequence of failures.
pub open spec fn failures_view(fs: Seq<DeletionFailure>) -> Seq<(Seq<char>, Seq<char>)> {
    fs.map_values(|f: DeletionFailure| f@)
}

/// The failures among the first `n` removals, each with the reason its outcome gave.
pub open spec fn failures_upto(
    ds: Seq<(Seq<char>, bool)>,
    outcomes: Seq<Result<(), String>>,
    n: nat,
) -> Seq<(Seq<char>, Seq<char>)>
    decreases n,
{
    if n == 0 {
        Seq::empty()
    } else {
        let prev = failures_upto(ds, outcomes, (n - 1) as nat);
        match outcomes[n - 1] {
            Ok(_) => prev,
            Err(reason) => prev.push((ds[n - 1].0, reason@)),
        }
    }
}

/// The failures of a batch of removals, in the order they were attempted.
pub open spec fn failures_of(ds: Seq<(Seq<char>, bool)>, outcomes: Seq<Result<(), String>>) -> Seq<
    (Seq<char>, Seq<char>),
> {
    failures_upto(ds, outcomes, ds.len())
}

/// The paths that a batch of removals took away: those whose removal succeeded.
pub open spec fn removed_paths(
    ds: Seq<(Seq<char>, bool)>,
    outcomes: Seq<Result<(), String>>,
) -> Set<Seq<char>> {
    Set::new(
        |p: Seq<char>|
            exists|i: int|
                0 <= i < ds.len() && i < outcomes.len() && #[trigger] outcomes[i] is Ok && ds[i].0
                    == p,
    )
}

/// Writes the items of `parts` one after the other, separated by `", "`.
pub fn join_parts(parts: &Vec<String>) -> (r: String)
    ensures
        r@ == joined(parts@.map_values(|p: String| p@)),
{
    let ghost views = parts@.map_values(|p: String| p@);
    let mut out = String::new();
    let mut i: usize = 0;
    while i < parts.len()
        invariant
            i <= parts.len(),
            views == parts@.map_values(|p: String| p@),
            out@ == joined(views.subrange(0, i as int)),
        decreases parts.len() - i,
    {
        proof {
            reveal_strlit(", ");
        }
        assert(views.subrange(0, i + 1).drop_last() =~= views.subrange(0, i as int));
        if i > 0 {
            out.append(", ");
        }
        out.append(parts[i].as_str());
        i += 1;
    }
    assert(views.subrange(0, parts.len() as int) =~= views);
    out
}

/// The removals that a run performs on the candidates: none when `dry_run`
/// holds, else a recursive one for each directory and a plain one for each
/// file, in the candidates' order; other kinds of entries are left alone.
pub fn plan_deletions(candidates: &Vec<Candidate>, dry_run: bool) -> (r: Vec<Deletion>)
    ensures
        deletions_view(r@) == plan_of(candidates_view(candidates@), dry_run),
{
    let mut out: Vec<Deletion> = Vec::new();
    if dry_run {
        assert(deletions_view(out@) =~= Seq::empty());
        return out;
    }
    let ghost cs = candidates_view(candidates@);
    let mut i: usize = 0;
    while i < candidates.len()
        invariant
            i <= candidates.len(),
            cs == candidates_view(candidates@),
            deletions_view(out@) == deletions_of(cs.subrange(0, i as int)),
        decreases candidates.len() - i,
    {
        let c = &candidates[i];
        assert(cs.subrange(0, i + 1).drop_last() =~= cs.subrange(0, i as int));
        assert(cs.subrange(0, i + 1).last() == c@);
        let ghost before = out@;
        match c.kind {
            EntryKind::File => {
                out.push(Deletion { path: c.path.clone(), recursive: false });
                assert(deletions_view(out@) =~= deletions_view(before).push((c.path@, false)));
            },
            EntryKind::Directory => {
                out.push(Deletion { path: c.path.clone(), recursive: true });
                assert(deletions_view(out@) =~= deletions_view(before).push((c.path@, true)));
            },
            EntryKind::Other => {},
        }
        i += 1;
    }
    assert(cs.subrange(0, candidates.len() as int) =~= cs);
    out
}

/// Gathers, after every removal was attempted, those that failed, each with
/// the reason its outcome gave, in the order they were attempted.
pub fn collect_failures(deletions: &Vec<Deletion>, outcomes: &Vec<Result<(), String>>) -> (r: Vec<
    DeletionFailure,
>)
    requires
        outcomes.len() == deletions.len(),
    ensures
        failures_view(r@) == failures_of(deletions_view(deletions@), outcomes@),
{
    let ghost ds = deletions_view(deletions@);
    let mut out: Vec<DeletionFailure> = Vec::new();
    let mut i: usize = 0;
    while i < deletions.len()
        invariant
            i <= deletions.len(),
            outcomes.len() == deletions.len(),
            ds == deletions_view(deletions@),
            failures_view(out@) == failures_upto(ds, outcomes@, i as nat),
        decreases deletions.len() - i,
    {
        let ghost before = out@;
        match &outcomes[i] {
            Ok(_) => {},
            Err(reason) => {
                out.push(DeletionFailure { path: deletions[i].path.clone(), reason: reason.clone() });
                assert(failures_view(out@) =~= failures_view(before).push(
                    (ds[i as int].0, reason@),
                ));
            },
        }
        i += 1;
    }
    out
}

/// The listing of the candidates' paths, separated by `", "`.
pub fn candidate_listing(candidates: &Vec<Candidate>) -> (r: String)
    ensures
        r@ == joined(candidates_view(candidates@).map_values(|c: (Seq<char>, EntryKind)| c.0)),
{
    let mut parts: Vec<String> = Vec::new();
    let mut i: usize = 0;
    while i < candidates.len()
        invariant
            i <= candidates.len(),
            parts.len() == i,
            forall|k: int| 0 <= k < i ==> #[trigger] parts@[k]@ == candidates@[k].path@,
        decreases candidates.len() - i,
    {
        parts.push(candidates[i].path.clone());
        i += 1;
    }
    assert(parts@.map_values(|p: String| p@) =~= candidates_view(candidates@).map_values(
        |c: (Seq<char>, EntryKind)| c.0,
    ));
    join_parts(&parts)
}

/// The text of one failure: its path, `": "`, and the reason.
pub open spec fn failure_text(f: (Seq<char>, Seq<char>)) -> Seq<char> {
    f.0 + seq![':', ' '] + f.1
}

/// The listing of failed removals, each as `path: reason`, separated by `", "`.
pub fn failure_listing(failures: &Vec<DeletionFailure>) -> (r: String)
    ensures
        r@ == joined(failures_view(failures@).map_values(|f: (Seq<char>, Seq<char>)| failure_text(f))),
{
    let mut parts: Vec<String> = Vec::new();
    let mut i: usize = 0;
    while i < failures.len()
        invariant
            i <= failures.len(),
            parts.len() == i,
            forall|k: int| 0 <= k < i ==> #[trigger] parts@[k]@ == failure_text(failures@[k]@),
        decreases failures.len() - i,
    {
        proof {
            reveal_strlit(": ");
        }
        let f = &failures[i];
        let text = f.path.clone().concat(": ").concat(f.reason.as_str());
        parts.push(text);
        i += 1;
    }
    assert(parts@.map_values(|p: String| p@) =~= failures_view(failures@).map_values(
        |f: (Seq<char>, Seq<char>)| failure_text(f),
    ));
    join_parts(&parts)
}

/// The report of a run: the listing of every candidate, and the failures among
/// the removals once each of them has been attempted.
pub fn build_report(
    candidates: &Vec<Candidate>,
    deletions: &Vec<Deletion>,
    outcomes: &Vec<Result<(), String>>,
) -> (r: PurgeReport)
    requires
        outcomes.len() == deletions.len(),
    ensures
        r.listing@ == joined(
            candidates_view(candidates@).map_values(|c: (Seq<char>, EntryKind)| c.0),
        ),
        failures_view(r.failures@) == failures_of(deletions_view(deletions@), outcomes@),
{
    PurgeReport {
        listing: candidate_listing(candidates),
        failures: collect_failures(deletions, outcomes),
    }
}

} // verus!
