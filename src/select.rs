use vstd::prelude::*;

verus! {

/// What an entry is, as its metadata tells.
#[derive(Clone, Copy, Debug, PartialEq, Eq, Structural)]
pub enum EntryKind {
    File,
    Directory,
    Other,
}

/// Whole milliseconds elapsed between two instants given in nanoseconds,
/// when `created` is not after `now`.
pub open spec fn age_millis(now: int, created: int) -> int {
    (now - created) / 1_000_000
}

/// An entry created at `created` is past a threshold of `ttl` milliseconds at `now`.
pub open spec fn past_threshold(now: int, created: int, ttl: int) -> bool {
    created <= now && age_millis(now, created) > ttl
}

/// Decides from one instant of creation whether the entry is older than `ttl`
/// milliseconds at `now` (both instants in nanoseconds from a common origin).
pub fn is_past_threshold(now: i128, created: i128, ttl: usize) -> (r: bool)
    ensures
        r == past_threshold(now as int, created as int, ttl as int),
{
    if created > now {
        return false;
    }
    match now.checked_sub(created) {
        Some(age) => {
            (age / 1_000_000) as u128 > ttl as u128
        },
        None => {
            assert(age_millis(now as int, created as int) > ttl as int);
            true
        },
    }
}

/// The metadata of one entry, as far as it could be read.
pub struct EntryMetadata {
    pub kind: EntryKind,
    /// Instant of creation in nanoseconds from the Unix epoch (negative
    /// before it), or `None` when the platform cannot supply one.
    pub created: Option<i128>,
}

/// One immediate entry of the scanned directory.
pub struct DirEntryInfo {
    /// The entry's path as text, or `None` when it cannot be represented as text.
    pub path: Option<String>,
    /// The entry's metadata, or `None` when it could not be read.
    pub metadata: Option<EntryMetadata>,
}

/// An entry chosen for deletion: its path and what kind of entry it is.
pub struct Candidate {
    pub path: String,
    pub kind: EntryKind,
}

impl View for Candidate {
    type V = (Seq<char>, EntryKind);

    open spec fn view(&self) -> (Seq<char>, EntryKind) {
        (self.path@, self.kind)
    }
}

/// Why a scan gave no result.
#[derive(Clone, Copy, Debug, PartialEq, Eq, Structural)]
pub enum ScanError {
    /// A selected entry's path cannot be represented as text, so the
    /// candidate list would be incomplete.
    PathNotText,
}

/// An entry is selected when its metadata and its creation time were read and
/// its age at `now` is strictly more than `ttl` milliseconds.
pub open spec fn entry_selected(e: DirEntryInfo, now: int, ttl: int) -> bool {
    match e.metadata {
        Some(m) => match m.created {
            Some(c) => past_threshold(now, c as int, ttl),
            None => false,
        },
        None => false,
    }
}

/// The kind recorded in a selected entry's metadata.
pub open spec fn entry_kind(e: DirEntryInfo) -> EntryKind {
    match e.metadata {
        Some(m) => m.kind,
        None => EntryKind::Other,
    }
}

/// The text of an entry's path (empty when it has none).
pub open spec fn entry_path(e: DirEntryInfo) -> Seq<char> {
    match e.path {
        Some(p) => p@,
        None => Seq::empty(),
    }
}

/// The candidates, in enumeration order, that a scan of `entries` selects.
pub open spec fn selected_candidates(entries: Seq<DirEntryInfo>, now: int, ttl: int) -> Seq<
    (Seq<char>, EntryKind),
>
    decreases entries.len(),
{
    if entries.len() == 0 {
        Seq::empty()
    } else {
        let prev = selected_candidates(entries.drop_last(), now, ttl);
        let e = entries.last();
        if entry_selected(e, now, ttl) {
            prev.push((entry_path(e), entry_kind(e)))
        } else {
            prev
        }
    }
}

/// A scan fails when some selected entry has no textual path.
pub open spec fn scan_fails(entries: Seq<DirEntryInfo>, now: int, ttl: int) -> bool {
    exists|i: int|
        0 <= i < entries.len() && #[trigger] entry_selected(entries[i], now, ttl)
            && entries[i].path is None
}

/// The views of a sequence of candidates.
pub open spec fn candidates_view(cs: Seq<Candidate>) -> Seq<(Seq<char>, EntryKind)> {
    cs.map_values(|c: Candidate| c@)
}

/// Decides whether one entry is a candidate at `now` for a threshold of `ttl` milliseconds.
pub fn is_candidate(entry: &DirEntryInfo, now: i128, ttl: usize) -> (r: bool)
    ensures
        r == entry_selected(*entry, now as int, ttl as int),
{
    match &entry.metadata {
        Some(m) => match m.created {
            Some(c) => is_past_threshold(now, c, ttl),
            None => false,
        },
        None => false,
    }
}

/// Selects, among the entries of a directory read at the single instant `now`,
/// those older than `ttl` milliseconds, keeping their order.
pub fn select(entries: &Vec<DirEntryInfo>, now: i128, ttl: usize) -> (r: Result<
    Vec<Candidate>,
    ScanError,
>)
    ensures
        r is Err <==> scan_fails(entries@, now as int, ttl as int),
        r matches Ok(v) ==> candidates_view(v@) == selected_candidates(
            entries@,
            now as int,
            ttl as int,
        ),
        r matches Err(e) ==> e == ScanError::PathNotText,
{
    let mut out: Vec<Candidate> = Vec::new();
    let mut i: usize = 0;
    while i < entries.len()
        invariant
            i <= entries.len(),
            candidates_view(out@) == selected_candidates(
                entries@.subrange(0, i as int),
                now as int,
                ttl as int,
            ),
            !scan_fails(entries@.subrange(0, i as int), now as int, ttl as int),
        decreases entries.len() - i,
    {
        let e = &entries[i];
        let ghost prefix = entries@.subrange(0, i as int);
        let ghost next = entries@.subrange(0, i + 1);
        assert(next.drop_last() =~= prefix);
        if is_candidate(e, now, ttl) {
            match &e.path {
                Some(p) => {
                    let kind = match &e.metadata {
                        Some(m) => m.kind,
                        None => EntryKind::Other,
                    };
                    let ghost before = out@;
                    out.push(Candidate { path: p.clone(), kind });
                    assert(candidates_view(out@) =~= candidates_view(before).push(
                        (entry_path(*e), entry_kind(*e)),
                    ));
                },
                None => {
                    assert(entry_selected(entries@[i as int], now as int, ttl as int));
                    return Err(ScanError::PathNotText);
                },
            }
        }
        assert forall|j: int|
            0 <= j < next.len() && #[trigger] entry_selected(next[j], now as int, ttl as int)
                implies next[j].path is Some by {
            if j < i {
                assert(next[j] == prefix[j]);
            }
        }
        i += 1;
    }
    assert(entries@.subrange(0, entries.len() as int) =~= entries@);
    Ok(out)
}

/// Threshold strictness: an entry whose age is exactly `ttl` whole
/// milliseconds is never selected, and one whose age is `ttl + 1` is.
pub proof fn lemma_threshold_is_strict(e: DirEntryInfo, created: int, now: int, ttl: int)
    requires
        e.metadata matches Some(m) && m.created matches Some(c) && c == created,
        0 <= ttl,
    ensures
        age_millis(now, created) == ttl ==> !entry_selected(e, now, ttl),
        age_millis(now, created) == ttl + 1 ==> entry_selected(e, now, ttl),
{
}

/// An entry whose metadata cannot be read is left out of the candidates, and
/// the scan of the remaining entries goes on as if it were not there.
pub proof fn lemma_unreadable_entry_excluded(
    entries: Seq<DirEntryInfo>,
    i: int,
    now: int,
    ttl: int,
)
    requires
        0 <= i < entries.len(),
        entries[i].metadata is None,
    ensures
        selected_candidates(entries, now, ttl) == selected_candidates(entries.remove(i), now, ttl),
        scan_fails(entries, now, ttl) == scan_fails(entries.remove(i), now, ttl),
    decreases entries.len(),
{
    let r = entries.remove(i);
    if i == entries.len() - 1 {
        assert(r =~= entries.drop_last());
    } else {
        assert(r.drop_last() =~= entries.drop_last().remove(i));
        assert(r.last() == entries.last());
        lemma_unreadable_entry_excluded(entries.drop_last(), i, now, ttl);
    }
    if scan_fails(entries, now, ttl) {
        let j = choose|j: int|
            0 <= j < entries.len() && #[trigger] entry_selected(entries[j], now, ttl)
                && entries[j].path is None;
        let k = if j < i { j } else { j - 1 };
        assert(r[k] == entries[j]);
    }
    if scan_fails(r, now, ttl) {
        let k = choose|k: int|
            0 <= k < r.len() && #[trigger] entry_selected(r[k], now, ttl) && r[k].path is None;
        let j = if k < i { k } else { k + 1 };
        assert(r[k] == entries[j]);
    }
}

} // verus!
