//! Storage reclamation: files referenced only by completed units of work
//! are deleted, and the completed units stop referencing them.
use vstd::prelude::*;
use crate::index::{deleted_paths, is_listed, kept_after_delete, listed, FileEntry, FileIndex};
use crate::text::same_text;

verus! {

/// Where a unit of work stands.
#[derive(Clone, Copy, Debug, PartialEq, Eq, Structural)]
pub enum UnitStatus {
    Pending,
    Processing,
    Completed,
}

/// The stored name of each unit status.
pub open spec fn unit_status_name(s: UnitStatus) -> Seq<char> {
    match s {
        UnitStatus::Pending => "Pending"@,
        UnitStatus::Processing => "Processing"@,
        UnitStatus::Completed => "Completed"@,
    }
}

impl UnitStatus {
    /// The name under which the status is stored.
    pub fn as_str(&self) -> (r: &'static str)
        ensures
            r@ == unit_status_name(*self),
    {
        match self {
            UnitStatus::Pending => "Pending",
            UnitStatus::Processing => "Processing",
            UnitStatus::Completed => "Completed",
        }
    }

    /// Reads a stored status name; any other text is refused.
    pub fn parse(s: &str) -> (r: Option<UnitStatus>)
        ensures
            r is Some ==> unit_status_name(r->Some_0) == s@,
            r is None ==> forall|u: UnitStatus| unit_status_name(u) != s@,
    {
        if same_text(s, "Pending") {
            Some(UnitStatus::Pending)
        } else if same_text(s, "Processing") {
            Some(UnitStatus::Processing)
        } else if same_text(s, "Completed") {
            Some(UnitStatus::Completed)
        } else {
            None
        }
    }
}

/// A named group of files with a common processing goal.
pub struct UnitOfWork {
    pub id: i64,
    pub name: String,
    pub status: UnitStatus,
    pub file_ids: Vec<String>,
    pub file_count: u64,
}

/// Whether some unit that is not completed references file `id`.
pub open spec fn referenced_by_active(units: Seq<UnitOfWork>, id: Seq<char>) -> bool {
    exists|k: int|
        0 <= k < units.len() && (#[trigger] units[k]).status != UnitStatus::Completed && listed(
            units[k].file_ids@,
            id,
        )
}

/// Whether some completed unit references file `id`.
pub open spec fn referenced_by_completed(units: Seq<UnitOfWork>, id: Seq<char>) -> bool {
    exists|k: int|
        0 <= k < units.len() && (#[trigger] units[k]).status == UnitStatus::Completed && listed(
            units[k].file_ids@,
            id,
        )
}

/// A file that completed units reference and no other unit does.
pub open spec fn reclaimable_id(units: Seq<UnitOfWork>, id: Seq<char>) -> bool {
    referenced_by_completed(units, id) && !referenced_by_active(units, id)
}

/// The identifiers of a unit that a sweep keeps, in order.
pub open spec fn kept_ids(ids: Seq<String>, units: Seq<UnitOfWork>) -> Seq<String>
    decreases ids.len(),
{
    if ids.len() == 0 {
        seq![]
    } else {
        let prev = kept_ids(ids.drop_last(), units);
        if reclaimable_id(units, ids.last()@) {
            prev
        } else {
            prev.push(ids.last())
        }
    }
}

/// Whether a sweep rewrites the unit: it is completed and references a
/// reclaimable file.
pub open spec fn affected(u: UnitOfWork, units: Seq<UnitOfWork>) -> bool {
    u.status == UnitStatus::Completed && exists|i: int|
        0 <= i < u.file_ids@.len() && reclaimable_id(units, (#[trigger] u.file_ids@[i])@)
}

/// A unit after a sweep of `units`: a rewritten unit keeps its other
/// references and counts them; any other unit is left as it was.
pub open spec fn unit_after_sweep(
    before: UnitOfWork,
    after: UnitOfWork,
    units: Seq<UnitOfWork>,
) -> bool {
    if affected(before, units) {
        &&& after.id == before.id
        &&& after.name == before.name
        &&& after.status == before.status
        &&& after.file_ids@ == kept_ids(before.file_ids@, units)
        &&& after.file_count == after.file_ids@.len()
    } else {
        after == before
    }
}

/// The units after a sweep, position by position.
pub open spec fn swept(before: Seq<UnitOfWork>, after: Seq<UnitOfWork>) -> bool {
    &&& after.len() == before.len()
    &&& forall|k: int| 0 <= k < before.len() ==> unit_after_sweep(before[k], #[trigger] after[k], before)
}

/// `gone` lists each reclaimable file of `units` once, and nothing else.
pub open spec fn reclaim_list(gone: Seq<String>, units: Seq<UnitOfWork>) -> bool {
    &&& forall|id: Seq<char>| listed(gone, id) <==> reclaimable_id(units, id)
    &&& forall|a: int, b: int| 0 <= a < b < gone.len() ==> (#[trigger] gone[a])@ != (#[trigger] gone[b])@
}

/// Whether a unit that is not completed references file `id`.
fn active_reference(units: &Vec<UnitOfWork>, id: &str) -> (r: bool)
    ensures
        r == referenced_by_active(units@, id@),
{
    let mut k: usize = 0;
    while k < units.len()
        invariant
            k <= units@.len(),
            forall|j: int|
                0 <= j < k ==> !((#[trigger] units@[j]).status != UnitStatus::Completed && listed(
                    units@[j].file_ids@,
                    id@,
                )),
        decreases units@.len() - k,
    {
        if units[k].status != UnitStatus::Completed && is_listed(&units[k].file_ids, id) {
            return true;
        }
        k = k + 1;
    }
    false
}

/// The files that completed units reference and no other unit does, each
/// once, in the order in which completed units first reference them.
pub fn reclaimable(units: &Vec<UnitOfWork>) -> (r: Vec<String>)
    ensures
        reclaim_list(r@, units@),
{
    let mut out: Vec<String> = Vec::new();
    let mut k: usize = 0;
    while k < units.len()
        invariant
            k <= units@.len(),
            forall|id: Seq<char>| listed(out@, id) ==> reclaimable_id(units@, id),
            forall|a: int, b: int|
                0 <= a < b < out@.len() ==> (#[trigger] out@[a])@ != (#[trigger] out@[b])@,
            forall|kk: int, j: int|
                0 <= kk < k && 0 <= j < units@[kk].file_ids@.len() && units@[kk].status
                    == UnitStatus::Completed && reclaimable_id(
                    units@,
                    (#[trigger] units@[kk].file_ids@[j])@,
                ) ==> listed(out@, units@[kk].file_ids@[j]@),
        decreases units@.len() - k,
    {
        if units[k].status == UnitStatus::Completed {
            let ids = &units[k].file_ids;
            let mut j: usize = 0;
            while j < ids.len()
                invariant
                    k < units@.len(),
                    ids == units@[k as int].file_ids,
                    units@[k as int].status == UnitStatus::Completed,
                    j <= ids@.len(),
                    forall|id: Seq<char>| listed(out@, id) ==> reclaimable_id(units@, id),
                    forall|a: int, b: int|
                        0 <= a < b < out@.len() ==> (#[trigger] out@[a])@ != (#[trigger] out@[b])@,
                    forall|kk: int, jj: int|
                        0 <= kk < k && 0 <= jj < units@[kk].file_ids@.len() && units@[kk].status
                            == UnitStatus::Completed && reclaimable_id(
                            units@,
                            (#[trigger] units@[kk].file_ids@[jj])@,
                        ) ==> listed(out@, units@[kk].file_ids@[jj]@),
                    forall|jj: int|
                        0 <= jj < j && reclaimable_id(units@, (#[trigger] ids@[jj])@) ==> listed(
                            out@,
                            ids@[jj]@,
                        ),
                decreases ids@.len() - j,
            {
                let id = ids[j].as_str();
                let ghost before = out@;
                let active = active_reference(units, id);
                let present = is_listed(&out, id);
                if !active && !present {
                    proof {
                        assert(listed(units@[k as int].file_ids@, id@)) by {
                            assert(ids@[j as int]@ == id@);
                        }
                        assert(referenced_by_completed(units@, id@));
                    }
                    out.push(ids[j].clone());
                    proof {
                        assert(out@.last()@ == id@);
                        assert forall|x: Seq<char>| listed(out@, x) implies reclaimable_id(
                            units@,
                            x,
                        ) by {
                            let q = choose|q: int| 0 <= q < out@.len() && #[trigger] out@[q]@ == x;
                            if q < before.len() {
                                assert(before[q] == out@[q]);
                                assert(listed(before, x));
                            }
                        }
                        assert forall|x: Seq<char>| listed(before, x) implies listed(out@, x) by {
                            let q = choose|q: int| 0 <= q < before.len() && #[trigger] before[q]@
                                == x;
                            assert(out@[q] == before[q]);
                        }
                        assert(listed(out@, id@)) by {
                            assert(out@[out@.len() - 1]@ == id@);
                        }
                        assert forall|a: int, b: int|
                            0 <= a < b < out@.len() implies (#[trigger] out@[a])@ != (
                            #[trigger] out@[b])@ by {
                            if b == out@.len() - 1 {
                                assert(out@[a] == before[a]);
                                if before[a]@ == id@ {
                                    assert(listed(before, id@));
                                }
                            } else {
                                assert(out@[a] == before[a] && out@[b] == before[b]);
                            }
                        }
                    }
                }
                proof {
                    assert forall|jj: int|
                        0 <= jj < j + 1 && reclaimable_id(units@, (#[trigger] ids@[jj])@) implies listed(
                        out@,
                        ids@[jj]@,
                    ) by {
                        if jj < j {
                            let q = choose|q: int| 0 <= q < before.len() && #[trigger] before[q]@
                                == ids@[jj]@;
                            assert(out@[q] == before[q]);
                        } else {
                            assert(ids@[jj]@ == id@);
                            if !listed(out@, id@) {
                                assert(!active);
                                assert(present);
                                assert(listed(before, id@));
                                let q = choose|q: int| 0 <= q < before.len() && #[trigger] before[q]@
                                    == id@;
                                assert(out@[q] == before[q]);
                            }
                        }
                    }
                    assert forall|kk: int, jj: int|
                        0 <= kk < k && 0 <= jj < units@[kk].file_ids@.len() && units@[kk].status
                            == UnitStatus::Completed && reclaimable_id(
                            units@,
                            (#[trigger] units@[kk].file_ids@[jj])@,
                        ) implies listed(out@, units@[kk].file_ids@[jj]@) by {
                        let x = units@[kk].file_ids@[jj]@;
                        assert(listed(before, x));
                        let q = choose|q: int| 0 <= q < before.len() && #[trigger] before[q]@ == x;
                        assert(out@[q] == before[q]);
                    }
                }
                j = j + 1;
            }
        }
        k = k + 1;
    }
    proof {
        assert forall|id: Seq<char>| reclaimable_id(units@, id) implies listed(out@, id) by {
            let kk = choose|kk: int|
                0 <= kk < units@.len() && (#[trigger] units@[kk]).status == UnitStatus::Completed
                    && listed(units@[kk].file_ids@, id);
            let jj = choose|jj: int|
                0 <= jj < units@[kk].file_ids@.len() && #[trigger] units@[kk].file_ids@[jj]@ == id;
            assert(reclaimable_id(units@, units@[kk].file_ids@[jj]@));
        }
    }
    out
}

/// The outcome of a sweep: the reclaimed file identifiers, and the stored
/// paths of the entries that were removed, whose content is to be deleted.
pub struct ReclaimOutcome {
    pub reclaimed: Vec<String>,
    pub deleted_paths: Vec<String>,
}

/// Aggregate figures for the content store.
pub struct StorageStats {
    pub path: String,
    pub total_bytes: u64,
    pub file_count: u64,
}

/// The sum of the sizes.
pub open spec fn sum_of(sizes: Seq<u64>) -> int
    decreases sizes.len(),
{
    if sizes.len() == 0 {
        0
    } else {
        sum_of(sizes.drop_last()) + sizes.last()
    }
}

proof fn lemma_sum_nonneg(sizes: Seq<u64>)
    ensures
        sum_of(sizes) >= 0,
    decreases sizes.len(),
{
    if sizes.len() > 0 {
        lemma_sum_nonneg(sizes.drop_last());
    }
}

/// Figures for a content store at `path` whose files have the given sizes:
/// their count, and their total size, held at the largest `u64` where it
/// would exceed it.
pub fn storage_stats(path: String, sizes: &Vec<u64>) -> (r: StorageStats)
    ensures
        r.path == path,
        r.file_count == sizes@.len(),
        r.total_bytes == if sum_of(sizes@) <= u64::MAX {
            sum_of(sizes@)
        } else {
            u64::MAX as int
        },
{
    let mut total: u64 = 0;
    let mut i: usize = 0;
    assert(sizes@.take(0) =~= Seq::<u64>::empty());
    while i < sizes.len()
        invariant
            i <= sizes@.len(),
            total == if sum_of(sizes@.take(i as int)) <= u64::MAX {
                sum_of(sizes@.take(i as int))
            } else {
                u64::MAX as int
            },
        decreases sizes@.len() - i,
    {
        assert(sizes@.take(i + 1).drop_last() == sizes@.take(i as int));
        proof {
            lemma_sum_nonneg(sizes@.take(i as int));
        }
        total = total.saturating_add(sizes[i]);
        i = i + 1;
    }
    assert(sizes@.take(sizes@.len() as int) == sizes@);
    StorageStats { path, total_bytes: total, file_count: sizes.len() as u64 }
}

proof fn lemma_kept_ids_members(ids: Seq<String>, units: Seq<UnitOfWork>, x: Seq<char>)
    requires
        listed(kept_ids(ids, units), x),
    ensures
        listed(ids, x),
        !reclaimable_id(units, x),
    decreases ids.len(),
{
    let k = kept_ids(ids, units);
    let q = choose|q: int| 0 <= q < k.len() && #[trigger] k[q]@ == x;
    let prev = kept_ids(ids.drop_last(), units);
    if reclaimable_id(units, ids.last()@) {
        lemma_kept_ids_members(ids.drop_last(), units, x);
        let p = choose|p: int| 0 <= p < ids.drop_last().len() && #[trigger] ids.drop_last()[p]@ == x;
        assert(ids[p] == ids.drop_last()[p]);
    } else {
        if q < prev.len() {
            assert(prev[q] == k[q]);
            lemma_kept_ids_members(ids.drop_last(), units, x);
            let p = choose|p: int| 0 <= p < ids.drop_last().len() && #[trigger] ids.drop_last()[p]@ == x;
            assert(ids[p] == ids.drop_last()[p]);
        } else {
            assert(ids[ids.len() - 1]@ == x);
        }
    }
}

/// Whether some identifier of `ids` is listed in `gone`.
fn any_listed(ids: &Vec<String>, gone: &Vec<String>) -> (r: bool)
    ensures
        r == exists|i: int| 0 <= i < ids@.len() && listed(gone@, (#[trigger] ids@[i])@),
{
    let mut i: usize = 0;
    while i < ids.len()
        invariant
            i <= ids@.len(),
            forall|j: int| 0 <= j < i ==> !listed(gone@, (#[trigger] ids@[j])@),
        decreases ids@.len() - i,
    {
        if is_listed(gone, ids[i].as_str()) {
            return true;
        }
        i = i + 1;
    }
    false
}

/// The identifiers of `ids` that `gone` does not list, in order.
fn prune_ids(ids: &Vec<String>, gone: &Vec<String>, Ghost(units): Ghost<Seq<UnitOfWork>>) -> (r: Vec<
    String,
>)
    requires
        reclaim_list(gone@, units),
    ensures
        r@ == kept_ids(ids@, units),
{
    let mut out: Vec<String> = Vec::new();
    let mut i: usize = 0;
    assert(ids@.take(0) =~= Seq::<String>::empty());
    while i < ids.len()
        invariant
            i <= ids@.len(),
            reclaim_list(gone@, units),
            out@ == kept_ids(ids@.take(i as int), units),
        decreases ids@.len() - i,
    {
        assert(ids@.take(i + 1).drop_last() == ids@.take(i as int));
        if !is_listed(gone, ids[i].as_str()) {
            out.push(ids[i].clone());
        }
        i = i + 1;
    }
    assert(ids@.take(ids@.len() as int) == ids@);
    out
}

/// Rewrites each completed unit that references a listed file so that it
/// no longer does, with its count to match; other units are kept as they
/// are.
fn prune_units(units: Vec<UnitOfWork>, gone: &Vec<String>) -> (r: Vec<UnitOfWork>)
    requires
        reclaim_list(gone@, units@),
    ensures
        swept(units@, r@),
{
    let ghost orig = units@;
    let mut rest = units;
    let n = rest.len();
    let mut out: Vec<UnitOfWork> = Vec::new();
    let mut k: usize = 0;
    assert(orig.subrange(0, n as int) == orig);
    while k < n
        invariant
            n == orig.len(),
            k <= n,
            reclaim_list(gone@, orig),
            rest@ == orig.subrange(k as int, n as int),
            out@.len() == k,
            forall|j: int| 0 <= j < k ==> unit_after_sweep(orig[j], #[trigger] out@[j], orig),
        decreases n - k,
    {
        let u = rest.remove(0);
        assert(u == orig[k as int]);
        assert(rest@ == orig.subrange(k + 1, n as int));
        if u.status == UnitStatus::Completed && any_listed(&u.file_ids, gone) {
            let ids = prune_ids(&u.file_ids, gone, Ghost(orig));
            let count = ids.len() as u64;
            out.push(UnitOfWork { id: u.id, name: u.name, status: u.status, file_ids: ids, file_count: count });
        } else {
            proof {
                if affected(u, orig) {
                    let i = choose|i: int|
                        0 <= i < u.file_ids@.len() && reclaimable_id(orig, (#[trigger] u.file_ids@[i])@);
                    assert(listed(gone@, u.file_ids@[i]@));
                }
            }
            out.push(u);
        }
        k = k + 1;
    }
    out
}

impl FileIndex {
    /// Reclaims storage: every file that completed units reference and no
    /// other unit does loses its entry, and every completed unit that
    /// references one of them is rewritten without it. The stored paths of
    /// the removed entries are handed back for their content to be deleted.
    pub fn reclaim(&mut self, units: &mut Vec<UnitOfWork>) -> (r: ReclaimOutcome)
        requires
            old(self).wf(),
        ensures
            final(self).wf(),
            reclaim_list(r.reclaimed@, old(units)@),
            swept(old(units)@, final(units)@),
            final(self).entries@ == kept_after_delete(old(self).entries@, r.reclaimed@),
            r.deleted_paths@ == deleted_paths(old(self).entries@, r.reclaimed@),
    {
        let gone = reclaimable(units);
        let paths = self.delete_files(&gone);
        let mut taken: Vec<UnitOfWork> = Vec::new();
        std::mem::swap(&mut taken, units);
        let pruned = prune_units(taken, &gone);
        *units = pruned;
        ReclaimOutcome { reclaimed: gone, deleted_paths: paths }
    }
}

/// After a sweep, no file is reclaimable any more.
proof fn lemma_nothing_left(u0: Seq<UnitOfWork>, u1: Seq<UnitOfWork>, x: Seq<char>)
    requires
        swept(u0, u1),
    ensures
        !reclaimable_id(u1, x),
{
    if reclaimable_id(u1, x) {
        let k = choose|k: int|
            0 <= k < u1.len() && (#[trigger] u1[k]).status == UnitStatus::Completed && listed(
                u1[k].file_ids@,
                x,
            );
        assert(unit_after_sweep(u0[k], u1[k], u0));
        assert(!referenced_by_active(u0, x)) by {
            if referenced_by_active(u0, x) {
                let a = choose|a: int|
                    0 <= a < u0.len() && (#[trigger] u0[a]).status != UnitStatus::Completed
                        && listed(u0[a].file_ids@, x);
                assert(unit_after_sweep(u0[a], u1[a], u0));
                assert(u1[a] == u0[a]);
            }
        }
        if affected(u0[k], u0) {
            lemma_kept_ids_members(u0[k].file_ids@, u0, x);
        } else {
            assert(u1[k] == u0[k]);
            assert(referenced_by_completed(u0, x));
            let j = choose|j: int| 0 <= j < u0[k].file_ids@.len() && #[trigger] u0[k].file_ids@[j]@ == x;
            assert(reclaimable_id(u0, u0[k].file_ids@[j]@));
        }
    }
}

proof fn lemma_delete_none(entries: Seq<FileEntry>, ids: Seq<String>)
    requires
        ids.len() == 0,
    ensures
        kept_after_delete(entries, ids) == entries,
        deleted_paths(entries, ids).len() == 0,
    decreases entries.len(),
{
    if entries.len() > 0 {
        lemma_delete_none(entries.drop_last(), ids);
        assert(!listed(ids, entries.last().id@));
        assert(entries.drop_last().push(entries.last()) == entries);
    }
}

/// Reclaiming twice with nothing in between: the second sweep finds nothing
/// to reclaim, removes no entry, hands back no path to delete, and leaves
/// every unit as it was.
pub proof fn lemma_second_sweep_is_idle(
    u0: Seq<UnitOfWork>,
    u1: Seq<UnitOfWork>,
    u2: Seq<UnitOfWork>,
    e0: Seq<FileEntry>,
    e1: Seq<FileEntry>,
    e2: Seq<FileEntry>,
    g1: Seq<String>,
    g2: Seq<String>,
)
    requires
        reclaim_list(g1, u0),
        swept(u0, u1),
        e1 == kept_after_delete(e0, g1),
        reclaim_list(g2, u1),
        swept(u1, u2),
        e2 == kept_after_delete(e1, g2),
    ensures
        g2.len() == 0,
        e2 == e1,
        deleted_paths(e1, g2).len() == 0,
        u2 == u1,
{
    if g2.len() > 0 {
        assert(listed(g2, g2[0]@));
        lemma_nothing_left(u0, u1, g2[0]@);
    }
    lemma_delete_none(e1, g2);
    assert forall|k: int| 0 <= k < u1.len() implies #[trigger] u2[k] == u1[k] by {
        assert(unit_after_sweep(u1[k], u2[k], u1));
        if affected(u1[k], u1) {
            let i = choose|i: int|
                0 <= i < u1[k].file_ids@.len() && reclaimable_id(u1, (#[trigger] u1[k].file_ids@[i])@);
            lemma_nothing_left(u0, u1, u1[k].file_ids@[i]@);
        }
    }
    assert(u2 =~= u1);
}

} // verus!
