//! Filtered, sorted and paged listings of the file index.
use vstd::prelude::*;
use crate::index::{
    entry_matches, lower_char, page_end, page_start, query_matches, record_for, record_of,
    FileEntry, FileIndex, FileListQuery, PaginatedFilesResult,
};
use crate::naming::lower;
use crate::status::status_name;
use crate::text::same_text;

verus! {

/// A column that a listing can be ordered by.
#[derive(Clone, Copy, Debug, PartialEq, Eq, Structural)]
pub enum SortColumn {
    Id,
    FileName,
    StoredPath,
    SizeBytes,
    MimeType,
    Status,
    ParsedDetails,
    CreatedAt,
    ProcessedAt,
    UpdatedAt,
}

/// Why a listing request was refused.
#[derive(Clone, Copy, Debug, PartialEq, Eq, Structural)]
pub enum ListError {
    /// `sort_by` names no column of the index.
    UnknownColumn,
    /// `sort_order` is neither "ASC" nor "DESC".
    UnknownOrder,
}

/// Whether text `a` sorts before text `b`: character by character, a
/// proper prefix first.
pub open spec fn text_lt(a: Seq<char>, b: Seq<char>) -> bool
    decreases a.len(),
{
    if a.len() == 0 {
        b.len() > 0
    } else if b.len() == 0 {
        false
    } else if a[0] != b[0] {
        (a[0] as u32) < (b[0] as u32)
    } else {
        text_lt(a.drop_first(), b.drop_first())
    }
}

/// Whether an optional text sorts before another: an absent one first.
pub open spec fn opt_lt(a: Option<String>, b: Option<String>) -> bool {
    match (a, b) {
        (None, Some(_)) => true,
        (Some(x), Some(y)) => text_lt(x@, y@),
        _ => false,
    }
}

/// Whether entry `a` sorts before entry `b` by the column.
pub open spec fn key_lt(a: FileEntry, b: FileEntry, col: SortColumn) -> bool {
    match col {
        SortColumn::Id => text_lt(a.id@, b.id@),
        SortColumn::FileName => text_lt(a.original_name@, b.original_name@),
        SortColumn::StoredPath => text_lt(a.stored_path@, b.stored_path@),
        SortColumn::SizeBytes => a.size_bytes < b.size_bytes,
        SortColumn::MimeType => opt_lt(a.mime_type, b.mime_type),
        SortColumn::Status => text_lt(status_name(a.status), status_name(b.status)),
        SortColumn::ParsedDetails => opt_lt(a.parsed_payload, b.parsed_payload),
        SortColumn::CreatedAt => text_lt(a.created_at@, b.created_at@),
        SortColumn::ProcessedAt => opt_lt(a.processed_at, b.processed_at),
        SortColumn::UpdatedAt => text_lt(a.updated_at@, b.updated_at@),
    }
}

/// Whether entry `a` must be listed before entry `b`.
pub open spec fn goes_before(a: FileEntry, b: FileEntry, col: SortColumn, asc: bool) -> bool {
    if asc {
        key_lt(a, b, col)
    } else {
        key_lt(b, a, col)
    }
}

/// Whether the positions list their entries in the requested order.
pub open spec fn sorted_positions(
    entries: Seq<FileEntry>,
    order: Seq<usize>,
    col: SortColumn,
    asc: bool,
) -> bool {
    forall|i: int, j: int|
        #![trigger order[i], order[j]]
        0 <= i < j < order.len() ==> !goes_before(
            entries[order[j] as int],
            entries[order[i] as int],
            col,
            asc,
        )
}

/// The positions of the entries that pass a query's filters, oldest first.
pub open spec fn matching_positions(entries: Seq<FileEntry>, q: FileListQuery) -> Seq<usize>
    decreases entries.len(),
{
    if entries.len() == 0 {
        seq![]
    } else {
        let prev = matching_positions(entries.drop_last(), q);
        if query_matches(q, entries.last()) {
            prev.push((entries.len() - 1) as usize)
        } else {
            prev
        }
    }
}

/// The column that `sort_by` names; `created_at` where it names none.
pub open spec fn sort_column_named(t: Option<String>) -> Option<SortColumn> {
    match t {
        None => Some(SortColumn::CreatedAt),
        Some(s) => if s@ == "id"@ {
            Some(SortColumn::Id)
        } else if s@ == "file_name"@ {
            Some(SortColumn::FileName)
        } else if s@ == "stored_path"@ {
            Some(SortColumn::StoredPath)
        } else if s@ == "size_bytes"@ {
            Some(SortColumn::SizeBytes)
        } else if s@ == "mime_type"@ {
            Some(SortColumn::MimeType)
        } else if s@ == "status"@ {
            Some(SortColumn::Status)
        } else if s@ == "parsed_details"@ {
            Some(SortColumn::ParsedDetails)
        } else if s@ == "created_at"@ {
            Some(SortColumn::CreatedAt)
        } else if s@ == "processed_at"@ {
            Some(SortColumn::ProcessedAt)
        } else if s@ == "updated_at"@ {
            Some(SortColumn::UpdatedAt)
        } else {
            None
        },
    }
}

/// Whether `t` spells `w` (given in lower case), ASCII case aside.
pub open spec fn spells(t: Seq<char>, w: Seq<char>) -> bool {
    t.len() == w.len() && forall|i: int| 0 <= i < t.len() ==> lower(#[trigger] t[i]) == w[i]
}

/// Whether `sort_order` asks for ascending order: `Some(true)` for "ASC",
/// `Some(false)` for "DESC" or none, `None` for anything else.
pub open spec fn order_named(t: Option<String>) -> Option<bool> {
    match t {
        None => Some(false),
        Some(s) => if spells(s@, seq!['a', 's', 'c']) {
            Some(true)
        } else if spells(s@, seq!['d', 'e', 's', 'c']) {
            Some(false)
        } else {
            None
        },
    }
}

proof fn lemma_text_lt_irreflexive(a: Seq<char>)
    ensures
        !text_lt(a, a),
    decreases a.len(),
{
    if a.len() > 0 {
        lemma_text_lt_irreflexive(a.drop_first());
    }
}

proof fn lemma_text_lt_transitive(a: Seq<char>, b: Seq<char>, c: Seq<char>)
    requires
        text_lt(a, b),
        text_lt(b, c),
    ensures
        text_lt(a, c),
    decreases a.len(),
{
    if a.len() > 0 && b.len() > 0 && c.len() > 0 && a[0] == b[0] && b[0] == c[0] {
        lemma_text_lt_transitive(a.drop_first(), b.drop_first(), c.drop_first());
    }
}

proof fn lemma_key_lt_order(a: FileEntry, b: FileEntry, c: FileEntry, col: SortColumn)
    ensures
        !key_lt(a, a, col),
        key_lt(a, b, col) && key_lt(b, c, col) ==> key_lt(a, c, col),
{
    match col {
        SortColumn::Id => {
            lemma_text_lt_irreflexive(a.id@);
            if text_lt(a.id@, b.id@) && text_lt(b.id@, c.id@) {
                lemma_text_lt_transitive(a.id@, b.id@, c.id@);
            }
        },
        SortColumn::FileName => {
            lemma_text_lt_irreflexive(a.original_name@);
            if key_lt(a, b, col) && key_lt(b, c, col) {
                lemma_text_lt_transitive(a.original_name@, b.original_name@, c.original_name@);
            }
        },
        SortColumn::StoredPath => {
            lemma_text_lt_irreflexive(a.stored_path@);
            if key_lt(a, b, col) && key_lt(b, c, col) {
                lemma_text_lt_transitive(a.stored_path@, b.stored_path@, c.stored_path@);
            }
        },
        SortColumn::SizeBytes => {},
        SortColumn::MimeType => {
            lemma_opt_lt_order(a.mime_type, b.mime_type, c.mime_type);
        },
        SortColumn::Status => {
            lemma_text_lt_irreflexive(status_name(a.status));
            if key_lt(a, b, col) && key_lt(b, c, col) {
                lemma_text_lt_transitive(
                    status_name(a.status),
                    status_name(b.status),
                    status_name(c.status),
                );
            }
        },
        SortColumn::ParsedDetails => {
            lemma_opt_lt_order(a.parsed_payload, b.parsed_payload, c.parsed_payload);
        },
        SortColumn::CreatedAt => {
            lemma_text_lt_irreflexive(a.created_at@);
            if key_lt(a, b, col) && key_lt(b, c, col) {
                lemma_text_lt_transitive(a.created_at@, b.created_at@, c.created_at@);
            }
        },
        SortColumn::ProcessedAt => {
            lemma_opt_lt_order(a.processed_at, b.processed_at, c.processed_at);
        },
        SortColumn::UpdatedAt => {
            lemma_text_lt_irreflexive(a.updated_at@);
            if key_lt(a, b, col) && key_lt(b, c, col) {
                lemma_text_lt_transitive(a.updated_at@, b.updated_at@, c.updated_at@);
            }
        },
    }
}

proof fn lemma_opt_lt_order(a: Option<String>, b: Option<String>, c: Option<String>)
    ensures
        !opt_lt(a, a),
        opt_lt(a, b) && opt_lt(b, c) ==> opt_lt(a, c),
{
    if a is Some {
        lemma_text_lt_irreflexive(a->Some_0@);
    }
    if a is Some && b is Some && c is Some && opt_lt(a, b) && opt_lt(b, c) {
        lemma_text_lt_transitive(a->Some_0@, b->Some_0@, c->Some_0@);
    }
}

/// Whether text `a` sorts before text `b`.
fn text_less(a: &str, b: &str) -> (r: bool)
    ensures
        r == text_lt(a@, b@),
{
    let n = a.unicode_len();
    let m = b.unicode_len();
    let mut i: usize = 0;
    assert(a@.subrange(0, n as int) == a@);
    assert(b@.subrange(0, m as int) == b@);
    while i < n && i < m
        invariant
            n == a@.len(),
            m == b@.len(),
            i <= n,
            i <= m,
            text_lt(a@, b@) == text_lt(a@.subrange(i as int, n as int), b@.subrange(i as int, m as int)),
        decreases n - i,
    {
        let x = a.get_char(i);
        let y = b.get_char(i);
        let ghost sa = a@.subrange(i as int, n as int);
        let ghost sb = b@.subrange(i as int, m as int);
        assert(sa[0] == x && sb[0] == y);
        if x != y {
            return (x as u32) < (y as u32);
        }
        assert(sa.drop_first() == a@.subrange(i + 1, n as int));
        assert(sb.drop_first() == b@.subrange(i + 1, m as int));
        i = i + 1;
    }
    i == n && i < m
}

fn opt_less(a: &Option<String>, b: &Option<String>) -> (r: bool)
    ensures
        r == opt_lt(*a, *b),
{
    match (a, b) {
        (None, Some(_)) => true,
        (Some(x), Some(y)) => text_less(x.as_str(), y.as_str()),
        _ => false,
    }
}

fn key_less(a: &FileEntry, b: &FileEntry, col: SortColumn) -> (r: bool)
    ensures
        r == key_lt(*a, *b, col),
{
    match col {
        SortColumn::Id => text_less(a.id.as_str(), b.id.as_str()),
        SortColumn::FileName => text_less(a.original_name.as_str(), b.original_name.as_str()),
        SortColumn::StoredPath => text_less(a.stored_path.as_str(), b.stored_path.as_str()),
        SortColumn::SizeBytes => a.size_bytes < b.size_bytes,
        SortColumn::MimeType => opt_less(&a.mime_type, &b.mime_type),
        SortColumn::Status => text_less(a.status.as_str(), b.status.as_str()),
        SortColumn::ParsedDetails => opt_less(&a.parsed_payload, &b.parsed_payload),
        SortColumn::CreatedAt => text_less(a.created_at.as_str(), b.created_at.as_str()),
        SortColumn::ProcessedAt => opt_less(&a.processed_at, &b.processed_at),
        SortColumn::UpdatedAt => text_less(a.updated_at.as_str(), b.updated_at.as_str()),
    }
}

fn before(a: &FileEntry, b: &FileEntry, col: SortColumn, asc: bool) -> (r: bool)
    ensures
        r == goes_before(*a, *b, col, asc),
{
    if asc {
        key_less(a, b, col)
    } else {
        key_less(b, a, col)
    }
}

/// Whether `t` spells `w` (given in lower case), ASCII case aside.
fn spells_word(t: &str, w: &str) -> (r: bool)
    ensures
        r == spells(t@, w@),
{
    let n = t.unicode_len();
    if n != w.unicode_len() {
        return false;
    }
    let mut i: usize = 0;
    while i < n
        invariant
            n == t@.len(),
            n == w@.len(),
            i <= n,
            forall|k: int| 0 <= k < i ==> lower(#[trigger] t@[k]) == w@[k],
        decreases n - i,
    {
        if lower_char(t.get_char(i)) != w.get_char(i) {
            return false;
        }
        i = i + 1;
    }
    true
}

/// Reads the requested order: `Some(true)` for "ASC", `Some(false)` for
/// "DESC" or none, `None` for anything else.
pub fn parse_order(t: &Option<String>) -> (r: Option<bool>)
    ensures
        r == order_named(*t),
{
    match t {
        None => Some(false),
        Some(s) => {
            proof {
                reveal_strlit("asc");
                reveal_strlit("desc");
            }
            assert("asc"@ == seq!['a', 's', 'c']);
            assert("desc"@ == seq!['d', 'e', 's', 'c']);
            if spells_word(s.as_str(), "asc") {
                Some(true)
            } else if spells_word(s.as_str(), "desc") {
                Some(false)
            } else {
                None
            }
        },
    }
}

/// Reads the requested column; `created_at` where none is named.
pub fn parse_sort_column(t: &Option<String>) -> (r: Option<SortColumn>)
    ensures
        r == sort_column_named(*t),
{
    match t {
        None => Some(SortColumn::CreatedAt),
        Some(s) => {
            let s = s.as_str();
            if same_text(s, "id") {
                Some(SortColumn::Id)
            } else if same_text(s, "file_name") {
                Some(SortColumn::FileName)
            } else if same_text(s, "stored_path") {
                Some(SortColumn::StoredPath)
            } else if same_text(s, "size_bytes") {
                Some(SortColumn::SizeBytes)
            } else if same_text(s, "mime_type") {
                Some(SortColumn::MimeType)
            } else if same_text(s, "status") {
                Some(SortColumn::Status)
            } else if same_text(s, "parsed_details") {
                Some(SortColumn::ParsedDetails)
            } else if same_text(s, "created_at") {
                Some(SortColumn::CreatedAt)
            } else if same_text(s, "processed_at") {
                Some(SortColumn::ProcessedAt)
            } else if same_text(s, "updated_at") {
                Some(SortColumn::UpdatedAt)
            } else {
                None
            }
        },
    }
}

impl FileIndex {
    /// The positions of the entries that pass a query's filters, oldest
    /// first.
    fn matching_positions_of(&self, query: &FileListQuery) -> (r: Vec<usize>)
        ensures
            r@ == matching_positions(self.entries@, *query),
            r@.len() <= self.entries@.len(),
            forall|k: int| 0 <= k < r@.len() ==> (#[trigger] r@[k]) < self.entries@.len(),
    {
        let n = self.entries.len();
        let mut out: Vec<usize> = Vec::new();
        let mut i: usize = 0;
        assert(self.entries@.take(0) =~= Seq::<FileEntry>::empty());
        while i < n
            invariant
                n == self.entries@.len(),
                i <= n,
                out@ == matching_positions(self.entries@.take(i as int), *query),
                out@.len() <= i,
                forall|k: int| 0 <= k < out@.len() ==> (#[trigger] out@[k]) < i,
            decreases n - i,
        {
            assert(self.entries@.take(i + 1).drop_last() == self.entries@.take(i as int));
            assert(self.entries@.take(i + 1).last() == self.entries@[i as int]);
            if entry_matches(query, &self.entries[i]) {
                out.push(i);
            }
            i = i + 1;
        }
        assert(self.entries@.take(n as int) == self.entries@);
        out
    }

    /// Orders positions of entries by the column and direction, keeping each
    /// position once.
    fn sort_positions(&self, positions: Vec<usize>, col: SortColumn, asc: bool) -> (r: Vec<usize>)
        requires
            forall|k: int| 0 <= k < positions@.len() ==> (#[trigger] positions@[k]) < self.entries@.len(),
        ensures
            r@.to_multiset() == positions@.to_multiset(),
            forall|k: int| 0 <= k < r@.len() ==> (#[trigger] r@[k]) < self.entries@.len(),
            sorted_positions(self.entries@, r@, col, asc),
    {
        let ghost e = self.entries@;
        let mut out: Vec<usize> = Vec::new();
        let mut k: usize = 0;
        assert(positions@.take(0) =~= Seq::<usize>::empty());
        while k < positions.len()
            invariant
                e == self.entries@,
                k <= positions@.len(),
                forall|j: int| 0 <= j < positions@.len() ==> (#[trigger] positions@[j]) < e.len(),
                out@.to_multiset() == positions@.take(k as int).to_multiset(),
                forall|j: int| 0 <= j < out@.len() ==> (#[trigger] out@[j]) < e.len(),
                sorted_positions(e, out@, col, asc),
            decreases positions@.len() - k,
        {
            let x = positions[k];
            let mut p: usize = 0;
            while p < out.len() && !before(&self.entries[x], &self.entries[out[p]], col, asc)
                invariant
                    e == self.entries@,
                    x < e.len(),
                    p <= out@.len(),
                    forall|j: int| 0 <= j < out@.len() ==> (#[trigger] out@[j]) < e.len(),
                    forall|j: int| 0 <= j < p ==> !goes_before(e[x as int], e[#[trigger] out@[j] as int], col, asc),
                decreases out@.len() - p,
            {
                p = p + 1;
            }
            let ghost old_out = out@;
            proof {
                assert forall|j: int| p <= j < old_out.len() implies !goes_before(
                    e[#[trigger] old_out[j] as int],
                    e[x as int],
                    col,
                    asc,
                ) by {
                    let y = e[old_out[j] as int];
                    let z = e[old_out[p as int] as int];
                    let w = e[x as int];
                    lemma_key_lt_order(y, w, z, col);
                    lemma_key_lt_order(z, w, y, col);
                    lemma_key_lt_order(y, z, w, col);
                    lemma_key_lt_order(w, z, y, col);
                    lemma_key_lt_order(z, y, w, col);
                    lemma_key_lt_order(w, y, z, col);
                    if j > p {
                        assert(!goes_before(y, z, col, asc));
                    }
                }
            }
            out.insert(p, x);
            proof {
                assert(positions@.take(k + 1) == positions@.take(k as int).push(x));
                vstd::seq_lib::to_multiset_insert(old_out, p as int, x);
                vstd::seq_lib::to_multiset_build(positions@.take(k as int), x);
                let s = out@;
                assert(s == old_out.insert(p as int, x));
                assert forall|i: int, j: int|
                    #![trigger s[i], s[j]]
                    0 <= i < j < s.len() implies !goes_before(
                    e[s[j] as int],
                    e[s[i] as int],
                    col,
                    asc,
                ) by {
                    if j < p {
                        assert(s[i] == old_out[i] && s[j] == old_out[j]);
                    } else if j == p {
                        assert(s[i] == old_out[i]);
                    } else if i < p {
                        assert(s[i] == old_out[i] && s[j] == old_out[j - 1]);
                    } else if i == p {
                        assert(s[j] == old_out[j - 1]);
                    } else {
                        assert(s[i] == old_out[i - 1] && s[j] == old_out[j - 1]);
                    }
                }
                assert forall|j: int| 0 <= j < s.len() implies (#[trigger] s[j]) < e.len() by {
                    if j < p {
                        assert(s[j] == old_out[j]);
                    } else if j > p {
                        assert(s[j] == old_out[j - 1]);
                    }
                }
            }
            k = k + 1;
        }
        assert(positions@.take(positions@.len() as int) == positions@);
        out
    }

    /// One page of the entries that pass a query's filters, ordered by the
    /// requested column and direction, with the number of all that pass.
    /// Entries with equal values in that column may come in any order among
    /// themselves. Fails where the column or the direction is unknown.
    pub fn list_paginated(&self, query: &FileListQuery) -> (r: Result<PaginatedFilesResult, ListError>)
        requires
            self.entries@.len() <= i64::MAX,
        ensures
            sort_column_named(query.sort_by) is None ==> r == Err::<PaginatedFilesResult, ListError>(
                ListError::UnknownColumn,
            ),
            sort_column_named(query.sort_by) is Some && order_named(query.sort_order) is None ==> r
                == Err::<PaginatedFilesResult, ListError>(ListError::UnknownOrder),
            sort_column_named(query.sort_by) is Some && order_named(query.sort_order) is Some ==> {
                let m = matching_positions(self.entries@, *query);
                let col = sort_column_named(query.sort_by)->Some_0;
                let asc = order_named(query.sort_order)->Some_0;
                let start = page_start(*query, m.len() as int);
                let end = page_end(*query, m.len() as int);
                &&& r is Ok
                &&& r->Ok_0.total_count == m.len()
                &&& r->Ok_0.files@.len() == end - start
                &&& exists|order: Seq<usize>|
                    {
                        &&& order.to_multiset() == m.to_multiset()
                        &&& order.len() == m.len()
                        &&& (forall|k: int| 0 <= k < order.len() ==> (#[trigger] order[k]) < self.entries@.len())
                        &&& sorted_positions(self.entries@, order, col, asc)
                        &&& forall|k: int|
                            0 <= k < r->Ok_0.files@.len() ==> #[trigger] r->Ok_0.files@[k] == record_of(
                                self.entries@[order[start + k] as int],
                            )
                    }
            },
    {
        let col = match parse_sort_column(&query.sort_by) {
            Some(c) => c,
            None => {
                return Err(ListError::UnknownColumn);
            },
        };
        let asc = match parse_order(&query.sort_order) {
            Some(a) => a,
            None => {
                return Err(ListError::UnknownOrder);
            },
        };
        let matched = self.matching_positions_of(query);
        let ghost m = matched@;
        let total = matched.len();
        let order = self.sort_positions(matched, col, asc);
        proof {
            order@.to_multiset_ensures();
            m.to_multiset_ensures();
        }
        assert(order@.len() == total);
        let start: usize = if query.offset < 0 {
            0
        } else if query.offset as u64 > total as u64 {
            total
        } else {
            query.offset as usize
        };
        let end: usize = if query.limit < 0 || (start as u64 + query.limit as u64) as u128 > total as u128 {
            total
        } else {
            start + query.limit as usize
        };
        assert(start == page_start(*query, total as int));
        assert(end == page_end(*query, total as int));
        let mut files: Vec<crate::index::FileRecord> = Vec::new();
        let mut k: usize = start;
        while k < end
            invariant
                start <= k <= end,
                end <= total,
                order@.len() == total,
                forall|j: int| 0 <= j < order@.len() ==> (#[trigger] order@[j]) < self.entries@.len(),
                files@.len() == k - start,
                forall|j: int|
                    0 <= j < files@.len() ==> #[trigger] files@[j] == record_of(
                        self.entries@[order@[start + j] as int],
                    ),
            decreases end - k,
        {
            files.push(record_for(&self.entries[order[k]]));
            k = k + 1;
        }
        let ghost o = order@;
        assert(o.to_multiset() == m.to_multiset());
        assert(o.len() == m.len());
        assert(sorted_positions(self.entries@, o, col, asc));
        assert(forall|j: int|
            0 <= j < files@.len() ==> #[trigger] files@[j] == record_of(self.entries@[o[start + j] as int]));
        Ok(PaginatedFilesResult { files, total_count: total as i64 })
    }
}

} // verus!
