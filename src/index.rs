//! The file index: one entry per distinct ingested byte sequence.
use vstd::prelude::*;
use crate::hashing::{blake3_hex, current_timestamp, new_file_id, FileHasher};
use crate::naming::{join_path, joined, lower, stored_file_name, stored_name};
use crate::status::{status_name, FileStatus};
use crate::text::{same_text, text_of};

verus! {

/// One ingested file.
pub struct FileEntry {
    pub id: String,
    pub content_hash: String,
    pub original_name: String,
    pub stored_path: String,
    pub size_bytes: u64,
    pub mime_type: Option<String>,
    pub status: FileStatus,
    pub parsed_payload: Option<String>,
    pub created_at: String,
    pub processed_at: Option<String>,
    pub updated_at: String,
}

/// The outcome of an ingestion: a new entry, or the entry that already holds
/// the same content.
#[derive(Debug, PartialEq, Eq)]
pub enum IngestResult {
    Created(String),
    Duplicate(String),
}

/// Why the index refused a change.
#[derive(Clone, Copy, Debug, PartialEq, Eq, Structural)]
pub enum IndexError {
    /// The fresh identifier is already held by another entry.
    IdTaken,
}

/// The catalog of ingested files.
pub struct FileIndex {
    pub entries: Vec<FileEntry>,
}

/// Whether some entry holds content with digest `h`.
pub open spec fn has_hash(entries: Seq<FileEntry>, h: Seq<char>) -> bool {
    exists|i: int| 0 <= i < entries.len() && #[trigger] entries[i].content_hash@ == h
}

/// Whether some entry has the identifier `id`.
pub open spec fn has_id(entries: Seq<FileEntry>, id: Seq<char>) -> bool {
    exists|i: int| 0 <= i < entries.len() && #[trigger] entries[i].id@ == id
}

/// No two entries share a digest or an identifier.
pub open spec fn unique_entries(entries: Seq<FileEntry>) -> bool {
    forall|i: int, j: int|
        0 <= i < entries.len() && 0 <= j < entries.len() && i != j ==> {
            &&& #[trigger] entries[i].content_hash@ != #[trigger] entries[j].content_hash@
            &&& entries[i].id@ != entries[j].id@
        }
}

/// The entry is the one recorded for `name` and its content, stored in `dir`
/// under its own identifier, not yet processed.
pub open spec fn fresh_entry(
    e: FileEntry,
    dir: Seq<char>,
    name: Seq<char>,
    hash: Seq<char>,
    size: nat,
) -> bool {
    &&& e.content_hash@ == hash
    &&& e.original_name@ == name
    &&& e.stored_path@ == joined(dir, stored_name(e.id@, name))
    &&& e.size_bytes == size
    &&& e.mime_type is None
    &&& e.status == FileStatus::Unprocessed
    &&& e.parsed_payload is None
    &&& e.processed_at is None
}

/// What an ingestion of content with digest `hash` does: where an entry
/// holds that digest, the answer names it and nothing changes; otherwise a
/// fresh entry is added and named, or, where its identifier is taken,
/// nothing changes and the ingestion is refused.
pub open spec fn ingested(
    before: Seq<FileEntry>,
    after: Seq<FileEntry>,
    dir: Seq<char>,
    name: Seq<char>,
    hash: Seq<char>,
    size: nat,
    r: Result<IngestResult, IndexError>,
) -> bool {
    if has_hash(before, hash) {
        &&& after == before
        &&& r is Ok
        &&& r->Ok_0 is Duplicate
        &&& exists|i: int|
            0 <= i < before.len() && #[trigger] before[i].content_hash@ == hash
                && r->Ok_0->Duplicate_0@ == before[i].id@
    } else {
        ||| {
            &&& r is Ok
            &&& r->Ok_0 is Created
            &&& after.len() == before.len() + 1
            &&& after.drop_last() == before
            &&& fresh_entry(after.last(), dir, name, hash, size)
            &&& r->Ok_0->Created_0@ == after.last().id@
        }
        ||| {
            &&& r == Err::<IngestResult, IndexError>(IndexError::IdTaken)
            &&& after == before
            &&& before.len() > 0
        }
    }
}

/// The entry after a status change at time `now`: a file that becomes
/// processed records when; any other status clears that time.
pub open spec fn restamped(e: FileEntry, st: FileStatus, now: String) -> FileEntry {
    FileEntry {
        status: st,
        processed_at: if st == FileStatus::Processed {
            Some(now)
        } else {
            None
        },
        updated_at: now,
        ..e
    }
}

/// Whether `id` is among `ids`.
pub open spec fn listed(ids: Seq<String>, id: Seq<char>) -> bool {
    exists|k: int| 0 <= k < ids.len() && #[trigger] ids[k]@ == id
}

/// Whether `id` is among `ids`.
pub fn is_listed(ids: &Vec<String>, id: &str) -> (r: bool)
    ensures
        r == listed(ids@, id@),
{
    let mut k: usize = 0;
    while k < ids.len()
        invariant
            k <= ids@.len(),
            forall|j: int| 0 <= j < k ==> #[trigger] ids@[j]@ != id@,
        decreases ids@.len() - k,
    {
        if same_text(ids[k].as_str(), id) {
            return true;
        }
        k = k + 1;
    }
    false
}

/// Every entry whose identifier is listed in `ids` takes status `st` at time
/// `now`; the others are left as they were.
pub open spec fn restamped_listed(
    before: Seq<FileEntry>,
    after: Seq<FileEntry>,
    ids: Seq<String>,
    st: FileStatus,
    now: String,
) -> bool {
    &&& after.len() == before.len()
    &&& forall|k: int|
        0 <= k < before.len() ==> #[trigger] after[k] == if listed(ids, before[k].id@) {
            restamped(before[k], st, now)
        } else {
            before[k]
        }
}

/// The entry with identifier `id`, if any, takes status `st` at time `now`;
/// the others are left as they were.
pub open spec fn restamped_one(
    before: Seq<FileEntry>,
    after: Seq<FileEntry>,
    id: Seq<char>,
    st: FileStatus,
    now: String,
) -> bool {
    &&& after.len() == before.len()
    &&& forall|k: int|
        0 <= k < before.len() ==> #[trigger] after[k] == if before[k].id@ == id {
            restamped(before[k], st, now)
        } else {
            before[k]
        }
}

/// A short listing row: identifier, name and digest.
pub struct FileRow {
    pub id: String,
    pub file_name: String,
    pub hash: String,
}

/// A full listing row.
pub struct FileRecord {
    pub id: String,
    pub file_name: String,
    pub stored_path: String,
    pub size_bytes: i64,
    pub mime_type: Option<String>,
    pub status: FileStatus,
    pub parsed_details: Option<String>,
    pub created_at: String,
    pub processed_at: Option<String>,
    pub updated_at: Option<String>,
}

/// One page of a filtered listing, and how many entries match in all.
pub struct PaginatedFilesResult {
    pub files: Vec<FileRecord>,
    pub total_count: i64,
}

/// A filtered, paged listing request. Entries match where their status has
/// the stored name `status_filter` and their name holds `search_query`,
/// ASCII case aside; absent filters match everything. They are ordered by
/// the column `sort_by` (by default `created_at`), "ASC" or "DESC" in any
/// case (by default descending). A negative `offset` counts as none, a
/// negative `limit` as no limit.
pub struct FileListQuery {
    pub status_filter: Option<String>,
    pub search_query: Option<String>,
    pub limit: i64,
    pub offset: i64,
    pub sort_by: Option<String>,
    pub sort_order: Option<String>,
}

/// The short listing row of an entry.
pub open spec fn row_matches_entry(r: FileRow, e: FileEntry) -> bool {
    r.id == e.id && r.file_name == e.original_name && r.hash == e.content_hash
}

/// A size as a listing reports it, held at the largest `i64`.
pub open spec fn listed_size(size: u64) -> i64 {
    if size <= i64::MAX as u64 {
        size as i64
    } else {
        i64::MAX
    }
}

/// The full listing row of an entry.
pub open spec fn record_of(e: FileEntry) -> FileRecord {
    FileRecord {
        id: e.id,
        file_name: e.original_name,
        stored_path: e.stored_path,
        size_bytes: listed_size(e.size_bytes),
        mime_type: e.mime_type,
        status: e.status,
        parsed_details: e.parsed_payload,
        created_at: e.created_at,
        processed_at: e.processed_at,
        updated_at: Some(e.updated_at),
    }
}

/// Whether `needle` occurs in `hay` at position `i`, ASCII case aside.
pub open spec fn occurs_at(hay: Seq<char>, needle: Seq<char>, i: int) -> bool {
    forall|j: int| 0 <= j < needle.len() ==> lower(#[trigger] hay[i + j]) == lower(needle[j])
}

/// Whether `needle` occurs in `hay`, ASCII case aside.
pub open spec fn contains_folded(hay: Seq<char>, needle: Seq<char>) -> bool {
    exists|i: int| 0 <= i <= hay.len() - needle.len() && #[trigger] occurs_at(hay, needle, i)
}

/// Whether an entry passes the filters of a query.
pub open spec fn query_matches(q: FileListQuery, e: FileEntry) -> bool {
    &&& (q.status_filter is None || status_name(e.status) == q.status_filter->Some_0@)
    &&& (q.search_query is None || contains_folded(e.original_name@, q.search_query->Some_0@))
}

/// Where a page starts among `n` ordered entries.
pub open spec fn page_start(q: FileListQuery, n: int) -> int {
    if q.offset < 0 {
        0
    } else if q.offset > n {
        n
    } else {
        q.offset as int
    }
}

/// Where a page ends among `n` ordered entries.
pub open spec fn page_end(q: FileListQuery, n: int) -> int {
    let start = page_start(q, n);
    if q.limit < 0 || start + q.limit > n {
        n
    } else {
        start + q.limit
    }
}

pub(crate) fn lower_char(c: char) -> (r: char)
    ensures
        r == lower(c),
{
    if 'A' <= c && c <= 'Z' {
        ((c as u8) + 32) as char
    } else {
        c
    }
}

/// Whether `needle` occurs in `hay`, ASCII case aside.
pub fn contains_ignoring_case(hay: &str, needle: &str) -> (r: bool)
    ensures
        r == contains_folded(hay@, needle@),
{
    let n = hay.unicode_len();
    let m = needle.unicode_len();
    if m > n {
        assert forall|i: int| !(0 <= i <= hay@.len() - needle@.len() && #[trigger] occurs_at(hay@, needle@, i)) by {}
        return false;
    }
    let mut i: usize = 0;
    while i <= n - m
        invariant
            n == hay@.len(),
            m == needle@.len(),
            m <= n,
            i <= n - m + 1,
            forall|p: int| 0 <= p < i ==> !#[trigger] occurs_at(hay@, needle@, p),
        decreases n - m + 1 - i,
    {
        let mut j: usize = 0;
        let mut same = true;
        while j < m
            invariant
                n == hay@.len(),
                m == needle@.len(),
                i + m <= n,
                j <= m,
                same == forall|k: int| 0 <= k < j ==> lower(#[trigger] hay@[i + k]) == lower(needle@[k]),
            decreases m - j,
        {
            if lower_char(hay.get_char(i + j)) != lower_char(needle.get_char(j)) {
                same = false;
            }
            j = j + 1;
        }
        if same {
            assert(occurs_at(hay@, needle@, i as int));
            return true;
        }
        i = i + 1;
    }
    false
}

pub(crate) fn clone_opt(o: &Option<String>) -> (r: Option<String>)
    ensures
        r == *o,
{
    match o {
        Some(s) => Some(s.clone()),
        None => None,
    }
}

pub(crate) fn record_for(e: &FileEntry) -> (r: FileRecord)
    ensures
        r == record_of(*e),
{
    let size: i64 = if e.size_bytes <= 9223372036854775807u64 {
        e.size_bytes as i64
    } else {
        i64::MAX
    };
    FileRecord {
        id: e.id.clone(),
        file_name: e.original_name.clone(),
        stored_path: e.stored_path.clone(),
        size_bytes: size,
        mime_type: clone_opt(&e.mime_type),
        status: e.status,
        parsed_details: clone_opt(&e.parsed_payload),
        created_at: e.created_at.clone(),
        processed_at: clone_opt(&e.processed_at),
        updated_at: Some(e.updated_at.clone()),
    }
}

pub(crate) fn entry_matches(q: &FileListQuery, e: &FileEntry) -> (r: bool)
    ensures
        r == query_matches(*q, *e),
{
    let status_ok = match &q.status_filter {
        Some(f) => same_text(e.status.as_str(), f.as_str()),
        None => true,
    };
    let search_ok = match &q.search_query {
        Some(t) => contains_ignoring_case(e.original_name.as_str(), t.as_str()),
        None => true,
    };
    status_ok && search_ok
}

/// The entries that a deletion of `ids` keeps, in their order.
pub open spec fn kept_after_delete(entries: Seq<FileEntry>, ids: Seq<String>) -> Seq<FileEntry>
    decreases entries.len(),
{
    if entries.len() == 0 {
        seq![]
    } else {
        let prev = kept_after_delete(entries.drop_last(), ids);
        if listed(ids, entries.last().id@) {
            prev
        } else {
            prev.push(entries.last())
        }
    }
}

/// The stored paths of the entries that a deletion of `ids` removes, in
/// their order.
pub open spec fn deleted_paths(entries: Seq<FileEntry>, ids: Seq<String>) -> Seq<String>
    decreases entries.len(),
{
    if entries.len() == 0 {
        seq![]
    } else {
        let prev = deleted_paths(entries.drop_last(), ids);
        if listed(ids, entries.last().id@) {
            prev.push(entries.last().stored_path)
        } else {
            prev
        }
    }
}

/// Neither the digest nor the identifier of `x` is that of `y`.
pub open spec fn apart(x: FileEntry, y: FileEntry) -> bool {
    x.content_hash@ != y.content_hash@ && x.id@ != y.id@
}

proof fn lemma_push_unique(before: Seq<FileEntry>, e: FileEntry)
    requires
        unique_entries(before),
        !has_hash(before, e.content_hash@),
        !has_id(before, e.id@),
    ensures
        unique_entries(before.push(e)),
{
    let s = before.push(e);
    assert forall|i: int, j: int| 0 <= i < s.len() && 0 <= j < s.len() && i != j implies {
        &&& #[trigger] s[i].content_hash@ != #[trigger] s[j].content_hash@
        &&& s[i].id@ != s[j].id@
    } by {
        if i == s.len() - 1 {
            assert(before[j] == s[j]);
            assert(before[j].content_hash@ != e.content_hash@);
            assert(before[j].id@ != e.id@);
        } else if j == s.len() - 1 {
            assert(before[i] == s[i]);
            assert(before[i].content_hash@ != e.content_hash@);
            assert(before[i].id@ != e.id@);
        } else {
            assert(before[i] == s[i] && before[j] == s[j]);
            assert(before[i].content_hash@ != before[j].content_hash@);
        }
    }
}

/// Keeping entries in order, or changing fields other than the digest and
/// the identifier, keeps them unique.
proof fn lemma_unique_same_keys(before: Seq<FileEntry>, after: Seq<FileEntry>)
    requires
        unique_entries(before),
        after.len() == before.len(),
        forall|k: int|
            0 <= k < before.len() ==> (#[trigger] after[k]).content_hash == before[k].content_hash
                && after[k].id == before[k].id,
    ensures
        unique_entries(after),
{
    assert forall|i: int, j: int|
        0 <= i < after.len() && 0 <= j < after.len() && i != j implies {
        &&& #[trigger] after[i].content_hash@ != #[trigger] after[j].content_hash@
        &&& after[i].id@ != after[j].id@
    } by {
        assert(before[i].content_hash@ != before[j].content_hash@);
    }
}

/// The identifier that an ingestion answers with.
pub open spec fn answered_id(r: IngestResult) -> Seq<char> {
    match r {
        IngestResult::Created(id) => id@,
        IngestResult::Duplicate(id) => id@,
    }
}

/// Exactly one entry holds content with digest `h`, at position `i`.
pub open spec fn only_holder(entries: Seq<FileEntry>, h: Seq<char>, i: int) -> bool {
    &&& 0 <= i < entries.len()
    &&& entries[i].content_hash@ == h
    &&& forall|j: int| 0 <= j < entries.len() && #[trigger] entries[j].content_hash@ == h ==> j == i
}

/// Ingesting the same content twice in a row, under any two names, stores
/// it once: the second ingestion changes nothing and answers with a
/// duplicate of the identifier that the first answered with; afterwards
/// exactly one entry holds that content, and where the first ingestion added
/// it, the entry keeps the first name.
pub proof fn lemma_ingest_same_content_twice(
    s0: Seq<FileEntry>,
    s1: Seq<FileEntry>,
    s2: Seq<FileEntry>,
    dir: Seq<char>,
    name1: Seq<char>,
    name2: Seq<char>,
    hash: Seq<char>,
    size: nat,
    r1: Result<IngestResult, IndexError>,
    r2: Result<IngestResult, IndexError>,
)
    requires
        unique_entries(s0),
        ingested(s0, s1, dir, name1, hash, size, r1),
        ingested(s1, s2, dir, name2, hash, size, r2),
        r1 is Ok,
    ensures
        s2 == s1,
        r2 is Ok,
        r2->Ok_0 is Duplicate,
        answered_id(r2->Ok_0) == answered_id(r1->Ok_0),
        exists|i: int| only_holder(s2, hash, i) && s2[i].id@ == answered_id(r1->Ok_0),
        r1->Ok_0 is Created ==> s2.last().original_name@ == name1,
{
    if has_hash(s0, hash) {
        let i0 = choose|i: int|
            0 <= i < s0.len() && #[trigger] s0[i].content_hash@ == hash && r1->Ok_0->Duplicate_0@
                == s0[i].id@;
        assert(only_holder(s0, hash, i0));
        assert(has_hash(s1, hash));
        let i1 = choose|i: int|
            0 <= i < s1.len() && #[trigger] s1[i].content_hash@ == hash && r2->Ok_0->Duplicate_0@
                == s1[i].id@;
        assert(i1 == i0);
    } else {
        let last = s1.len() - 1;
        assert(s1[last].content_hash@ == hash);
        assert forall|j: int| 0 <= j < s1.len() && #[trigger] s1[j].content_hash@ == hash implies j
            == last by {
            if j < last {
                assert(s0[j] == s1.drop_last()[j]);
            }
        }
        assert(only_holder(s1, hash, last));
        assert(has_hash(s1, hash));
        let i1 = choose|i: int|
            0 <= i < s1.len() && #[trigger] s1[i].content_hash@ == hash && r2->Ok_0->Duplicate_0@
                == s1[i].id@;
        assert(i1 == last);
    }
}

impl FileIndex {
    /// No two entries share a digest or an identifier.
    pub open spec fn wf(&self) -> bool {
        unique_entries(self.entries@)
    }

    /// An empty index.
    pub fn new() -> (r: FileIndex)
        ensures
            r.wf(),
            r.entries@.len() == 0,
    {
        FileIndex { entries: Vec::new() }
    }

    /// An index over entries read back from storage, or `None` where two of
    /// them share a digest or an identifier.
    pub fn from_entries(entries: Vec<FileEntry>) -> (r: Option<FileIndex>)
        ensures
            r is Some <==> unique_entries(entries@),
            r is Some ==> r->Some_0.entries@ == entries@ && r->Some_0.wf(),
    {
        let n = entries.len();
        let mut i: usize = 0;
        while i < n
            invariant
                n == entries@.len(),
                i <= n,
                forall|a: int, b: int|
                    0 <= a < i && 0 <= b < n && a != b ==> #[trigger] apart(entries@[a], entries@[b]),
            decreases n - i,
        {
            let mut j: usize = 0;
            while j < n
                invariant
                    n == entries@.len(),
                    i < n,
                    j <= n,
                    forall|a: int, b: int|
                        0 <= a < i && 0 <= b < n && a != b ==> #[trigger] apart(entries@[a], entries@[b]),
                    forall|b: int| 0 <= b < j && b != i ==> #[trigger] apart(entries@[i as int], entries@[b]),
                decreases n - j,
            {
                if j != i {
                    let same_hash = same_text(
                        entries[i].content_hash.as_str(),
                        entries[j].content_hash.as_str(),
                    );
                    let same_id = same_text(entries[i].id.as_str(), entries[j].id.as_str());
                    if same_hash || same_id {
                        proof {
                            assert(!apart(entries@[i as int], entries@[j as int]));
                            assert(!unique_entries(entries@)) by {
                                if same_hash {
                                    assert(entries@[i as int].content_hash@ == entries@[j as int].content_hash@);
                                } else {
                                    assert(entries@[i as int].id@ == entries@[j as int].id@);
                                }
                            }
                        }
                        return None;
                    }
                    assert(apart(entries@[i as int], entries@[j as int]));
                }
                j = j + 1;
            }
            i = i + 1;
        }
        proof {
            assert forall|a: int, b: int|
                0 <= a < entries@.len() && 0 <= b < entries@.len() && a != b implies {
                &&& #[trigger] entries@[a].content_hash@ != #[trigger] entries@[b].content_hash@
                &&& entries@[a].id@ != entries@[b].id@
            } by {
                assert(apart(entries@[a], entries@[b]));
            }
        }
        Some(FileIndex { entries })
    }

    /// The position of the entry that holds content with digest `hash`.
    pub fn find_by_hash(&self, hash: &str) -> (r: Option<usize>)
        ensures
            match r {
                Some(i) => i < self.entries@.len() && self.entries@[i as int].content_hash@
                    == hash@,
                None => !has_hash(self.entries@, hash@),
            },
    {
        let mut i: usize = 0;
        while i < self.entries.len()
            invariant
                i <= self.entries@.len(),
                forall|j: int| 0 <= j < i ==> #[trigger] self.entries@[j].content_hash@ != hash@,
            decreases self.entries@.len() - i,
        {
            if same_text(self.entries[i].content_hash.as_str(), hash) {
                return Some(i);
            }
            i = i + 1;
        }
        None
    }

    /// The position of the entry with identifier `id`.
    pub fn find_by_id(&self, id: &str) -> (r: Option<usize>)
        ensures
            match r {
                Some(i) => i < self.entries@.len() && self.entries@[i as int].id@ == id@,
                None => !has_id(self.entries@, id@),
            },
    {
        let mut i: usize = 0;
        while i < self.entries.len()
            invariant
                i <= self.entries@.len(),
                forall|j: int| 0 <= j < i ==> #[trigger] self.entries@[j].id@ != id@,
            decreases self.entries@.len() - i,
        {
            if same_text(self.entries[i].id.as_str(), id) {
                return Some(i);
            }
            i = i + 1;
        }
        None
    }

    /// Records `entry` under the index's uniqueness rules. Content that is
    /// already held is reported as a duplicate of the entry that holds it,
    /// also where it is found only at this point; an identifier that is
    /// taken is refused.
    pub fn record(&mut self, entry: FileEntry) -> (r: Result<IngestResult, IndexError>)
        requires
            old(self).wf(),
        ensures
            final(self).wf(),
            has_hash(old(self).entries@, entry.content_hash@) ==> {
                &&& final(self).entries@ == old(self).entries@
                &&& r is Ok
                &&& r->Ok_0 is Duplicate
                &&& exists|i: int|
                    0 <= i < old(self).entries@.len()
                        && #[trigger] old(self).entries@[i].content_hash@ == entry.content_hash@
                        && r->Ok_0->Duplicate_0@ == old(self).entries@[i].id@
            },
            !has_hash(old(self).entries@, entry.content_hash@) && has_id(
                old(self).entries@,
                entry.id@,
            ) ==> {
                &&& final(self).entries@ == old(self).entries@
                &&& r == Err::<IngestResult, IndexError>(IndexError::IdTaken)
            },
            !has_hash(old(self).entries@, entry.content_hash@) && !has_id(
                old(self).entries@,
                entry.id@,
            ) ==> {
                &&& final(self).entries@ == old(self).entries@.push(entry)
                &&& r == Ok::<IngestResult, IndexError>(IngestResult::Created(entry.id))
            },
    {
        match self.find_by_hash(entry.content_hash.as_str()) {
            Some(i) => {
                return Ok(IngestResult::Duplicate(self.entries[i].id.clone()));
            },
            None => {},
        }
        match self.find_by_id(entry.id.as_str()) {
            Some(_) => {
                return Err(IndexError::IdTaken);
            },
            None => {},
        }
        let id = entry.id.clone();
        proof {
            lemma_push_unique(old(self).entries@, entry);
        }
        self.entries.push(entry);
        Ok(IngestResult::Created(id))
    }

    /// The short rows of the `limit` most recently added entries, newest
    /// first.
    pub fn list_recent(&self, limit: usize) -> (r: Vec<FileRow>)
        ensures
            r@.len() == if limit < self.entries@.len() {
                limit as int
            } else {
                self.entries@.len() as int
            },
            forall|k: int|
                0 <= k < r@.len() ==> row_matches_entry(
                    #[trigger] r@[k],
                    self.entries@[self.entries@.len() - 1 - k],
                ),
    {
        let n = self.entries.len();
        let count = if limit < n {
            limit
        } else {
            n
        };
        let mut out: Vec<FileRow> = Vec::new();
        let mut k: usize = 0;
        while k < count
            invariant
                n == self.entries@.len(),
                count <= n,
                k <= count,
                out@.len() == k,
                forall|j: int|
                    0 <= j < k ==> row_matches_entry(#[trigger] out@[j], self.entries@[n - 1 - j]),
            decreases count - k,
        {
            let e = &self.entries[n - 1 - k];
            out.push(FileRow { id: e.id.clone(), file_name: e.original_name.clone(), hash: e.content_hash.clone() });
            k = k + 1;
        }
        out
    }

    /// Gives the entry at position `i` status `st` at time `now`.
    fn restamp_at(&mut self, i: usize, st: FileStatus, now: String)
        requires
            i < old(self).entries@.len(),
        ensures
            final(self).entries@ == old(self).entries@.update(
                i as int,
                restamped(old(self).entries@[i as int], st, now),
            ),
    {
        let mut e = self.entries.remove(i);
        e.status = st;
        e.processed_at = if st == FileStatus::Processed {
            Some(now.clone())
        } else {
            None
        };
        e.updated_at = now;
        self.entries.insert(i, e);
        assert(self.entries@ =~= old(self).entries@.update(
            i as int,
            restamped(old(self).entries@[i as int], st, now),
        ));
    }

    /// Gives the entry with identifier `id` status `st` at time `now`, and
    /// tells whether there was one.
    pub fn update_status_at(&mut self, id: &str, st: FileStatus, now: String) -> (r: bool)
        requires
            old(self).wf(),
        ensures
            final(self).wf(),
            r == has_id(old(self).entries@, id@),
            restamped_one(old(self).entries@, final(self).entries@, id@, st, now),
    {
        let n = self.entries.len();
        let mut found = false;
        let mut i: usize = 0;
        while i < n
            invariant
                n == old(self).entries@.len(),
                i <= n,
                self.entries@.len() == n,
                found == exists|k: int| 0 <= k < i && #[trigger] old(self).entries@[k].id@ == id@,
                forall|k: int|
                    0 <= k < i ==> #[trigger] self.entries@[k] == if old(self).entries@[k].id@
                        == id@ {
                        restamped(old(self).entries@[k], st, now)
                    } else {
                        old(self).entries@[k]
                    },
                forall|k: int| i <= k < n ==> #[trigger] self.entries@[k] == old(self).entries@[k],
            decreases n - i,
        {
            if same_text(self.entries[i].id.as_str(), id) {
                self.restamp_at(i, st, now.clone());
                found = true;
            }
            i = i + 1;
        }
        proof {
            lemma_unique_same_keys(old(self).entries@, self.entries@);
        }
        found
    }

    /// Gives the entry with identifier `id` status `st`, stamped with the
    /// current time, and tells whether there was one.
    pub fn update_status(&mut self, id: &str, st: FileStatus) -> (r: bool)
        requires
            old(self).wf(),
        ensures
            final(self).wf(),
            r == has_id(old(self).entries@, id@),
            exists|now: String| restamped_one(old(self).entries@, final(self).entries@, id@, st, now),
    {
        let now = current_timestamp();
        self.update_status_at(id, st, now)
    }

    /// Gives every entry whose identifier is listed status `st` at time
    /// `now`, all in one step; an empty list changes nothing.
    pub fn update_status_bulk_at(&mut self, ids: &Vec<String>, st: FileStatus, now: String)
        requires
            old(self).wf(),
        ensures
            final(self).wf(),
            restamped_listed(old(self).entries@, final(self).entries@, ids@, st, now),
            ids@.len() == 0 ==> final(self).entries@ == old(self).entries@,
    {
        let n = self.entries.len();
        let mut i: usize = 0;
        while i < n
            invariant
                n == old(self).entries@.len(),
                i <= n,
                self.entries@.len() == n,
                forall|k: int|
                    0 <= k < i ==> #[trigger] self.entries@[k] == if listed(
                        ids@,
                        old(self).entries@[k].id@,
                    ) {
                        restamped(old(self).entries@[k], st, now)
                    } else {
                        old(self).entries@[k]
                    },
                forall|k: int| i <= k < n ==> #[trigger] self.entries@[k] == old(self).entries@[k],
            decreases n - i,
        {
            if is_listed(ids, self.entries[i].id.as_str()) {
                self.restamp_at(i, st, now.clone());
            }
            i = i + 1;
        }
        proof {
            lemma_unique_same_keys(old(self).entries@, self.entries@);
            if ids@.len() == 0 {
                assert(self.entries@ =~= old(self).entries@);
            }
        }
    }

    /// Gives every entry whose identifier is listed status `st`, stamped
    /// with the current time; an empty list changes nothing.
    pub fn update_status_bulk(&mut self, ids: &Vec<String>, st: FileStatus)
        requires
            old(self).wf(),
        ensures
            final(self).wf(),
            exists|now: String|
                restamped_listed(old(self).entries@, final(self).entries@, ids@, st, now),
            ids@.len() == 0 ==> final(self).entries@ == old(self).entries@,
    {
        let now = current_timestamp();
        self.update_status_bulk_at(ids, st, now);
    }

    /// Attaches a parsed payload to the entry with identifier `id` at time
    /// `now`, and tells whether there was one.
    pub fn attach_parsed_payload_at(&mut self, id: &str, payload: String, now: String) -> (r: bool)
        requires
            old(self).wf(),
        ensures
            final(self).wf(),
            r == has_id(old(self).entries@, id@),
            !r ==> final(self).entries@ == old(self).entries@,
            r ==> exists|i: int|
                0 <= i < old(self).entries@.len() && #[trigger] old(self).entries@[i].id@ == id@
                    && final(self).entries@ == old(self).entries@.update(
                    i,
                    FileEntry { parsed_payload: Some(payload), updated_at: now, ..old(self).entries@[i] },
                ),
    {
        match self.find_by_id(id) {
            None => false,
            Some(i) => {
                let mut e = self.entries.remove(i);
                e.parsed_payload = Some(payload);
                e.updated_at = now;
                self.entries.insert(i, e);
                let ghost o = old(self).entries@;
                assert(self.entries@ =~= o.update(
                    i as int,
                    FileEntry { parsed_payload: Some(payload), updated_at: now, ..o[i as int] },
                ));
                proof {
                    lemma_unique_same_keys(o, self.entries@);
                }
                true
            },
        }
    }

    /// Attaches a parsed payload to the entry with identifier `id`, stamped
    /// with the current time, and tells whether there was one.
    pub fn attach_parsed_payload(&mut self, id: &str, payload: String) -> (r: bool)
        requires
            old(self).wf(),
        ensures
            final(self).wf(),
            r == has_id(old(self).entries@, id@),
            !r ==> final(self).entries@ == old(self).entries@,
            r ==> exists|i: int|
                0 <= i < old(self).entries@.len() && #[trigger] old(self).entries@[i].id@ == id@
                    && final(self).entries@ == old(self).entries@.update(
                    i,
                    FileEntry {
                        parsed_payload: Some(payload),
                        updated_at: final(self).entries@[i].updated_at,
                        ..old(self).entries@[i]
                    },
                ),
    {
        let now = current_timestamp();
        self.attach_parsed_payload_at(id, payload, now)
    }

    /// Removes the entries whose identifiers are listed and hands back their
    /// stored paths, in index order, for the content to be deleted.
    pub fn delete_files(&mut self, ids: &Vec<String>) -> (r: Vec<String>)
        requires
            old(self).wf(),
        ensures
            final(self).wf(),
            final(self).entries@ == kept_after_delete(old(self).entries@, ids@),
            r@ == deleted_paths(old(self).entries@, ids@),
    {
        let mut rest: Vec<FileEntry> = Vec::new();
        std::mem::swap(&mut rest, &mut self.entries);
        let ghost orig = rest@;
        let ghost mut src: Seq<int> = Seq::empty();
        let n = rest.len();
        let mut paths: Vec<String> = Vec::new();
        let mut k: usize = 0;
        assert(orig.subrange(0, n as int) == orig);
        assert(orig.take(0) =~= Seq::<FileEntry>::empty());
        while k < n
            invariant
                n == orig.len(),
                k <= n,
                unique_entries(orig),
                rest@ == orig.subrange(k as int, n as int),
                self.entries@ == kept_after_delete(orig.take(k as int), ids@),
                paths@ == deleted_paths(orig.take(k as int), ids@),
                src.len() == self.entries@.len(),
                forall|i: int|
                    0 <= i < src.len() ==> 0 <= #[trigger] src[i] < k && self.entries@[i]
                        == orig[src[i]],
                forall|i: int, j: int| 0 <= i < j < src.len() ==> #[trigger] src[i] < #[trigger] src[j],
            decreases n - k,
        {
            assert(orig.take(k + 1).drop_last() == orig.take(k as int));
            let e = rest.remove(0);
            assert(e == orig[k as int]);
            assert(rest@ == orig.subrange(k + 1, n as int));
            if is_listed(ids, e.id.as_str()) {
                paths.push(e.stored_path);
            } else {
                self.entries.push(e);
                proof {
                    src = src.push(k as int);
                }
            }
            k = k + 1;
        }
        assert(orig.take(n as int) == orig);
        proof {
            let f = self.entries@;
            assert forall|i: int, j: int|
                0 <= i < f.len() && 0 <= j < f.len() && i != j implies {
                &&& #[trigger] f[i].content_hash@ != #[trigger] f[j].content_hash@
                &&& f[i].id@ != f[j].id@
            } by {
                if i < j {
                    assert(src[i] < src[j]);
                } else {
                    assert(src[j] < src[i]);
                }
                assert(orig[src[i]].content_hash@ != orig[src[j]].content_hash@);
            }
        }
        paths
    }

    /// Ingests content whose digest is `hash` and whose fresh identifier is
    /// `id`, arriving as `name` at time `now`, to be stored in `dir`.
    pub fn ingest_hashed(
        &mut self,
        dir: &str,
        name: &str,
        hash: String,
        size: u64,
        id: String,
        now: String,
    ) -> (r: Result<IngestResult, IndexError>)
        requires
            old(self).wf(),
        ensures
            final(self).wf(),
            ingested(old(self).entries@, final(self).entries@, dir@, name@, hash@, size as nat, r),
            !has_hash(old(self).entries@, hash@) && !has_id(old(self).entries@, id@) ==> {
                &&& r is Ok
                &&& final(self).entries@.last().id@ == id@
            },
    {
        let ghost h = hash@;
        let file_name = stored_file_name(id.as_str(), name);
        let stored_path = join_path(dir, file_name.as_str());
        let entry = FileEntry {
            id,
            content_hash: hash,
            original_name: text_of(name),
            stored_path,
            size_bytes: size,
            mime_type: None,
            status: FileStatus::Unprocessed,
            parsed_payload: None,
            created_at: now.clone(),
            processed_at: None,
            updated_at: now,
        };
        let r = self.record(entry);
        proof {
            if !has_hash(old(self).entries@, h) && !has_id(old(self).entries@, entry.id@) {
                assert(self.entries@.drop_last() == old(self).entries@);
            }
        }
        r
    }

    /// Ingests `bytes` arriving as `name`, to be stored in `dir`: content
    /// already held is reported as a duplicate of the entry that holds it,
    /// and nothing is added; other content gets a fresh entry.
    pub fn ingest(&mut self, dir: &str, name: &str, bytes: &[u8]) -> (r: Result<
        IngestResult,
        IndexError,
    >)
        requires
            old(self).wf(),
        ensures
            final(self).wf(),
            ingested(
                old(self).entries@,
                final(self).entries@,
                dir@,
                name@,
                blake3_hex(bytes@),
                bytes@.len(),
                r,
            ),
    {
        let hash = FileHasher::calculate_hash(bytes);
        match self.find_by_hash(hash.as_str()) {
            Some(i) => {
                return Ok(IngestResult::Duplicate(self.entries[i].id.clone()));
            },
            None => {},
        }
        let id = new_file_id();
        let now = current_timestamp();
        self.ingest_hashed(dir, name, hash, bytes.len() as u64, id, now)
    }
}

/// Looks up and records file metadata in an index.
pub struct FileMetadata;

impl FileMetadata {
    /// The identifier of the entry that holds content with digest `hash`.
    pub fn check_duplicate(index: &FileIndex, hash: &str) -> (r: Option<String>)
        ensures
            r is None <==> !has_hash(index.entries@, hash@),
            r is Some ==> exists|i: int|
                0 <= i < index.entries@.len() && #[trigger] index.entries@[i].content_hash@ == hash@
                    && r->Some_0@ == index.entries@[i].id@,
    {
        match index.find_by_hash(hash) {
            Some(i) => Some(index.entries[i].id.clone()),
            None => None,
        }
    }

    /// Records an unprocessed entry for content stored at `stored_path`,
    /// under the index's uniqueness rules.
    pub fn save_metadata(
        index: &mut FileIndex,
        id: &str,
        hash: &str,
        file_name: &str,
        stored_path: &str,
        size: u64,
        now: &str,
    ) -> (r: Result<IngestResult, IndexError>)
        requires
            old(index).wf(),
        ensures
            final(index).wf(),
            has_hash(old(index).entries@, hash@) ==> {
                &&& final(index).entries@ == old(index).entries@
                &&& r is Ok
                &&& r->Ok_0 is Duplicate
            },
            !has_hash(old(index).entries@, hash@) && has_id(old(index).entries@, id@) ==> {
                &&& final(index).entries@ == old(index).entries@
                &&& r == Err::<IngestResult, IndexError>(IndexError::IdTaken)
            },
            !has_hash(old(index).entries@, hash@) && !has_id(old(index).entries@, id@) ==> {
                &&& r is Ok
                &&& r->Ok_0 is Created
                &&& r->Ok_0->Created_0@ == id@
                &&& final(index).entries@.len() == old(index).entries@.len() + 1
                &&& final(index).entries@.drop_last() == old(index).entries@
                &&& final(index).entries@.last().id@ == id@
                &&& final(index).entries@.last().content_hash@ == hash@
                &&& final(index).entries@.last().original_name@ == file_name@
                &&& final(index).entries@.last().stored_path@ == stored_path@
                &&& final(index).entries@.last().size_bytes == size
                &&& final(index).entries@.last().status == FileStatus::Unprocessed
            },
    {
        let entry = FileEntry {
            id: text_of(id),
            content_hash: text_of(hash),
            original_name: text_of(file_name),
            stored_path: text_of(stored_path),
            size_bytes: size,
            mime_type: None,
            status: FileStatus::Unprocessed,
            parsed_payload: None,
            created_at: text_of(now),
            processed_at: None,
            updated_at: text_of(now),
        };
        let r = index.record(entry);
        proof {
            if !has_hash(old(index).entries@, hash@) && !has_id(old(index).entries@, id@) {
                assert(index.entries@.drop_last() == old(index).entries@);
            }
        }
        r
    }
}

/// Places content in the content store.
pub struct FileStorage;

impl FileStorage {
    /// Where content with identifier `id` that arrived as `file_name` is
    /// stored inside `dir`: the identifier, with the original extension
    /// where there is one.
    pub fn stored_path(dir: &str, id: &str, file_name: &str) -> (r: String)
        ensures
            r@ == joined(dir@, stored_name(id@, file_name@)),
    {
        let name = stored_file_name(id, file_name);
        join_path(dir, name.as_str())
    }
}

} // verus!
