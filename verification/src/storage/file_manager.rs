//! The metadata table of finalized files and the collision-free name
//! allocator.
//!
//! A finalized file is described by one `FileRecord`. The table keeps
//! records unique by id and by stored name, ordered by upload time newest
//! first, and maintains the running total of stored bytes, so listing,
//! lookup, statistics and deletion have exact contracts.

use vstd::prelude::*;
use crate::error::ServerError;
use crate::ids::fresh_token;
use crate::ids::is_token_char;

verus! {

/// One finalized file: identifiers and names, size and type, upload time in
/// milliseconds since the Unix epoch, and the video fields that stay empty
/// until an out-of-band video pass fills them.
#[derive(Debug)]
pub struct FileRecord {
    pub id: String,
    pub original_name: String,
    pub stored_name: String,
    pub file_path: String,
    pub file_size: u64,
    pub mime_type: String,
    pub upload_time: i64,
    pub is_video: bool,
    pub thumbnail_path: Option<String>,
    pub video_duration: Option<i32>,
    pub video_resolution: Option<String>,
}

impl FileRecord {
    /// An exact copy of the record.
    pub fn duplicate(&self) -> (r: FileRecord)
        ensures
            r == *self,
    {
        FileRecord {
            id: self.id.clone(),
            original_name: self.original_name.clone(),
            stored_name: self.stored_name.clone(),
            file_path: self.file_path.clone(),
            file_size: self.file_size,
            mime_type: self.mime_type.clone(),
            upload_time: self.upload_time,
            is_video: self.is_video,
            thumbnail_path: match &self.thumbnail_path {
                Some(s) => Some(s.clone()),
                None => None,
            },
            video_duration: self.video_duration,
            video_resolution: match &self.video_resolution {
                Some(s) => Some(s.clone()),
                None => None,
            },
        }
    }
}

/// Aggregate statistics over the table.
pub struct FileStats {
    pub total_files: u64,
    pub total_size: u64,
    pub video_count: u64,
}

pub open spec fn unique_ids(s: Seq<FileRecord>) -> bool {
    forall|i: int, j: int|
        0 <= i < j < s.len() ==> (#[trigger] s[i]).id@ != (#[trigger] s[j]).id@
}

pub open spec fn unique_stored_names(s: Seq<FileRecord>) -> bool {
    forall|i: int, j: int|
        0 <= i < j < s.len() ==> (#[trigger] s[i]).stored_name@ != (#[trigger] s[j]).stored_name@
}

/// Newest first: upload times never increase along the table.
pub open spec fn sorted_by_time(s: Seq<FileRecord>) -> bool {
    forall|i: int, j: int|
        0 <= i < j < s.len() ==> (#[trigger] s[i]).upload_time >= (#[trigger] s[j]).upload_time
}

pub open spec fn has_file_id(s: Seq<FileRecord>, id: Seq<char>) -> bool {
    exists|i: int| 0 <= i < s.len() && (#[trigger] s[i]).id@ == id
}

pub open spec fn record_idx(s: Seq<FileRecord>, id: Seq<char>) -> int {
    choose|i: int| 0 <= i < s.len() && (#[trigger] s[i]).id@ == id
}

pub open spec fn has_stored_name(s: Seq<FileRecord>, name: Seq<char>) -> bool {
    exists|i: int| 0 <= i < s.len() && (#[trigger] s[i]).stored_name@ == name
}

/// With unique ids, the record found at index `i` is the one every id-based
/// spec speaks of.
pub proof fn lemma_id_found(s: Seq<FileRecord>, id: Seq<char>, i: int)
    requires
        unique_ids(s),
        0 <= i < s.len(),
        s[i].id@ == id,
    ensures
        has_file_id(s, id),
        record_idx(s, id) == i,
{
    assert(has_file_id(s, id));
    let j = record_idx(s, id);
    if j != i {
        assert(false);
    }
}

/// The total byte size of the records.
pub open spec fn sum_sizes(s: Seq<FileRecord>) -> int
    decreases s.len(),
{
    if s.len() == 0 {
        0
    } else {
        sum_sizes(s.drop_last()) + s.last().file_size
    }
}

/// How many of the records are videos.
pub open spec fn count_videos(s: Seq<FileRecord>) -> int
    decreases s.len(),
{
    if s.len() == 0 {
        0
    } else {
        count_videos(s.drop_last()) + if s.last().is_video {
            1int
        } else {
            0int
        }
    }
}

pub proof fn lemma_sum_concat(a: Seq<FileRecord>, b: Seq<FileRecord>)
    ensures
        sum_sizes(a + b) == sum_sizes(a) + sum_sizes(b),
    decreases b.len(),
{
    if b.len() == 0 {
        assert(a + b =~= a);
    } else {
        assert((a + b).drop_last() =~= a + b.drop_last());
        assert((a + b).last() == b.last());
        lemma_sum_concat(a, b.drop_last());
    }
}

pub proof fn lemma_count_concat(a: Seq<FileRecord>, b: Seq<FileRecord>)
    ensures
        count_videos(a + b) == count_videos(a) + count_videos(b),
    decreases b.len(),
{
    if b.len() == 0 {
        assert(a + b =~= a);
    } else {
        assert((a + b).drop_last() =~= a + b.drop_last());
        assert((a + b).last() == b.last());
        lemma_count_concat(a, b.drop_last());
    }
}

pub proof fn lemma_sum_nonneg(s: Seq<FileRecord>)
    ensures
        sum_sizes(s) >= 0,
    decreases s.len(),
{
    if s.len() > 0 {
        lemma_sum_nonneg(s.drop_last());
    }
}

pub proof fn lemma_totals_singleton(r: FileRecord)
    ensures
        sum_sizes(seq![r]) == r.file_size,
        count_videos(seq![r]) == if r.is_video {
            1int
        } else {
            0int
        },
{
    assert(seq![r].drop_last() =~= Seq::<FileRecord>::empty());
    assert(seq![r].last() == r);
    assert(sum_sizes(Seq::<FileRecord>::empty()) == 0);
    assert(count_videos(Seq::<FileRecord>::empty()) == 0);
}

/// The effect on the totals of inserting one record at position `p`.
pub proof fn lemma_totals_insert(s: Seq<FileRecord>, p: int, r: FileRecord)
    requires
        0 <= p <= s.len(),
    ensures
        sum_sizes(s.insert(p, r)) == sum_sizes(s) + r.file_size,
        count_videos(s.insert(p, r)) == count_videos(s) + if r.is_video {
            1int
        } else {
            0int
        },
{
    let pre = s.subrange(0, p);
    let suf = s.subrange(p, s.len() as int);
    assert(s =~= pre + suf);
    assert(s.insert(p, r) =~= pre + seq![r] + suf);
    lemma_totals_singleton(r);
    lemma_sum_concat(pre, suf);
    lemma_sum_concat(pre + seq![r], suf);
    lemma_sum_concat(pre, seq![r]);
    lemma_count_concat(pre, suf);
    lemma_count_concat(pre + seq![r], suf);
    lemma_count_concat(pre, seq![r]);
}

/// The effect on the totals of removing the record at position `p`.
pub proof fn lemma_totals_remove(s: Seq<FileRecord>, p: int)
    requires
        0 <= p < s.len(),
    ensures
        sum_sizes(s.remove(p)) == sum_sizes(s) - s[p].file_size,
        count_videos(s.remove(p)) == count_videos(s) - if s[p].is_video {
            1int
        } else {
            0int
        },
{
    let pre = s.subrange(0, p);
    let suf = s.subrange(p + 1, s.len() as int);
    assert(s =~= pre + seq![s[p]] + suf);
    assert(s.remove(p) =~= pre + suf);
    lemma_totals_singleton(s[p]);
    lemma_sum_concat(pre, suf);
    lemma_sum_concat(pre + seq![s[p]], suf);
    lemma_sum_concat(pre, seq![s[p]]);
    lemma_count_concat(pre, suf);
    lemma_count_concat(pre + seq![s[p]], suf);
    lemma_count_concat(pre, seq![s[p]]);
}

/// Whether the name contains a dot at all.
pub open spec fn has_dot(s: Seq<char>) -> bool {
    exists|p: int| 0 <= p < s.len() && s[p] == '.'
}

/// The position of the last dot (meaningful only when one exists).
pub open spec fn last_dot(s: Seq<char>) -> int {
    choose|p: int|
        0 <= p < s.len() && s[p] == '.' && (forall|q: int| p < q < s.len() ==> s[q] != '.')
}

/// A position that is a dot with no later dot is the last dot.
pub proof fn lemma_last_dot_at(s: Seq<char>, p: int)
    requires
        0 <= p < s.len(),
        s[p] == '.',
        forall|q: int| p < q < s.len() ==> s[q] != '.',
    ensures
        has_dot(s),
        last_dot(s) == p,
{
    assert(has_dot(s));
    let p2 = last_dot(s);
    if p2 != p {
        if p2 < p {
            assert(s[p] != '.');
        } else {
            assert(s[p2] != '.');
        }
        assert(false);
    }
}

/// Whether storing keeps an extension: there is a dot, and it is neither
/// the leading character (a hidden file has no extension) nor the last (an
/// empty extension is dropped).
pub open spec fn keeps_ext(s: Seq<char>) -> bool {
    has_dot(s) && 0 < last_dot(s) < s.len() - 1
}

/// The extension: everything after the last dot.
pub open spec fn ext_of(s: Seq<char>) -> Seq<char> {
    s.subrange(last_dot(s) + 1, s.len() as int)
}

/// One page of a listing: up to `limit` records starting at `offset`,
/// clipped to the table.
pub open spec fn page_of(rows: Seq<FileRecord>, limit: int, offset: int) -> Seq<FileRecord>
    recommends
        limit >= 1,
        offset >= 0,
{
    let lo = if offset > rows.len() {
        rows.len() as int
    } else {
        offset
    };
    let hi = if offset + limit > rows.len() {
        rows.len() as int
    } else {
        offset + limit
    };
    rows.subrange(lo, if hi < lo { lo } else { hi })
}

/// The metadata table, plus the storage root and database location it was
/// opened with. Records are unique by id and stored name and ordered newest
/// first; `total_size` carries the byte total of all records.
pub struct FileManager {
    pub rows: Vec<FileRecord>,
    pub storage_path: String,
    pub database_url: String,
    pub total_size: u64,
}

impl FileManager {
    pub open spec fn wf(self) -> bool {
        &&& unique_ids(self.rows@)
        &&& unique_stored_names(self.rows@)
        &&& sorted_by_time(self.rows@)
        &&& self.total_size as int == sum_sizes(self.rows@)
    }

    /// An empty table for the given database location and storage root.
    pub fn new(database_url: &str, storage_path: String) -> (r: Result<FileManager, ServerError>)
        ensures
            r is Ok,
            r->Ok_0.wf(),
            r->Ok_0.rows@.len() == 0,
            r->Ok_0.storage_path@ == storage_path@,
            r->Ok_0.database_url@ == database_url@,
    {
        let m = FileManager {
            rows: Vec::new(),
            storage_path,
            database_url: database_url.to_owned(),
            total_size: 0,
        };
        Ok(m)
    }

    /// Prepares the table for use. The in-memory table needs no setup, so
    /// this always succeeds; a runtime shell creates directories and
    /// database tables before forwarding to this core.
    pub fn init(&self) -> (r: Result<(), ServerError>)
        ensures
            r is Ok,
    {
        Ok(())
    }

    /// Inserts a finalized record. Fails with `Conflict` exactly when the id
    /// or the stored name is already taken, and with `Validation` when the
    /// byte total would no longer fit; otherwise the record enters the table
    /// at its place in newest-first order.
    pub fn save_file_record(&mut self, record: &FileRecord) -> (r: Result<(), ServerError>)
        requires
            old(self).wf(),
        ensures
            final(self).wf(),
            final(self).storage_path == old(self).storage_path,
            final(self).database_url == old(self).database_url,
            (has_file_id(old(self).rows@, record.id@) || has_stored_name(
                old(self).rows@,
                record.stored_name@,
            )) <==> (r is Err && r->Err_0 is Conflict),
            r is Err ==> *final(self) == *old(self),
            (!has_file_id(old(self).rows@, record.id@) && !has_stored_name(
                old(self).rows@,
                record.stored_name@,
            ) && sum_sizes(old(self).rows@) + record.file_size > u64::MAX) <==> (r is Err
                && r->Err_0 is Validation),
            r is Ok <==> (!has_file_id(old(self).rows@, record.id@) && !has_stored_name(
                old(self).rows@,
                record.stored_name@,
            ) && sum_sizes(old(self).rows@) + record.file_size <= u64::MAX),
            r is Ok ==> {
                &&& exists|p: int|
                    0 <= p <= old(self).rows@.len() && final(self).rows@ == #[trigger] old(
                        self,
                    ).rows@.insert(p, *record) && (forall|k: int|
                        0 <= k < p ==> (#[trigger] old(self).rows@[k]).upload_time
                            > record.upload_time) && (p == old(self).rows@.len() || old(
                        self,
                    ).rows@[p].upload_time <= record.upload_time)
                &&& final(self).rows@.len() == old(self).rows@.len() + 1
                &&& forall|m: Seq<char>|
                    #[trigger] has_file_id(final(self).rows@, m) <==> (has_file_id(
                        old(self).rows@,
                        m,
                    ) || m == record.id@)
                &&& forall|m: Seq<char>|
                    #[trigger] has_stored_name(final(self).rows@, m) <==> (has_stored_name(
                        old(self).rows@,
                        m,
                    ) || m == record.stored_name@)
                &&& sum_sizes(final(self).rows@) == sum_sizes(old(self).rows@)
                    + record.file_size
                &&& count_videos(final(self).rows@) == count_videos(old(self).rows@) + if record.is_video {
                    1int
                } else {
                    0int
                }
            },
    {
        let n = self.rows.len();
        let mut i: usize = 0;
        while i < n
            invariant
                *self == *old(self),
                self.wf(),
                n == self.rows@.len(),
                0 <= i <= n,
                forall|k: int| 0 <= k < i ==> (#[trigger] self.rows@[k]).id@ != record.id@,
                forall|k: int|
                    0 <= k < i ==> (#[trigger] self.rows@[k]).stored_name@
                        != record.stored_name@,
            decreases n - i,
        {
            if self.rows[i].id == record.id {
                proof {
                    assert(has_file_id(self.rows@, record.id@));
                }
                return Err(ServerError::Conflict {
                    message: String::from_str("a record with this id already exists"),
                });
            }
            if self.rows[i].stored_name == record.stored_name {
                proof {
                    assert(has_stored_name(self.rows@, record.stored_name@));
                }
                return Err(ServerError::Conflict {
                    message: String::from_str("a record with this stored name already exists"),
                });
            }
            i = i + 1;
        }
        if record.file_size > u64::MAX - self.total_size {
            return Err(ServerError::Validation {
                message: String::from_str("total stored size would overflow"),
            });
        }
        let ghost orig = self.rows@;
        let mut pos: usize = 0;
        while pos < n && self.rows[pos].upload_time > record.upload_time
            invariant
                *self == *old(self),
                self.rows@ == orig,
                n == orig.len(),
                0 <= pos <= n,
                forall|k: int|
                    0 <= k < pos ==> (#[trigger] orig[k]).upload_time > record.upload_time,
            decreases n - pos,
        {
            pos = pos + 1;
        }
        self.rows.insert(pos, record.duplicate());
        self.total_size = self.total_size + record.file_size;
        proof {
            let p = pos as int;
            assert(self.rows@ =~= orig.insert(p, *record));
            lemma_totals_insert(orig, p, *record);
            // uniqueness and order survive the insertion
            assert forall|a: int, b: int|
                0 <= a < b < self.rows@.len() implies ((#[trigger] self.rows@[a]).id@
                != (#[trigger] self.rows@[b]).id@ && self.rows@[a].stored_name@
                != self.rows@[b].stored_name@ && self.rows@[a].upload_time
                >= self.rows@[b].upload_time) by {
                let aa = if a < p { a } else { a - 1 };
                let bb = if b < p { b } else { b - 1 };
                if a != p && b != p {
                    assert(self.rows@[a] == orig[aa] && self.rows@[b] == orig[bb]);
                } else if a == p {
                    assert(self.rows@[b] == orig[bb]);
                    assert(bb >= p);
                } else {
                    assert(self.rows@[a] == orig[aa]);
                    assert(aa < p);
                }
            }
            assert forall|m: Seq<char>| #[trigger] has_file_id(self.rows@, m) <==> (has_file_id(
                orig,
                m,
            ) || m == record.id@) by {
                if has_file_id(orig, m) {
                    let k = choose|k: int| 0 <= k < orig.len() && (#[trigger] orig[k]).id@ == m;
                    let kk = if k < p { k } else { k + 1 };
                    assert(self.rows@[kk] == orig[k]);
                } else if m == record.id@ {
                    assert(self.rows@[p].id@ == m);
                } else if has_file_id(self.rows@, m) {
                    let k = choose|k: int|
                        0 <= k < self.rows@.len() && (#[trigger] self.rows@[k]).id@ == m;
                    if k != p {
                        let kk = if k < p { k } else { k - 1 };
                        assert(orig[kk].id@ == m);
                    }
                    assert(false);
                }
            }
            assert forall|m: Seq<char>| #[trigger] has_stored_name(self.rows@, m)
                <==> (has_stored_name(orig, m) || m == record.stored_name@) by {
                if has_stored_name(orig, m) {
                    let k = choose|k: int|
                        0 <= k < orig.len() && (#[trigger] orig[k]).stored_name@ == m;
                    let kk = if k < p { k } else { k + 1 };
                    assert(self.rows@[kk] == orig[k]);
                } else if m == record.stored_name@ {
                    assert(self.rows@[p].stored_name@ == m);
                } else if has_stored_name(self.rows@, m) {
                    let k = choose|k: int|
                        0 <= k < self.rows@.len() && (#[trigger] self.rows@[k]).stored_name@
                            == m;
                    if k != p {
                        let kk = if k < p { k } else { k - 1 };
                        assert(orig[kk].stored_name@ == m);
                    }
                    assert(false);
                }
            }
        }
        Ok(())
    }

    /// Looks up a record by id; `None` (not an error) when absent.
    pub fn get_file_by_id(&self, file_id: &String) -> (r: Result<
        Option<FileRecord>,
        ServerError,
    >)
        requires
            self.wf(),
        ensures
            r is Ok,
            match r->Ok_0 {
                Some(rec) => has_file_id(self.rows@, file_id@) && rec == self.rows@[record_idx(
                    self.rows@,
                    file_id@,
                )],
                None => !has_file_id(self.rows@, file_id@),
            },
    {
        let n = self.rows.len();
        let mut i: usize = 0;
        while i < n
            invariant
                self.wf(),
                n == self.rows@.len(),
                0 <= i <= n,
                forall|k: int| 0 <= k < i ==> (#[trigger] self.rows@[k]).id@ != file_id@,
            decreases n - i,
        {
            if self.rows[i].id == *file_id {
                proof {
                    lemma_id_found(self.rows@, file_id@, i as int);
                }
                return Ok(Some(self.rows[i].duplicate()));
            }
            i = i + 1;
        }
        Ok(None)
    }

    /// One page of the table, newest first. `limit` defaults to 50 and must
    /// be positive when given; `offset` defaults to 0 and must not be
    /// negative. A request outside those bounds is rejected with
    /// `Validation`.
    pub fn list_files(&self, limit: Option<i32>, offset: Option<i32>) -> (r: Result<
        Vec<FileRecord>,
        ServerError,
    >)
        requires
            self.wf(),
        ensures
            r is Ok <==> ((match limit {
                Some(l) => l >= 1,
                None => true,
            }) && (match offset {
                Some(o) => o >= 0,
                None => true,
            })),
            r is Err ==> r->Err_0 is Validation,
            r is Ok ==> r->Ok_0@ == page_of(
                self.rows@,
                match limit {
                    Some(l) => l as int,
                    None => 50int,
                },
                match offset {
                    Some(o) => o as int,
                    None => 0int,
                },
            ),
    {
        let l: i32 = match limit {
            Some(l) => l,
            None => 50,
        };
        let o: i32 = match offset {
            Some(o) => o,
            None => 0,
        };
        if l < 1 {
            return Err(ServerError::Validation {
                message: String::from_str("limit must be positive"),
            });
        }
        if o < 0 {
            return Err(ServerError::Validation {
                message: String::from_str("offset must not be negative"),
            });
        }
        let n = self.rows.len();
        let start: usize = if o as usize > n {
            n
        } else {
            o as usize
        };
        let end: usize = if l as usize > n - start {
            n
        } else {
            start + l as usize
        };
        let mut out: Vec<FileRecord> = Vec::new();
        let mut k = start;
        while k < end
            invariant
                self.wf(),
                n == self.rows@.len(),
                start <= k <= end <= n,
                out@.len() == k - start,
                forall|j: int| 0 <= j < out@.len() ==> out@[j] == self.rows@[start + j],
            decreases end - k,
        {
            let rec = self.rows[k].duplicate();
            out.push(rec);
            k = k + 1;
        }
        proof {
            assert(out@ =~= page_of(
                self.rows@,
                match limit {
                    Some(l) => l as int,
                    None => 50int,
                },
                match offset {
                    Some(o) => o as int,
                    None => 0int,
                },
            ));
        }
        Ok(out)
    }

    /// Deletes the row with this id; says whether one existed. Only the row
    /// is touched: removing the file on disk is its owner's concern.
    pub fn delete_file(&mut self, file_id: &String) -> (r: Result<bool, ServerError>)
        requires
            old(self).wf(),
        ensures
            final(self).wf(),
            final(self).storage_path == old(self).storage_path,
            final(self).database_url == old(self).database_url,
            r is Ok,
            r->Ok_0 == has_file_id(old(self).rows@, file_id@),
            !r->Ok_0 ==> *final(self) == *old(self),
            r->Ok_0 ==> {
                &&& final(self).rows@ == old(self).rows@.remove(
                    record_idx(old(self).rows@, file_id@),
                )
                &&& !has_file_id(final(self).rows@, file_id@)
                &&& forall|m: Seq<char>|
                    m != file_id@ ==> (#[trigger] has_file_id(final(self).rows@, m)
                        == has_file_id(old(self).rows@, m))
                &&& forall|m: Seq<char>|
                    m != old(self).rows@[record_idx(old(self).rows@, file_id@)].stored_name@
                        ==> (#[trigger] has_stored_name(final(self).rows@, m)
                        == has_stored_name(old(self).rows@, m))
                &&& !has_stored_name(
                    final(self).rows@,
                    old(self).rows@[record_idx(old(self).rows@, file_id@)].stored_name@,
                )
                &&& sum_sizes(final(self).rows@) == sum_sizes(old(self).rows@) - old(
                    self,
                ).rows@[record_idx(old(self).rows@, file_id@)].file_size
                &&& count_videos(final(self).rows@) == count_videos(old(self).rows@) - if old(
                    self,
                ).rows@[record_idx(old(self).rows@, file_id@)].is_video {
                    1int
                } else {
                    0int
                }
            },
    {
        let n = self.rows.len();
        let mut i: usize = 0;
        while i < n
            invariant
                *self == *old(self),
                self.wf(),
                n == self.rows@.len(),
                0 <= i <= n,
                forall|k: int| 0 <= k < i ==> (#[trigger] self.rows@[k]).id@ != file_id@,
            decreases n - i,
        {
            if self.rows[i].id == *file_id {
                let ghost orig = self.rows@;
                let ghost gi = i as int;
                proof {
                    lemma_id_found(orig, file_id@, gi);
                    lemma_totals_remove(orig, gi);
                    lemma_sum_nonneg(orig.remove(gi));
                }
                let removed_size = self.rows[i].file_size;
                self.rows.remove(i);
                self.total_size = self.total_size - removed_size;
                proof {
                    assert(self.rows@ =~= orig.remove(gi));
                    assert forall|a: int, b: int|
                        0 <= a < b < self.rows@.len() implies ((#[trigger] self.rows@[a]).id@
                        != (#[trigger] self.rows@[b]).id@ && self.rows@[a].stored_name@
                        != self.rows@[b].stored_name@ && self.rows@[a].upload_time
                        >= self.rows@[b].upload_time) by {
                        let aa = if a < gi { a } else { a + 1 };
                        let bb = if b < gi { b } else { b + 1 };
                        assert(self.rows@[a] == orig[aa] && self.rows@[b] == orig[bb]);
                    }
                    assert forall|m: Seq<char>|
                        m != file_id@ implies (#[trigger] has_file_id(self.rows@, m)
                        == has_file_id(orig, m)) by {
                        if has_file_id(orig, m) {
                            let k = choose|k: int|
                                0 <= k < orig.len() && (#[trigger] orig[k]).id@ == m;
                            assert(k != gi);
                            let kk = if k < gi { k } else { k - 1 };
                            assert(self.rows@[kk] == orig[k]);
                        } else if has_file_id(self.rows@, m) {
                            let k = choose|k: int|
                                0 <= k < self.rows@.len() && (#[trigger] self.rows@[k]).id@
                                    == m;
                            let kk = if k < gi { k } else { k + 1 };
                            assert(orig[kk].id@ == m);
                            assert(false);
                        }
                    }
                    if has_file_id(self.rows@, file_id@) {
                        let k = choose|k: int|
                            0 <= k < self.rows@.len() && (#[trigger] self.rows@[k]).id@
                                == file_id@;
                        let kk = if k < gi { k } else { k + 1 };
                        assert(orig[kk].id@ == file_id@);
                        assert(kk != gi ==> false);
                        assert(false);
                    }
                    assert forall|m: Seq<char>|
                        m != orig[gi].stored_name@ implies (#[trigger] has_stored_name(
                        self.rows@,
                        m,
                    ) == has_stored_name(orig, m)) by {
                        if has_stored_name(orig, m) {
                            let k = choose|k: int|
                                0 <= k < orig.len() && (#[trigger] orig[k]).stored_name@ == m;
                            assert(k != gi);
                            let kk = if k < gi { k } else { k - 1 };
                            assert(self.rows@[kk] == orig[k]);
                        } else if has_stored_name(self.rows@, m) {
                            let k = choose|k: int|
                                0 <= k < self.rows@.len() && (#[trigger] self.rows@[k]).stored_name@
                                    == m;
                            let kk = if k < gi { k } else { k + 1 };
                            assert(orig[kk].stored_name@ == m);
                            assert(false);
                        }
                    }
                    if has_stored_name(self.rows@, orig[gi].stored_name@) {
                        let k = choose|k: int|
                            0 <= k < self.rows@.len() && (#[trigger] self.rows@[k]).stored_name@
                                == orig[gi].stored_name@;
                        let kk = if k < gi { k } else { k + 1 };
                        assert(orig[kk].stored_name@ == orig[gi].stored_name@);
                        assert(kk != gi ==> false);
                        assert(false);
                    }
                }
                return Ok(true);
            }
            i = i + 1;
        }
        Ok(false)
    }

    /// Aggregate statistics: file count, byte total, video count. Never
    /// fails, zero rows included.
    pub fn get_file_stats(&self) -> (r: Result<FileStats, ServerError>)
        requires
            self.wf(),
        ensures
            r is Ok,
            r->Ok_0.total_files == self.rows@.len(),
            r->Ok_0.total_size as int == sum_sizes(self.rows@),
            r->Ok_0.video_count as int == count_videos(self.rows@),
    {
        let n = self.rows.len();
        let mut videos: u64 = 0;
        let mut k: usize = 0;
        while k < n
            invariant
                self.wf(),
                n == self.rows@.len(),
                0 <= k <= n,
                videos <= k,
                videos as int == count_videos(self.rows@.subrange(0, k as int)),
            decreases n - k,
        {
            proof {
                assert(self.rows@.subrange(0, k + 1).drop_last() =~= self.rows@.subrange(
                    0,
                    k as int,
                ));
                assert(self.rows@.subrange(0, k + 1).last() == self.rows@[k as int]);
            }
            if self.rows[k].is_video {
                videos = videos + 1;
            }
            k = k + 1;
        }
        proof {
            assert(self.rows@.subrange(0, n as int) =~= self.rows@);
        }
        Ok(FileStats {
            total_files: n as u64,
            total_size: self.total_size,
            video_count: videos,
        })
    }

    /// Fills the video fields of a record after the out-of-band video pass:
    /// duration, resolution, and thumbnail location. Fails with `NotFound`
    /// exactly when no record has this id; nothing else about the record or
    /// the table changes.
    pub fn update_video_metadata(
        &mut self,
        file_id: &String,
        duration: i32,
        resolution: String,
        thumbnail_path: Option<String>,
    ) -> (r: Result<(), ServerError>)
        requires
            old(self).wf(),
        ensures
            final(self).wf(),
            final(self).storage_path == old(self).storage_path,
            final(self).database_url == old(self).database_url,
            r is Ok <==> has_file_id(old(self).rows@, file_id@),
            r is Err ==> r->Err_0 is NotFound && *final(self) == *old(self),
            r is Ok ==> final(self).rows@ == old(self).rows@.update(
                record_idx(old(self).rows@, file_id@),
                FileRecord {
                    thumbnail_path: thumbnail_path,
                    video_duration: Some(duration),
                    video_resolution: Some(resolution),
                    ..old(self).rows@[record_idx(old(self).rows@, file_id@)]
                },
            ),
    {
        let n = self.rows.len();
        let mut i: usize = 0;
        while i < n
            invariant
                *self == *old(self),
                self.wf(),
                n == self.rows@.len(),
                0 <= i <= n,
                forall|k: int| 0 <= k < i ==> (#[trigger] self.rows@[k]).id@ != file_id@,
            decreases n - i,
        {
            if self.rows[i].id == *file_id {
                let ghost orig = self.rows@;
                let ghost gi = i as int;
                proof {
                    lemma_id_found(orig, file_id@, gi);
                }
                self.rows[i].thumbnail_path = thumbnail_path;
                self.rows[i].video_duration = Some(duration);
                self.rows[i].video_resolution = Some(resolution);
                proof {
                    let updated = self.rows@[gi];
                    assert(self.rows@ =~= orig.update(gi, updated));
                    assert(updated == FileRecord {
                        thumbnail_path: updated.thumbnail_path,
                        video_duration: updated.video_duration,
                        video_resolution: updated.video_resolution,
                        ..orig[gi]
                    });
                    let pre = orig.subrange(0, gi);
                    let suf = orig.subrange(gi + 1, orig.len() as int);
                    assert(orig =~= pre + seq![orig[gi]] + suf);
                    assert(self.rows@ =~= pre + seq![updated] + suf);
                    lemma_totals_singleton(orig[gi]);
                    lemma_totals_singleton(updated);
                    lemma_sum_concat(pre, seq![orig[gi]]);
                    lemma_sum_concat(pre + seq![orig[gi]], suf);
                    lemma_sum_concat(pre, seq![updated]);
                    lemma_sum_concat(pre + seq![updated], suf);
                    assert forall|a: int, b: int|
                        0 <= a < b < self.rows@.len() implies ((#[trigger] self.rows@[a]).id@
                        != (#[trigger] self.rows@[b]).id@ && self.rows@[a].stored_name@
                        != self.rows@[b].stored_name@ && self.rows@[a].upload_time
                        >= self.rows@[b].upload_time) by {
                        assert(self.rows@[a].id@ == orig[a].id@);
                        assert(self.rows@[b].id@ == orig[b].id@);
                        assert(self.rows@[a].stored_name@ == orig[a].stored_name@);
                        assert(self.rows@[b].stored_name@ == orig[b].stored_name@);
                        assert(self.rows@[a].upload_time == orig[a].upload_time);
                        assert(self.rows@[b].upload_time == orig[b].upload_time);
                    }
                }
                return Ok(());
            }
            i = i + 1;
        }
        Err(ServerError::NotFound { resource: file_id.clone() })
    }

    /// A fresh stored name for a client-supplied file name: a random token,
    /// keeping the original extension (if it has a usable one) so types can
    /// still be inferred from the name. Distinct calls draw distinct random
    /// tokens, so names do not collide in practice; every caller that needs
    /// certainty checks the storage root before use.
    pub fn generate_stored_name(&self, original_name: &str) -> (r: String)
        ensures
            r@.len() >= 36,
            forall|i: int| 0 <= i < 36 ==> is_token_char(#[trigger] r@[i]),
            !keeps_ext(original_name@) ==> r@.len() == 36,
            keeps_ext(original_name@) ==> {
                &&& r@.len() == 37 + ext_of(original_name@).len()
                &&& r@[36] == '.'
                &&& r@.subrange(37, r@.len() as int) == ext_of(original_name@)
            },
    {
        let n = original_name.unicode_len();
        let mut dot_found = false;
        let mut dot_idx: usize = 0;
        let mut i: usize = 0;
        while i < n
            invariant
                n == original_name@.len(),
                0 <= i <= n,
                !dot_found ==> forall|q: int| 0 <= q < i ==> original_name@[q] != '.',
                dot_found ==> 0 <= dot_idx < i && original_name@[dot_idx as int] == '.'
                    && (forall|q: int| dot_idx < q < i ==> original_name@[q] != '.'),
            decreases n - i,
        {
            if original_name.get_char(i) == '.' {
                dot_found = true;
                dot_idx = i;
            }
            i = i + 1;
        }
        let token = fresh_token();
        if !dot_found || dot_idx == 0 || dot_idx == n - 1 {
            proof {
                if dot_found {
                    lemma_last_dot_at(original_name@, dot_idx as int);
                } else {
                    assert(!has_dot(original_name@));
                }
            }
            token
        } else {
            proof {
                lemma_last_dot_at(original_name@, dot_idx as int);
            }
            let ext = original_name.substring_char(dot_idx + 1, n);
            let mut r = token;
            r.append(".");
            r.append(ext);
            proof {
                reveal_strlit(".");
                assert(r@.subrange(37, r@.len() as int) =~= ext_of(original_name@));
            }
            r
        }
    }

    /// The storage root this table was opened with.
    pub fn get_storage_path(&self) -> (r: &String)
        ensures
            r@ == self.storage_path@,
    {
        &self.storage_path
    }

    /// The full path of a stored name under the storage root.
    pub fn get_file_path(&self, stored_name: &str) -> (r: String)
        ensures
            r@ == self.storage_path@ + seq!['/'] + stored_name@,
    {
        let mut s = self.storage_path.clone();
        s.append("/");
        s.append(stored_name);
        proof {
            reveal_strlit("/");
            assert(s@ =~= self.storage_path@ + seq!['/'] + stored_name@);
        }
        s
    }
}

} // verus!
