//! The transfer engine: chunked uploads, the rename-then-insert commit,
//! range reads, deletion, and the expiry sweep.
//!
//! The engine owns the storage model, the metadata table and the session
//! registry, and keeps them consistent: every metadata row points at a
//! stored file of the recorded size, every open session owns a distinct
//! temp file, and no temp file shadows a stored one.

use vstd::prelude::*;
use crate::config::Config;
use crate::error::ServerError;
use crate::clock::now_millis;
use crate::ids::fresh_token;
use crate::intervals::RangeSet;
use crate::storage::file_manager::FileManager;
use crate::storage::file_manager::FileRecord;
use crate::storage::file_manager::has_file_id;
use crate::storage::file_manager::has_stored_name;
use crate::storage::file_manager::keeps_ext;
use crate::storage::file_manager::ext_of;
use crate::store::FileStore;
use crate::store::write_bytes;
use crate::tracker::UploadSession;
use crate::tracker::UploadSessionTracker;
use crate::tracker::has_session;
use crate::tracker::unique_session_ids;
use crate::tracker::session_idx;
use crate::tracker::session_of;
use crate::tracker::lemma_session_found;

verus! {

/// The MIME type inferred from a file name's extension; unknown or missing
/// extensions fall back to a generic byte stream.
pub open spec fn mime_of(name: Seq<char>) -> Seq<char> {
    if !keeps_ext(name) {
        "application/octet-stream"@
    } else if ext_of(name) == "mp4"@ {
        "video/mp4"@
    } else if ext_of(name) == "avi"@ {
        "video/x-msvideo"@
    } else if ext_of(name) == "mkv"@ {
        "video/x-matroska"@
    } else if ext_of(name) == "mov"@ {
        "video/quicktime"@
    } else if ext_of(name) == "wmv"@ {
        "video/x-ms-wmv"@
    } else if ext_of(name) == "flv"@ {
        "video/x-flv"@
    } else if ext_of(name) == "webm"@ {
        "video/webm"@
    } else if ext_of(name) == "jpg"@ || ext_of(name) == "jpeg"@ {
        "image/jpeg"@
    } else if ext_of(name) == "png"@ {
        "image/png"@
    } else if ext_of(name) == "txt"@ {
        "text/plain"@
    } else if ext_of(name) == "pdf"@ {
        "application/pdf"@
    } else {
        "application/octet-stream"@
    }
}

/// Whether the name carries one of the supported video extensions.
pub open spec fn is_video_name(name: Seq<char>) -> bool {
    keeps_ext(name) && (ext_of(name) == "mp4"@ || ext_of(name) == "avi"@ || ext_of(name)
        == "mkv"@ || ext_of(name) == "mov"@ || ext_of(name) == "wmv"@ || ext_of(name)
        == "flv"@ || ext_of(name) == "webm"@)
}

/// Infers the MIME type and video-ness of a file name from its extension.
pub fn mime_for_name(original_name: &str) -> (r: (String, bool))
    ensures
        r.0@ == mime_of(original_name@),
        r.1 == is_video_name(original_name@),
{
    let n = original_name.unicode_len();
    let mut dot_found = false;
    let mut dot_idx: usize = 0;
    let mut i: usize = 0;
    while i < n
        invariant
            n == original_name@.len(),
            0 <= i <= n,
            !dot_found ==> forall|q: int| 0 <= q < i ==> original_name@[q] != '.',
            dot_found ==> 0 <= dot_idx < i && original_name@[dot_idx as int] == '.'
                && (forall|q: int| dot_idx < q < i ==> original_name@[q] != '.'),
        decreases n - i,
    {
        if original_name.get_char(i) == '.' {
            dot_found = true;
            dot_idx = i;
        }
        i = i + 1;
    }
    if !dot_found || dot_idx == 0 || dot_idx == n - 1 {
        proof {
            if dot_found {
                crate::storage::file_manager::lemma_last_dot_at(
                    original_name@,
                    dot_idx as int,
                );
            }
        }
        return (String::from_str("application/octet-stream"), false);
    }
    proof {
        crate::storage::file_manager::lemma_last_dot_at(original_name@, dot_idx as int);
    }
    let ext = String::from_str(original_name.substring_char(dot_idx + 1, n));
    if ext == String::from_str("mp4") {
        (String::from_str("video/mp4"), true)
    } else if ext == String::from_str("avi") {
        (String::from_str("video/x-msvideo"), true)
    } else if ext == String::from_str("mkv") {
        (String::from_str("video/x-matroska"), true)
    } else if ext == String::from_str("mov") {
        (String::from_str("video/quicktime"), true)
    } else if ext == String::from_str("wmv") {
        (String::from_str("video/x-ms-wmv"), true)
    } else if ext == String::from_str("flv") {
        (String::from_str("video/x-flv"), true)
    } else if ext == String::from_str("webm") {
        (String::from_str("video/webm"), true)
    } else if ext == String::from_str("jpg") {
        (String::from_str("image/jpeg"), false)
    } else if ext == String::from_str("jpeg") {
        (String::from_str("image/jpeg"), false)
    } else if ext == String::from_str("png") {
        (String::from_str("image/png"), false)
    } else if ext == String::from_str("txt") {
        (String::from_str("text/plain"), false)
    } else if ext == String::from_str("pdf") {
        (String::from_str("application/pdf"), false)
    } else {
        (String::from_str("application/octet-stream"), false)
    }
}

/// Every byte the ranges say has arrived agrees with the reference content
/// `orig`.
pub open spec fn agrees(content: Seq<u8>, orig: Seq<u8>, received: RangeSet) -> bool {
    forall|x: int|
        #[trigger] received.covers(x) ==> 0 <= x < orig.len() && x < content.len()
            && content[x] == orig[x]
}

/// Writing a chunk cut from the reference content keeps the temp file in
/// agreement with that content, whatever order chunks arrive in and however
/// they overlap: the new coverage is the old coverage plus the chunk's
/// range, and every covered byte still matches the reference.
pub proof fn lemma_matching_write_extends_agreement(
    content: Seq<u8>,
    orig: Seq<u8>,
    before: RangeSet,
    after: RangeSet,
    offset: int,
    data: Seq<u8>,
)
    requires
        agrees(content, orig, before),
        0 <= offset,
        offset + data.len() <= orig.len(),
        data == orig.subrange(offset, offset + data.len()),
        forall|x: int|
            #[trigger] after.covers(x) <==> (before.covers(x) || offset <= x < offset
                + data.len()),
    ensures
        agrees(write_bytes(content, offset, data), orig, after),
{
    let new_content = write_bytes(content, offset, data);
    assert forall|x: int| #[trigger] after.covers(x) implies 0 <= x < orig.len() && x
        < new_content.len() && new_content[x] == orig[x] by {
        if offset <= x < offset + data.len() {
            assert(new_content[x] == data[x - offset]);
            assert(data[x - offset] == orig[x]);
        } else {
            assert(before.covers(x));
            assert(new_content[x] == content[x]);
        }
    }
}

/// Once the received ranges cover all of `[0, n)` and the temp file has
/// exactly `n` bytes, agreement with the reference content means the temp
/// file *is* that content, byte for byte.
pub proof fn lemma_complete_agreement_reconstructs(
    content: Seq<u8>,
    orig: Seq<u8>,
    received: RangeSet,
    n: int,
)
    requires
        agrees(content, orig, received),
        forall|x: int| 0 <= x < n ==> received.covers(x),
        content.len() == n,
        orig.len() == n,
    ensures
        content == orig,
{
    assert forall|x: int| 0 <= x < n implies content[x] == orig[x] by {
        assert(received.covers(x));
    }
    assert(content =~= orig);
}

/// The session's temp file reflects what the session has received: no byte
/// beyond the expected size, every received byte on disk, and the file no
/// longer than the last received byte.
pub open spec fn temp_synced(files: FileStore, sess: UploadSession) -> bool {
    &&& files.has(sess.temp_name@)
    &&& files.content(sess.temp_name@).len() <= sess.expected_size
    &&& forall|x: int|
        #[trigger] sess.received.covers(x) ==> 0 <= x < files.content(sess.temp_name@).len()
    &&& files.content(sess.temp_name@).len() > 0 ==> sess.received.covers(
        files.content(sess.temp_name@).len() - 1,
    )
}

/// The record's stored file exists and has exactly the recorded size.
pub open spec fn record_synced(files: FileStore, rec: FileRecord) -> bool {
    files.has(rec.stored_name@) && files.content(rec.stored_name@).len() == rec.file_size
}

/// The transfer engine. `max_file_size` bounds uploads, `chunk_size`
/// bounds a single ingested chunk (and with it the memory one call may
/// touch), `request_timeout` (seconds) bounds session idleness.
pub struct TransferEngine {
    pub files: FileStore,
    pub meta: FileManager,
    pub tracker: UploadSessionTracker,
    pub max_file_size: u64,
    pub chunk_size: usize,
    pub request_timeout: u64,
}

impl TransferEngine {
    /// The engine's consistency invariant: the three components are well
    /// formed; every session's temp file exists, is distinct from every
    /// other temp file and every stored file, and reflects the received
    /// ranges; every metadata row's file exists with the recorded size.
    pub open spec fn wf(self) -> bool {
        &&& self.files.wf()
        &&& self.meta.wf()
        &&& self.tracker.wf()
        &&& self.max_file_size > 0
        &&& self.chunk_size > 0
        &&& self.request_timeout > 0
        &&& forall|i: int|
            0 <= i < self.tracker.sessions@.len() ==> temp_synced(
                self.files,
                #[trigger] self.tracker.sessions@[i],
            )
        &&& forall|i: int, j: int|
            0 <= i < j < self.tracker.sessions@.len() ==> (#[trigger] self.tracker.sessions@[i]).temp_name@
                != (#[trigger] self.tracker.sessions@[j]).temp_name@
        &&& forall|i: int, k: int|
            0 <= i < self.tracker.sessions@.len() && 0 <= k < self.meta.rows@.len() ==> (
            #[trigger] self.tracker.sessions@[i]).temp_name@ != (#[trigger] self.meta.rows@[k]).stored_name@
        &&& forall|k: int|
            0 <= k < self.meta.rows@.len() ==> record_synced(
                self.files,
                #[trigger] self.meta.rows@[k],
            )
    }

    /// Whether this engine still has the configuration it was built with.
    pub open spec fn same_config(self, other: Self) -> bool {
        &&& self.max_file_size == other.max_file_size
        &&& self.chunk_size == other.chunk_size
        &&& self.request_timeout == other.request_timeout
        &&& self.meta.storage_path == other.meta.storage_path
        &&& self.meta.database_url == other.meta.database_url
    }

    /// Builds an engine from a configuration. Succeeds exactly when the
    /// limits the engine depends on are non-zero.
    pub fn new(config: &Config) -> (r: Result<TransferEngine, ServerError>)
        ensures
            r is Ok <==> (config.storage.max_file_size != 0 && config.storage.chunk_size != 0
                && config.server.request_timeout != 0),
            r is Err ==> r->Err_0 is Validation,
            r is Ok ==> {
                let e = r->Ok_0;
                &&& e.wf()
                &&& e.tracker.sessions@.len() == 0
                &&& e.meta.rows@.len() == 0
                &&& forall|m: Seq<char>| !e.files.has(m)
                &&& e.max_file_size == config.storage.max_file_size
                &&& e.chunk_size == config.storage.chunk_size
                &&& e.request_timeout == config.server.request_timeout
                &&& e.meta.storage_path@ == config.storage.upload_dir@
                &&& e.meta.database_url@ == config.database.url@
            },
    {
        if config.storage.max_file_size == 0 {
            return Err(ServerError::Validation {
                message: String::from_str("maximum file size must not be zero"),
            });
        }
        if config.storage.chunk_size == 0 {
            return Err(ServerError::Validation {
                message: String::from_str("chunk size must not be zero"),
            });
        }
        if config.server.request_timeout == 0 {
            return Err(ServerError::Validation {
                message: String::from_str("request timeout must not be zero"),
            });
        }
        let meta = match FileManager::new(
            config.database.url.as_str(),
            config.storage.upload_dir.clone(),
        ) {
            Ok(m) => m,
            Err(e) => {
                return Err(ServerError::Validation {
                    message: String::from_str("metadata table could not be created"),
                });
            },
        };
        Ok(TransferEngine {
            files: FileStore::new(),
            meta,
            tracker: UploadSessionTracker::new(),
            max_file_size: config.storage.max_file_size,
            chunk_size: config.storage.chunk_size,
            request_timeout: config.server.request_timeout,
        })
    }

    /// Opens an upload session whose chunks land in the temp file
    /// `temp_name`. Rejects with `Validation` exactly the sizes the
    /// configuration rules out (zero, above the maximum, or beyond what
    /// this machine can index), with `Conflict` a temp name already in
    /// use, and with `IoFailure` an exhausted id counter.
    pub fn begin_upload_with_name(
        &mut self,
        original_name: &str,
        expected_size: u64,
        temp_name: String,
        now: i64,
    ) -> (r: Result<u64, ServerError>)
        requires
            old(self).wf(),
        ensures
            final(self).wf(),
            final(self).same_config(*old(self)),
            final(self).meta == old(self).meta,
            (expected_size == 0 || expected_size > old(self).max_file_size || expected_size
                > usize::MAX as u64) <==> (r is Err && r->Err_0 is Validation),
            (expected_size != 0 && expected_size <= old(self).max_file_size && expected_size
                <= usize::MAX as u64 && old(self).files.has(temp_name@)) <==> (r is Err
                && r->Err_0 is Conflict),
            (expected_size != 0 && expected_size <= old(self).max_file_size && expected_size
                <= usize::MAX as u64 && !old(self).files.has(temp_name@) && old(self).tracker.next_id == u64::MAX) <==> (r is Err && r->Err_0 is IoFailure),
            r is Err ==> *final(self) == *old(self),
            r is Ok <==> (expected_size != 0 && expected_size <= old(self).max_file_size
                && expected_size <= usize::MAX as u64 && !old(self).files.has(temp_name@)
                && old(self).tracker.next_id < u64::MAX),
            r is Ok ==> {
                let id = r->Ok_0;
                let sess = final(self).tracker.sessions@.last();
                &&& id == old(self).tracker.next_id
                &&& !has_session(old(self).tracker.sessions@, id)
                &&& has_session(final(self).tracker.sessions@, id)
                &&& final(self).tracker.sessions@.len() == old(self).tracker.sessions@.len()
                    + 1
                &&& forall|k: int|
                    0 <= k < old(self).tracker.sessions@.len() ==> #[trigger] final(self).tracker.sessions@[k] == old(self).tracker.sessions@[k]
                &&& session_of(final(self).tracker.sessions@, id) == sess
                &&& sess.session_id == id
                &&& sess.original_name@ == original_name@
                &&& sess.expected_size == expected_size
                &&& sess.temp_name@ == temp_name@
                &&& sess.created_at == now
                &&& sess.last_activity == now
                &&& sess.closing == false
                &&& forall|x: int| !sess.received.covers(x)
                &&& final(self).files.has(temp_name@)
                &&& final(self).files.content(temp_name@) == Seq::<u8>::empty()
                &&& forall|m: Seq<char>|
                    m != temp_name@ ==> (#[trigger] final(self).files.has(m) == old(self).files.has(m) && (old(self).files.has(m) ==> final(self).files.content(m)
                        == old(self).files.content(m)))
            },
    {
        if expected_size == 0 {
            return Err(ServerError::Validation {
                message: String::from_str("upload size must not be zero"),
            });
        }
        if expected_size > self.max_file_size {
            return Err(ServerError::Validation {
                message: String::from_str("upload size exceeds the maximum file size"),
            });
        }
        if expected_size > usize::MAX as u64 {
            return Err(ServerError::Validation {
                message: String::from_str("upload size exceeds this machine's limits"),
            });
        }
        if self.files.exists_file(&temp_name) {
            return Err(ServerError::Conflict {
                message: String::from_str("temp file name already in use"),
            });
        }
        if self.tracker.next_id == u64::MAX {
            return Err(ServerError::IoFailure {
                message: String::from_str("session identifiers exhausted"),
            });
        }
        let ghost old_files = self.files;
        let ghost old_sessions = self.tracker.sessions@;
        self.files.create(&temp_name);
        let r = self.tracker.open(
            original_name.to_owned(),
            expected_size,
            temp_name,
            now,
        );
        let id = match r {
            Ok(id) => id,
            Err(e) => {
                proof {
                    assert(false);
                }
                return Err(e);
            },
        };
        proof {
            let s = self.tracker.sessions@;
            let sess = s.last();
            lemma_session_found(s, id, s.len() - 1);
            assert forall|i: int| 0 <= i < s.len() implies temp_synced(
                self.files,
                #[trigger] s[i],
            ) by {
                if i < s.len() - 1 {
                    assert(s[i] == old_sessions[i]);
                    assert(temp_synced(old_files, s[i]));
                    assert(s[i].temp_name@ != sess.temp_name@);
                }
            }
            assert forall|i: int, j: int|
                0 <= i < j < s.len() implies (#[trigger] s[i]).temp_name@
                != (#[trigger] s[j]).temp_name@ by {
                if j < s.len() - 1 {
                    assert(s[i] == old_sessions[i] && s[j] == old_sessions[j]);
                } else {
                    assert(s[i] == old_sessions[i]);
                    assert(temp_synced(old_files, old_sessions[i]));
                }
            }
            assert forall|i: int, k: int|
                0 <= i < s.len() && 0 <= k < self.meta.rows@.len() implies (
            #[trigger] s[i]).temp_name@ != (#[trigger] self.meta.rows@[k]).stored_name@ by {
                assert(record_synced(old_files, self.meta.rows@[k]));
                if i < s.len() - 1 {
                    assert(s[i] == old_sessions[i]);
                }
            }
            assert forall|k: int| 0 <= k < self.meta.rows@.len() implies record_synced(
                self.files,
                #[trigger] self.meta.rows@[k],
            ) by {
                assert(record_synced(old_files, self.meta.rows@[k]));
            }
        }
        Ok(id)
    }

    /// Opens an upload session, drawing a fresh random temp name. Rejects
    /// with `Validation` exactly the sizes the configuration rules out; a
    /// `Conflict` can only mean the drawn name collided with an existing
    /// file, which distinct random draws make practically impossible.
    pub fn begin_upload(&mut self, original_name: &str, expected_size: u64, now: i64) -> (r:
        Result<u64, ServerError>)
        requires
            old(self).wf(),
        ensures
            final(self).wf(),
            final(self).same_config(*old(self)),
            final(self).meta == old(self).meta,
            (expected_size == 0 || expected_size > old(self).max_file_size || expected_size
                > usize::MAX as u64) <==> (r is Err && r->Err_0 is Validation),
            r is Err ==> *final(self) == *old(self),
            r is Ok ==> {
                let id = r->Ok_0;
                let sess = final(self).tracker.sessions@.last();
                &&& !has_session(old(self).tracker.sessions@, id)
                &&& has_session(final(self).tracker.sessions@, id)
                &&& final(self).tracker.sessions@.len() == old(self).tracker.sessions@.len()
                    + 1
                &&& forall|k: int|
                    0 <= k < old(self).tracker.sessions@.len() ==> #[trigger] final(self).tracker.sessions@[k] == old(self).tracker.sessions@[k]
                &&& session_of(final(self).tracker.sessions@, id) == sess
                &&& sess.session_id == id
                &&& sess.original_name@ == original_name@
                &&& sess.expected_size == expected_size
                &&& sess.closing == false
                &&& forall|x: int| !sess.received.covers(x)
                &&& !old(self).files.has(sess.temp_name@)
                &&& final(self).files.has(sess.temp_name@)
                &&& final(self).files.content(sess.temp_name@) == Seq::<u8>::empty()
                &&& forall|m: Seq<char>|
                    m != sess.temp_name@ ==> (#[trigger] final(self).files.has(m) == old(self).files.has(m) && (old(self).files.has(m) ==> final(self).files.content(m)
                        == old(self).files.content(m)))
            },
    {
        let temp_name = self.meta.generate_stored_name(original_name);
        self.begin_upload_with_name(original_name, expected_size, temp_name, now)
    }

    /// Ingests one chunk at `offset` for the session: bounds the chunk by
    /// the configured chunk size, records the received range, and writes
    /// the bytes into the session's temp file. Chunks may arrive in any
    /// order and may overlap. No other session and no other file changes.
    pub fn ingest(&mut self, session_id: u64, offset: u64, chunk: &[u8], now: i64) -> (r:
        Result<(), ServerError>)
        requires
            old(self).wf(),
        ensures
            final(self).wf(),
            final(self).same_config(*old(self)),
            final(self).meta == old(self).meta,
            final(self).tracker.next_id == old(self).tracker.next_id,
            r is Err ==> *final(self) == *old(self),
            r is Ok <==> (chunk@.len() <= old(self).chunk_size && chunk@.len() > 0
                && has_session(old(self).tracker.sessions@, session_id) && !session_of(
                old(self).tracker.sessions@,
                session_id,
            ).closing && offset + chunk@.len() <= session_of(
                old(self).tracker.sessions@,
                session_id,
            ).expected_size),
            (chunk@.len() > old(self).chunk_size || (has_session(
                old(self).tracker.sessions@,
                session_id,
            ) && chunk@.len() == 0)) <==> (r is Err && r->Err_0 is Validation),
            (chunk@.len() <= old(self).chunk_size && !has_session(
                old(self).tracker.sessions@,
                session_id,
            )) <==> (r is Err && r->Err_0 is NotFound),
            (chunk@.len() <= old(self).chunk_size && chunk@.len() > 0 && has_session(
                old(self).tracker.sessions@,
                session_id,
            ) && {
                let sess = session_of(old(self).tracker.sessions@, session_id);
                sess.closing || offset + chunk@.len() > sess.expected_size
            }) <==> (r is Err && r->Err_0 is Conflict),
            r is Ok ==> {
                let i = session_idx(old(self).tracker.sessions@, session_id);
                let before = old(self).tracker.sessions@[i];
                let after = final(self).tracker.sessions@[i];
                &&& final(self).tracker.sessions@.len() == old(self).tracker.sessions@.len()
                &&& forall|k: int|
                    0 <= k < old(self).tracker.sessions@.len() && k != i ==> final(self).tracker.sessions@[k] == #[trigger] old(self).tracker.sessions@[k]
                &&& after.session_id == before.session_id
                &&& after.original_name == before.original_name
                &&& after.expected_size == before.expected_size
                &&& after.temp_name == before.temp_name
                &&& after.created_at == before.created_at
                &&& after.closing == before.closing
                &&& after.last_activity == now
                &&& forall|x: int|
                    #[trigger] after.received.covers(x) <==> (before.received.covers(x)
                        || offset <= x < offset + chunk@.len())
                &&& final(self).files.content(before.temp_name@) == write_bytes(
                    old(self).files.content(before.temp_name@),
                    offset as int,
                    chunk@,
                )
                &&& forall|m: Seq<char>|
                    #[trigger] final(self).files.has(m) == old(self).files.has(m)
                &&& forall|m: Seq<char>|
                    m != before.temp_name@ && old(self).files.has(m) ==> #[trigger] final(self).files.content(m) == old(self).files.content(m)
            },
    {
        if chunk.len() > self.chunk_size {
            return Err(ServerError::Validation {
                message: String::from_str("chunk exceeds the configured chunk size"),
            });
        }
        let i = match self.tracker.position(session_id) {
            Some(i) => i,
            None => {
                return Err(ServerError::NotFound {
                    resource: String::from_str("upload session"),
                });
            },
        };
        let temp_name = self.tracker.sessions[i].temp_name.clone();
        let len = chunk.len() as u64;
        let ghost old_files = self.files;
        let ghost old_sessions = self.tracker.sessions@;
        match self.tracker.write_chunk(session_id, offset, len, now) {
            Err(e) => {
                return Err(e);
            },
            Ok(()) => {},
        }
        proof {
            lemma_session_found(old_sessions, session_id, i as int);
            assert(offset + len <= old_sessions[i as int].expected_size);
            assert(old_sessions[i as int].expected_size <= usize::MAX);
        }
        self.files.write_at(&temp_name, offset as usize, chunk);
        proof {
            let gi = i as int;
            let s = self.tracker.sessions@;
            let before = old_sessions[gi];
            let after = s[gi];
            assert(after.temp_name@ == temp_name@);
            assert forall|k: int| 0 <= k < s.len() implies temp_synced(
                self.files,
                #[trigger] s[k],
            ) by {
                if k != gi {
                    assert(s[k] == old_sessions[k]);
                    assert(temp_synced(old_files, s[k]));
                    assert(s[k].temp_name@ != before.temp_name@);
                } else {
                    assert(temp_synced(old_files, before));
                    let oldc = old_files.content(before.temp_name@);
                    let newc = self.files.content(after.temp_name@);
                    assert(newc == write_bytes(oldc, offset as int, chunk@));
                    assert forall|x: int| #[trigger] after.received.covers(x) implies 0 <= x
                        < newc.len() by {
                        if before.received.covers(x) {
                            assert(x < oldc.len());
                        }
                    }
                    if newc.len() > 0 {
                        if offset + chunk@.len() >= oldc.len() {
                            assert(newc.len() == offset + chunk@.len());
                            assert(after.received.covers(newc.len() - 1));
                        } else {
                            assert(newc.len() == oldc.len());
                            assert(before.received.covers(oldc.len() - 1));
                        }
                    }
                }
            }
            assert forall|k: int, j: int|
                0 <= k < j < s.len() implies (#[trigger] s[k]).temp_name@
                != (#[trigger] s[j]).temp_name@ by {
                assert(s[k].temp_name@ == old_sessions[k].temp_name@);
                assert(s[j].temp_name@ == old_sessions[j].temp_name@);
            }
            assert forall|k: int, j: int|
                0 <= k < s.len() && 0 <= j < self.meta.rows@.len() implies (
            #[trigger] s[k]).temp_name@ != (#[trigger] self.meta.rows@[j]).stored_name@ by {
                assert(s[k].temp_name@ == old_sessions[k].temp_name@);
            }
            assert forall|j: int| 0 <= j < self.meta.rows@.len() implies record_synced(
                self.files,
                #[trigger] self.meta.rows@[j],
            ) by {
                assert(record_synced(old_files, self.meta.rows@[j]));
                assert(self.meta.rows@[j].stored_name@ != before.temp_name@);
            }
        }
        Ok(())
    }

    /// The bytes of the stored file behind a record, for the half-open
    /// range `[byte_start, byte_end)`, defaulting to the whole file. Fails
    /// with `NotFound` exactly when no record has this id, and with
    /// `Validation` exactly when the range does not fit the file.
    pub fn read_range(&self, id: &String, byte_start: u64, byte_end: Option<u64>) -> (r:
        Result<Vec<u8>, ServerError>)
        requires
            self.wf(),
        ensures
            !has_file_id(self.meta.rows@, id@) <==> (r is Err && r->Err_0 is NotFound),
            (has_file_id(self.meta.rows@, id@) && {
                let rec = self.meta.rows@[crate::storage::file_manager::record_idx(
                    self.meta.rows@,
                    id@,
                )];
                let e = match byte_end {
                    Some(e) => e as int,
                    None => rec.file_size as int,
                };
                byte_start > e || e > rec.file_size
            }) <==> (r is Err && r->Err_0 is Validation),
            r is Ok <==> (has_file_id(self.meta.rows@, id@) && {
                let rec = self.meta.rows@[crate::storage::file_manager::record_idx(
                    self.meta.rows@,
                    id@,
                )];
                let e = match byte_end {
                    Some(e) => e as int,
                    None => rec.file_size as int,
                };
                byte_start <= e && e <= rec.file_size
            }),
            r is Ok ==> {
                let rec = self.meta.rows@[crate::storage::file_manager::record_idx(
                    self.meta.rows@,
                    id@,
                )];
                let e = match byte_end {
                    Some(e) => e as int,
                    None => rec.file_size as int,
                };
                r->Ok_0@ == self.files.content(rec.stored_name@).subrange(
                    byte_start as int,
                    e,
                )
            },
    {
        let recopt = match self.meta.get_file_by_id(id) {
            Ok(o) => o,
            Err(e) => {
                return Err(e);
            },
        };
        let rec = match recopt {
            Some(rec) => rec,
            None => {
                return Err(ServerError::NotFound { resource: id.clone() });
            },
        };
        proof {
            assert(record_synced(
                self.files,
                self.meta.rows@[crate::storage::file_manager::record_idx(
                    self.meta.rows@,
                    id@,
                )],
            ));
        }
        let size = rec.file_size;
        let e = match byte_end {
            Some(e) => e,
            None => size,
        };
        if byte_start > e || e > size {
            return Err(ServerError::Validation {
                message: String::from_str("byte range does not fit the file"),
            });
        }
        let len = self.files.len_of(&rec.stored_name);
        proof {
            assert(len == rec.file_size);
            assert(e <= usize::MAX);
            assert(byte_start <= usize::MAX);
        }
        let bytes = self.files.read_range(&rec.stored_name, byte_start as usize, e as usize);
        Ok(bytes)
    }

    /// Deletes a record and its stored file: the file first, then the row,
    /// so an interruption leaves at worst a detectable row without a file,
    /// never a stray file. Hands the removed record back so its owner can
    /// also clear any thumbnail kept outside this storage root. Fails with
    /// `NotFound` exactly when no record has this id.
    #[verifier::rlimit(60)]
    pub fn remove(&mut self, id: &String) -> (r: Result<FileRecord, ServerError>)
        requires
            old(self).wf(),
        ensures
            final(self).wf(),
            final(self).same_config(*old(self)),
            final(self).tracker == old(self).tracker,
            r is Ok <==> has_file_id(old(self).meta.rows@, id@),
            r is Err ==> r->Err_0 is NotFound && *final(self) == *old(self),
            r is Ok ==> {
                let idx = crate::storage::file_manager::record_idx(old(self).meta.rows@, id@);
                let rec = old(self).meta.rows@[idx];
                &&& r->Ok_0 == rec
                &&& final(self).meta.rows@ == old(self).meta.rows@.remove(idx)
                &&& !has_file_id(final(self).meta.rows@, id@)
                &&& !final(self).files.has(rec.stored_name@)
                &&& forall|m: Seq<char>|
                    m != rec.stored_name@ ==> (#[trigger] final(self).files.has(m) == old(self).files.has(m) && (old(self).files.has(m) ==> final(self).files.content(m)
                        == old(self).files.content(m)))
            },
    {
        let recopt = match self.meta.get_file_by_id(id) {
            Ok(o) => o,
            Err(e) => {
                return Err(e);
            },
        };
        let rec = match recopt {
            Some(rec) => rec,
            None => {
                return Err(ServerError::NotFound { resource: id.clone() });
            },
        };
        let ghost old_files = self.files;
        let ghost old_rows = self.meta.rows@;
        self.files.delete(&rec.stored_name);
        match self.meta.delete_file(id) {
            Ok(_) => {},
            Err(e) => {
                return Err(e);
            },
        }
        proof {
            let idx = crate::storage::file_manager::record_idx(old_rows, id@);
            assert(self.tracker == old(self).tracker);
            let s = old(self).tracker.sessions@;
            assert forall|k: int| 0 <= k < s.len() implies temp_synced(
                self.files,
                #[trigger] s[k],
            ) by {
                assert(temp_synced(old_files, old(self).tracker.sessions@[k]));
                assert((old(self).tracker.sessions@[k]).temp_name@ != (old(self).meta.rows@[idx]).stored_name@);
            }
            assert forall|k: int, j: int|
                0 <= k < s.len() && 0 <= j < self.meta.rows@.len() implies (
            #[trigger] s[k]).temp_name@ != (#[trigger] self.meta.rows@[j]).stored_name@ by {
                let jj = if j < idx { j } else { j + 1 };
                assert(self.meta.rows@[j] == old_rows[jj]);
                assert((old(self).tracker.sessions@[k]).temp_name@ != (old(self).meta.rows@[jj]).stored_name@);
            }
            assert forall|j: int| 0 <= j < self.meta.rows@.len() implies record_synced(
                self.files,
                #[trigger] self.meta.rows@[j],
            ) by {
                let jj = if j < idx { j } else { j + 1 };
                assert(self.meta.rows@[j] == old_rows[jj]);
                assert(record_synced(old_files, old(self).meta.rows@[jj]));
                if jj < idx {
                    assert((old(self).meta.rows@[jj]).stored_name@ != (old(self).meta.rows@[idx]).stored_name@);
                } else {
                    assert((old(self).meta.rows@[idx]).stored_name@ != (old(self).meta.rows@[jj]).stored_name@);
                }
                let m = old_rows[jj].stored_name@;
                assert(m != old_rows[idx].stored_name@);
                assert(old_files.has(m));
                assert(self.files.has(m));
                assert(self.files.content(m) == old_files.content(m));
            }
        }
        Ok(rec)
    }

    /// Cancels an upload session: the session is discarded and its temp
    /// file deleted. Fails with `NotFound` exactly when no such session
    /// exists.
    pub fn abort(&mut self, session_id: u64) -> (r: Result<(), ServerError>)
        requires
            old(self).wf(),
        ensures
            final(self).wf(),
            final(self).same_config(*old(self)),
            final(self).meta == old(self).meta,
            final(self).tracker.next_id == old(self).tracker.next_id,
            r is Ok <==> has_session(old(self).tracker.sessions@, session_id),
            r is Err ==> r->Err_0 is NotFound && *final(self) == *old(self),
            r is Ok ==> {
                let sess = session_of(old(self).tracker.sessions@, session_id);
                &&& final(self).tracker.sessions@ == old(self).tracker.sessions@.remove(
                    session_idx(old(self).tracker.sessions@, session_id),
                )
                &&& !has_session(final(self).tracker.sessions@, session_id)
                &&& forall|d: u64|
                    d != session_id ==> (#[trigger] has_session(
                        final(self).tracker.sessions@,
                        d,
                    ) == has_session(old(self).tracker.sessions@, d))
                &&& !final(self).files.has(sess.temp_name@)
                &&& forall|m: Seq<char>|
                    m != sess.temp_name@ ==> (#[trigger] final(self).files.has(m) == old(self).files.has(m) && (old(self).files.has(m) ==> final(self).files.content(m)
                        == old(self).files.content(m)))
            },
    {
        let ghost old_files = self.files;
        let ghost old_sessions = self.tracker.sessions@;
        let sess = match self.tracker.remove_session(session_id) {
            Ok(s) => s,
            Err(e) => {
                return Err(e);
            },
        };
        self.files.delete(&sess.temp_name);
        proof {
            let idx = session_idx(old_sessions, session_id);
            let s = self.tracker.sessions@;
            assert forall|k: int| 0 <= k < s.len() implies temp_synced(
                self.files,
                #[trigger] s[k],
            ) by {
                let kk = if k < idx { k } else { k + 1 };
                assert(s[k] == old_sessions[kk]);
                assert(temp_synced(old_files, old(self).tracker.sessions@[kk]));
                if kk < idx {
                    assert((old(self).tracker.sessions@[kk]).temp_name@ != (old(self).tracker.sessions@[idx]).temp_name@);
                } else {
                    assert((old(self).tracker.sessions@[idx]).temp_name@ != (old(self).tracker.sessions@[kk]).temp_name@);
                }
                let m = old_sessions[kk].temp_name@;
                assert(m != old_sessions[idx].temp_name@);
                assert(self.files.has(m));
                assert(self.files.content(m) == old_files.content(m));
            }
            assert forall|k: int, j: int|
                0 <= k < j < s.len() implies (#[trigger] s[k]).temp_name@
                != (#[trigger] s[j]).temp_name@ by {
                let kk = if k < idx { k } else { k + 1 };
                let jj = if j < idx { j } else { j + 1 };
                assert(s[k] == old_sessions[kk] && s[j] == old_sessions[jj]);
            }
            assert forall|k: int, j: int|
                0 <= k < s.len() && 0 <= j < self.meta.rows@.len() implies (
            #[trigger] s[k]).temp_name@ != (#[trigger] self.meta.rows@[j]).stored_name@ by {
                let kk = if k < idx { k } else { k + 1 };
                assert(s[k] == old_sessions[kk]);
            }
            assert forall|j: int| 0 <= j < self.meta.rows@.len() implies record_synced(
                self.files,
                #[trigger] self.meta.rows@[j],
            ) by {
                assert(self.meta == old(self).meta);
                assert(record_synced(old_files, old(self).meta.rows@[j]));
                assert((old(self).tracker.sessions@[idx]).temp_name@ != (old(self).meta.rows@[j]).stored_name@);
                let m = old(self).meta.rows@[j].stored_name@;
                assert(m != old_sessions[idx].temp_name@);
                assert(old_files.has(m));
                assert(self.files.has(m));
                assert(self.files.content(m) == old_files.content(m));
            }
        }
        Ok(())
    }
    /// Commits a complete upload under the given record id and stored
    /// name: the temp file is renamed to the stored name (never onto an
    /// existing file), then the record is inserted. If the insert fails,
    /// the renamed file is deleted again before the error surfaces, so no
    /// reader ever sees a row without its file and no committed file
    /// without its row survives the call.
    pub fn finalize_with(
        &mut self,
        session_id: u64,
        id: String,
        stored_name: String,
        now: i64,
    ) -> (r: Result<FileRecord, ServerError>)
        requires
            old(self).wf(),
        ensures
            final(self).wf(),
            final(self).same_config(*old(self)),
            !has_session(old(self).tracker.sessions@, session_id) <==> (r is Err && r->Err_0
                is NotFound),
            (r is Err && r->Err_0 is NotFound) ==> *final(self) == *old(self),
            (has_session(old(self).tracker.sessions@, session_id) && session_of(
                old(self).tracker.sessions@,
                session_id,
            ).closing) ==> (r is Err && r->Err_0 is Conflict && *final(self) == *old(self)),
            (has_session(old(self).tracker.sessions@, session_id) && !session_of(
                old(self).tracker.sessions@,
                session_id,
            ).closing && !session_of(old(self).tracker.sessions@, session_id).complete())
                ==> (r is Err && r->Err_0 is Validation && *final(self) == *old(self)),
            (has_session(old(self).tracker.sessions@, session_id) && !session_of(
                old(self).tracker.sessions@,
                session_id,
            ).closing && session_of(old(self).tracker.sessions@, session_id).complete()
                && old(self).files.has(stored_name@)) ==> (r is Err && r->Err_0 is Conflict
                && *final(self) == *old(self)),
            (has_session(old(self).tracker.sessions@, session_id) && !session_of(
                old(self).tracker.sessions@,
                session_id,
            ).closing && session_of(old(self).tracker.sessions@, session_id).complete()
                && !old(self).files.has(stored_name@) && (has_file_id(
                old(self).meta.rows@,
                id@,
            ) || crate::storage::file_manager::sum_sizes(old(self).meta.rows@) + session_of(
                old(self).tracker.sessions@,
                session_id,
            ).expected_size > u64::MAX)) ==> {
                let sess = session_of(old(self).tracker.sessions@, session_id);
                &&& r is Err
                &&& (r->Err_0 is Conflict <==> has_file_id(old(self).meta.rows@, id@))
                &&& final(self).meta == old(self).meta
                &&& final(self).tracker.sessions@ == old(self).tracker.sessions@.remove(
                    session_idx(old(self).tracker.sessions@, session_id),
                )
                &&& !has_session(final(self).tracker.sessions@, session_id)
                &&& !final(self).files.has(sess.temp_name@)
                &&& !final(self).files.has(stored_name@)
                &&& forall|m: Seq<char>|
                    m != sess.temp_name@ && m != stored_name@ ==> (#[trigger] final(self).files.has(m) == old(self).files.has(m) && (old(self).files.has(m)
                        ==> final(self).files.content(m) == old(self).files.content(m)))
            },
            r is Ok <==> (has_session(old(self).tracker.sessions@, session_id)
                && !session_of(old(self).tracker.sessions@, session_id).closing
                && session_of(old(self).tracker.sessions@, session_id).complete() && !old(self).files.has(stored_name@) && !has_file_id(old(self).meta.rows@, id@)
                && crate::storage::file_manager::sum_sizes(old(self).meta.rows@)
                + session_of(old(self).tracker.sessions@, session_id).expected_size
                <= u64::MAX),
            r is Ok ==> {
                let sess = session_of(old(self).tracker.sessions@, session_id);
                let rec = r->Ok_0;
                &&& rec.id == id
                &&& rec.original_name@ == sess.original_name@
                &&& rec.stored_name == stored_name
                &&& rec.file_path@ == old(self).meta.storage_path@ + seq!['/'] + stored_name@
                &&& rec.file_size == sess.expected_size
                &&& rec.mime_type@ == mime_of(sess.original_name@)
                &&& rec.upload_time == now
                &&& rec.is_video == is_video_name(sess.original_name@)
                &&& rec.thumbnail_path is None
                &&& rec.video_duration is None
                &&& rec.video_resolution is None
                &&& final(self).meta.rows@.len() == old(self).meta.rows@.len() + 1
                &&& exists|p: int|
                    0 <= p <= old(self).meta.rows@.len() && final(self).meta.rows@
                        == #[trigger] old(self).meta.rows@.insert(p, rec)
                &&& forall|m: Seq<char>|
                    #[trigger] has_file_id(final(self).meta.rows@, m) <==> (has_file_id(
                        old(self).meta.rows@,
                        m,
                    ) || m == id@)
                &&& forall|m: Seq<char>|
                    #[trigger] has_stored_name(final(self).meta.rows@, m)
                        <==> (has_stored_name(old(self).meta.rows@, m) || m == stored_name@)
                &&& crate::storage::file_manager::sum_sizes(final(self).meta.rows@)
                    == crate::storage::file_manager::sum_sizes(old(self).meta.rows@)
                    + sess.expected_size
                &&& crate::storage::file_manager::count_videos(final(self).meta.rows@)
                    == crate::storage::file_manager::count_videos(old(self).meta.rows@)
                    + if rec.is_video {
                    1int
                } else {
                    0int
                }
                &&& final(self).tracker.sessions@ == old(self).tracker.sessions@.remove(
                    session_idx(old(self).tracker.sessions@, session_id),
                )
                &&& !has_session(final(self).tracker.sessions@, session_id)
                &&& forall|d: u64|
                    d != session_id ==> (#[trigger] has_session(
                        final(self).tracker.sessions@,
                        d,
                    ) == has_session(old(self).tracker.sessions@, d))
                &&& !final(self).files.has(sess.temp_name@)
                &&& final(self).files.has(stored_name@)
                &&& final(self).files.content(stored_name@) == old(self).files.content(
                    sess.temp_name@,
                )
                &&& final(self).files.content(stored_name@).len() == sess.expected_size
                &&& forall|m: Seq<char>|
                    m != sess.temp_name@ && m != stored_name@ ==> (#[trigger] final(self).files.has(m) == old(self).files.has(m) && (old(self).files.has(m)
                        ==> final(self).files.content(m) == old(self).files.content(m)))
            },
    {
        let i = match self.tracker.position(session_id) {
            Some(i) => i,
            None => {
                return Err(ServerError::NotFound {
                    resource: String::from_str("upload session"),
                });
            },
        };
        proof {
            lemma_session_found(old(self).tracker.sessions@, session_id, i as int);
        }
        if self.tracker.sessions[i].closing {
            return Err(ServerError::Conflict {
                message: String::from_str("session is being finalized"),
            });
        }
        let expected = self.tracker.sessions[i].expected_size;
        proof {
            assert(old(self).tracker.sessions@[i as int].wf());
        }
        let complete = self.tracker.sessions[i].received.is_complete(expected);
        if !complete {
            return Err(ServerError::Validation { message: String::from_str("incomplete upload") });
        }
        if self.files.exists_file(&stored_name) {
            return Err(ServerError::Conflict {
                message: String::from_str("stored name already in use"),
            });
        }
        let original_name = self.tracker.sessions[i].original_name.clone();
        let temp_name = self.tracker.sessions[i].temp_name.clone();
        let ghost old_sessions = self.tracker.sessions@;
        let ghost old_files = self.files;
        let ghost old_rows = self.meta.rows@;
        let ghost sess0 = old_sessions[i as int];

        // The completed temp file holds exactly the expected bytes.
        proof {
            assert(temp_synced(old_files, sess0));
            if expected > 0 {
                assert(sess0.received.covers(expected - 1));
            }
            assert(old_files.content(sess0.temp_name@).len() == expected);
        }

        // The commit: mark the session closing, rename, insert, and
        // compensate by deleting the renamed file if the insert fails.
        match self.tracker.mark_closing(session_id) {
            Ok(()) => {},
            Err(e) => {
                proof {
                    assert(false);
                }
                return Err(e);
            },
        }
        self.files.rename(&temp_name, &stored_name);
        let pair = mime_for_name(original_name.as_str());
        let file_path = self.meta.get_file_path(stored_name.as_str());
        let record = FileRecord {
            id,
            original_name,
            stored_name,
            file_path,
            file_size: expected,
            mime_type: pair.0,
            upload_time: now,
            is_video: pair.1,
            thumbnail_path: None,
            video_duration: None,
            video_resolution: None,
        };
        proof {
            // no stored-name conflict is possible: a row's stored file
            // exists, and this stored name was free
            if has_stored_name(old_rows, record.stored_name@) {
                let k = choose|k: int|
                    0 <= k < old_rows.len() && (#[trigger] old_rows[k]).stored_name@
                        == record.stored_name@;
                assert(record_synced(old_files, old(self).meta.rows@[k]));
                assert(false);
            }
        }
        let insert_result = self.meta.save_file_record(&record);
        proof {
            assert(self.tracker.sessions@[i as int].session_id == session_id);
            crate::tracker::lemma_session_found(
                self.tracker.sessions@,
                session_id,
                i as int,
            );
            let marked = self.tracker.sessions@;
            assert forall|d: u64| #[trigger] has_session(marked, d) == has_session(
                old_sessions,
                d,
            ) by {
                if has_session(old_sessions, d) {
                    let k = choose|k: int|
                        0 <= k < old_sessions.len() && (#[trigger] old_sessions[k]).session_id
                            == d;
                    assert(marked[k].session_id == d);
                } else if has_session(marked, d) {
                    let k = choose|k: int|
                        0 <= k < marked.len() && (#[trigger] marked[k]).session_id == d;
                    assert(old_sessions[k].session_id == d);
                    assert(false);
                }
            }
        }
        match insert_result {
            Ok(()) => {
                match self.tracker.remove_session(session_id) {
                    Ok(_) => {},
                    Err(e) => {
                        proof {
                            assert(false);
                        }
                        return Err(e);
                    },
                }
                proof {
                    let s = self.tracker.sessions@;
                    let marked = old_sessions.update(
                        i as int,
                        UploadSession { closing: true, ..sess0 },
                    );
                    assert(s =~= old_sessions.remove(i as int)) by {
                        assert(s =~= marked.remove(i as int));
                    }
                    assert forall|k: int| 0 <= k < s.len() implies temp_synced(
                        self.files,
                        #[trigger] s[k],
                    ) by {
                        let kk = if k < i as int { k } else { k + 1 };
                        assert(s[k] == old_sessions[kk]);
                        assert(temp_synced(old_files, old(self).tracker.sessions@[kk]));
                        if kk < i as int {
                            assert((old(self).tracker.sessions@[kk]).temp_name@ != (old(self).tracker.sessions@[i as int]).temp_name@);
                        } else {
                            assert((old(self).tracker.sessions@[i as int]).temp_name@ != (old(self).tracker.sessions@[kk]).temp_name@);
                        }
                        let m = old_sessions[kk].temp_name@;
                        assert(old_files.has(m));
                        assert(m != record.stored_name@);
                        assert(self.files.has(m));
                        assert(self.files.content(m) == old_files.content(m));
                    }
                    assert forall|k: int, j: int|
                        0 <= k < j < s.len() implies (#[trigger] s[k]).temp_name@
                        != (#[trigger] s[j]).temp_name@ by {
                        let kk = if k < i as int { k } else { k + 1 };
                        let jj = if j < i as int { j } else { j + 1 };
                        assert(s[k] == old_sessions[kk] && s[j] == old_sessions[jj]);
                        assert((old(self).tracker.sessions@[kk]).temp_name@ != (old(self).tracker.sessions@[jj]).temp_name@);
                    }
                    assert forall|k: int, j: int|
                        0 <= k < s.len() && 0 <= j < self.meta.rows@.len() implies (
                    #[trigger] s[k]).temp_name@ != (#[trigger] self.meta.rows@[j]).stored_name@ by {
                        let kk = if k < i as int { k } else { k + 1 };
                        assert(s[k] == old_sessions[kk]);
                        assert(old_files.has(old_sessions[kk].temp_name@));
                        if has_stored_name(old_rows, old_sessions[kk].temp_name@) {
                        }
                        assert(has_stored_name(self.meta.rows@, self.meta.rows@[j].stored_name@));
                        if self.meta.rows@[j].stored_name@ == record.stored_name@ {
                            assert(old_sessions[kk].temp_name@ != record.stored_name@);
                        } else {
                            assert(has_stored_name(old_rows, self.meta.rows@[j].stored_name@));
                            let jo = choose|jo: int|
                                0 <= jo < old_rows.len() && (#[trigger] old_rows[jo]).stored_name@
                                    == self.meta.rows@[j].stored_name@;
                            assert((old(self).tracker.sessions@[kk]).temp_name@ != (old(self).meta.rows@[jo]).stored_name@);
                        }
                    }
                    assert forall|j: int| 0 <= j < self.meta.rows@.len() implies record_synced(
                        self.files,
                        #[trigger] self.meta.rows@[j],
                    ) by {
                        assert(has_stored_name(self.meta.rows@, self.meta.rows@[j].stored_name@));
                        if self.meta.rows@[j].stored_name@ == record.stored_name@ {
                            assert(self.files.has(record.stored_name@));
                            assert(self.files.content(record.stored_name@)
                                == old_files.content(sess0.temp_name@));
                            assert(self.meta.rows@[j].file_size == record.file_size) by {
                                if has_stored_name(old_rows, record.stored_name@) {
                                    assert(false);
                                }
                                assert(exists|p: int|
                                    0 <= p <= old_rows.len() && self.meta.rows@
                                        == #[trigger] old_rows.insert(p, record));
                                let p = choose|p: int|
                                    0 <= p <= old_rows.len() && self.meta.rows@
                                        == #[trigger] old_rows.insert(p, record);
                                if j != p {
                                    let jo = if j < p { j } else { j - 1 };
                                    assert(self.meta.rows@[j] == old_rows[jo]);
                                    assert(has_stored_name(old_rows, record.stored_name@));
                                    assert(false);
                                }
                            }
                        } else {
                            assert(has_stored_name(old_rows, self.meta.rows@[j].stored_name@));
                            let jo = choose|jo: int|
                                0 <= jo < old_rows.len() && (#[trigger] old_rows[jo]).stored_name@
                                    == self.meta.rows@[j].stored_name@;
                            assert(record_synced(old_files, old(self).meta.rows@[jo]));
                            assert(old_rows[jo].stored_name@ != sess0.temp_name@) by {
                                assert((old(self).tracker.sessions@[i as int]).temp_name@ != (old(self).meta.rows@[jo]).stored_name@);
                            }
                            assert(self.files.has(old_rows[jo].stored_name@));
                            assert(self.files.content(old_rows[jo].stored_name@)
                                == old_files.content(old_rows[jo].stored_name@));
                            assert(self.meta.rows@[j].file_size == old_rows[jo].file_size) by {
                                let p = choose|p: int|
                                    0 <= p <= old_rows.len() && self.meta.rows@
                                        == #[trigger] old_rows.insert(p, record);
                                if j == p {
                                    assert(self.meta.rows@[j] == record);
                                    assert(false);
                                }
                            }
                        }
                    }
                }
                Ok(record)
            },
            Err(e) => {
                // roll back: the renamed file must not outlive the failed
                // insert
                self.files.delete(&record.stored_name);
                match self.tracker.remove_session(session_id) {
                    Ok(_) => {},
                    Err(e2) => {
                        proof {
                            assert(false);
                        }
                        return Err(e2);
                    },
                }
                proof {
                    let s = self.tracker.sessions@;
                    let marked = old_sessions.update(
                        i as int,
                        UploadSession { closing: true, ..sess0 },
                    );
                    assert(s =~= old_sessions.remove(i as int)) by {
                        assert(s =~= marked.remove(i as int));
                    }
                    assert forall|k: int| 0 <= k < s.len() implies temp_synced(
                        self.files,
                        #[trigger] s[k],
                    ) by {
                        let kk = if k < i as int { k } else { k + 1 };
                        assert(s[k] == old_sessions[kk]);
                        assert(temp_synced(old_files, old(self).tracker.sessions@[kk]));
                        if kk < i as int {
                            assert((old(self).tracker.sessions@[kk]).temp_name@ != (old(self).tracker.sessions@[i as int]).temp_name@);
                        } else {
                            assert((old(self).tracker.sessions@[i as int]).temp_name@ != (old(self).tracker.sessions@[kk]).temp_name@);
                        }
                        let m = old_sessions[kk].temp_name@;
                        assert(old_files.has(m));
                        assert(m != record.stored_name@);
                        assert(self.files.has(m));
                        assert(self.files.content(m) == old_files.content(m));
                    }
                    assert forall|k: int, j: int|
                        0 <= k < j < s.len() implies (#[trigger] s[k]).temp_name@
                        != (#[trigger] s[j]).temp_name@ by {
                        let kk = if k < i as int { k } else { k + 1 };
                        let jj = if j < i as int { j } else { j + 1 };
                        assert(s[k] == old_sessions[kk] && s[j] == old_sessions[jj]);
                        assert((old(self).tracker.sessions@[kk]).temp_name@ != (old(self).tracker.sessions@[jj]).temp_name@);
                    }
                    assert forall|k: int, j: int|
                        0 <= k < s.len() && 0 <= j < self.meta.rows@.len() implies (
                    #[trigger] s[k]).temp_name@ != (#[trigger] self.meta.rows@[j]).stored_name@ by {
                        let kk = if k < i as int { k } else { k + 1 };
                        assert(s[k] == old_sessions[kk]);
                        assert((old(self).tracker.sessions@[kk]).temp_name@ != (old(self).meta.rows@[j]).stored_name@);
                    }
                    assert forall|j: int| 0 <= j < self.meta.rows@.len() implies record_synced(
                        self.files,
                        #[trigger] self.meta.rows@[j],
                    ) by {
                        assert(record_synced(old_files, old(self).meta.rows@[j]));
                        assert(old_rows[j].stored_name@ != sess0.temp_name@) by {
                            assert((old(self).tracker.sessions@[i as int]).temp_name@ != (old(self).meta.rows@[j]).stored_name@);
                        }
                        if old_rows[j].stored_name@ == record.stored_name@ {
                            assert(false);
                        }
                    }
                }
                Err(e)
            },
        }
    }

    /// Finalizes a complete upload, drawing a fresh record id and stored
    /// name. Fails with `NotFound` for an unknown session and with
    /// `Validation` ("incomplete upload") whenever the received ranges do
    /// not yet cover the whole expected content — in that case nothing
    /// changes and no record becomes visible. A `Conflict` can only mean a
    /// drawn name collided, which distinct random draws make practically
    /// impossible.
    pub fn finalize(&mut self, session_id: u64, now: i64) -> (r: Result<FileRecord, ServerError>)
        requires
            old(self).wf(),
        ensures
            final(self).wf(),
            final(self).same_config(*old(self)),
            !has_session(old(self).tracker.sessions@, session_id) <==> (r is Err && r->Err_0
                is NotFound),
            (r is Err && r->Err_0 is NotFound) ==> *final(self) == *old(self),
            (has_session(old(self).tracker.sessions@, session_id) && !session_of(
                old(self).tracker.sessions@,
                session_id,
            ).closing && !session_of(old(self).tracker.sessions@, session_id).complete())
                ==> (r is Err && r->Err_0 is Validation && *final(self) == *old(self)),
            r is Ok ==> (has_session(old(self).tracker.sessions@, session_id)
                && session_of(old(self).tracker.sessions@, session_id).complete()),
            r is Ok ==> {
                let sess = session_of(old(self).tracker.sessions@, session_id);
                let rec = r->Ok_0;
                &&& rec.original_name@ == sess.original_name@
                &&& rec.file_size == sess.expected_size
                &&& rec.mime_type@ == mime_of(sess.original_name@)
                &&& rec.is_video == is_video_name(sess.original_name@)
                &&& rec.upload_time == now
                &&& rec.thumbnail_path is None
                &&& final(self).meta.rows@.len() == old(self).meta.rows@.len() + 1
                &&& has_file_id(final(self).meta.rows@, rec.id@)
                &&& !has_file_id(old(self).meta.rows@, rec.id@)
                &&& !has_session(final(self).tracker.sessions@, session_id)
                &&& forall|d: u64|
                    d != session_id ==> (#[trigger] has_session(
                        final(self).tracker.sessions@,
                        d,
                    ) == has_session(old(self).tracker.sessions@, d))
                &&& !final(self).files.has(sess.temp_name@)
                &&& final(self).files.has(rec.stored_name@)
                &&& final(self).files.content(rec.stored_name@) == old(self).files.content(
                    sess.temp_name@,
                )
                &&& final(self).files.content(rec.stored_name@).len() == sess.expected_size
            },
    {
        let i = match self.tracker.position(session_id) {
            Some(i) => i,
            None => {
                return Err(ServerError::NotFound {
                    resource: String::from_str("upload session"),
                });
            },
        };
        let original_name = self.tracker.sessions[i].original_name.clone();
        let id = fresh_token();
        let stored_name = self.meta.generate_stored_name(original_name.as_str());
        self.finalize_with(session_id, id, stored_name, now)
    }
    /// The expiry sweep: every session idle past the configured timeout is
    /// discarded and its temp file deleted; sessions in the middle of
    /// finalization are skipped, every other session and every other file
    /// stays exactly as it was.
    #[verifier::rlimit(50)]
    pub fn expire_stale(&mut self, now: i64)
        requires
            old(self).wf(),
        ensures
            final(self).wf(),
            final(self).same_config(*old(self)),
            final(self).meta == old(self).meta,
            final(self).tracker.next_id == old(self).tracker.next_id,
            forall|d: u64|
                #[trigger] has_session(final(self).tracker.sessions@, d) <==> (has_session(
                    old(self).tracker.sessions@,
                    d,
                ) && !session_of(old(self).tracker.sessions@, d).expired(
                    now,
                    old(self).request_timeout,
                )),
            forall|d: u64|
                has_session(final(self).tracker.sessions@, d) ==> #[trigger] session_of(
                    final(self).tracker.sessions@,
                    d,
                ) == session_of(old(self).tracker.sessions@, d),
            forall|m: Seq<char>|
                #[trigger] final(self).files.has(m) <==> (old(self).files.has(m) && !(
                exists|k: int|
                    0 <= k < old(self).tracker.sessions@.len() && (#[trigger] old(self).tracker.sessions@[k]).expired(now, old(self).request_timeout)
                        && old(self).tracker.sessions@[k].temp_name@ == m)),
            forall|m: Seq<char>|
                final(self).files.has(m) && old(self).files.has(m)
                    ==> #[trigger] final(self).files.content(m) == old(self).files.content(m),
    {
        let ghost orig_sessions = old(self).tracker.sessions@;
        let ghost orig_files = old(self).files;
        let timeout = self.request_timeout;
        let mut i: usize = 0;
        while i < self.tracker.sessions.len()
            invariant
                self.wf(),
                self.same_config(*old(self)),
                self.meta == old(self).meta,
                self.tracker.next_id == old(self).tracker.next_id,
                timeout == old(self).request_timeout,
                orig_sessions == old(self).tracker.sessions@,
                orig_files == old(self).files,
                unique_session_ids(orig_sessions),
                0 <= i <= self.tracker.sessions@.len(),
                forall|k: int|
                    0 <= k < i ==> !(#[trigger] self.tracker.sessions@[k]).expired(
                        now,
                        timeout,
                    ),
                forall|d: u64|
                    #[trigger] has_session(self.tracker.sessions@, d) ==> (has_session(
                        orig_sessions,
                        d,
                    ) && session_of(self.tracker.sessions@, d) == session_of(
                        orig_sessions,
                        d,
                    )),
                forall|d: u64|
                    (has_session(orig_sessions, d) && !session_of(orig_sessions, d).expired(
                        now,
                        timeout,
                    )) ==> #[trigger] has_session(self.tracker.sessions@, d),
                forall|m: Seq<char>|
                    #[trigger] self.files.has(m) <==> (orig_files.has(m) && !(exists|k: int|
                        0 <= k < orig_sessions.len() && (#[trigger] orig_sessions[k]).expired(
                            now,
                            timeout,
                        ) && orig_sessions[k].temp_name@ == m && !has_session(
                            self.tracker.sessions@,
                            orig_sessions[k].session_id,
                        ))),
                forall|m: Seq<char>|
                    self.files.has(m) && orig_files.has(m) ==> #[trigger] self.files.content(
                        m,
                    ) == orig_files.content(m),
            decreases self.tracker.sessions@.len() - i,
        {
            let sess_closing = self.tracker.sessions[i].closing;
            let sess_last = self.tracker.sessions[i].last_activity;
            let stale = !sess_closing && (now as i128) - (sess_last as i128) > (
            timeout as i128) * 1000;
            if !stale {
                proof {
                    assert(!self.tracker.sessions@[i as int].expired(now, timeout));
                }
                i = i + 1;
            } else {
                let id = self.tracker.sessions[i].session_id;
                let ghost pre = *self;
                let ghost victim = self.tracker.sessions@[i as int];
                proof {
                    lemma_session_found(self.tracker.sessions@, id, i as int);
                }
                match self.abort(id) {
                    Ok(()) => {},
                    Err(e) => {
                        proof {
                            assert(false);
                        }
                        return ;
                    },
                }
                proof {
                    let s = self.tracker.sessions@;
                    // the aborted session is one of the original expired ones
                    assert(has_session(orig_sessions, id));
                    assert(session_of(orig_sessions, id) == victim);
                    assert(victim.expired(now, timeout));
                    let ko = crate::tracker::session_idx(orig_sessions, id);
                    assert(orig_sessions[ko] == victim);
                    // the prefix of survivors is unchanged
                    assert(s =~= pre.tracker.sessions@.remove(i as int));
                    assert forall|k: int| 0 <= k < i implies !(#[trigger] s[k]).expired(
                        now,
                        timeout,
                    ) by {
                        assert(s[k] == pre.tracker.sessions@[k]);
                    }
                    // session views
                    assert forall|d: u64| #[trigger] has_session(s, d) implies (has_session(
                        orig_sessions,
                        d,
                    ) && session_of(s, d) == session_of(orig_sessions, d)) by {
                        assert(has_session(pre.tracker.sessions@, d));
                        assert(session_of(s, d) == session_of(pre.tracker.sessions@, d));
                    }
                    assert forall|d: u64|
                        (has_session(orig_sessions, d) && !session_of(
                            orig_sessions,
                            d,
                        ).expired(now, timeout)) implies #[trigger] has_session(s, d) by {
                        assert(has_session(pre.tracker.sessions@, d));
                        if d == id {
                            assert(session_of(orig_sessions, d) == victim);
                            assert(false);
                        }
                    }
                    // file views
                    assert forall|m: Seq<char>| #[trigger] self.files.has(m)
                        <==> (orig_files.has(m) && !(exists|k: int|
                        0 <= k < orig_sessions.len() && (#[trigger] orig_sessions[k]).expired(
                            now,
                            timeout,
                        ) && orig_sessions[k].temp_name@ == m && !has_session(
                            s,
                            orig_sessions[k].session_id,
                        ))) by {
                        if m == victim.temp_name@ {
                            assert(!self.files.has(m));
                            assert(orig_sessions[ko].expired(now, timeout)
                                && orig_sessions[ko].temp_name@ == m && !has_session(
                                s,
                                orig_sessions[ko].session_id,
                            ));
                        } else {
                            assert(self.files.has(m) == pre.files.has(m));
                            if pre.files.has(m) {
                                assert(self.files.content(m) == pre.files.content(m));
                            }
                            assert forall|k: int|
                                0 <= k < orig_sessions.len() && (
                                #[trigger] orig_sessions[k]).expired(now, timeout)
                                    && orig_sessions[k].temp_name@ == m implies (has_session(
                                s,
                                orig_sessions[k].session_id,
                            ) == has_session(
                                pre.tracker.sessions@,
                                orig_sessions[k].session_id,
                            )) by {
                                if orig_sessions[k].session_id == id {
                                    crate::tracker::lemma_session_found(
                                        orig_sessions,
                                        id,
                                        k,
                                    );
                                    assert(orig_sessions[k] == victim);
                                    assert(false);
                                }
                            }
                        }
                    }
                }
            }
        }
        proof {
            let s = self.tracker.sessions@;
            assert forall|d: u64| #[trigger] has_session(s, d) implies (has_session(
                orig_sessions,
                d,
            ) && !session_of(orig_sessions, d).expired(now, timeout)) by {
                let t = crate::tracker::session_idx(s, d);
                assert(s[t].session_id == d);
                assert(!s[t].expired(now, timeout));
                assert(session_of(s, d) == s[t]) by {
                    crate::tracker::lemma_session_found(s, d, t);
                }
            }
            assert forall|m: Seq<char>| #[trigger] self.files.has(m) <==> (orig_files.has(m)
                && !(exists|k: int|
                0 <= k < orig_sessions.len() && (#[trigger] orig_sessions[k]).expired(
                    now,
                    timeout,
                ) && orig_sessions[k].temp_name@ == m)) by {
                assert forall|k: int|
                    0 <= k < orig_sessions.len() && (#[trigger] orig_sessions[k]).expired(
                        now,
                        timeout,
                    ) implies !has_session(s, orig_sessions[k].session_id) by {
                    let d = orig_sessions[k].session_id;
                    crate::tracker::lemma_session_found(orig_sessions, d, k);
                    if has_session(s, d) {
                        assert(!session_of(orig_sessions, d).expired(now, timeout));
                    }
                }
            }
        }
    }

    /// Runs the expiry sweep against the wall clock. Whatever the clock
    /// says, no session appears or changes, the metadata table stays as it
    /// was, and stored files survive: at most idle sessions and their temp
    /// files go away.
    pub fn sweep(&mut self)
        requires
            old(self).wf(),
        ensures
            final(self).wf(),
            final(self).same_config(*old(self)),
            final(self).meta == old(self).meta,
            forall|d: u64|
                #[trigger] has_session(final(self).tracker.sessions@, d) ==> (has_session(
                    old(self).tracker.sessions@,
                    d,
                ) && session_of(final(self).tracker.sessions@, d) == session_of(
                    old(self).tracker.sessions@,
                    d,
                )),
            forall|k: int|
                0 <= k < old(self).meta.rows@.len() ==> final(self).files.has(
                    (#[trigger] old(self).meta.rows@[k]).stored_name@,
                ) && final(self).files.content(old(self).meta.rows@[k].stored_name@)
                    == old(self).files.content(old(self).meta.rows@[k].stored_name@),
    {
        let now = now_millis();
        self.expire_stale(now);
        proof {
            assert forall|k: int| 0 <= k < old(self).meta.rows@.len() implies self.files.has(
                (#[trigger] old(self).meta.rows@[k]).stored_name@,
            ) && self.files.content(old(self).meta.rows@[k].stored_name@)
                == old(self).files.content(old(self).meta.rows@[k].stored_name@) by {
                let m = old(self).meta.rows@[k].stored_name@;
                assert(record_synced(old(self).files, old(self).meta.rows@[k]));
                if exists|j: int|
                    0 <= j < old(self).tracker.sessions@.len() && (#[trigger] old(self).tracker.sessions@[j]).expired(now, old(self).request_timeout)
                        && old(self).tracker.sessions@[j].temp_name@ == m {
                    let j = choose|j: int|
                        0 <= j < old(self).tracker.sessions@.len() && (#[trigger] old(self).tracker.sessions@[j]).expired(now, old(self).request_timeout)
                            && old(self).tracker.sessions@[j].temp_name@ == m;
                    assert((old(self).tracker.sessions@[j]).temp_name@ != (old(self).meta.rows@[k]).stored_name@);
                    assert(false);
                }
            }
        }
    }
}

} // verus!
