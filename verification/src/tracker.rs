//! The registry of in-progress chunked uploads.
//!
//! Each session records the client's file name, the expected total size,
//! the temp file the chunks land in, the byte ranges received so far, and
//! activity times for expiry. Sessions are keyed by a fresh numeric id;
//! operations on one session leave every other session untouched.

use vstd::prelude::*;
use crate::error::ServerError;
use crate::intervals::RangeSet;

verus! {

/// One in-progress upload.
pub struct UploadSession {
    pub session_id: u64,
    pub original_name: String,
    pub expected_size: u64,
    pub temp_name: String,
    pub received: RangeSet,
    pub created_at: i64,
    pub last_activity: i64,
    pub closing: bool,
}

impl UploadSession {
    /// Valid sessions expect at least one byte, no more than a machine
    /// word can index, and have received only bytes below the expected
    /// size.
    pub open spec fn wf(self) -> bool {
        &&& self.received.wf()
        &&& self.received.bounded(self.expected_size as int)
        &&& self.expected_size > 0
        &&& self.expected_size <= usize::MAX
    }

    /// Whether every byte of `[0, expected_size)` has been received.
    pub open spec fn complete(self) -> bool {
        forall|x: int| 0 <= x < self.expected_size ==> self.received.covers(x)
    }

    /// Whether the session has sat idle past the timeout (given in
    /// seconds) at wall-clock time `now`, and is not in the middle of
    /// being finalized.
    pub open spec fn expired(self, now: i64, timeout_secs: u64) -> bool {
        !self.closing && now - self.last_activity > timeout_secs * 1000
    }
}

pub open spec fn unique_session_ids(s: Seq<UploadSession>) -> bool {
    forall|i: int, j: int|
        0 <= i < j < s.len() ==> (#[trigger] s[i]).session_id != (#[trigger] s[j]).session_id
}

pub open spec fn has_session(s: Seq<UploadSession>, id: u64) -> bool {
    exists|i: int| 0 <= i < s.len() && (#[trigger] s[i]).session_id == id
}

pub open spec fn session_idx(s: Seq<UploadSession>, id: u64) -> int {
    choose|i: int| 0 <= i < s.len() && (#[trigger] s[i]).session_id == id
}

/// The session stored under this id.
pub open spec fn session_of(s: Seq<UploadSession>, id: u64) -> UploadSession {
    s[session_idx(s, id)]
}

/// With unique ids, the session found at index `i` is the one every
/// id-based spec speaks of.
pub proof fn lemma_session_found(s: Seq<UploadSession>, id: u64, i: int)
    requires
        unique_session_ids(s),
        0 <= i < s.len(),
        s[i].session_id == id,
    ensures
        has_session(s, id),
        session_idx(s, id) == i,
        session_of(s, id) == s[i],
{
    assert(has_session(s, id));
    let j = session_idx(s, id);
    if j != i {
        assert(false);
    }
}

/// The registry of open sessions. Ids are drawn from a counter, so no two
/// sessions ever share one.
pub struct UploadSessionTracker {
    pub sessions: Vec<UploadSession>,
    pub next_id: u64,
}

impl UploadSessionTracker {
    pub open spec fn wf(self) -> bool {
        &&& unique_session_ids(self.sessions@)
        &&& forall|i: int|
            0 <= i < self.sessions@.len() ==> (#[trigger] self.sessions@[i]).wf()
        &&& forall|i: int|
            0 <= i < self.sessions@.len() ==> (#[trigger] self.sessions@[i]).session_id
                < self.next_id
    }

    /// An empty registry.
    pub fn new() -> (r: Self)
        ensures
            r.wf(),
            r.sessions@.len() == 0,
    {
        UploadSessionTracker { sessions: Vec::new(), next_id: 0 }
    }

    pub(crate) fn position(&self, session_id: u64) -> (r: Option<usize>)
        requires
            self.wf(),
        ensures
            match r {
                Some(i) => i < self.sessions@.len() && self.sessions@[i as int].session_id
                    == session_id && has_session(self.sessions@, session_id) && session_idx(
                    self.sessions@,
                    session_id,
                ) == i,
                None => !has_session(self.sessions@, session_id),
            },
    {
        let n = self.sessions.len();
        let mut i: usize = 0;
        while i < n
            invariant
                self.wf(),
                n == self.sessions@.len(),
                0 <= i <= n,
                forall|k: int|
                    0 <= k < i ==> (#[trigger] self.sessions@[k]).session_id != session_id,
            decreases n - i,
        {
            if self.sessions[i].session_id == session_id {
                proof {
                    lemma_session_found(self.sessions@, session_id, i as int);
                }
                return Some(i);
            }
            i = i + 1;
        }
        None
    }

    /// Opens a session for an upload of `expected_size` bytes that will
    /// land in the temp file `temp_name`. Fails only when the id counter
    /// is exhausted.
    pub fn open(
        &mut self,
        original_name: String,
        expected_size: u64,
        temp_name: String,
        now: i64,
    ) -> (r: Result<u64, ServerError>)
        requires
            old(self).wf(),
            expected_size > 0,
            expected_size <= usize::MAX,
        ensures
            final(self).wf(),
            r is Err <==> old(self).next_id == u64::MAX,
            r is Err ==> r->Err_0 is IoFailure && *final(self) == *old(self),
            r is Ok ==> {
                let sess = final(self).sessions@.last();
                &&& r->Ok_0 == old(self).next_id
                &&& !has_session(old(self).sessions@, r->Ok_0)
                &&& final(self).sessions@.len() == old(self).sessions@.len() + 1
                &&& forall|k: int|
                    0 <= k < old(self).sessions@.len() ==> #[trigger] final(self).sessions@[k]
                        == old(self).sessions@[k]
                &&& sess.session_id == r->Ok_0
                &&& sess.original_name == original_name
                &&& sess.expected_size == expected_size
                &&& sess.temp_name == temp_name
                &&& sess.created_at == now
                &&& sess.last_activity == now
                &&& sess.closing == false
                &&& sess.received.wf()
                &&& forall|x: int| !sess.received.covers(x)
                &&& has_session(final(self).sessions@, r->Ok_0)
                &&& session_idx(final(self).sessions@, r->Ok_0) == old(self).sessions@.len()
                &&& final(self).next_id == old(self).next_id + 1
            },
    {
        if self.next_id == u64::MAX {
            return Err(ServerError::IoFailure {
                message: String::from_str("session identifiers exhausted"),
            });
        }
        let id = self.next_id;
        proof {
            if has_session(self.sessions@, id) {
                let k = choose|k: int|
                    0 <= k < self.sessions@.len() && (#[trigger] self.sessions@[k]).session_id
                        == id;
                assert(false);
            }
        }
        let session = UploadSession {
            session_id: id,
            original_name,
            expected_size,
            temp_name,
            received: RangeSet::new(),
            created_at: now,
            last_activity: now,
            closing: false,
        };
        self.sessions.push(session);
        self.next_id = id + 1;
        proof {
            let s = self.sessions@;
            assert forall|a: int, b: int|
                0 <= a < b < s.len() implies (#[trigger] s[a]).session_id
                != (#[trigger] s[b]).session_id by {
                if b < s.len() - 1 {
                    assert(s[a] == old(self).sessions@[a] && s[b] == old(self).sessions@[b]);
                } else {
                    assert(s[a] == old(self).sessions@[a]);
                }
            }
        }
        Ok(id)
    }

    /// Records that the bytes `[offset, offset + len)` of this session's
    /// content have arrived at time `now`. Overlapping and out-of-order
    /// ranges are welcome; empty ones are rejected, as is any range that
    /// would reach past the expected size or touch a session that is being
    /// finalized. No other session changes.
    pub fn write_chunk(&mut self, session_id: u64, offset: u64, len: u64, now: i64) -> (r:
        Result<(), ServerError>)
        requires
            old(self).wf(),
        ensures
            final(self).wf(),
            !has_session(old(self).sessions@, session_id) <==> (r is Err && r->Err_0
                is NotFound),
            (has_session(old(self).sessions@, session_id) && len == 0) <==> (r is Err
                && r->Err_0 is Validation),
            (has_session(old(self).sessions@, session_id) && len > 0 && {
                let sess = session_of(old(self).sessions@, session_id);
                sess.closing || offset + len > sess.expected_size
            }) <==> (r is Err && r->Err_0 is Conflict),
            r is Err ==> *final(self) == *old(self),
            r is Ok <==> (has_session(old(self).sessions@, session_id) && len > 0
                && !session_of(old(self).sessions@, session_id).closing && offset + len
                <= session_of(old(self).sessions@, session_id).expected_size),
            r is Ok ==> {
                let i = session_idx(old(self).sessions@, session_id);
                let before = old(self).sessions@[i];
                let after = final(self).sessions@[i];
                &&& final(self).sessions@.len() == old(self).sessions@.len()
                &&& forall|k: int|
                    0 <= k < old(self).sessions@.len() && k != i ==> final(self).sessions@[k]
                        == #[trigger] old(self).sessions@[k]
                &&& after.session_id == before.session_id
                &&& after.original_name == before.original_name
                &&& after.expected_size == before.expected_size
                &&& after.temp_name == before.temp_name
                &&& after.created_at == before.created_at
                &&& after.closing == before.closing
                &&& after.last_activity == now
                &&& after.received.wf()
                &&& forall|x: int|
                    #[trigger] after.received.covers(x) <==> (before.received.covers(x)
                        || offset <= x < offset + len)
                &&& final(self).next_id == old(self).next_id
            },
    {
        let i = match self.position(session_id) {
            Some(i) => i,
            None => {
                return Err(ServerError::NotFound {
                    resource: String::from_str("upload session"),
                });
            },
        };
        if len == 0 {
            return Err(ServerError::Validation { message: String::from_str("empty chunk") });
        }
        if self.sessions[i].closing {
            return Err(ServerError::Conflict {
                message: String::from_str("session is being finalized"),
            });
        }
        let expected = self.sessions[i].expected_size;
        if offset > expected || len > expected - offset {
            return Err(ServerError::Conflict {
                message: String::from_str("write would exceed the expected size"),
            });
        }
        let ghost orig = self.sessions@;
        let sess = &mut self.sessions[i];
        sess.received.insert(offset, offset + len);
        sess.last_activity = now;
        proof {
            let gi = i as int;
            assert(self.sessions@ =~= orig.update(gi, self.sessions@[gi]));
            assert forall|a: int, b: int|
                0 <= a < b < self.sessions@.len() implies (#[trigger] self.sessions@[a]).session_id
                != (#[trigger] self.sessions@[b]).session_id by {
                assert(self.sessions@[a].session_id == orig[a].session_id);
                assert(self.sessions@[b].session_id == orig[b].session_id);
            }
            assert forall|k: int|
                0 <= k < self.sessions@.len() implies (#[trigger] self.sessions@[k]).wf() by {
                if k != gi {
                    assert(self.sessions@[k] == orig[k]);
                } else {
                    assert forall|x: int| #[trigger] self.sessions@[gi].received.covers(
                        x,
                    ) implies 0 <= x < self.sessions@[gi].expected_size as int by {
                        if orig[gi].received.covers(x) {
                        }
                    }
                }
            }
            lemma_session_found(orig, session_id, gi);
        }
        Ok(())
    }

    /// Whether the session's received ranges cover all of its expected
    /// content.
    pub fn is_complete(&self, session_id: u64) -> (r: Result<bool, ServerError>)
        requires
            self.wf(),
        ensures
            r is Ok <==> has_session(self.sessions@, session_id),
            r is Err ==> r->Err_0 is NotFound,
            r is Ok ==> r->Ok_0 == session_of(self.sessions@, session_id).complete(),
    {
        let i = match self.position(session_id) {
            Some(i) => i,
            None => {
                return Err(ServerError::NotFound {
                    resource: String::from_str("upload session"),
                });
            },
        };
        let expected = self.sessions[i].expected_size;
        Ok(self.sessions[i].received.is_complete(expected))
    }

    /// Marks the session as closing, so that neither new chunks nor the
    /// expiry sweep touch it while it is committed.
    pub fn mark_closing(&mut self, session_id: u64) -> (r: Result<(), ServerError>)
        requires
            old(self).wf(),
        ensures
            final(self).wf(),
            r is Ok <==> has_session(old(self).sessions@, session_id),
            r is Err ==> r->Err_0 is NotFound && *final(self) == *old(self),
            r is Ok ==> final(self).sessions@ == old(self).sessions@.update(
                session_idx(old(self).sessions@, session_id),
                UploadSession {
                    closing: true,
                    ..old(self).sessions@[session_idx(old(self).sessions@, session_id)]
                },
            ) && final(self).next_id == old(self).next_id,
    {
        let i = match self.position(session_id) {
            Some(i) => i,
            None => {
                return Err(ServerError::NotFound {
                    resource: String::from_str("upload session"),
                });
            },
        };
        let ghost orig = self.sessions@;
        self.sessions[i].closing = true;
        proof {
            let gi = i as int;
            assert(self.sessions@ =~= orig.update(
                gi,
                UploadSession { closing: true, ..orig[gi] },
            ));
            assert forall|a: int, b: int|
                0 <= a < b < self.sessions@.len() implies (#[trigger] self.sessions@[a]).session_id
                != (#[trigger] self.sessions@[b]).session_id by {
                assert(self.sessions@[a].session_id == orig[a].session_id);
                assert(self.sessions@[b].session_id == orig[b].session_id);
            }
            assert forall|k: int|
                0 <= k < self.sessions@.len() implies (#[trigger] self.sessions@[k]).wf() by {
                if k != gi {
                    assert(self.sessions@[k] == orig[k]);
                } else {
                    assert(orig[gi].wf());
                    assert(self.sessions@[gi].received == orig[gi].received);
                    assert(self.sessions@[gi].expected_size == orig[gi].expected_size);
                }
            }
        }
        Ok(())
    }

    /// Takes the session out of the registry and hands it back, for
    /// cleanup or commit.
    pub fn remove_session(&mut self, session_id: u64) -> (r: Result<UploadSession, ServerError>)
        requires
            old(self).wf(),
        ensures
            final(self).wf(),
            r is Ok <==> has_session(old(self).sessions@, session_id),
            r is Err ==> r->Err_0 is NotFound && *final(self) == *old(self),
            r is Ok ==> {
                &&& r->Ok_0 == session_of(old(self).sessions@, session_id)
                &&& final(self).sessions@ == old(self).sessions@.remove(
                    session_idx(old(self).sessions@, session_id),
                )
                &&& !has_session(final(self).sessions@, session_id)
                &&& forall|d: u64|
                    d != session_id ==> (#[trigger] has_session(final(self).sessions@, d)
                        == has_session(old(self).sessions@, d))
                &&& forall|d: u64|
                    d != session_id && has_session(old(self).sessions@, d) ==> session_of(
                        final(self).sessions@,
                        d,
                    ) == #[trigger] session_of(old(self).sessions@, d)
                &&& final(self).next_id == old(self).next_id
            },
    {
        let i = match self.position(session_id) {
            Some(i) => i,
            None => {
                return Err(ServerError::NotFound {
                    resource: String::from_str("upload session"),
                });
            },
        };
        let ghost orig = self.sessions@;
        let sess = self.sessions.remove(i);
        proof {
            let gi = i as int;
            assert(self.sessions@ =~= orig.remove(gi));
            assert forall|a: int, b: int|
                0 <= a < b < self.sessions@.len() implies (#[trigger] self.sessions@[a]).session_id
                != (#[trigger] self.sessions@[b]).session_id by {
                let aa = if a < gi { a } else { a + 1 };
                let bb = if b < gi { b } else { b + 1 };
                assert(self.sessions@[a] == orig[aa] && self.sessions@[b] == orig[bb]);
            }
            assert forall|k: int|
                0 <= k < self.sessions@.len() implies ((#[trigger] self.sessions@[k]).wf()
                && self.sessions@[k].session_id < self.next_id) by {
                let kk = if k < gi { k } else { k + 1 };
                assert(self.sessions@[k] == orig[kk]);
            }
            if has_session(self.sessions@, session_id) {
                let k = choose|k: int|
                    0 <= k < self.sessions@.len() && (#[trigger] self.sessions@[k]).session_id
                        == session_id;
                let kk = if k < gi { k } else { k + 1 };
                assert(orig[kk].session_id == session_id);
                assert(kk != gi ==> false);
                assert(false);
            }
            assert forall|d: u64| d != session_id implies (#[trigger] has_session(
                self.sessions@,
                d,
            ) == has_session(orig, d)) by {
                if has_session(orig, d) {
                    let k = choose|k: int|
                        0 <= k < orig.len() && (#[trigger] orig[k]).session_id == d;
                    assert(k != gi);
                    let kk = if k < gi { k } else { k - 1 };
                    assert(self.sessions@[kk] == orig[k]);
                } else if has_session(self.sessions@, d) {
                    let k = choose|k: int|
                        0 <= k < self.sessions@.len() && (#[trigger] self.sessions@[k]).session_id
                            == d;
                    let kk = if k < gi { k } else { k + 1 };
                    assert(orig[kk].session_id == d);
                    assert(false);
                }
            }
            assert forall|d: u64|
                d != session_id && has_session(orig, d) implies session_of(self.sessions@, d)
                == #[trigger] session_of(orig, d) by {
                let k = choose|k: int| 0 <= k < orig.len() && (#[trigger] orig[k]).session_id
                    == d;
                assert(k != gi);
                let kk = if k < gi { k } else { k - 1 };
                assert(self.sessions@[kk] == orig[k]);
                lemma_session_found(self.sessions@, d, kk);
                lemma_session_found(orig, d, k);
            }
            lemma_session_found(orig, session_id, gi);
        }
        Ok(sess)
    }
}

} // verus!
