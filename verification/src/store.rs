//! In-memory model of the storage root: named files holding bytes.
//!
//! The transfer engine writes chunks at offsets, renames a finished temp
//! file to its canonical stored name, deletes, and reads ranges. Holding the
//! bytes behind these few operations lets the engine's commit protocol be
//! verified over exact file contents; a runtime shell may forward the same
//! operations to a real filesystem.

use vstd::prelude::*;

verus! {

/// One stored file: its name within the storage root, and its bytes.
pub struct StoredFile {
    pub name: String,
    pub data: Vec<u8>,
}

/// No two files share a name.
pub open spec fn unique_names(s: Seq<StoredFile>) -> bool {
    forall|i: int, j: int|
        0 <= i < j < s.len() ==> (#[trigger] s[i]).name@ != (#[trigger] s[j]).name@
}

/// Whether a file of this name exists.
pub open spec fn has_name(s: Seq<StoredFile>, name: Seq<char>) -> bool {
    exists|i: int| 0 <= i < s.len() && (#[trigger] s[i]).name@ == name
}

/// The index of the file of this name (meaningful only when it exists and
/// names are unique).
pub open spec fn idx_of(s: Seq<StoredFile>, name: Seq<char>) -> int {
    choose|i: int| 0 <= i < s.len() && (#[trigger] s[i]).name@ == name
}

/// The bytes of the file of this name.
pub open spec fn content_of(s: Seq<StoredFile>, name: Seq<char>) -> Seq<u8> {
    s[idx_of(s, name)].data@
}

/// With unique names, the file found at index `i` is the one every
/// name-based spec speaks of.
pub proof fn lemma_found(s: Seq<StoredFile>, name: Seq<char>, i: int)
    requires
        unique_names(s),
        0 <= i < s.len(),
        s[i].name@ == name,
    ensures
        has_name(s, name),
        idx_of(s, name) == i,
        content_of(s, name) == s[i].data@,
{
    assert(has_name(s, name));
    let j = idx_of(s, name);
    if j != i {
        assert(false);
    }
}

/// The content of a file after `data` is written at `offset`: the file is
/// zero-extended to make the write fit, bytes under the write take the new
/// data, all others keep their old value.
pub open spec fn write_bytes(content: Seq<u8>, offset: int, data: Seq<u8>) -> Seq<u8> {
    let len = if content.len() >= offset + data.len() {
        content.len() as int
    } else {
        offset + data.len()
    };
    Seq::new(
        len as nat,
        |i: int|
            if offset <= i < offset + data.len() {
                data[i - offset]
            } else if i < content.len() {
                content[i]
            } else {
                0u8
            },
    )
}

/// The model of the storage root.
pub struct FileStore {
    pub files: Vec<StoredFile>,
}

impl FileStore {
    pub open spec fn wf(self) -> bool {
        unique_names(self.files@)
    }

    pub open spec fn has(self, name: Seq<char>) -> bool {
        has_name(self.files@, name)
    }

    pub open spec fn content(self, name: Seq<char>) -> Seq<u8> {
        content_of(self.files@, name)
    }

    /// An empty storage root.
    pub fn new() -> (r: Self)
        ensures
            r.wf(),
            forall|m: Seq<char>| !r.has(m),
    {
        FileStore { files: Vec::new() }
    }

    /// The index of the file of this name, if present.
    fn position(&self, name: &String) -> (r: Option<usize>)
        requires
            self.wf(),
        ensures
            match r {
                Some(i) => i < self.files@.len() && self.files@[i as int].name@ == name@
                    && self.has(name@) && idx_of(self.files@, name@) == i,
                None => !self.has(name@),
            },
    {
        let n = self.files.len();
        let mut i: usize = 0;
        while i < n
            invariant
                self.wf(),
                n == self.files@.len(),
                0 <= i <= n,
                forall|k: int| 0 <= k < i ==> (#[trigger] self.files@[k]).name@ != name@,
            decreases n - i,
        {
            if self.files[i].name == *name {
                proof {
                    lemma_found(self.files@, name@, i as int);
                }
                return Some(i);
            }
            i = i + 1;
        }
        None
    }

    /// Whether a file of this name exists.
    pub fn exists_file(&self, name: &String) -> (r: bool)
        requires
            self.wf(),
        ensures
            r == self.has(name@),
    {
        self.position(name).is_some()
    }

    /// Creates an empty file of this name; fails (and changes nothing) if
    /// the name is taken.
    pub fn create(&mut self, name: &String) -> (r: bool)
        requires
            old(self).wf(),
        ensures
            final(self).wf(),
            r == !old(self).has(name@),
            r ==> final(self).has(name@) && final(self).content(name@) == Seq::<u8>::empty(),
            !r ==> *final(self) == *old(self),
            forall|m: Seq<char>|
                m != name@ ==> (#[trigger] final(self).has(m) == old(self).has(m)
                    && (old(self).has(m) ==> final(self).content(m) == old(self).content(m))),
    {
        if self.position(name).is_some() {
            return false;
        }
        let ghost orig = self.files@;
        self.files.push(StoredFile { name: name.clone(), data: Vec::new() });
        proof {
            assert forall|a: int, b: int|
                0 <= a < b < self.files@.len() implies (#[trigger] self.files@[a]).name@
                != (#[trigger] self.files@[b]).name@ by {
                if b < orig.len() {
                    assert(self.files@[a] == orig[a] && self.files@[b] == orig[b]);
                } else {
                    assert(self.files@[a] == orig[a]);
                    assert(self.files@[b].name@ == name@);
                }
            }
            lemma_found(self.files@, name@, orig.len() as int);
            assert forall|m: Seq<char>| m != name@ implies (final(self).has(m) == old(
                self,
            ).has(m) && (old(self).has(m) ==> final(self).content(m) == old(self).content(
                m,
            ))) by {
                if has_name(orig, m) {
                    let k = choose|k: int| 0 <= k < orig.len() && (#[trigger] orig[k]).name@
                        == m;
                    assert(self.files@[k].name@ == m);
                    lemma_found(self.files@, m, k);
                    lemma_found(orig, m, k);
                } else if has_name(self.files@, m) {
                    let k = choose|k: int|
                        0 <= k < self.files@.len() && (#[trigger] self.files@[k]).name@ == m;
                    assert(k < orig.len());
                    assert(orig[k].name@ == m);
                    assert(false);
                }
            }
        }
        true
    }

    /// Writes `data` at byte `offset` of the named file, zero-extending the
    /// file if the write reaches past its current end.
    pub fn write_at(&mut self, name: &String, offset: usize, data: &[u8])
        requires
            old(self).wf(),
            old(self).has(name@),
            offset + data@.len() <= usize::MAX,
        ensures
            final(self).wf(),
            forall|m: Seq<char>| #[trigger] final(self).has(m) == old(self).has(m),
            final(self).content(name@) == write_bytes(
                old(self).content(name@),
                offset as int,
                data@,
            ),
            forall|m: Seq<char>|
                m != name@ && old(self).has(m) ==> #[trigger] final(self).content(m) == old(
                    self,
                ).content(m),
    {
        let i = self.position(name).unwrap();
        let ghost orig = self.files@;
        let ghost oldc = self.files@[i as int].data@;
        let ghost goal = write_bytes(oldc, offset as int, data@);

        let n0 = self.files[i].data.len();
        let dlen = data.len();
        let total = if n0 >= offset + dlen {
            n0
        } else {
            offset + dlen
        };
        let mut nd: Vec<u8> = Vec::new();
        let mut k: usize = 0;
        while k < total
            invariant
                0 <= k <= total,
                self.files@ == orig,
                i < orig.len(),
                n0 == orig[i as int].data@.len(),
                dlen == data@.len(),
                oldc == orig[i as int].data@,
                offset + dlen <= usize::MAX,
                total == goal.len(),
                goal == write_bytes(oldc, offset as int, data@),
                nd@.len() == k,
                forall|j: int| 0 <= j < k ==> nd@[j] == goal[j],
            decreases total - k,
        {
            let b: u8 = if offset <= k && k < offset + dlen {
                data[k - offset]
            } else if k < n0 {
                self.files[i].data[k]
            } else {
                0u8
            };
            nd.push(b);
            k = k + 1;
        }
        self.files[i].data = nd;
        proof {
            assert(final(self).files@ =~= orig.update(
                i as int,
                StoredFile { name: orig[i as int].name, data: final(self).files@[i as int].data },
            ));
            assert(self.files@[i as int].data@ =~= goal);
            assert forall|a: int, b: int|
                0 <= a < b < self.files@.len() implies (#[trigger] self.files@[a]).name@
                != (#[trigger] self.files@[b]).name@ by {
                assert(self.files@[a].name@ == orig[a].name@);
                assert(self.files@[b].name@ == orig[b].name@);
            }
            lemma_found(self.files@, name@, i as int);
            assert forall|m: Seq<char>| #[trigger] has_name(self.files@, m) == has_name(
                orig,
                m,
            ) by {
                if has_name(orig, m) {
                    let j = choose|j: int| 0 <= j < orig.len() && (#[trigger] orig[j]).name@
                        == m;
                    assert(self.files@[j].name@ == m);
                } else if has_name(self.files@, m) {
                    let j = choose|j: int|
                        0 <= j < self.files@.len() && (#[trigger] self.files@[j]).name@ == m;
                    assert(orig[j].name@ == m);
                    assert(false);
                }
            }
            assert forall|m: Seq<char>|
                m != name@ && has_name(orig, m) implies #[trigger] content_of(self.files@, m)
                == content_of(orig, m) by {
                let j = choose|j: int| 0 <= j < orig.len() && (#[trigger] orig[j]).name@ == m;
                assert(j != i);
                assert(self.files@[j].name@ == m && self.files@[j].data@ == orig[j].data@);
                lemma_found(self.files@, m, j);
                lemma_found(orig, m, j);
            }
        }
    }

    /// Renames a file. The target name must be free: a rename never
    /// overwrites another file.
    pub fn rename(&mut self, from: &String, to: &String)
        requires
            old(self).wf(),
            old(self).has(from@),
            !old(self).has(to@),
        ensures
            final(self).wf(),
            final(self).has(to@),
            !final(self).has(from@),
            final(self).content(to@) == old(self).content(from@),
            forall|m: Seq<char>|
                m != from@ && m != to@ ==> (#[trigger] final(self).has(m) == old(self).has(m)
                    && (old(self).has(m) ==> final(self).content(m) == old(self).content(m))),
    {
        let i = self.position(from).unwrap();
        let ghost orig = self.files@;
        self.files[i].name = to.clone();
        proof {
            assert(self.files@ =~= orig.update(
                i as int,
                StoredFile { name: self.files@[i as int].name, data: orig[i as int].data },
            ));
            assert(self.files@[i as int].name@ == to@);
            assert(self.files@[i as int].data@ == orig[i as int].data@);
            assert forall|a: int, b: int|
                0 <= a < b < self.files@.len() implies (#[trigger] self.files@[a]).name@
                != (#[trigger] self.files@[b]).name@ by {
                if a != i && b != i {
                    assert(self.files@[a] == orig[a] && self.files@[b] == orig[b]);
                } else if a == i {
                    assert(self.files@[b] == orig[b]);
                    if orig[b].name@ == to@ {
                        assert(has_name(orig, to@));
                        assert(false);
                    }
                } else {
                    assert(self.files@[a] == orig[a]);
                    if orig[a].name@ == to@ {
                        assert(has_name(orig, to@));
                        assert(false);
                    }
                }
            }
            lemma_found(self.files@, to@, i as int);
            lemma_found(orig, from@, i as int);
            if has_name(self.files@, from@) {
                let j = choose|j: int|
                    0 <= j < self.files@.len() && (#[trigger] self.files@[j]).name@ == from@;
                assert(j != i);
                assert(orig[j].name@ == from@);
                assert(false);
            }
            assert forall|m: Seq<char>| m != from@ && m != to@ implies (final(self).has(m)
                == old(self).has(m) && (old(self).has(m) ==> final(self).content(m) == old(
                self,
            ).content(m))) by {
                if has_name(orig, m) {
                    let j = choose|j: int| 0 <= j < orig.len() && (#[trigger] orig[j]).name@
                        == m;
                    assert(j != i);
                    assert(self.files@[j].name@ == m);
                    lemma_found(self.files@, m, j);
                    lemma_found(orig, m, j);
                } else if has_name(self.files@, m) {
                    let j = choose|j: int|
                        0 <= j < self.files@.len() && (#[trigger] self.files@[j]).name@ == m;
                    assert(j != i);
                    assert(orig[j].name@ == m);
                    assert(false);
                }
            }
        }
    }

    /// Deletes the named file if present; says whether it was.
    pub fn delete(&mut self, name: &String) -> (r: bool)
        requires
            old(self).wf(),
        ensures
            final(self).wf(),
            r == old(self).has(name@),
            !final(self).has(name@),
            forall|m: Seq<char>|
                m != name@ ==> (#[trigger] final(self).has(m) == old(self).has(m)
                    && (old(self).has(m) ==> final(self).content(m) == old(self).content(m))),
            !r ==> *final(self) == *old(self),
    {
        let idx = match self.position(name) {
            Some(i) => i,
            None => {
                return false;
            },
        };
        let ghost orig = self.files@;
        self.files.remove(idx);
        proof {
            let gi = idx as int;
            assert(self.files@ =~= orig.subrange(0, gi) + orig.subrange(gi + 1, orig.len() as int));
            assert forall|a: int, b: int|
                0 <= a < b < self.files@.len() implies (#[trigger] self.files@[a]).name@
                != (#[trigger] self.files@[b]).name@ by {
                let aa = if a < gi { a } else { a + 1 };
                let bb = if b < gi { b } else { b + 1 };
                assert(self.files@[a] == orig[aa]);
                assert(self.files@[b] == orig[bb]);
            }
            if has_name(self.files@, name@) {
                let j = choose|j: int|
                    0 <= j < self.files@.len() && (#[trigger] self.files@[j]).name@ == name@;
                let jj = if j < gi { j } else { j + 1 };
                assert(orig[jj].name@ == name@);
                assert(jj != gi ==> false);
                assert(false);
            }
            assert forall|m: Seq<char>| m != name@ implies (final(self).has(m) == old(
                self,
            ).has(m) && (old(self).has(m) ==> final(self).content(m) == old(self).content(
                m,
            ))) by {
                if has_name(orig, m) {
                    let j = choose|j: int| 0 <= j < orig.len() && (#[trigger] orig[j]).name@
                        == m;
                    assert(j != gi);
                    let jn = if j < gi { j } else { j - 1 };
                    assert(self.files@[jn] == orig[j]);
                    lemma_found(self.files@, m, jn);
                    lemma_found(orig, m, j);
                } else if has_name(self.files@, m) {
                    let j = choose|j: int|
                        0 <= j < self.files@.len() && (#[trigger] self.files@[j]).name@ == m;
                    let jj = if j < gi { j } else { j + 1 };
                    assert(orig[jj].name@ == m);
                    assert(false);
                }
            }
        }
        true
    }

    /// The length of the named file.
    pub fn len_of(&self, name: &String) -> (r: usize)
        requires
            self.wf(),
            self.has(name@),
        ensures
            r == self.content(name@).len(),
    {
        let i = self.position(name).unwrap();
        self.files[i].data.len()
    }

    /// The bytes of the half-open range `[start, end)` of the named file.
    pub fn read_range(&self, name: &String, start: usize, end: usize) -> (r: Vec<u8>)
        requires
            self.wf(),
            self.has(name@),
            start <= end <= self.content(name@).len(),
        ensures
            r@ == self.content(name@).subrange(start as int, end as int),
    {
        let i = self.position(name).unwrap();
        let mut out: Vec<u8> = Vec::new();
        let mut k = start;
        while k < end
            invariant
                self.wf(),
                self.has(name@),
                i < self.files@.len(),
                self.files@[i as int].data@ == self.content(name@),
                start <= k <= end <= self.files@[i as int].data@.len(),
                out@.len() == k - start,
                forall|j: int|
                    0 <= j < out@.len() ==> out@[j] == self.content(name@)[start + j],
            decreases end - k,
        {
            let b = self.files[i].data[k];
            out.push(b);
            k = k + 1;
        }
        proof {
            assert(out@ =~= self.content(name@).subrange(start as int, end as int));
        }
        out
    }
}

} // verus!
