//! The in-memory backend: a registry of named byte buffers that emulates
//! file creation with exclusive-creation semantics, append-only writes and
//! byte-accurate sequential reads. The registry is an explicit store object,
//! created per test run and handed to each operation, so no state leaks
//! across runs.
//!
//! Beyond the capability interface the backend exposes two test-only
//! operations: `put` seeds a path with fixture bytes, and `get_inner`
//! extracts a buffer for post-condition assertions.

use vstd::pervasive::VecAdditionalExecFns;
use vstd::prelude::*;

use crate::bytecopy::copy_memory;
use crate::filesystem::{FileSystem, StorageError};

verus! {

/// One registry entry: a named byte buffer.
struct FileEntry {
    name: String,
    data: Vec<u8>,
}

/// No two entries carry the same name: a path has at most one buffer.
spec fn keys_distinct(s: Seq<FileEntry>) -> bool {
    forall|i: int, j: int| 0 <= i < j < s.len() ==> s[i].name@ != s[j].name@
}

spec fn entries_contain(s: Seq<FileEntry>, p: Seq<char>) -> bool {
    exists|i: int| 0 <= i < s.len() && s[i].name@ == p
}

spec fn entry_index(s: Seq<FileEntry>, p: Seq<char>) -> int {
    choose|i: int| 0 <= i < s.len() && s[i].name@ == p
}

/// The registry as a map from path to buffer contents.
spec fn map_of(s: Seq<FileEntry>) -> Map<Seq<char>, Seq<u8>> {
    Map::new(
        |p: Seq<char>| entries_contain(s, p),
        |p: Seq<char>| s[entry_index(s, p)].data@,
    )
}

/// With distinct names, the entry at `i` is the one the map binds its name
/// to.
proof fn lemma_entry_index(s: Seq<FileEntry>, i: int)
    requires
        keys_distinct(s),
        0 <= i < s.len(),
    ensures
        entries_contain(s, s[i].name@),
        entry_index(s, s[i].name@) == i,
        map_of(s).dom().contains(s[i].name@),
        map_of(s)[s[i].name@] == s[i].data@,
{
    let p = s[i].name@;
    assert(entries_contain(s, p));
    let j = entry_index(s, p);
    if j != i {
        if i < j {
            assert(s[i].name@ != s[j].name@);
        } else {
            assert(s[j].name@ != s[i].name@);
        }
    }
}

/// Appending an entry under a fresh name adds exactly that binding to the
/// map.
proof fn lemma_map_push(s: Seq<FileEntry>, e: FileEntry)
    requires
        keys_distinct(s),
        !entries_contain(s, e.name@),
    ensures
        keys_distinct(s.push(e)),
        map_of(s.push(e)) == map_of(s).insert(e.name@, e.data@),
{
    let t = s.push(e);
    let n = s.len() as int;
    assert forall|i: int, j: int| 0 <= i < j < t.len() implies t[i].name@ != t[j].name@ by {
        if j < n {
            assert(s[i].name@ != s[j].name@);
        } else {
            assert(s[i].name@ != e.name@);
        }
    }
    assert forall|q: Seq<char>| entries_contain(t, q) && q != e.name@ implies entries_contain(
        s,
        q,
    ) && map_of(t)[q] == map_of(s)[q] by {
        let i = choose|i: int| 0 <= i < t.len() && t[i].name@ == q;
        assert(s[i].name@ == q);
        lemma_entry_index(s, i);
        lemma_entry_index(t, i);
    }
    assert forall|q: Seq<char>| entries_contain(s, q) implies entries_contain(t, q) by {
        let i = choose|i: int| 0 <= i < s.len() && s[i].name@ == q;
        assert(t[i].name@ == q);
    }
    lemma_entry_index(t, n);
    assert(map_of(t) =~= map_of(s).insert(e.name@, e.data@));
}

/// Replacing the entry at `i` with one of the same name rebinds that name
/// in the map and touches nothing else.
proof fn lemma_map_update(s: Seq<FileEntry>, i: int, e: FileEntry)
    requires
        keys_distinct(s),
        0 <= i < s.len(),
        e.name@ == s[i].name@,
    ensures
        keys_distinct(s.update(i, e)),
        map_of(s.update(i, e)) == map_of(s).insert(e.name@, e.data@),
{
    let t = s.update(i, e);
    assert forall|a: int, b: int| 0 <= a < b < t.len() implies t[a].name@ != t[b].name@ by {
        assert(s[a].name@ != s[b].name@);
    }
    assert forall|q: Seq<char>| entries_contain(t, q) implies entries_contain(s, q) by {
        let a = choose|a: int| 0 <= a < t.len() && t[a].name@ == q;
        assert(s[a].name@ == q);
    }
    assert forall|q: Seq<char>| entries_contain(s, q) implies entries_contain(t, q) by {
        let a = choose|a: int| 0 <= a < s.len() && s[a].name@ == q;
        assert(t[a].name@ == q);
    }
    assert forall|q: Seq<char>| entries_contain(s, q) && q != e.name@ implies map_of(t)[q]
        == map_of(s)[q] by {
        let a = choose|a: int| 0 <= a < s.len() && s[a].name@ == q;
        lemma_entry_index(s, a);
        lemma_entry_index(t, a);
    }
    lemma_entry_index(t, i);
    assert(map_of(t) =~= map_of(s).insert(e.name@, e.data@));
}

/// Removing the entry at `i` removes exactly its name from the map.
proof fn lemma_map_remove(s: Seq<FileEntry>, i: int)
    requires
        keys_distinct(s),
        0 <= i < s.len(),
    ensures
        keys_distinct(s.remove(i)),
        map_of(s.remove(i)) == map_of(s).remove(s[i].name@),
{
    let p = s[i].name@;
    let t = s.remove(i);
    assert forall|a: int, b: int| 0 <= a < b < t.len() implies t[a].name@ != t[b].name@ by {
        let a0 = if a < i { a } else { a + 1 };
        let b0 = if b < i { b } else { b + 1 };
        assert(t[a].name@ == s[a0].name@);
        assert(t[b].name@ == s[b0].name@);
        assert(s[a0].name@ != s[b0].name@);
    }
    assert forall|q: Seq<char>| entries_contain(t, q) implies entries_contain(s, q) && q != p by {
        let a = choose|a: int| 0 <= a < t.len() && t[a].name@ == q;
        let a0 = if a < i { a } else { a + 1 };
        assert(s[a0].name@ == q);
        if a0 != i {
            lemma_entry_index(s, a0);
            lemma_entry_index(s, i);
        }
    }
    assert forall|q: Seq<char>| entries_contain(s, q) && q != p implies entries_contain(t, q)
        && map_of(t)[q] == map_of(s)[q] by {
        let a = choose|a: int| 0 <= a < s.len() && s[a].name@ == q;
        let a1 = if a < i { a } else { a - 1 };
        assert(t[a1].name@ == s[a].name@);
        lemma_entry_index(s, a);
        lemma_entry_index(t, a1);
    }
    assert(map_of(t) =~= map_of(s).remove(p));
}

/// How many bytes a read returns: the request, capped by what remains of
/// the buffer past the read position.
pub open spec fn read_count(data: Seq<u8>, pos: int, requested: int) -> int {
    if requested <= data.len() - pos {
        requested
    } else {
        data.len() - pos
    }
}

/// The bytes a read returns: the run of the buffer starting at the read
/// position, as long as `read_count` says.
pub open spec fn read_bytes(data: Seq<u8>, pos: int, requested: int) -> Seq<u8> {
    data.subrange(pos, pos + read_count(data, pos, requested))
}

/// The in-memory backend: a registry mapping each path to at most one
/// buffer. Its view is the map from path to buffer contents.
pub struct MockFileSystem {
    files: Vec<FileEntry>,
}

/// A stream handle of the in-memory backend: names the buffer it is bound
/// to and counts the bytes already read through it. Reads go through the
/// registry entry as it currently stands, so content appended after the
/// handle was obtained is visible to later reads.
#[derive(Debug)]
pub struct MockFile {
    path: String,
    pos: usize,
}

impl View for MockFileSystem {
    type V = Map<Seq<char>, Seq<u8>>;

    closed spec fn view(&self) -> Map<Seq<char>, Seq<u8>> {
        map_of(self.files@)
    }
}

impl MockFileSystem {
    #[verifier::type_invariant]
    spec fn wf(&self) -> bool {
        keys_distinct(self.files@)
    }

    /// An empty registry.
    pub fn new() -> (fs: Self)
        ensures
            fs@ == Map::<Seq<char>, Seq<u8>>::empty(),
    {
        let fs = MockFileSystem { files: Vec::new() };
        proof {
            assert(fs@ =~= Map::<Seq<char>, Seq<u8>>::empty());
        }
        fs
    }

    /// Looks `key` up in the registry.
    fn find(&self, key: &String) -> (r: Option<usize>)
        ensures
            match r {
                Some(i) => i < self.files@.len() && self.files@[i as int].name@ == key@,
                None => !entries_contain(self.files@, key@),
            },
    {
        let mut i: usize = 0;
        while i < self.files.len()
            invariant
                i <= self.files@.len(),
                forall|j: int| 0 <= j < i ==> self.files@[j].name@ != key@,
            decreases self.files@.len() - i,
        {
            if self.files[i].name == *key {
                return Some(i);
            }
            i = i + 1;
        }
        None
    }

    /// Seeds the registry: binds `path` to a fresh buffer holding `v`,
    /// replacing any buffer already there. A test-only operation used to
    /// prime read fixtures.
    pub fn put(&mut self, path: &str, v: Vec<u8>)
        ensures
            final(self)@ == old(self)@.insert(path@, v@),
    {
        proof {
            use_type_invariant(&*self);
        }
        let key: String = path.to_owned();
        let found = self.find(&key);
        let ghost pre_files = self.files@;
        let mut files: Vec<FileEntry> = Vec::new();
        std::mem::swap(&mut files, &mut self.files);
        let entry = FileEntry { name: key, data: v };
        let ghost e = entry;
        match found {
            Some(i) => {
                files.set(i, entry);
                proof {
                    lemma_map_update(pre_files, i as int, e);
                }
            },
            None => {
                files.push(entry);
                proof {
                    lemma_map_push(pre_files, e);
                }
            },
        }
        std::mem::swap(&mut files, &mut self.files);
    }

    /// Extracts the buffer bound to `path`: removes it from the registry
    /// and returns its bytes. A test-only operation used to assert on
    /// written content once a write sequence completes; fails with
    /// `NotFound` when nothing is bound to `path`. The registry alone owns
    /// its buffers — handles name them by path — so extraction always gets
    /// the buffer back whole; a handle used after extraction finds its path
    /// unregistered.
    pub fn get_inner(&mut self, path: &str) -> (r: Result<Vec<u8>, StorageError>)
        ensures
            match r {
                Ok(v) => old(self)@.dom().contains(path@) && v@ == old(self)@[path@]
                    && final(self)@ == old(self)@.remove(path@),
                Err(e) => !old(self)@.dom().contains(path@) && e == StorageError::NotFound
                    && final(self)@ == old(self)@,
            },
    {
        proof {
            use_type_invariant(&*self);
        }
        let key: String = path.to_owned();
        match self.find(&key) {
            None => Err(StorageError::NotFound),
            Some(i) => {
                let ghost pre_files = self.files@;
                proof {
                    lemma_entry_index(pre_files, i as int);
                    lemma_map_remove(pre_files, i as int);
                }
                let mut files: Vec<FileEntry> = Vec::new();
                std::mem::swap(&mut files, &mut self.files);
                let entry = files.remove(i);
                std::mem::swap(&mut files, &mut self.files);
                Ok(entry.data)
            },
        }
    }
}

impl FileSystem for MockFileSystem {
    type FSRead = MockFile;

    type FSWrite = MockFile;

    /// Opening succeeds exactly on registered paths, hands back a handle
    /// bound to the path with nothing read yet, and never touches the
    /// registry.
    open spec fn open_ens(&self, path: Seq<char>, r: Result<MockFile, StorageError>) -> bool {
        match r {
            Ok(h) => self@.dom().contains(path) && h.path_spec() == path && h.pos_spec() == 0,
            Err(e) => !self@.dom().contains(path) && e == StorageError::NotFound,
        }
    }

    /// Creation is first-writer-wins: on a free path it registers a fresh
    /// empty buffer and hands back a handle bound to it; on an occupied
    /// path it fails with `AlreadyExists` and changes nothing.
    open spec fn save_ens(
        pre: Self,
        post: Self,
        path: Seq<char>,
        r: Result<MockFile, StorageError>,
    ) -> bool {
        match r {
            Ok(h) => !pre@.dom().contains(path) && post@ == pre@.insert(path, Seq::<u8>::empty())
                && h.path_spec() == path && h.pos_spec() == 0,
            Err(e) => pre@.dom().contains(path) && e == StorageError::AlreadyExists && post == pre,
        }
    }

    fn open(&self, path: &str) -> (r: Result<MockFile, StorageError>) {
        proof {
            use_type_invariant(self);
        }
        let key: String = path.to_owned();
        match self.find(&key) {
            Some(i) => {
                proof {
                    lemma_entry_index(self.files@, i as int);
                }
                Ok(MockFile { path: key, pos: 0 })
            },
            None => Err(StorageError::NotFound),
        }
    }

    fn save(&mut self, path: &str) -> (r: Result<MockFile, StorageError>) {
        proof {
            use_type_invariant(&*self);
        }
        let key: String = path.to_owned();
        match self.find(&key) {
            Some(i) => {
                proof {
                    lemma_entry_index(self.files@, i as int);
                }
                Err(StorageError::AlreadyExists)
            },
            None => {
                let ghost pre_files = self.files@;
                let entry = FileEntry { name: key.clone(), data: Vec::new() };
                let ghost e = entry;
                let mut files: Vec<FileEntry> = Vec::new();
                std::mem::swap(&mut files, &mut self.files);
                files.push(entry);
                proof {
                    lemma_map_push(pre_files, e);
                }
                std::mem::swap(&mut files, &mut self.files);
                Ok(MockFile { path: key, pos: 0 })
            },
        }
    }
}

impl MockFile {
    /// The path this handle is bound to.
    pub closed spec fn path_spec(&self) -> Seq<char> {
        self.path@
    }

    /// The number of bytes already read through this handle.
    pub closed spec fn pos_spec(&self) -> nat {
        self.pos as nat
    }

    /// A sequential read: copies `min(available, buf.len())` bytes of the
    /// buffer bound to this handle, starting at the read position, into the
    /// front of `buf`, and advances the position by the copied count. A
    /// count of zero signals end-of-stream. Fails with `NotFound` when the
    /// handle's path is no longer registered, and with `Fatal` when the
    /// read position lies beyond the end of the buffer — an invariant
    /// violation that cannot occur under correct use.
    pub fn read(&mut self, fs: &MockFileSystem, buf: &mut Vec<u8>) -> (r: Result<
        usize,
        StorageError,
    >)
        ensures
            final(self).path_spec() == old(self).path_spec(),
            match r {
                Ok(n) => {
                    &&& fs@.dom().contains(old(self).path_spec())
                    &&& old(self).pos_spec() <= fs@[old(self).path_spec()].len()
                    &&& n == read_count(
                        fs@[old(self).path_spec()],
                        old(self).pos_spec() as int,
                        old(buf)@.len() as int,
                    )
                    &&& final(self).pos_spec() == old(self).pos_spec() + n
                    &&& final(buf)@.len() == old(buf)@.len()
                    &&& final(buf)@ == read_bytes(
                        fs@[old(self).path_spec()],
                        old(self).pos_spec() as int,
                        old(buf)@.len() as int,
                    ) + old(buf)@.skip(n as int)
                },
                Err(e) => {
                    &&& final(self).pos_spec() == old(self).pos_spec()
                    &&& final(buf)@ == old(buf)@
                    &&& if fs@.dom().contains(old(self).path_spec()) {
                        e == StorageError::Fatal && old(self).pos_spec() > fs@[old(
                            self,
                        ).path_spec()].len()
                    } else {
                        e == StorageError::NotFound
                    }
                },
            },
    {
        proof {
            use_type_invariant(fs);
        }
        match fs.find(&self.path) {
            None => Err(StorageError::NotFound),
            Some(i) => {
                proof {
                    lemma_entry_index(fs.files@, i as int);
                }
                let data = &fs.files[i].data;
                let dlen = data.len();
                if self.pos > dlen {
                    Err(StorageError::Fatal)
                } else {
                    let avail = dlen - self.pos;
                    let n = if buf.len() < avail {
                        buf.len()
                    } else {
                        avail
                    };
                    copy_memory(data, self.pos, buf, 0, n);
                    self.pos = self.pos + n;
                    proof {
                        assert(old(buf)@.skip(n as int) =~= old(buf)@.subrange(
                            n as int,
                            old(buf)@.len() as int,
                        ));
                        assert(buf@ =~= read_bytes(
                            fs@[old(self).path_spec()],
                            old(self).pos_spec() as int,
                            old(buf)@.len() as int,
                        ) + old(buf)@.skip(n as int));
                    }
                    Ok(n)
                }
            },
        }
    }

    /// An append-only write: adds the whole of `data` to the end of the
    /// buffer bound to this handle and returns the full input length. The
    /// read position is not consulted and not moved. The buffer must still
    /// be registered — it is, as long as it has not been extracted.
    pub fn write(&mut self, fs: &mut MockFileSystem, data: &[u8]) -> (n: usize)
        requires
            old(fs)@.dom().contains(old(self).path_spec()),
        ensures
            n == data@.len(),
            final(self).path_spec() == old(self).path_spec(),
            final(self).pos_spec() == old(self).pos_spec(),
            final(fs)@ == old(fs)@.insert(
                old(self).path_spec(),
                old(fs)@[old(self).path_spec()] + data@,
            ),
    {
        proof {
            use_type_invariant(&*fs);
        }
        let found = fs.find(&self.path);
        proof {
            if found.is_none() {
                assert(!old(fs)@.dom().contains(self.path@));
            }
        }
        let i = found.unwrap();
        let ghost pre_files = fs.files@;
        proof {
            lemma_entry_index(pre_files, i as int);
        }
        let mut files: Vec<FileEntry> = Vec::new();
        std::mem::swap(&mut files, &mut fs.files);
        let mut entry = files.remove(i);
        let ghost entry0 = entry;
        let mut j: usize = 0;
        while j < data.len()
            invariant
                j <= data@.len(),
                entry.name@ == entry0.name@,
                entry.data@ == entry0.data@ + data@.subrange(0, j as int),
            decreases data@.len() - j,
        {
            let b = data[j];
            entry.data.push(b);
            proof {
                assert(entry.data@ =~= entry0.data@ + data@.subrange(0, j + 1 as int));
            }
            j = j + 1;
        }
        let ghost e = entry;
        files.insert(i, entry);
        proof {
            assert(e.data@ =~= entry0.data@ + data@);
            assert(files@ =~= pre_files.update(i as int, e));
            lemma_map_update(pre_files, i as int, e);
        }
        std::mem::swap(&mut files, &mut fs.files);
        data.len()
    }

    /// Flushing is a no-op: there is no separate persistence tier to
    /// synchronize with.
    pub fn flush(&self) {
    }
}

/// A path never created cannot be opened: on a registry without `path`,
/// any outcome `open` admits is a `NotFound` failure.
pub proof fn lemma_open_unknown_path(
    fs: MockFileSystem,
    path: Seq<char>,
    r: Result<MockFile, StorageError>,
)
    requires
        !fs@.dom().contains(path),
        fs.open_ens(path, r),
    ensures
        r == Result::<MockFile, StorageError>::Err(StorageError::NotFound),
{
}

/// A path can be created exactly once: on a registry without `path` a
/// first `save` must succeed, and a second `save` of the same path, made
/// before the entry is extracted, must fail with `AlreadyExists` and leave
/// the registry as it was.
pub proof fn lemma_save_is_exclusive(
    pre: MockFileSystem,
    mid: MockFileSystem,
    post: MockFileSystem,
    path: Seq<char>,
    r1: Result<MockFile, StorageError>,
    r2: Result<MockFile, StorageError>,
)
    requires
        !pre@.dom().contains(path),
        MockFileSystem::save_ens(pre, mid, path, r1),
        MockFileSystem::save_ens(mid, post, path, r2),
    ensures
        r1.is_ok(),
        r2 == Result::<MockFile, StorageError>::Err(StorageError::AlreadyExists),
        post == mid,
{
}

/// Seeding then reading round-trips: after `put` binds `path` to `v`, the
/// path is there to be opened, and a full read from position zero — one
/// whose request size is at least `v`'s length — returns exactly `v`.
pub proof fn lemma_put_then_full_read(
    m: Map<Seq<char>, Seq<u8>>,
    path: Seq<char>,
    v: Seq<u8>,
    requested: int,
)
    requires
        requested >= v.len(),
    ensures
        m.insert(path, v).dom().contains(path),
        read_count(m.insert(path, v)[path], 0, requested) == v.len(),
        read_bytes(m.insert(path, v)[path], 0, requested) == v,
{
    assert(read_bytes(m.insert(path, v)[path], 0, requested) =~= v);
}

/// Writing round-trips: creating `path`, appending `v1` then `v2`, and
/// extracting yields the order-preserving concatenation `v1 + v2` and
/// leaves the registry as it began.
pub proof fn lemma_write_round_trip(
    m: Map<Seq<char>, Seq<u8>>,
    path: Seq<char>,
    v1: Seq<u8>,
    v2: Seq<u8>,
)
    requires
        !m.dom().contains(path),
    ensures
        ({
            let m1 = m.insert(path, Seq::<u8>::empty());
            let m2 = m1.insert(path, m1[path] + v1);
            let m3 = m2.insert(path, m2[path] + v2);
            m3[path] == v1 + v2 && m3.remove(path) == m
        }),
{
    let m1 = m.insert(path, Seq::<u8>::empty());
    let m2 = m1.insert(path, m1[path] + v1);
    let m3 = m2.insert(path, m2[path] + v2);
    assert(m3[path] =~= v1 + v2);
    assert(m3.remove(path) =~= m);
}

/// Partial reads: a read at position `pos` with request size `k` returns
/// `k` bytes while at least `k` remain, the remainder once fewer than `k`
/// remain, and 0 at the end of the buffer; it never reads past the end,
/// and two successive reads return consecutive runs of the buffer.
pub proof fn lemma_partial_reads(data: Seq<u8>, pos: int, k: int)
    requires
        0 <= pos <= data.len(),
        0 <= k,
    ensures
        pos + k <= data.len() ==> read_count(data, pos, k) == k,
        pos + k > data.len() ==> read_count(data, pos, k) == data.len() - pos,
        pos == data.len() ==> read_count(data, pos, k) == 0,
        k > 0 ==> (read_count(data, pos, k) == 0 <==> pos == data.len()),
        0 <= read_count(data, pos, k),
        pos + read_count(data, pos, k) <= data.len(),
        ({
            let n1 = read_count(data, pos, k);
            let n2 = read_count(data, pos + n1, k);
            read_bytes(data, pos, k) + read_bytes(data, pos + n1, k) == data.subrange(
                pos,
                pos + n1 + n2,
            )
        }),
{
    let n1 = read_count(data, pos, k);
    let n2 = read_count(data, pos + n1, k);
    assert(read_bytes(data, pos, k) + read_bytes(data, pos + n1, k) =~= data.subrange(
        pos,
        pos + n1 + n2,
    ));
}

} // verus!
