//! TarFs - A simple read-only filesystem for accessing files in a tar archive.
use vstd::prelude::*;
use vstd::string::StrSliceExecFns;
use std::collections::BTreeMap;

verus! {

broadcast use {vstd::std_specs::btree::group_btree_axioms, vstd::laws_cmp::group_laws_cmp};

/// The regular files of the tar archive `archive`, in archive order: the name
/// of each (`None` when it is not valid UTF-8) and its data. `None` when the
/// archive is not a valid tar archive.
pub uninterp spec fn tar_files(archive: Seq<u8>) -> Option<Seq<(Option<Seq<char>>, Seq<u8>)>>;

/// Parses the tar archive `archive` with `tar_no_std::TarArchiveRef::new` and
/// lists its regular files with `entries()`, each converted to its name
/// (`filename().as_str()`) and its data (`data()`). The contract claims only
/// that the result is the value `tar_files` gives for the archive bytes: it
/// says nothing of how the archive format is parsed.
#[verifier::external_body]
fn archive_files(archive: &'static [u8]) -> (r: Option<Vec<(Option<String>, &'static [u8])>>)
    ensures
        match r {
            Some(files) => tar_files(archive@) == Some(files.deep_view()),
            None => tar_files(archive@) is None,
        },
{
    let archive = tar_no_std::TarArchiveRef::new(archive).ok()?;
    Some(
        archive.entries().map(|e| (e.filename().as_str().ok().map(String::from), e.data())).collect(),
    )
}

/// A handle representing an open file in the TarFs filesystem.
/// This works similarly to file descriptors in Unix-like operating systems.
#[derive(Clone, Copy, Debug, PartialEq, Eq, Structural)]
pub struct FileHandle(pub usize);

/// Possible errors that can occur when interacting with the TarFs filesystem.
#[derive(Clone, Copy, Debug, PartialEq, Eq, Structural)]
pub enum FsError {
    /// The specified file was not found in the archive.
    FileNotFound,
    /// The provided file handle is invalid (e.g. not opened or already closed).
    InvalidHandle,
    /// The file has reached the end and no more data can be read.
    EndOfFile,
}

/// Modes for seeking within a file, specifying the reference point for the offset.
#[derive(Clone, Copy, Debug, PartialEq, Eq, Structural)]
pub enum SeekMode {
    /// Seek from the beginning of the file.
    Start,
    /// Seek from the current position in the file.
    Current,
    /// Seek from the end of the file.
    End,
}

/// An open file: the data of the archive entry and the current read position.
#[derive(Clone, Copy)]
pub struct OpenFile {
    data: &'static [u8],
    position: usize,
}

/// The position a seek moves to in a file of `size` bytes read up to
/// `position`: the reference point of `mode` plus `offset`, clamped to
/// `[0, size]`.
pub open spec fn seek_target(size: int, position: int, offset: int, mode: SeekMode) -> int {
    let base = match mode {
        SeekMode::Start => 0,
        SeekMode::Current => position,
        SeekMode::End => size,
    };
    if base + offset < 0 {
        0
    } else if base + offset > size {
        size
    } else {
        base + offset
    }
}

/// Seeking lands inside the file, and, when the target lies inside the file,
/// exactly `offset` bytes from the reference point of the mode: from the
/// start, from the current position (also backwards, for a negative offset),
/// or from the end. A target before the start gives 0 and one past the end
/// gives the size, whatever the mode. Seeking 0 bytes from the current
/// position stays there.
pub proof fn lemma_seek_moves_by_offset(size: int, position: int, offset: int, mode: SeekMode)
    requires
        0 <= position <= size,
    ensures
        0 <= seek_target(size, position, offset, mode) <= size,
        mode == SeekMode::Start && 0 <= offset <= size ==> seek_target(size, position, offset, mode) == offset,
        mode == SeekMode::Current && 0 <= position + offset <= size ==> seek_target(size, position, offset, mode)
            == position + offset,
        mode == SeekMode::End && 0 <= size + offset <= size ==> seek_target(size, position, offset, mode) == size + offset,
        mode == SeekMode::Current && offset == 0 ==> seek_target(size, position, offset, mode) == position,
        mode == SeekMode::Current && position + offset < 0 ==> seek_target(size, position, offset, mode) == 0,
        mode == SeekMode::Current && position + offset > size ==> seek_target(size, position, offset, mode) == size,
        mode == SeekMode::Start && offset < 0 ==> seek_target(size, position, offset, mode) == 0,
        mode == SeekMode::Start && offset > size ==> seek_target(size, position, offset, mode) == size,
        mode == SeekMode::End && size + offset < 0 ==> seek_target(size, position, offset, mode) == 0,
        mode == SeekMode::End && offset > 0 ==> seek_target(size, position, offset, mode) == size,
{
}

/// The files of the archive have the name `path`.
pub open spec fn name_is(file: (Option<Seq<char>>, Seq<u8>), path: Seq<char>) -> bool {
    file.0 == Some(path)
}

/// Index of the first file named `path`.
pub open spec fn first_named(files: Seq<(Option<Seq<char>>, Seq<u8>)>, path: Seq<char>, i: int) -> bool {
    &&& 0 <= i < files.len()
    &&& name_is(files[i], path)
    &&& forall|j: int| 0 <= j < i ==> !name_is(#[trigger] files[j], path)
}

/// The path without its leading slash, if it has one: paths in tar archives do
/// not start with a slash.
pub open spec fn archive_path(path: Seq<char>) -> Seq<char> {
    if path.len() > 0 && path[0] == '/' {
        path.drop_first()
    } else {
        path
    }
}

/// A simple read-only filesystem that provides access to files stored in a tar archive.
/// It allows opening files by path, reading data, seeking within files, and getting file sizes.
pub struct TarFs {
    files: Vec<(Option<String>, &'static [u8])>,
    open_handles: BTreeMap<usize, OpenFile>,
    next_handle: usize,
}

impl TarFs {
    /// The regular files of the archive.
    pub closed spec fn spec_files(&self) -> Seq<(Option<Seq<char>>, Seq<u8>)> {
        self.files.deep_view()
    }

    /// The id the next opened file gets.
    pub closed spec fn spec_next_handle(&self) -> usize {
        self.next_handle
    }

    /// The open file with handle `h`: its data and its read position.
    pub closed spec fn open_file(&self, h: usize) -> Option<(Seq<u8>, nat)> {
        if self.open_handles@.contains_key(h) {
            Some((self.open_handles@[h].data@, self.open_handles@[h].position as nat))
        } else {
            None
        }
    }

    /// Every open file has its read position inside its data.
    pub closed spec fn wf(&self) -> bool {
        forall|h: usize| #[trigger] self.open_handles@.contains_key(h)
            ==> self.open_handles@[h].position <= self.open_handles@[h].data@.len()
    }

    /// Create a new TarFs filesystem instance with the given tar archive.
    /// `None` when the archive is not a valid tar archive.
    pub fn new(archive: &'static [u8]) -> (r: Option<TarFs>)
        ensures
            match r {
                Some(fs) => {
                    &&& fs.wf()
                    &&& tar_files(archive@) == Some(fs.spec_files())
                    &&& fs.spec_next_handle() == 0
                    &&& forall|h: usize| fs.open_file(h) is None
                },
                None => tar_files(archive@) is None,
            },
    {
        match archive_files(archive) {
            Some(files) => Some(TarFs::from_files(files)),
            None => None,
        }
    }

    /// A file system over the given regular files of an archive (name and
    /// data, in archive order), with no open files.
    pub fn from_files(files: Vec<(Option<String>, &'static [u8])>) -> (r: TarFs)
        ensures
            r.wf(),
            r.spec_files() == files.deep_view(),
            r.spec_next_handle() == 0,
            forall|h: usize| r.open_file(h) is None,
    {
        TarFs { files, open_handles: BTreeMap::new(), next_handle: 0 }
    }

    /// Generate the next file handle ID; like an atomic counter the ids wrap
    /// around to 0 after `usize::MAX`.
    fn next_handle_id(&mut self) -> (r: usize)
        ensures
            r == old(self).next_handle,
            final(self).next_handle == if r == usize::MAX { 0 } else { (r + 1) as usize },
            final(self).files == old(self).files,
            final(self).open_handles == old(self).open_handles,
    {
        let id = self.next_handle;
        self.next_handle = if id == usize::MAX { 0 } else { id + 1 };
        id
    }

    /// Open a file by its path in the TarFs filesystem; a leading slash of the
    /// path is ignored. If the file is found, a new `FileHandle` is returned for
    /// accessing it, reading from its start. Otherwise, an
    /// `FsError::FileNotFound` error is returned.
    pub fn open(&mut self, path: &str) -> (r: Result<FileHandle, FsError>)
        requires
            old(self).wf(),
        ensures
            final(self).wf(),
            final(self).spec_files() == old(self).spec_files(),
            match r {
                Ok(FileHandle(h)) => exists|i: int| {
                    &&& first_named(old(self).spec_files(), archive_path(path@), i)
                    &&& h == old(self).spec_next_handle()
                    &&& final(self).spec_next_handle() == if h == usize::MAX { 0 } else { (h + 1) as usize }
                    &&& final(self).open_file(h) == Some((old(self).spec_files()[i].1, 0nat))
                    &&& forall|g: usize| g != h ==> final(self).open_file(g) == old(self).open_file(g)
                },
                Err(e) => {
                    &&& e == FsError::FileNotFound
                    &&& forall|i: int| 0 <= i < old(self).spec_files().len() ==> !name_is(#[trigger] old(self).spec_files()[i], archive_path(path@))
                    &&& final(self).spec_next_handle() == old(self).spec_next_handle()
                    &&& forall|g: usize| final(self).open_file(g) == old(self).open_file(g)
                },
            },
    {
        let n = path.unicode_len();
        let mut start: usize = 0;
        if n > 0 && path.get_char(0) == '/' {
            start = 1;
        }
        let mut i: usize = 0;
        while i < self.files.len()
            invariant
                start <= n,
                start <= 1,
                n == path@.len(),
                start == 1 <==> (path@.len() > 0 && path@[0] == '/'),
                i <= self.files@.len(),
                self.files == old(self).files,
                self.open_handles == old(self).open_handles,
                self.next_handle == old(self).next_handle,
                self.wf(),
                forall|j: int| 0 <= j < i ==> !name_is(#[trigger] self.files.deep_view()[j], archive_path(path@)),
            decreases self.files@.len() - i,
        {
            let found = match &self.files[i].0 {
                Some(name) => {
                    let name_str = name.as_str();
                    let f = name_equals(name_str, path, start);
                    assert(self.files.deep_view()[i as int].0 == Some(name@));
                    f
                },
                None => {
                    assert(self.files.deep_view()[i as int].0 == None::<Seq<char>>);
                    false
                },
            };
            proof {
                assert(self.files.deep_view()[i as int].0 == match self.files@[i as int].0 {
                    Some(s) => Some(s@),
                    None => None::<Seq<char>>,
                });
                if start == 1 {
                    assert(archive_path(path@) =~= path@.subrange(1, n as int));
                } else {
                    assert(!(path@.len() > 0 && path@[0] == '/'));
                    assert(archive_path(path@) == path@);
                    assert(path@.subrange(0, n as int) =~= path@);
                }
                assert(archive_path(path@) == path@.subrange(start as int, n as int));
                match self.files@[i as int].0 {
                    Some(nm) => {
                        assert(self.files.deep_view()[i as int].0 == Some(nm@));
                        assert(found == (nm@ == path@.subrange(start as int, n as int)));
                    },
                    None => {
                        assert(!found);
                    },
                }
                assert(found == name_is(self.files.deep_view()[i as int], archive_path(path@)));
            }
            if found {
                let h = self.next_handle_id();
                let data = self.files[i].1;
                let ghost pre = *self;
                self.open_handles.insert(h, OpenFile { data, position: 0 });
                proof {
                    assert forall|g: usize| g != h implies self.open_file(g) == old(self).open_file(g) by {}
                    assert(self.open_file(h) == Some((data@, 0nat)));
                    assert(first_named(old(self).spec_files(), archive_path(path@), i as int));
                }
                return Ok(FileHandle(h));
            }
            i = i + 1;
        }
        Err(FsError::FileNotFound)
    }

    /// Read data from an opened file into the provided buffer.
    /// Up to `buffer.len()` bytes are read from the current position on; at
    /// the end of the file only the available bytes are read. The number of
    /// bytes read is returned and the position advances by it. If the file is
    /// already at its end, an `FsError::EndOfFile` error is returned; for an
    /// invalid handle, an `FsError::InvalidHandle` error.
    pub fn read(&mut self, handle: FileHandle, buffer: &mut Vec<u8>) -> (r: Result<usize, FsError>)
        requires
            old(self).wf(),
        ensures
            final(self).wf(),
            final(self).spec_files() == old(self).spec_files(),
            final(self).spec_next_handle() == old(self).spec_next_handle(),
            final(buffer)@.len() == old(buffer)@.len(),
            forall|g: usize| g != handle.0 ==> final(self).open_file(g) == old(self).open_file(g),
            match old(self).open_file(handle.0) {
                None => r == Err::<usize, FsError>(FsError::InvalidHandle) && final(buffer)@ == old(buffer)@
                    && final(self).open_file(handle.0) is None,
                Some((data, pos)) => if pos >= data.len() {
                    r == Err::<usize, FsError>(FsError::EndOfFile) && final(buffer)@ == old(buffer)@
                        && final(self).open_file(handle.0) == Some((data, pos))
                } else {
                    let n = if old(buffer)@.len() < data.len() - pos { old(buffer)@.len() } else { (data.len() - pos) as nat };
                    &&& r == Ok::<usize, FsError>(n as usize)
                    &&& final(buffer)@.subrange(0, n as int) == data.subrange(pos as int, (pos + n) as int)
                    &&& final(buffer)@.subrange(n as int, final(buffer)@.len() as int) == old(buffer)@.subrange(n as int, old(buffer)@.len() as int)
                    &&& final(self).open_file(handle.0) == Some((data, (pos + n) as nat))
                },
            },
    {
        let file = match self.open_handles.get(&handle.0) {
            Some(f) => *f,
            None => return Err(FsError::InvalidHandle),
        };
        let data = file.data;
        let pos = file.position;
        if pos >= data.len() {
            return Err(FsError::EndOfFile);
        }
        let avail = data.len() - pos;
        let n = if buffer.len() < avail { buffer.len() } else { avail };
        let dl = data.len();
        let mut k: usize = 0;
        while k < n
            invariant
                dl == data@.len(),
                k <= n,
                n <= buffer@.len(),
                pos + n <= data@.len(),
                buffer@.len() == old(buffer)@.len(),
                forall|j: int| 0 <= j < k ==> #[trigger] buffer@[j] == data@[pos + j],
                forall|j: int| k <= j < buffer@.len() ==> #[trigger] buffer@[j] == old(buffer)@[j],
            decreases n - k,
        {
            buffer.set(k, data[pos + k]);
            k = k + 1;
        }
        self.open_handles.insert(handle.0, OpenFile { data, position: pos + n });
        proof {
            assert(buffer@.subrange(0, n as int) =~= data@.subrange(pos as int, pos + n));
            assert(buffer@.subrange(n as int, buffer@.len() as int) =~= old(buffer)@.subrange(n as int, old(buffer)@.len() as int));
        }
        Ok(n)
    }

    /// Seek to a new position within an opened file: the reference point of
    /// `mode` plus `offset`, clamped to the file (0 to file size). Negative
    /// offsets are allowed. The new position is returned. For an invalid
    /// handle, an `FsError::InvalidHandle` error is returned.
    pub fn seek(&mut self, handle: FileHandle, offset: isize, mode: SeekMode) -> (r: Result<usize, FsError>)
        requires
            old(self).wf(),
        ensures
            final(self).wf(),
            final(self).spec_files() == old(self).spec_files(),
            final(self).spec_next_handle() == old(self).spec_next_handle(),
            forall|g: usize| g != handle.0 ==> final(self).open_file(g) == old(self).open_file(g),
            match old(self).open_file(handle.0) {
                None => r == Err::<usize, FsError>(FsError::InvalidHandle) && final(self).open_file(handle.0) is None,
                Some((data, pos)) => {
                    let t = seek_target(data.len() as int, pos as int, offset as int, mode);
                    &&& r == Ok::<usize, FsError>(t as usize)
                    &&& final(self).open_file(handle.0) == Some((data, t as nat))
                },
            },
    {
        let file = match self.open_handles.get(&handle.0) {
            Some(f) => *f,
            None => return Err(FsError::InvalidHandle),
        };
        let data = file.data;
        let pos = file.position;
        let size = data.len();
        let base: usize = match mode {
            SeekMode::Start => 0,
            SeekMode::Current => pos,
            SeekMode::End => size,
        };
        let target: usize = if offset < 0 {
            let back: usize = if offset == isize::MIN { (isize::MAX as usize) + 1 } else { (-offset) as usize };
            if back > base { 0 } else { base - back }
        } else {
            let fwd = offset as usize;
            if fwd > size - base { size } else { base + fwd }
        };
        self.open_handles.insert(handle.0, OpenFile { data, position: target });
        Ok(target)
    }

    /// Get the size of an opened file in bytes.
    /// For an invalid handle, an `FsError::InvalidHandle` error is returned.
    pub fn size(&self, handle: FileHandle) -> (r: Result<usize, FsError>)
        requires
            self.wf(),
        ensures
            match self.open_file(handle.0) {
                None => r == Err::<usize, FsError>(FsError::InvalidHandle),
                Some((data, pos)) => r == Ok::<usize, FsError>(data.len() as usize),
            },
    {
        match self.open_handles.get(&handle.0) {
            Some(f) => Ok(f.data.len()),
            None => Err(FsError::InvalidHandle),
        }
    }
}


/// Whether `name` equals `path` from position `start` on.
fn name_equals(name: &str, path: &str, start: usize) -> (r: bool)
    requires
        start <= path@.len(),
    ensures
        r == (name@ == path@.subrange(start as int, path@.len() as int)),
{
    let n = name.unicode_len();
    let m = path.unicode_len();
    if n != m - start {
        return false;
    }
    let mut i: usize = 0;
    while i < n
        invariant
            n == name@.len(),
            m == path@.len(),
            n == m - start,
            i <= n,
            forall|j: int| 0 <= j < i ==> name@[j] == path@[start + j],
        decreases n - i,
    {
        if name.get_char(i) != path.get_char(start + i) {
            return false;
        }
        i = i + 1;
    }
    assert(name@ =~= path@.subrange(start as int, path@.len() as int));
    true
}

} // verus!
