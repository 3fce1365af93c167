//! File-system operations of the Chim library over normalised paths. The
//! operations are simulated: files read as empty text, writes and directory
//! changes succeed without effect, and metadata is computed from the path.
use vstd::prelude::*;
use super::path::{Path, dir_spec, file_spec, components};
use crate::text::owned;

verus! {

/// A file-system error.
#[derive(Debug, Clone)]
pub struct Error {
    message: String,
}

impl Error {
    pub closed spec fn text(&self) -> Seq<char> {
        self.message@
    }

    pub fn new(msg: String) -> (r: Error)
        ensures
            r.text() == msg@,
    {
        Error { message: msg }
    }
}

/// Metadata of a file-system entry.
#[derive(Debug, Clone)]
pub struct Metadata {
    pub len: i64,
    pub is_dir: bool,
    pub is_file: bool,
    pub modified: i64,
}

impl Metadata {
    pub fn len(&self) -> (r: i64)
        ensures
            r == self.len,
    {
        self.len
    }

    pub fn is_dir(&self) -> (r: bool)
        ensures
            r == self.is_dir,
    {
        self.is_dir
    }

    pub fn is_file(&self) -> (r: bool)
        ensures
            r == self.is_file,
    {
        self.is_file
    }
}

/// Reads a file: always the empty text.
pub fn read_to_string(path: &Path) -> (r: Result<String, Error>)
    ensures
        r is Ok,
        r->Ok_0@ == Seq::<char>::empty(),
{
    let mut file = File::open(path)?;
    file.read_to_string()
}

/// Writes a file: succeeds without effect.
pub fn write_string(path: &Path, content: String) -> (r: Result<(), Error>)
    ensures
        r is Ok,
{
    let mut file = File::create(path)?;
    file.write_str(&content)
}

/// Lists a directory: always no entries.
pub fn read_dir(path: &Path) -> (r: Result<Vec<DirEntry>, Error>)
    ensures
        r is Ok,
        r->Ok_0@.len() == 0,
{
    Ok(Vec::new())
}

/// Metadata computed from the path text.
pub fn metadata(path: &Path) -> (r: Result<Metadata, Error>)
    ensures
        r is Ok,
        r->Ok_0.len == 0,
        r->Ok_0.modified == 0,
        r->Ok_0.is_dir == dir_spec(path@),
        r->Ok_0.is_file == file_spec(path@),
{
    let is_dir = path.is_dir();
    let is_file = path.is_file();
    Ok(Metadata { len: 0, is_dir, is_file, modified: 0 })
}

/// Always true.
pub fn path_exists(path: &Path) -> (r: bool)
    ensures
        r,
{
    path.path_exists()
}

pub fn is_file(path: &Path) -> (r: bool)
    ensures
        r == file_spec(path@),
{
    path.is_file()
}

pub fn is_dir(path: &Path) -> (r: bool)
    ensures
        r == dir_spec(path@),
{
    path.is_dir()
}

pub fn create_dir(path: &Path) -> (r: Result<(), Error>)
    ensures
        r is Ok,
{
    Ok(())
}

pub fn create_dir_all(path: &Path) -> (r: Result<(), Error>)
    ensures
        r is Ok,
{
    Ok(())
}

pub fn remove_file(path: &Path) -> (r: Result<(), Error>)
    ensures
        r is Ok,
{
    Ok(())
}

pub fn remove_dir(path: &Path) -> (r: Result<(), Error>)
    ensures
        r is Ok,
{
    Ok(())
}

/// Reads `from` and writes its text to `to`.
pub fn copy(from: &Path, to: &Path) -> (r: Result<(), Error>)
    ensures
        r is Ok,
{
    let content = read_to_string(from)?;
    write_string(to, content)
}

pub fn rename(from: &Path, to: &Path) -> (r: Result<(), Error>)
    ensures
        r is Ok,
{
    Ok(())
}

/// An entry of a directory listing.
#[derive(Debug, Clone)]
pub struct DirEntry {
    path: Path,
}

impl DirEntry {
    pub closed spec fn entry_path(&self) -> Seq<char> {
        self.path@
    }

    pub fn path(&self) -> (r: &Path)
        ensures
            r@ == self.entry_path(),
    {
        &self.path
    }

    pub fn file_name(&self) -> (r: Option<String>)
        ensures
            components(self.entry_path()).len() == 0 ==> r is None,
            components(self.entry_path()).len() > 0 ==> r is Some && r->0@ == components(
                self.entry_path(),
            ).last(),
    {
        self.path.file_name()
    }

    pub fn metadata(&self) -> (r: Result<Metadata, Error>)
        ensures
            r is Ok,
            r->Ok_0.len == 0,
            r->Ok_0.modified == 0,
            r->Ok_0.is_dir == dir_spec(self.entry_path()),
            r->Ok_0.is_file == file_spec(self.entry_path()),
    {
        metadata(&self.path)
    }

    pub fn is_file(&self) -> (r: bool)
        ensures
            r == file_spec(self.entry_path()),
    {
        self.path.is_file()
    }

    pub fn is_dir(&self) -> (r: bool)
        ensures
            r == dir_spec(self.entry_path()),
    {
        self.path.is_dir()
    }
}

/// Modes of opening a file.
pub enum OpenOptions {
    Read,
    Write,
    Append,
    Truncate,
}

/// Collects the flags for opening a file.
pub struct OpenOptionsBuilder {
    pub read: bool,
    pub write: bool,
    pub append: bool,
    pub truncate: bool,
    pub create: bool,
}

impl OpenOptionsBuilder {
    /// All flags off.
    pub fn new() -> (r: OpenOptionsBuilder)
        ensures
            !r.read && !r.write && !r.append && !r.truncate && !r.create,
    {
        OpenOptionsBuilder { read: false, write: false, append: false, truncate: false, create: false }
    }

    pub fn read(&mut self, b: bool) -> (r: &mut OpenOptionsBuilder)
        ensures
            *r == (OpenOptionsBuilder { read: b, ..*old(self) }),
            *final(self) == *final(r),
    {
        self.read = b;
        self
    }

    pub fn write(&mut self, b: bool) -> (r: &mut OpenOptionsBuilder)
        ensures
            *r == (OpenOptionsBuilder { write: b, ..*old(self) }),
            *final(self) == *final(r),
    {
        self.write = b;
        self
    }

    pub fn append(&mut self, b: bool) -> (r: &mut OpenOptionsBuilder)
        ensures
            *r == (OpenOptionsBuilder { append: b, ..*old(self) }),
            *final(self) == *final(r),
    {
        self.append = b;
        self
    }

    pub fn truncate(&mut self, b: bool) -> (r: &mut OpenOptionsBuilder)
        ensures
            *r == (OpenOptionsBuilder { truncate: b, ..*old(self) }),
            *final(self) == *final(r),
    {
        self.truncate = b;
        self
    }

    pub fn create(&mut self, b: bool) -> (r: &mut OpenOptionsBuilder)
        ensures
            *r == (OpenOptionsBuilder { create: b, ..*old(self) }),
            *final(self) == *final(r),
    {
        self.create = b;
        self
    }

    /// Opens `path`; the flags do not change the outcome.
    pub fn open(&self, path: &Path) -> (r: Result<File, Error>)
        ensures
            r is Ok,
            r->Ok_0.file_path() == path@,
    {
        File::from_options(path, self)
    }
}

/// An open file.
pub struct File {
    path: Path,
}

impl File {
    pub closed spec fn file_path(&self) -> Seq<char> {
        self.path@
    }

    pub fn open(path: &Path) -> (r: Result<File, Error>)
        ensures
            r is Ok,
            r->Ok_0.file_path() == path@,
    {
        Ok(File { path: path.duplicate() })
    }

    pub fn create(path: &Path) -> (r: Result<File, Error>)
        ensures
            r is Ok,
            r->Ok_0.file_path() == path@,
    {
        Ok(File { path: path.duplicate() })
    }

    fn from_options(path: &Path, options: &OpenOptionsBuilder) -> (r: Result<File, Error>)
        ensures
            r is Ok,
            r->Ok_0.file_path() == path@,
    {
        Ok(File { path: path.duplicate() })
    }

    pub fn path(&self) -> (r: &Path)
        ensures
            r@ == self.file_path(),
    {
        &self.path
    }

    /// Always the empty text.
    pub fn read_to_string(&mut self) -> (r: Result<String, Error>)
        ensures
            r is Ok,
            r->Ok_0@ == Seq::<char>::empty(),
            final(self).file_path() == old(self).file_path(),
    {
        Ok(String::new())
    }

    pub fn write_str(&mut self, s: &String) -> (r: Result<(), Error>)
        ensures
            r is Ok,
            final(self).file_path() == old(self).file_path(),
    {
        Ok(())
    }

    pub fn write_bytes(&mut self, bytes: &[u8]) -> (r: Result<(), Error>)
        ensures
            r is Ok,
            final(self).file_path() == old(self).file_path(),
    {
        Ok(())
    }

    pub fn sync_all(&self) -> (r: Result<(), Error>)
        ensures
            r is Ok,
    {
        Ok(())
    }

    pub fn set_len(&self, len: i64) -> (r: Result<(), Error>)
        ensures
            r is Ok,
    {
        Ok(())
    }
}

} // verus!
