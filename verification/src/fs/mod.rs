//! Filesystem front end: the error type, the interface every filesystem
//! offers, and path splitting.
pub mod ext2;
pub mod fat;
pub mod sfs;
pub mod shfs;

use vstd::prelude::*;

verus! {

#[derive(Debug, PartialEq, Eq, Structural, Clone, Copy)]
pub enum FSError {
    ReadError,
    WriteError,
    MountError,
    UnmountError,
    BadFS,
    NotMounted,
    AlreadyMounted,
    NotADirectory,
    NotAFile,
    BadPath,
    NotFound,
    AlreadyExists,
    BadFile,
    BadDirectory,
    NoSpace,
    NameTooLong,
    DirectoryNotEmpty,
}

pub type FSResult<T> = Result<T, FSError>;

/// The human-readable description of each error.
pub open spec fn fs_error_message(e: FSError) -> Seq<char> {
    match e {
        FSError::ReadError => "Read Error"@,
        FSError::WriteError => "Write Error"@,
        FSError::MountError => "Mount Error"@,
        FSError::UnmountError => "Unmount Error"@,
        FSError::BadFS => "Bad File System"@,
        FSError::NotMounted => "File System Not Mounted"@,
        FSError::AlreadyMounted => "File System Already Mounted"@,
        FSError::NotADirectory => "Not a Directory"@,
        FSError::NotAFile => "Not a File"@,
        FSError::BadPath => "Bad Path"@,
        FSError::NotFound => "Not Found"@,
        FSError::AlreadyExists => "Already Exists"@,
        FSError::BadFile => "Bad File"@,
        FSError::BadDirectory => "Bad Directory"@,
        FSError::NoSpace => "No Space Available"@,
        FSError::NameTooLong => "Name Too Long"@,
        FSError::DirectoryNotEmpty => "Directory Not Empty"@,
    }
}

impl FSError {
    /// The error's description, as its `Display` form prints it.
    pub fn to_string(&self) -> (res: String)
        ensures
            res@ == fs_error_message(*self),
    {
        match self {
            FSError::ReadError => String::from_str("Read Error"),
            FSError::WriteError => String::from_str("Write Error"),
            FSError::MountError => String::from_str("Mount Error"),
            FSError::UnmountError => String::from_str("Unmount Error"),
            FSError::BadFS => String::from_str("Bad File System"),
            FSError::NotMounted => String::from_str("File System Not Mounted"),
            FSError::AlreadyMounted => String::from_str("File System Already Mounted"),
            FSError::NotADirectory => String::from_str("Not a Directory"),
            FSError::NotAFile => String::from_str("Not a File"),
            FSError::BadPath => String::from_str("Bad Path"),
            FSError::NotFound => String::from_str("Not Found"),
            FSError::AlreadyExists => String::from_str("Already Exists"),
            FSError::BadFile => String::from_str("Bad File"),
            FSError::BadDirectory => String::from_str("Bad Directory"),
            FSError::NoSpace => String::from_str("No Space Available"),
            FSError::NameTooLong => String::from_str("Name Too Long"),
            FSError::DirectoryNotEmpty => String::from_str("Directory Not Empty"),
        }
    }
}

/// The operations every filesystem offers.
pub trait Filesystem {
    fn mount(&mut self) -> Result<(), FSError>;

    fn unmount(&mut self) -> Result<(), FSError>;

    fn read_file(&mut self, path: &str, buf: &mut [u8]) -> Result<usize, FSError>;

    fn write_file(&mut self, path: &str, buf: &[u8]) -> Result<(), FSError>;

    fn remove_file(&mut self, path: &str) -> Result<(), FSError>;

    fn create_dir(&mut self, path: &str) -> Result<(), FSError>;

    fn remove_dir(&mut self, path: &str) -> Result<(), FSError>;
}

/// End of the path component that starts at `i`: the next `/` or the end.
pub open spec fn component_end(s: Seq<char>, i: int) -> int
    decreases s.len() - i,
{
    if i < 0 || i >= s.len() || s[i] == '/' {
        if i < 0 { 0 } else { i }
    } else {
        component_end(s, i + 1)
    }
}

/// The non-empty `/`-separated components of `s` from position `i` on.
pub open spec fn components_from(s: Seq<char>, i: int) -> Seq<Seq<char>>
    decreases s.len() - i, 1int,
{
    if i < 0 || i >= s.len() {
        Seq::empty()
    } else if s[i] == '/' {
        components_from(s, i + 1)
    } else {
        let j = component_end(s, i);
        proof {
            lemma_component_end(s, i);
        }
        if j <= i {
            Seq::empty()
        } else {
            seq![s.subrange(i, j)] + components_from(s, j)
        }
    }
}

/// The components of a path: what is between slashes, empty ones dropped.
pub open spec fn path_components(s: Seq<char>) -> Seq<Seq<char>> {
    components_from(s, 0)
}

pub open spec fn str_views(v: Seq<&str>) -> Seq<Seq<char>> {
    v.map_values(|x: &str| x@)
}

/// A path component that starts at `i` ends at the next `/` (or the end of
/// the path), and is not empty when `s[i]` is not a `/`.
pub proof fn lemma_component_end(s: Seq<char>, i: int)
    requires
        0 <= i <= s.len(),
    ensures
        i <= component_end(s, i) <= s.len(),
        component_end(s, i) < s.len() ==> s[component_end(s, i)] == '/',
        i < s.len() && s[i] != '/' ==> component_end(s, i) > i,
    decreases s.len() - i,
{
    if i < s.len() && s[i] != '/' {
        lemma_component_end(s, i + 1);
    }
}

/// Splits a path at its slashes, leaving out empty components (so leading,
/// trailing and repeated slashes do not matter).
pub fn split_path(path: &str) -> (res: Vec<&str>)
    ensures
        str_views(res@) == path_components(path@),
{
    let n = path.unicode_len();
    let mut res: Vec<&str> = Vec::new();
    let mut i: usize = 0;
    while i < n
        invariant
            n == path@.len(),
            i <= n,
            path_components(path@) == str_views(res@) + components_from(path@, i as int),
        decreases n - i,
    {
        if path.get_char(i) == '/' {
            i = i + 1;
        } else {
            proof {
                lemma_component_end(path@, i as int);
            }
            let mut j = i;
            while j < n && path.get_char(j) != '/'
                invariant
                    n == path@.len(),
                    i <= j <= n,
                    component_end(path@, i as int) == component_end(path@, j as int),
                decreases n - j,
            {
                j = j + 1;
            }
            let part = path.substring_char(i, j);
            let ghost before = res@;
            res.push(part);
            proof {
                assert(str_views(res@) =~= str_views(before) + seq![path@.subrange(i as int, j as int)]);
                assert(str_views(res@) + components_from(path@, j as int) =~= str_views(before) + (
                seq![path@.subrange(i as int, j as int)] + components_from(path@, j as int)));
            }
            i = j;
        }
    }
    assert(str_views(res@) + Seq::<Seq<char>>::empty() =~= str_views(res@));
    res
}

} // verus!
