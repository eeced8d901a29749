//! Pathnames as the library sees them.
//!
//! `std::path` values are opaque to Verus. The library reasons about a path
//! through its spelling: the bytes of its OS string as
//! `OsStr::as_encoded_bytes` reports them. Everything the path API decides
//! from a spelling (whether it is absolute, what joining produces, which
//! components it parses into, what its final component is) is named here and
//! left to `std`.

use std::path::{Component, Path, PathBuf, Prefix};
use vstd::prelude::*;

verus! {

#[verifier::external_type_specification]
#[verifier::external_body]
pub struct ExPath(Path);

#[verifier::external_type_specification]
#[verifier::external_body]
pub struct ExPathBuf(PathBuf);

#[verifier::external_type_specification]
#[verifier::external_body]
pub struct ExIoError(std::io::Error);

/// The kinds of error the library itself reports as `std::io::Error`.
#[derive(Debug, Clone, Copy, PartialEq, Eq, Structural)]
pub enum SyntheticErrorKind {
    /// `std::io::ErrorKind::InvalidInput`.
    InvalidInput,
    /// `std::io::ErrorKind::NotADirectory`.
    NotADirectory,
}

/// The spelling of a borrowed path: the bytes of `p.as_os_str().as_encoded_bytes()`.
pub uninterp spec fn path_spelling(p: &Path) -> Seq<u8>;

/// The spelling of an owned path: the bytes of `p.as_os_str().as_encoded_bytes()`.
pub uninterp spec fn buf_spelling(p: PathBuf) -> Seq<u8>;

/// Whether `Path::is_absolute` holds of a path with this spelling on the host.
pub uninterp spec fn spells_absolute(spelling: Seq<u8>) -> bool;

/// The spelling that `Path::join` produces from a base and an appended path.
pub uninterp spec fn joined_spelling(base: Seq<u8>, appended: Seq<u8>) -> Seq<u8>;

/// The components that `Path::components` parses from a spelling, each taken
/// as `Path`'s equality compares it. Two paths are equal exactly when these
/// are.
pub uninterp spec fn path_components(spelling: Seq<u8>) -> Seq<Seq<u8>>;

/// The spelling of the final component that `Path::file_name` reports, if any.
pub uninterp spec fn file_name_spelling(spelling: Seq<u8>) -> Option<Seq<u8>>;

/// The text that `Path::display` renders for a spelling.
pub uninterp spec fn display_text(spelling: Seq<u8>) -> Seq<char>;

/// The kinds of prefix `Path::components` can parse first (Windows drive,
/// UNC, device and verbatim forms; other hosts parse none).
#[derive(Debug, Clone, Copy, PartialEq, Eq, Structural)]
pub enum PathPrefix {
    /// `\\?\name`.
    Verbatim,
    /// `\\?\UNC\server\share`.
    VerbatimUNC,
    /// `\\?\C:`.
    VerbatimDisk,
    /// `\\.\name`.
    DeviceNS,
    /// `\\server\share`.
    UNC,
    /// `C:`.
    Disk,
}

/// Whether a prefix is one of the verbatim forms (`Prefix::is_verbatim`).
pub open spec fn verbatim(prefix: PathPrefix) -> bool {
    prefix is Verbatim || prefix is VerbatimUNC || prefix is VerbatimDisk
}

impl PathPrefix {
    /// Whether this is one of the verbatim forms.
    pub fn is_verbatim(self) -> (r: bool)
        ensures
            r == verbatim(self),
    {
        match self {
            PathPrefix::Verbatim | PathPrefix::VerbatimUNC | PathPrefix::VerbatimDisk => true,
            PathPrefix::DeviceNS | PathPrefix::UNC | PathPrefix::Disk => false,
        }
    }
}

/// The kind of prefix that is the first component `Path::components` parses
/// from a spelling, if that component is a prefix.
pub uninterp spec fn leading_prefix(spelling: Seq<u8>) -> Option<PathPrefix>;

/// Whether `Path::has_root` holds of a path with this spelling on the host.
pub uninterp spec fn spells_rooted(spelling: Seq<u8>) -> bool;

/// Whether the second component `Path::components` parses from a spelling
/// is the root directory.
pub uninterp spec fn root_follows_first(spelling: Seq<u8>) -> bool;

/// The spelling of the `PathBuf` that `Path::components` collects back
/// into: the path without trailing separators and without `.` components
/// other than a leading one.
pub uninterp spec fn recomposed_spelling(spelling: Seq<u8>) -> Seq<u8>;

/// Whether `Path`'s ordering (`Ord`, which compares components in order)
/// puts the first path before the second or makes them equal.
pub uninterp spec fn path_ordered(a: Seq<u8>, b: Seq<u8>) -> bool;

/// The spellings of a list of owned paths, in order.
pub open spec fn buf_spellings(paths: Seq<PathBuf>) -> Seq<Seq<u8>> {
    paths.map_values(|p: PathBuf| buf_spelling(p))
}

/// Whether two spellings name equal paths under `Path`'s own equality.
pub open spec fn same_path(a: Seq<u8>, b: Seq<u8>) -> bool {
    path_components(a) == path_components(b)
}

/// `PathBuf::from(String)`: the path spelled by the UTF-8 bytes of the text.
#[verifier::external_body]
pub(crate) fn path_from_string(text: String) -> (p: PathBuf)
    ensures
        buf_spelling(p) == vstd::utf8::encode_utf8(text@),
{
    PathBuf::from(text)
}

/// `Path::to_path_buf`: an owned copy with the same spelling.
#[verifier::external_body]
pub(crate) fn owned_path(p: &Path) -> (r: PathBuf)
    ensures
        buf_spelling(r) == path_spelling(p),
{
    p.to_path_buf()
}

/// `Clone::clone` for `PathBuf`: a copy with the same spelling.
pub assume_specification[ <PathBuf as Clone>::clone ](p: &PathBuf) -> (r: PathBuf)
    ensures
        buf_spelling(r) == buf_spelling(*p),
;

/// `PathBuf::as_path`: the borrowed path, with the same spelling.
#[verifier::external_body]
pub(crate) fn borrow_path(p: &PathBuf) -> (r: &Path)
    ensures
        path_spelling(r) == buf_spelling(*p),
{
    p.as_path()
}

/// `OsStr::is_empty` on the path's OS string.
#[verifier::external_body]
pub(crate) fn path_is_empty(p: &Path) -> (r: bool)
    ensures
        r == (path_spelling(p).len() == 0),
{
    p.as_os_str().is_empty()
}

/// The kind of the prefix that starts `Path::components`, one arm per
/// `Prefix` variant; `None` when the first component is no prefix.
#[verifier::external_body]
pub(crate) fn component_prefix(p: &Path) -> (r: Option<PathPrefix>)
    ensures
        r == leading_prefix(path_spelling(p)),
{
    match p.components().next() {
        Some(Component::Prefix(prefix)) => Some(match prefix.kind() {
            Prefix::Verbatim(_) => PathPrefix::Verbatim,
            Prefix::VerbatimUNC(..) => PathPrefix::VerbatimUNC,
            Prefix::VerbatimDisk(_) => PathPrefix::VerbatimDisk,
            Prefix::DeviceNS(_) => PathPrefix::DeviceNS,
            Prefix::UNC(..) => PathPrefix::UNC,
            Prefix::Disk(_) => PathPrefix::Disk,
        }),
        _ => None,
    }
}

/// `Path::has_root`.
#[verifier::external_body]
pub(crate) fn path_has_root(p: &Path) -> (r: bool)
    ensures
        r == spells_rooted(path_spelling(p)),
{
    p.has_root()
}

/// Whether the second component of `Path::components` is `Component::RootDir`.
#[verifier::external_body]
pub(crate) fn root_after_first_component(p: &Path) -> (r: bool)
    ensures
        r == root_follows_first(path_spelling(p)),
{
    let mut components = p.components();
    components.next();
    matches!(components.next(), Some(Component::RootDir))
}

/// `Path::components` collected into a `PathBuf`.
#[verifier::external_body]
pub(crate) fn recomposed_path(p: &Path) -> (r: PathBuf)
    ensures
        buf_spelling(r) == recomposed_spelling(path_spelling(p)),
{
    p.components().collect()
}

/// `slice::sort` on paths: the same paths, each as often, in `Path`'s order.
#[verifier::external_body]
pub(crate) fn sort_paths(paths: &mut Vec<PathBuf>)
    ensures
        buf_spellings(final(paths)@).to_multiset() == buf_spellings(old(paths)@).to_multiset(),
        forall|i: int, j: int|
            0 <= i < j < final(paths)@.len() ==> path_ordered(
                #[trigger] buf_spelling(final(paths)@[i]),
                #[trigger] buf_spelling(final(paths)@[j]),
            ),
{
    paths.sort();
}

/// `Path::is_absolute`.
#[verifier::external_body]
pub(crate) fn path_is_absolute(p: &Path) -> (r: bool)
    ensures
        r == spells_absolute(path_spelling(p)),
{
    p.is_absolute()
}

/// `Path::join`.
#[verifier::external_body]
pub(crate) fn path_join(base: &Path, appended: &Path) -> (r: PathBuf)
    ensures
        buf_spelling(r) == joined_spelling(path_spelling(base), path_spelling(appended)),
{
    base.join(appended)
}

/// `PartialEq::eq` for `PathBuf`, which compares parsed components.
#[verifier::external_body]
pub(crate) fn paths_equal(a: &PathBuf, b: &PathBuf) -> (r: bool)
    ensures
        r == (path_components(buf_spelling(*a)) == path_components(buf_spelling(*b))),
{
    a == b
}

/// `Path::file_name`, with the final component returned as its encoded bytes.
#[verifier::external_body]
pub(crate) fn path_file_name(p: &Path) -> (r: Option<Vec<u8>>)
    ensures
        r matches Some(name) ==> file_name_spelling(path_spelling(p)) == Some(name@),
        r is None ==> file_name_spelling(path_spelling(p)) is None,
{
    p.file_name().map(|name| name.as_encoded_bytes().to_vec())
}

/// The kind that `std::io::Error::kind` reports for an error, when it is one
/// of the kinds the library itself produces.
pub uninterp spec fn reported_kind(e: std::io::Error) -> Option<SyntheticErrorKind>;

/// The text an error carries as its payload when it was made by
/// `std::io::Error::new` from a string: what its `Display` shows. Errors of
/// the operating system carry none.
pub uninterp spec fn error_message(e: std::io::Error) -> Option<Seq<char>>;

/// What `std::io::Error::raw_os_error` reports for an error.
pub uninterp spec fn raw_os_code(e: std::io::Error) -> Option<i32>;

/// `std::io::Error::new` with the kind named by `kind` and the message as its
/// payload: `kind()` reports that kind, `Display` shows the message, and
/// `raw_os_error()` reports no operating-system code.
#[verifier::external_body]
pub(crate) fn synthetic_io_error(kind: SyntheticErrorKind, message: &str) -> (e: std::io::Error)
    ensures
        reported_kind(e) == Some(kind),
        error_message(e) == Some(message@),
        raw_os_code(e) is None,
{
    let kind = match kind {
        SyntheticErrorKind::InvalidInput => std::io::ErrorKind::InvalidInput,
        SyntheticErrorKind::NotADirectory => std::io::ErrorKind::NotADirectory,
    };
    std::io::Error::new(kind, message)
}

/// `Path::display` rendered into a `String`.
#[verifier::external_body]
pub(crate) fn path_display(p: &PathBuf) -> (r: String)
    ensures
        r@ == display_text(buf_spelling(*p)),
{
    p.display().to_string()
}

} // verus!
