//! Paths as the site mapper needs them: directories, file names, extensions
//! and the relative path from one directory to another. A path is held as
//! text; what the platform's path rules make of it is named here and
//! computed by the standard library and by `pathdiff`.

use std::path::Path;
use std::path::PathBuf;
use vstd::prelude::*;
use crate::text::{replace_char, replaced};

verus! {

/// The characters of an optional string.
pub open spec fn opt_text(s: Option<String>) -> Option<Seq<char>> {
    match s {
        Some(t) => Some(t@),
        None => None,
    }
}

/// The characters of each string of a list.
pub open spec fn texts(v: Seq<String>) -> Seq<Seq<char>> {
    v.map_values(|s: String| s@)
}

/// The directory that holds `path`, if the path has one.
pub uninterp spec fn path_parent(path: Seq<char>) -> Option<Seq<char>>;

/// The last component of `path`, if it names a file or directory.
pub uninterp spec fn path_file_name(path: Seq<char>) -> Option<Seq<char>>;

/// `base` extended by `item`, as the platform joins paths.
pub uninterp spec fn path_joined(base: Seq<char>, item: Seq<char>) -> Seq<char>;

/// `path` with the extension of its file name set to `extension`.
pub uninterp spec fn path_with_extension(path: Seq<char>, extension: Seq<char>) -> Seq<char>;

/// The components of `path`, in order.
pub uninterp spec fn path_segments(path: Seq<char>) -> Seq<Seq<char>>;

/// The relative path that leads from the directory `base` to `path`, where
/// there is one.
pub uninterp spec fn path_diff(path: Seq<char>, base: Seq<char>) -> Option<Seq<char>>;

/// `Path::parent`: the path without its last component. The result is that
/// function's on the same text.
#[verifier::external_body]
pub(crate) fn parent_of(path: &str) -> (r: Option<String>)
    ensures
        opt_text(r) == path_parent(path@),
{
    match Path::new(path).parent() {
        Some(dir) => Some(dir.to_string_lossy().into_owned()),
        None => None,
    }
}

/// `Path::file_name`: the last component of the path. The result is that
/// function's on the same text.
#[verifier::external_body]
pub(crate) fn file_name_of(path: &str) -> (r: Option<String>)
    ensures
        opt_text(r) == path_file_name(path@),
{
    match Path::new(path).file_name() {
        Some(name) => Some(name.to_string_lossy().into_owned()),
        None => None,
    }
}

/// `Path::join`: `base` extended by `item`. The result is that function's on
/// the same texts.
#[verifier::external_body]
pub(crate) fn join_path(base: &str, item: &str) -> (r: String)
    ensures
        r@ == path_joined(base@, item@),
{
    Path::new(base).join(item).to_string_lossy().into_owned()
}

/// Whether `text` holds no path separator, on whatever platform: neither a
/// slash nor a backslash.
pub open spec fn no_separator(text: Seq<char>) -> bool {
    forall|i: int| 0 <= i < text.len() ==> #[trigger] text[i] != '/' && text[i] != '\\'
}

/// Whether `text` holds no path separator.
pub fn holds_no_separator(text: &str) -> (r: bool)
    ensures
        r == no_separator(text@),
{
    let n = text.unicode_len();
    let mut i: usize = 0;
    while i < n
        invariant
            n == text@.len(),
            i <= n,
            forall|j: int| 0 <= j < i ==> #[trigger] text@[j] != '/' && text@[j] != '\\',
        decreases n - i,
    {
        let c = text.get_char(i);
        if c == '/' || c == '\\' {
            return false;
        }
        i += 1;
    }
    true
}

/// `PathBuf::set_extension`: the path with the extension of its file name
/// replaced. The result is that function's on the same texts. An extension
/// that holds a path separator is left out: the function does not take one.
#[verifier::external_body]
pub(crate) fn set_extension(path: &str, extension: &str) -> (r: String)
    requires
        no_separator(extension@),
    ensures
        r@ == path_with_extension(path@, extension@),
{
    let mut buf = PathBuf::from(path);
    buf.set_extension(extension);
    buf.to_string_lossy().into_owned()
}

/// `Path::components`: the components of the path, each as text. The result
/// lists what that iterator yields, in its order.
#[verifier::external_body]
pub(crate) fn components_of(path: &str) -> (r: Vec<String>)
    ensures
        texts(r@) == path_segments(path@),
{
    let mut parts = Vec::new();
    for part in Path::new(path).components() {
        parts.push(part.as_os_str().to_string_lossy().into_owned());
    }
    parts
}

/// `pathdiff::diff_paths`: the relative path from the directory `base` to
/// `path`, or nothing where it finds none. The result is that function's on
/// the same texts.
#[verifier::external_body]
pub(crate) fn diff_paths(path: &str, base: &str) -> (r: Option<String>)
    ensures
        opt_text(r) == path_diff(path@, base@),
{
    match pathdiff::diff_paths(path, base) {
        Some(diff) => Some(diff.to_string_lossy().into_owned()),
        None => None,
    }
}

/// The directory of `path`, or the empty path where it has none.
pub open spec fn dir_of(path: Seq<char>) -> Seq<char> {
    match path_parent(path) {
        Some(dir) => dir,
        None => Seq::empty(),
    }
}

/// The URL that leads from the page at `source` to the file at `dest`: the
/// relative path from the directory of `source` to the directory of `dest`,
/// followed by the file name of `dest`, written with forward slashes. There
/// is none where no relative path leads from the one directory to the other.
pub open spec fn relative_url(source: Seq<char>, dest: Seq<char>) -> Option<Seq<char>> {
    match path_diff(dir_of(dest), dir_of(source)) {
        Some(diff) => Some(
            replaced(
                match path_file_name(dest) {
                    Some(name) => path_joined(diff, name),
                    None => diff,
                },
                '\\',
                '/',
            ),
        ),
        None => None,
    }
}

/// A relative URL is written with forward slashes: it holds no backslash.
pub proof fn lemma_relative_url_has_no_backslash(source: Seq<char>, dest: Seq<char>)
    ensures
        relative_url(source, dest) matches Some(url) ==> forall|i: int|
            0 <= i < url.len() ==> #[trigger] url[i] != '\\',
{
}

/// The directory of `path`, or the empty path where it has none.
pub fn directory_of(path: &str) -> (r: String)
    ensures
        r@ == dir_of(path@),
{
    match parent_of(path) {
        Some(dir) => dir,
        None => String::new(),
    }
}

/// The relative URL from the page at `source` to the file at `dest`, or
/// `None` where no relative path leads from the directory of the one to the
/// directory of the other.
pub fn try_url_from(source: &str, dest: &str) -> (r: Option<String>)
    ensures
        opt_text(r) == relative_url(source@, dest@),
{
    let source_dir = directory_of(source);
    let dest_dir = directory_of(dest);
    match diff_paths(dest_dir.as_str(), source_dir.as_str()) {
        Some(diff) => {
            let full = match file_name_of(dest) {
                Some(name) => join_path(diff.as_str(), name.as_str()),
                None => diff,
            };
            Some(replace_char(full.as_str(), '\\', '/'))
        },
        None => None,
    }
}

/// The relative URL from the page at `source` to the file at `dest`.
pub fn url_from(source: &str, dest: &str) -> (r: String)
    requires
        relative_url(source@, dest@) is Some,
    ensures
        Some(r@) == relative_url(source@, dest@),
{
    match try_url_from(source, dest) {
        Some(url) => url,
        None => String::new(),
    }
}

/// `path` with the extension `html`.
pub open spec fn html_path(path: Seq<char>) -> Seq<char> {
    path_with_extension(path, "html"@)
}

/// Gives a page path the extension of the page format.
pub fn ensure_html(path: &str) -> (r: String)
    ensures
        r@ == html_path(path@),
{
    proof {
        reveal_strlit("html");
    }
    set_extension(path, "html")
}

} // verus!
