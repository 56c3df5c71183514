//! Game assets: how converted images are named, and where the icons of a
//! game lie.

use std::path::Path;
use vstd::prelude::*;
use crate::paths::{
    holds_no_separator, no_separator, opt_text, parent_of, path_parent, path_with_extension,
    set_extension,
};
use crate::text::{push_char, str_eq};
use crate::util::{hash, spec_hash};

verus! {

/// How an asset is scaled.
#[derive(Clone, Copy, Debug, PartialEq, Eq, Structural)]
pub enum AssetSizeMode {
    /// The asset keeps its size.
    Unscaled,
    /// The maximum width or height of the asset requested. It is scaled
    /// down if either is greater than this number, in proportion.
    MaxDimension(u32),
}

/// An asset that a page asks for.
#[derive(Clone, Debug)]
pub struct RequestedAsset {
    pub target_url: String,
    pub source: String,
    pub size_mode: AssetSizeMode,
}

/// The naming of converted assets.
pub struct GameAssets;

/// The extension of the file name of `path`, if it has one.
pub uninterp spec fn path_extension(path: Seq<char>) -> Option<Seq<char>>;

/// The file name of `path` without its extension, if `path` has a file name.
pub uninterp spec fn path_file_stem(path: Seq<char>) -> Option<Seq<char>>;

/// `Path::extension`: the extension of the path's file name. The result is
/// that function's on the same text.
#[verifier::external_body]
fn extension_of(path: &str) -> (r: Option<String>)
    ensures
        opt_text(r) == path_extension(path@),
{
    match Path::new(path).extension() {
        Some(extension) => Some(extension.to_string_lossy().into_owned()),
        None => None,
    }
}

/// `Path::file_stem`: the path's file name without its extension. The result
/// is that function's on the same text.
#[verifier::external_body]
fn file_stem_of(path: &str) -> (r: Option<String>)
    ensures
        opt_text(r) == path_file_stem(path@),
{
    match Path::new(path).file_stem() {
        Some(stem) => Some(stem.to_string_lossy().into_owned()),
        None => None,
    }
}

/// The name under which an asset is written: images of the game's own
/// format become PNG files, everything else keeps its extension. A path
/// without extension names no asset, nor does one whose extension holds a
/// path separator of some platform.
pub open spec fn new_filename(orig: Seq<char>) -> Option<Seq<char>> {
    match path_extension(orig) {
        Some(extension) => if extension == "dds"@ {
            Some(path_with_extension(orig, "png"@))
        } else if no_separator(extension) {
            Some(path_with_extension(orig, extension))
        } else {
            None
        },
        None => None,
    }
}

impl GameAssets {
    /// The name under which the asset at `orig` is written.
    pub fn new_filename_for_asset(orig: &str) -> (r: Option<String>)
        ensures
            opt_text(r) == new_filename(orig@),
    {
        match extension_of(orig) {
            Some(extension) => {
                if str_eq(extension.as_str(), "dds") {
                    proof {
                        reveal_strlit("png");
                    }
                    Some(set_extension(orig, "png"))
                } else if holds_no_separator(extension.as_str()) {
                    Some(set_extension(orig, extension.as_str()))
                } else {
                    None
                }
            },
            None => None,
        }
    }
}

/// The position of the first underscore of `s`, or the length of `s` where
/// it has none.
pub open spec fn first_underscore(s: Seq<char>) -> int
    decreases s.len(),
{
    if s.len() == 0 {
        0
    } else if s[0] == '_' {
        0
    } else {
        1 + first_underscore(s.skip(1))
    }
}

/// What stands before the first underscore of `s`.
pub open spec fn before_underscore(s: Seq<char>) -> Seq<char> {
    s.take(first_underscore(s))
}

/// What stands before the first underscore of `s`.
pub fn head_before_underscore(s: &str) -> (r: String)
    ensures
        r@ == before_underscore(s@),
{
    let n = s.unicode_len();
    let mut r = String::new();
    let mut i: usize = 0;
    assert(s@.skip(0) =~= s@);
    assert(r@ =~= s@.take(0));
    while i < n
        invariant
            n == s@.len(),
            i <= n,
            first_underscore(s@) == i + first_underscore(s@.skip(i as int)),
            r@ == s@.take(i as int),
        decreases n - i,
    {
        let c = s.get_char(i);
        proof {
            assert(s@.skip(i as int)[0] == c);
            assert(s@.skip(i as int).skip(1) =~= s@.skip(i + 1));
        }
        if c == '_' {
            return r;
        }
        push_char(&mut r, c);
        assert(r@ =~= s@.take(i + 1));
        i += 1;
    }
    assert(s@.skip(n as int).len() == 0);
    r
}

/// An icon of a game: its name, the kind of thing it stands for, and where
/// it lies.
#[derive(Debug, Clone)]
pub struct Icon {
    pub name: String,
    pub mask: String,
    pub path: String,
}

/// An icon over plain values.
pub struct IconView {
    pub name: Seq<char>,
    pub mask: Seq<char>,
    pub path: Seq<char>,
}

impl View for Icon {
    type V = IconView;

    open spec fn view(&self) -> IconView {
        IconView { name: self.name@, mask: self.mask@, path: self.path@ }
    }
}

/// The icons of a game.
pub struct IconFinder {
    pub icons: Vec<Icon>,
}

impl View for IconFinder {
    type V = Seq<IconView>;

    open spec fn view(&self) -> Seq<IconView> {
        self.icons@.map_values(|i: Icon| i@)
    }
}

/// The name and the kind of the icon at `path`: the file's name without its
/// extension, and what the name of the file's directory shows before its
/// first underscore.
pub open spec fn icon_of(path: Seq<char>) -> Option<(Seq<char>, Seq<char>)> {
    match path_file_stem(path) {
        None => None,
        Some(name) => match path_parent(path) {
            None => None,
            Some(dir) => match path_file_stem(dir) {
                None => None,
                Some(stem) => Some((name, before_underscore(stem))),
            },
        },
    }
}

/// The name that an icon is filed under: a few short names stand for longer
/// ones.
pub open spec fn icon_name(name: Seq<char>) -> Seq<char> {
    if name == "aut"@ {
        "authority_icon"@
    } else if name == "bur"@ {
        "bureaucracy_icon"@
    } else if name == "inc"@ {
        "income_power_icon"@
    } else if name == "inf"@ {
        "influence_icon"@
    } else if name == "engines"@ {
        "locomotives"@
    } else {
        name
    }
}

/// The path of the last of `icons` whose name has the hash `id`.
pub open spec fn last_with_hash(icons: Seq<IconView>, id: u64) -> Option<Seq<char>>
    decreases icons.len(),
{
    if icons.len() == 0 {
        None
    } else if spec_hash(icons.last().name) == id {
        Some(icons.last().path)
    } else {
        last_with_hash(icons.drop_last(), id)
    }
}

/// Whether one of `icons` has the name `name`.
pub open spec fn has_name(icons: Seq<IconView>, name: Seq<char>) -> bool {
    exists|i: int| 0 <= i < icons.len() && (#[trigger] icons[i]).name == name
}

/// Whether one of `icons` has the kind `mask` and the name `name`.
pub open spec fn has_pair(icons: Seq<IconView>, mask: Seq<char>, name: Seq<char>) -> bool {
    exists|i: int| 0 <= i < icons.len() && (#[trigger] icons[i]).mask == mask && icons[i].name == name
}

/// The path of the icon that is found for `name` and `mask`. With a mask,
/// the icons are first searched for one of the kind `name` that is called
/// `mask`; without one, or where there is none, for one that is called
/// `name`. Icons are told apart by the hash of their names, and of several
/// with one hash the last one counts.
pub open spec fn found_icon(icons: Seq<IconView>, name: Seq<char>, mask: Option<Seq<char>>)
    -> Option<Seq<char>> {
    let name = icon_name(name);
    if mask is Some && has_pair(icons, name, mask.unwrap()) {
        last_with_hash(icons, spec_hash(mask.unwrap()))
    } else if has_name(icons, name) {
        last_with_hash(icons, spec_hash(name))
    } else {
        None
    }
}

impl IconFinder {
    /// The name and the kind of the icon at `path`.
    pub fn extract_from_path(path: &str) -> (r: Option<(String, String)>)
        ensures
            match r {
                Some(icon) => icon_of(path@) == Some((icon.0@, icon.1@)),
                None => icon_of(path@) is None,
            },
    {
        let name = match file_stem_of(path) {
            Some(name) => name,
            None => {
                return None;
            },
        };
        let dir = match parent_of(path) {
            Some(dir) => dir,
            None => {
                return None;
            },
        };
        let stem = match file_stem_of(dir.as_str()) {
            Some(stem) => stem,
            None => {
                return None;
            },
        };
        Some((name, head_before_underscore(stem.as_str())))
    }

    /// The finder for the icons at `paths`, or `None` where one of the paths
    /// shows no name or no kind.
    pub fn new(paths: &Vec<String>) -> (r: Option<IconFinder>)
        ensures
            match r {
                Some(finder) => finder@.len() == paths@.len() && forall|i: int|
                    0 <= i < paths@.len() ==> icon_of(paths@[i]@) == Some(
                        ((#[trigger] finder@[i]).name, finder@[i].mask),
                    ) && finder@[i].path == paths@[i]@,
                None => exists|i: int| 0 <= i < paths@.len() && icon_of(#[trigger] paths@[i]@) is None,
            },
    {
        let mut icons: Vec<Icon> = Vec::new();
        let mut i: usize = 0;
        while i < paths.len()
            invariant
                i <= paths@.len(),
                icons@.len() == i,
                forall|j: int|
                    0 <= j < i ==> icon_of(paths@[j]@) == Some(
                        ((#[trigger] icons@[j]).name@, icons@[j].mask@),
                    ) && icons@[j].path@ == paths@[j]@,
            decreases paths@.len() - i,
        {
            match Self::extract_from_path(paths[i].as_str()) {
                Some((name, mask)) => {
                    icons.push(Icon { name, mask, path: paths[i].clone() });
                },
                None => {
                    assert(icon_of(paths@[i as int]@) is None);
                    return None;
                },
            }
            i += 1;
        }
        let finder = IconFinder { icons };
        assert forall|i: int| 0 <= i < paths@.len() implies icon_of(paths@[i]@) == Some(
            ((#[trigger] finder@[i]).name, finder@[i].mask),
        ) && finder@[i].path == paths@[i]@ by {
            assert(finder@[i] == finder.icons@[i]@);
        }
        Some(finder)
    }

    /// The name that an icon is filed under.
    fn filed_name(name: &str) -> (r: &str)
        ensures
            r@ == icon_name(name@),
    {
        if str_eq(name, "aut") {
            "authority_icon"
        } else if str_eq(name, "bur") {
            "bureaucracy_icon"
        } else if str_eq(name, "inc") {
            "income_power_icon"
        } else if str_eq(name, "inf") {
            "influence_icon"
        } else if str_eq(name, "engines") {
            "locomotives"
        } else {
            name
        }
    }

    /// Whether an icon has the kind `mask` and the name `name`.
    fn holds_pair(&self, mask: &str, name: &str) -> (r: bool)
        ensures
            r == has_pair(self@, mask@, name@),
    {
        let mut i: usize = 0;
        while i < self.icons.len()
            invariant
                i <= self.icons@.len(),
                forall|j: int|
                    0 <= j < i ==> !((#[trigger] self@[j]).mask == mask@ && self@[j].name == name@),
            decreases self.icons@.len() - i,
        {
            assert(self@[i as int] == self.icons@[i as int]@);
            if str_eq(self.icons[i].mask.as_str(), mask) && str_eq(
                self.icons[i].name.as_str(),
                name,
            ) {
                return true;
            }
            i += 1;
        }
        false
    }

    /// Whether an icon has the name `name`.
    fn holds_name(&self, name: &str) -> (r: bool)
        ensures
            r == has_name(self@, name@),
    {
        let mut i: usize = 0;
        while i < self.icons.len()
            invariant
                i <= self.icons@.len(),
                forall|j: int| 0 <= j < i ==> (#[trigger] self@[j]).name != name@,
            decreases self.icons@.len() - i,
        {
            assert(self@[i as int] == self.icons@[i as int]@);
            if str_eq(self.icons[i].name.as_str(), name) {
                return true;
            }
            i += 1;
        }
        false
    }

    /// The path of the last icon whose name has the hash `id`.
    fn path_for(&self, id: u64) -> (r: Option<&str>)
        ensures
            match r {
                Some(path) => last_with_hash(self@, id) == Some(path@),
                None => last_with_hash(self@, id) is None,
            },
    {
        let mut i: usize = self.icons.len();
        assert(self@.take(i as int) =~= self@);
        while i > 0
            invariant
                i <= self.icons@.len(),
                last_with_hash(self@, id) == last_with_hash(self@.take(i as int), id),
            decreases i,
        {
            proof {
                assert(self@.take(i as int).last() == self.icons@[i - 1]@);
                assert(self@.take(i as int).drop_last() =~= self@.take(i - 1));
            }
            if hash(self.icons[i - 1].name.as_str()) == id {
                return Some(self.icons[i - 1].path.as_str());
            }
            i -= 1;
        }
        None
    }

    /// The path of the icon for `name`, of the kind `mask` where one is
    /// given.
    pub fn find(&self, name: &str, mask: Option<&str>) -> (r: Option<&str>)
        ensures
            match r {
                Some(path) => found_icon(
                    self@,
                    name@,
                    match mask {
                        Some(m) => Some(m@),
                        None => None,
                    },
                ) == Some(path@),
                None => found_icon(
                    self@,
                    name@,
                    match mask {
                        Some(m) => Some(m@),
                        None => None,
                    },
                ) is None,
            },
    {
        let name = Self::filed_name(name);
        if let Some(mask) = mask {
            if self.holds_pair(name, mask) {
                return self.path_for(hash(mask));
            }
        }
        if self.holds_name(name) {
            self.path_for(hash(name))
        } else {
            None
        }
    }
}

} // verus!
