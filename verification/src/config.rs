//! Site configuration: profiles, URL scheme and pagination policy.

use vstd::prelude::*;

verus! {

/// The games whose script documentation can be rendered.
#[derive(Debug, Clone, Copy, PartialEq, Eq, Structural)]
pub enum ProfileGame {
    Victoria3,
}

/// One documentation profile: a game installation and how it is titled.
#[derive(Debug, Clone)]
pub struct Profile {
    pub name: String,
    pub title: String,
    pub game: ProfileGame,
    pub game_data_dir: String,
    pub user_data_dir: String,
}

/// A profile over plain values.
pub struct ProfileView {
    pub name: Seq<char>,
    pub title: Seq<char>,
    pub game: ProfileGame,
    pub game_data_dir: Seq<char>,
    pub user_data_dir: Seq<char>,
}

impl View for Profile {
    type V = ProfileView;

    open spec fn view(&self) -> ProfileView {
        ProfileView {
            name: self.name@,
            title: self.title@,
            game: self.game,
            game_data_dir: self.game_data_dir@,
            user_data_dir: self.user_data_dir@,
        }
    }
}

impl Profile {
    /// A copy of the profile.
    pub fn duplicate(&self) -> (r: Profile)
        ensures
            r@ == self@,
    {
        Profile {
            name: self.name.clone(),
            title: self.title.clone(),
            game: self.game,
            game_data_dir: self.game_data_dir.clone(),
            user_data_dir: self.user_data_dir.clone(),
        }
    }
}

/// How links between pages are written.
#[derive(Debug, Clone)]
pub enum UrlScheme {
    /// Links are relative to the directory of the page that holds them.
    Relative,
    /// Links are the base URL followed by the page's path.
    Absolute { base_url: String },
}

/// How long lists are split into pages.
#[derive(Debug, Clone, Copy, PartialEq, Eq, Structural)]
pub enum PaginationMode {
    /// Everything on one page.
    Off,
    /// Pages of `limit` items; the last may hold fewer.
    Absolute { limit: usize },
}

impl PaginationMode {
    /// A page size of zero cannot split anything.
    pub open spec fn wf(&self) -> bool {
        match *self {
            PaginationMode::Off => true,
            PaginationMode::Absolute { limit } => limit > 0,
        }
    }
}

impl PaginationMode {
    /// Whether the mode can split a list: its page size is not zero.
    pub fn can_split(&self) -> (r: bool)
        ensures
            r == self.wf(),
    {
        match self {
            PaginationMode::Off => true,
            PaginationMode::Absolute { limit } => *limit > 0,
        }
    }
}

/// The page size used where the configuration names none.
pub fn default_limit() -> (limit: usize)
    ensures
        limit == 50,
{
    50
}

/// The default of the flags that are off unless asked for.
pub fn default_false() -> (flag: bool)
    ensures
        !flag,
{
    false
}

/// The pagination used where the configuration names none.
pub fn default_pagination() -> (mode: PaginationMode)
    ensures
        mode == (PaginationMode::Absolute { limit: 50 }),
        mode.wf(),
{
    PaginationMode::Absolute { limit: default_limit() }
}

/// The whole configuration of one build.
#[derive(Debug, Clone)]
pub struct Config {
    pub profiles: Vec<Profile>,
    pub url_scheme: UrlScheme,
    pub output_dir: String,
    pub use_subfolder_for_single_profile: bool,
    pub pagination: PaginationMode,
}

impl Config {
    /// Whether each profile's pages go into a folder named after the profile.
    pub open spec fn uses_subfolder(&self) -> bool {
        self.profiles@.len() > 1 || self.use_subfolder_for_single_profile
    }

    /// Whether each profile's pages go into a folder named after the profile:
    /// always with several profiles, and with one where the flag asks for it.
    pub fn profile_subfolder(&self) -> (r: bool)
        ensures
            r == self.uses_subfolder(),
    {
        self.profiles.len() > 1 || self.use_subfolder_for_single_profile
    }
}

} // verus!
