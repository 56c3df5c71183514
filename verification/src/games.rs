//! What a game provides: its version, and the categories of its script
//! documentation.

use vstd::prelude::*;
use vstd::utf8::{decode_utf8, encode_utf8, is_char_boundary};
use crate::config::ProfileGame;
use crate::dossier::{category_views, CategoryView, DocCategory};
use crate::entry::ScriptDocCategory;
use crate::error::Error;
use crate::text::join3;
use crate::util::spec_hash;

verus! {

/// Version information about a game.
#[derive(Debug, Clone)]
pub struct GameVersion {
    /// The version number string for this release, like "1.7.1".
    pub version_number: String,
    /// A detailed version string.
    pub detailed: String,
}

/// The leftmost match of the regular expression `pattern` in `text`, where
/// the pattern is one and matches.
pub uninterp spec fn regex_found(pattern: Seq<char>, text: Seq<char>) -> Option<Seq<char>>;

/// `Regex::find`, on the expression compiled from `pattern`: the text of the
/// leftmost match in `text`, and nothing where there is no match or
/// `pattern` is no regular expression. The result is that function's on the
/// same texts.
#[verifier::external_body]
fn regex_find(pattern: &str, text: &str) -> (r: Option<String>)
    ensures
        crate::paths::opt_text(r) == regex_found(pattern@, text@),
{
    match regex::Regex::new(pattern) {
        Ok(expression) => match expression.find(text) {
            Some(found) => Some(found.as_str().to_owned()),
            None => None,
        },
        Err(_) => None,
    }
}

/// Reads a game's version out of the texts of its branch and revision files.
pub struct BranchRevParser;

/// The pattern of a version number at the end of a branch name.
pub open spec fn version_pattern() -> Seq<char> {
    "(\\d+\\.\\d+\\.\\d+)\\s*$"@
}

/// Whether `rev` is long enough for a revision: at least 32 bytes.
pub open spec fn long_enough(rev: Seq<char>) -> bool {
    encode_utf8(rev).len() >= 32
}

/// Whether the first nine bytes of `rev` are whole characters.
pub open spec fn head_is_text(rev: Seq<char>) -> bool {
    is_char_boundary(encode_utf8(rev), 9)
}

/// What the first nine bytes of `rev` spell.
pub open spec fn revision_head(rev: Seq<char>) -> Seq<char> {
    decode_utf8(encode_utf8(rev).subrange(0, 9))
}

/// The detailed version string.
pub open spec fn detailed_version(
    game_branch: Seq<char>,
    game_rev: Seq<char>,
    cl_branch: Seq<char>,
    cl_rev: Seq<char>,
) -> Seq<char> {
    "game version "@ + game_branch + " commit "@ + revision_head(game_rev)
        + "\nclausewitz version "@ + cl_branch + " commit "@ + revision_head(cl_rev)
}

/// What the first nine bytes of `rev` spell, where they are whole
/// characters.
fn head_of(rev: &str) -> (r: Option<&str>)
    ensures
        match r {
            Some(head) => head_is_text(rev@) && head@ == revision_head(rev@),
            None => !head_is_text(rev@),
        },
{
    if rev.is_char_boundary(9) {
        let (head, _) = rev.split_at(9);
        proof {
            vstd::utf8::encode_utf8_decode_utf8(head@);
        }
        Some(head)
    } else {
        None
    }
}

impl BranchRevParser {
    /// The version of a game, from the texts of the files `prefix_branch.txt`
    /// and `prefix_rev.txt` of the game and of the files of the engine. The
    /// version number is what the end of the game's branch shows. A revision
    /// of fewer than 32 bytes, a branch without a version number, or a
    /// revision whose first nine bytes are no whole characters is an error
    /// that names the file; the engine's revision is looked at first.
    pub fn parse(prefix: &str, game_branch: &str, game_rev: &str, cl_branch: &str, cl_rev: &str)
        -> (r: Result<GameVersion, Error>)
        ensures
            match r {
                Ok(v) => long_enough(game_rev@) && long_enough(cl_rev@) && regex_found(
                    version_pattern(),
                    game_branch@,
                ) == Some(v.version_number@) && head_is_text(game_rev@) && head_is_text(cl_rev@)
                    && v.detailed@ == detailed_version(
                    game_branch@,
                    game_rev@,
                    cl_branch@,
                    cl_rev@,
                ),
                Err(Error::Provider(reason)) => if !long_enough(cl_rev@) {
                    reason@ == "invalid revision in clausewitz_rev.txt"@
                } else if !long_enough(game_rev@) {
                    reason@ == "invalid revision in "@ + prefix@ + "_rev.txt"@
                } else if regex_found(version_pattern(), game_branch@) is None {
                    reason@ == "can't get version number from "@ + prefix@ + "_branch.txt"@
                } else if !head_is_text(game_rev@) {
                    reason@ == "invalid revision in "@ + prefix@ + "_rev.txt"@
                } else {
                    !head_is_text(cl_rev@) && reason@ == "invalid revision in clausewitz_rev.txt"@
                },
                Err(_) => false,
            },
    {
        if cl_rev.as_bytes().len() < 32 {
            return Err(Error::Provider("invalid revision in clausewitz_rev.txt".to_owned()));
        }
        if game_rev.as_bytes().len() < 32 {
            return Err(Error::Provider(join3("invalid revision in ", prefix, "_rev.txt")));
        }
        let version_number = match regex_find("(\\d+\\.\\d+\\.\\d+)\\s*$", game_branch) {
            Some(v) => v,
            None => {
                return Err(
                    Error::Provider(join3("can't get version number from ", prefix, "_branch.txt")),
                );
            },
        };
        let game_head = match head_of(game_rev) {
            Some(head) => head,
            None => {
                return Err(Error::Provider(join3("invalid revision in ", prefix, "_rev.txt")));
            },
        };
        let cl_head = match head_of(cl_rev) {
            Some(head) => head,
            None => {
                return Err(Error::Provider("invalid revision in clausewitz_rev.txt".to_owned()));
            },
        };
        let mut detailed = join3("game version ", game_branch, " commit ");
        detailed.append(game_head);
        detailed.append("\nclausewitz version ");
        detailed.append(cl_branch);
        detailed.append(" commit ");
        detailed.append(cl_head);
        Ok(GameVersion { version_number, detailed })
    }
}

/// The provider of the documentation of Victoria 3.
pub struct Victoria3GameDocProvider;

/// The category with the tag, name and display name given.
pub open spec fn category(tag: ScriptDocCategory, name: Seq<char>, display_name: Seq<char>)
    -> CategoryView {
    CategoryView { id: spec_hash(tag.spec_tag()), name, display_name, entries: Seq::empty() }
}

impl Victoria3GameDocProvider {
    /// The categories of the game's script documentation, each without
    /// entries.
    pub fn get_categories(&self) -> (r: Vec<DocCategory>)
        ensures
            category_views(r@) == seq![
                category(
                    ScriptDocCategory::CustomLocalization,
                    "custom_loc"@,
                    "Custom Localization"@,
                ),
                category(ScriptDocCategory::Effects, "effects"@, "Effects"@),
                category(ScriptDocCategory::EventTargets, "event_targets"@, "Event Targets"@),
                category(ScriptDocCategory::Modifiers, "modifiers"@, "Modifiers"@),
                category(ScriptDocCategory::OnActions, "on_actions"@, "On Actions"@),
                category(ScriptDocCategory::Triggers, "triggers"@, "Triggers"@),
            ],
    {
        let mut r: Vec<DocCategory> = Vec::new();
        r.push(
            DocCategory::new(
                ScriptDocCategory::CustomLocalization.tag(),
                "custom_loc",
                "Custom Localization",
            ),
        );
        r.push(DocCategory::new(ScriptDocCategory::Effects.tag(), "effects", "Effects"));
        r.push(
            DocCategory::new(ScriptDocCategory::EventTargets.tag(), "event_targets", "Event Targets"),
        );
        r.push(DocCategory::new(ScriptDocCategory::Modifiers.tag(), "modifiers", "Modifiers"));
        r.push(DocCategory::new(ScriptDocCategory::OnActions.tag(), "on_actions", "On Actions"));
        r.push(DocCategory::new(ScriptDocCategory::Triggers.tag(), "triggers", "Triggers"));
        assert(category_views(r@) =~= seq![
            category(ScriptDocCategory::CustomLocalization, "custom_loc"@, "Custom Localization"@),
            category(ScriptDocCategory::Effects, "effects"@, "Effects"@),
            category(ScriptDocCategory::EventTargets, "event_targets"@, "Event Targets"@),
            category(ScriptDocCategory::Modifiers, "modifiers"@, "Modifiers"@),
            category(ScriptDocCategory::OnActions, "on_actions"@, "On Actions"@),
            category(ScriptDocCategory::Triggers, "triggers"@, "Triggers"@),
        ]);
        r
    }
}

/// The provider for a game.
pub fn provider_for_game(game: &ProfileGame) -> (r: Victoria3GameDocProvider) {
    match game {
        ProfileGame::Victoria3 => Victoria3GameDocProvider {  },
    }
}

} // verus!
