//! The application menu's commands and the tags that menu items carry: the
//! native menu reports a selected item by its integer tag, and the editor
//! acts on the command that tag stands for.

use vstd::prelude::*;

verus! {

/// A command chosen from the application menu.
#[derive(Clone, Copy, Debug, PartialEq, Eq, Structural)]
pub enum AppMenuCommand {
    NewStarterDocument,
    OpenFile,
    SaveFile,
    SaveFileAs,
    ReloadFile,
    Compile,
    StopCompile,
    ToggleProjectSidebar,
    TogglePreview,
    ToggleProblems,
    NextTheme,
    PreviousTheme,
    PreviewZoomIn,
    PreviewZoomOut,
    PreviewResetZoom,
    PreviewToggleFitPage,
    ToggleFullscreen,
    ShowKeyboardShortcuts,
}

/// The project documentation.
pub const DOCS_URL: &'static str = "https://github.com/danielsuit/fluxtex#readme";

/// The project repository.
pub const REPO_URL: &'static str = "https://github.com/danielsuit/fluxtex";

/// Where issues are reported.
pub const ISSUE_URL: &'static str = "https://github.com/danielsuit/fluxtex/issues/new";

/// What a tagged menu item asks for.
#[derive(Clone, Copy, Debug)]
pub enum MenuSelection {
    /// A command for the editor.
    Command(AppMenuCommand),
    /// A help page to open in the browser.
    OpenUrl(&'static str),
    /// An item this menu does not route.
    Ignored,
}

/// The tag of a command's menu item.
pub open spec fn command_tag(c: AppMenuCommand) -> int {
    match c {
        AppMenuCommand::NewStarterDocument => 1,
        AppMenuCommand::OpenFile => 2,
        AppMenuCommand::SaveFile => 3,
        AppMenuCommand::SaveFileAs => 4,
        AppMenuCommand::ReloadFile => 5,
        AppMenuCommand::Compile => 6,
        AppMenuCommand::StopCompile => 7,
        AppMenuCommand::ToggleProjectSidebar => 8,
        AppMenuCommand::TogglePreview => 9,
        AppMenuCommand::ToggleProblems => 10,
        AppMenuCommand::NextTheme => 11,
        AppMenuCommand::PreviousTheme => 12,
        AppMenuCommand::PreviewZoomIn => 13,
        AppMenuCommand::PreviewZoomOut => 14,
        AppMenuCommand::PreviewResetZoom => 15,
        AppMenuCommand::PreviewToggleFitPage => 16,
        AppMenuCommand::ToggleFullscreen => 17,
        AppMenuCommand::ShowKeyboardShortcuts => 18,
    }
}

/// The tag a menu item for `command` carries.
pub fn tag_of(command: AppMenuCommand) -> (t: isize)
    ensures
        t == command_tag(command),
{
    match command {
        AppMenuCommand::NewStarterDocument => 1,
        AppMenuCommand::OpenFile => 2,
        AppMenuCommand::SaveFile => 3,
        AppMenuCommand::SaveFileAs => 4,
        AppMenuCommand::ReloadFile => 5,
        AppMenuCommand::Compile => 6,
        AppMenuCommand::StopCompile => 7,
        AppMenuCommand::ToggleProjectSidebar => 8,
        AppMenuCommand::TogglePreview => 9,
        AppMenuCommand::ToggleProblems => 10,
        AppMenuCommand::NextTheme => 11,
        AppMenuCommand::PreviousTheme => 12,
        AppMenuCommand::PreviewZoomIn => 13,
        AppMenuCommand::PreviewZoomOut => 14,
        AppMenuCommand::PreviewResetZoom => 15,
        AppMenuCommand::PreviewToggleFitPage => 16,
        AppMenuCommand::ToggleFullscreen => 17,
        AppMenuCommand::ShowKeyboardShortcuts => 18,
    }
}

/// What the item with tag `tag` asks for: the command with that tag, one of
/// the three help pages for the tags after the commands, else nothing.
pub fn selection_for_tag(tag: isize) -> (s: MenuSelection)
    ensures
        1 <= tag <= 18 ==> (s matches MenuSelection::Command(c) && command_tag(c) == tag),
        tag == 19 ==> s == MenuSelection::OpenUrl(DOCS_URL),
        tag == 20 ==> s == MenuSelection::OpenUrl(REPO_URL),
        tag == 21 ==> s == MenuSelection::OpenUrl(ISSUE_URL),
        !(1 <= tag <= 21) ==> s == MenuSelection::Ignored,
{
    let command = match tag {
        1 => AppMenuCommand::NewStarterDocument,
        2 => AppMenuCommand::OpenFile,
        3 => AppMenuCommand::SaveFile,
        4 => AppMenuCommand::SaveFileAs,
        5 => AppMenuCommand::ReloadFile,
        6 => AppMenuCommand::Compile,
        7 => AppMenuCommand::StopCompile,
        8 => AppMenuCommand::ToggleProjectSidebar,
        9 => AppMenuCommand::TogglePreview,
        10 => AppMenuCommand::ToggleProblems,
        11 => AppMenuCommand::NextTheme,
        12 => AppMenuCommand::PreviousTheme,
        13 => AppMenuCommand::PreviewZoomIn,
        14 => AppMenuCommand::PreviewZoomOut,
        15 => AppMenuCommand::PreviewResetZoom,
        16 => AppMenuCommand::PreviewToggleFitPage,
        17 => AppMenuCommand::ToggleFullscreen,
        18 => AppMenuCommand::ShowKeyboardShortcuts,
        19 => {
            return MenuSelection::OpenUrl(DOCS_URL);
        },
        20 => {
            return MenuSelection::OpenUrl(REPO_URL);
        },
        21 => {
            return MenuSelection::OpenUrl(ISSUE_URL);
        },
        _ => {
            return MenuSelection::Ignored;
        },
    };
    MenuSelection::Command(command)
}

/// Every command's tag leads back to that command, and no two commands
/// share a tag.
pub proof fn lemma_tag_round_trip(c: AppMenuCommand, d: AppMenuCommand)
    ensures
        1 <= command_tag(c) <= 18,
        command_tag(c) == command_tag(d) ==> c == d,
{
}

} // verus!
