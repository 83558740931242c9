use fluxtex::menu::{selection_for_tag, tag_of, AppMenuCommand, MenuSelection, DOCS_URL, ISSUE_URL, REPO_URL};

const ALL_COMMANDS: [AppMenuCommand; 18] = [
    AppMenuCommand::NewStarterDocument,
    AppMenuCommand::OpenFile,
    AppMenuCommand::SaveFile,
    AppMenuCommand::SaveFileAs,
    AppMenuCommand::ReloadFile,
    AppMenuCommand::Compile,
    AppMenuCommand::StopCompile,
    AppMenuCommand::ToggleProjectSidebar,
    AppMenuCommand::TogglePreview,
    AppMenuCommand::ToggleProblems,
    AppMenuCommand::NextTheme,
    AppMenuCommand::PreviousTheme,
    AppMenuCommand::PreviewZoomIn,
    AppMenuCommand::PreviewZoomOut,
    AppMenuCommand::PreviewResetZoom,
    AppMenuCommand::PreviewToggleFitPage,
    AppMenuCommand::ToggleFullscreen,
    AppMenuCommand::ShowKeyboardShortcuts,
];

#[test]
fn tags_round_trip() {
    for (i, c) in ALL_COMMANDS.iter().enumerate() {
        assert_eq!(tag_of(*c), i as isize + 1);
        match selection_for_tag(tag_of(*c)) {
            MenuSelection::Command(back) => assert_eq!(back, *c),
            other => panic!("unexpected {:?}", other),
        }
    }
}

#[test]
fn help_tags_open_pages() {
    assert!(matches!(selection_for_tag(19), MenuSelection::OpenUrl(u) if u == DOCS_URL));
    assert!(matches!(selection_for_tag(20), MenuSelection::OpenUrl(u) if u == REPO_URL));
    assert!(matches!(selection_for_tag(21), MenuSelection::OpenUrl(u) if u == ISSUE_URL));
    assert_eq!(DOCS_URL, "https://github.com/danielsuit/fluxtex#readme");
}

#[test]
fn unknown_tags_are_ignored() {
    for t in [0, -1, 22, 1000] {
        assert!(matches!(selection_for_tag(t), MenuSelection::Ignored));
    }
}
