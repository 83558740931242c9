use fluxtex::collab::{CollabEvent, CollabStatus};
use fluxtex::editor::{
    autosave_pending_status, autosave_status, autosave_step, AutosaveInput, build_status_tone, compile_failed, compile_queued,
    compile_succeeded, count_text, initial_content, is_idle, normalize_join_code, palette,
    preview_placeholder_message, preview_summary, reload_failure_log, reload_status,
    room_code_badge, save_status, session_update, status_label, status_tone, FileWatch,
    MenuAction, StatusTone, ThemePreset, ViewState, COMPILE_QUEUED_NOTE, FULLSCREEN_NOTE,
    OPEN_FILE_NOTE, SAVE_AS_NOTE, SHORTCUTS_NOTE, STARTER_LATEX, STARTER_RESTORED_NOTE,
    STOP_COMPILE_NOTE,
};
use fluxtex::menu::AppMenuCommand;

const ALL_PRESETS: [ThemePreset; 5] = [
    ThemePreset::Midnight,
    ThemePreset::Paper,
    ThemePreset::Forest,
    ThemePreset::Rose,
    ThemePreset::Solarized,
];

#[test]
fn theme_next_walks_the_cycle() {
    assert_eq!(ThemePreset::Midnight.next(), ThemePreset::Paper);
    assert_eq!(ThemePreset::Paper.next(), ThemePreset::Forest);
    assert_eq!(ThemePreset::Forest.next(), ThemePreset::Rose);
    assert_eq!(ThemePreset::Rose.next(), ThemePreset::Solarized);
    assert_eq!(ThemePreset::Solarized.next(), ThemePreset::Midnight);
}

#[test]
fn theme_five_steps_come_back() {
    for p in ALL_PRESETS {
        assert_eq!(p.next().next().next().next().next(), p);
    }
}

#[test]
fn theme_previous_undoes_next() {
    for p in ALL_PRESETS {
        assert_eq!(p.next().previous(), p);
        assert_eq!(p.previous().next(), p);
    }
    assert_eq!(ThemePreset::Midnight.previous(), ThemePreset::Solarized);
}

#[test]
fn palette_ids_names_and_soft_accent() {
    let names = ["Midnight", "Paper", "Forest", "Rose", "Solarized"];
    for (i, p) in ALL_PRESETS.iter().enumerate() {
        let t = palette(*p);
        assert_eq!(t.id, i as u64 + 1);
        assert_eq!(t.name, names[i]);
        assert_eq!((t.accent.r, t.accent.g, t.accent.b), (t.accent_soft.r, t.accent_soft.g, t.accent_soft.b));
        assert!(t.accent_soft.a < 255);
        assert_eq!(t.background.a, 255);
    }
    let midnight = palette(ThemePreset::Midnight);
    assert_eq!((midnight.accent.r, midnight.accent.g, midnight.accent.b), (96, 165, 250));
    assert_eq!(midnight.accent_soft.a, 38);
}

#[test]
fn status_labels_and_tones() {
    assert_eq!(status_label(&CollabStatus::Idle), "Solo");
    assert_eq!(status_label(&CollabStatus::ConnectingToSignaling), "Connecting…");
    assert_eq!(status_label(&CollabStatus::WaitingForPeer), "Waiting for peer");
    assert_eq!(status_label(&CollabStatus::Joining), "Joining room…");
    assert_eq!(status_label(&CollabStatus::Negotiating), "Negotiating…");
    assert_eq!(status_label(&CollabStatus::Connected), "Connected");
    assert_eq!(status_label(&CollabStatus::Disconnected("x".to_string())), "Disconnected");
    assert_eq!(status_tone(&CollabStatus::Connected), StatusTone::Success);
    assert_eq!(status_tone(&CollabStatus::Joining), StatusTone::Warning);
    assert_eq!(status_tone(&CollabStatus::ConnectingToSignaling), StatusTone::Accent);
    assert_eq!(status_tone(&CollabStatus::Disconnected(String::new())), StatusTone::Error);
    assert_eq!(status_tone(&CollabStatus::Idle), StatusTone::Muted);
    let theme = palette(ThemePreset::Paper);
    assert_eq!(theme.tone_color(StatusTone::Error), theme.error);
    assert_eq!(theme.tone_color(StatusTone::Muted), theme.text_muted);
}

#[test]
fn idle_states_offer_host_and_join() {
    assert!(is_idle(&CollabStatus::Idle));
    assert!(is_idle(&CollabStatus::Disconnected("peer left".to_string())));
    assert!(!is_idle(&CollabStatus::Connected));
    assert!(!is_idle(&CollabStatus::WaitingForPeer));
}

#[test]
fn join_code_is_trimmed_and_uppercased() {
    assert_eq!(normalize_join_code("  ab12cd \n"), Some("AB12CD".to_string()));
    assert_eq!(normalize_join_code("   "), None);
    assert_eq!(normalize_join_code(""), None);
    assert_eq!(room_code_badge("AB12CD"), "· AB12CD");
    assert_eq!(room_code_badge(""), "");
}

#[test]
fn preview_summary_by_status() {
    assert_eq!(preview_summary("Compile Error: boom"), "Unavailable");
    assert_eq!(preview_summary("Render Error: boom"), "Unavailable");
    assert_eq!(preview_summary("Compiled PDF successfully: 10 bytes"), "Synced");
    assert_eq!(preview_summary("Compiling..."), "In progress");
    assert_eq!(preview_summary("Ready"), "Idle");
    assert_eq!(preview_placeholder_message("Compile Error: x"), "See Problems for details.");
    assert_eq!(preview_placeholder_message("Compiling..."), "Compile in progress.");
    assert_eq!(preview_placeholder_message("Ready"), "Compile to generate a preview.");
    assert_eq!(build_status_tone("Render Error: y"), StatusTone::Error);
    assert_eq!(build_status_tone("Compiled PDF successfully: 1 bytes"), StatusTone::Success);
    assert_eq!(build_status_tone("Compiling..."), StatusTone::Warning);
    assert_eq!(build_status_tone("Idle"), StatusTone::Muted);
}

#[test]
fn initial_content_falls_back_to_starter() {
    assert_eq!(initial_content(Some("\\documentclass{book}".to_string())), "\\documentclass{book}");
    assert_eq!(initial_content(Some(" \n\t ".to_string())), STARTER_LATEX);
    assert_eq!(initial_content(None), STARTER_LATEX);
    assert!(STARTER_LATEX.starts_with("\\documentclass{article}\n"));
}

#[test]
fn view_state_starts_as_window_opens() {
    let v = ViewState::new();
    assert_eq!(v.theme, ThemePreset::Midnight);
    assert!(v.show_file_tree && v.show_preview && v.fit_page);
    assert!(!v.problems_expanded);
    assert_eq!(v.preview_zoom, 100);
}

#[test]
fn menu_zoom_is_clamped() {
    let mut v = ViewState::new();
    for _ in 0..30 {
        v.apply_command(AppMenuCommand::PreviewZoomIn);
    }
    assert_eq!(v.preview_zoom, 300);
    for _ in 0..30 {
        v.apply_command(AppMenuCommand::PreviewZoomOut);
    }
    assert_eq!(v.preview_zoom, 50);
    v.apply_command(AppMenuCommand::PreviewResetZoom);
    assert_eq!(v.preview_zoom, 100);
}

#[test]
fn toolbar_zoom_buttons_use_their_own_bounds() {
    let mut v = ViewState::new();
    for _ in 0..20 {
        v.zoom_in_button();
    }
    assert_eq!(v.preview_zoom, 180);
    for _ in 0..20 {
        v.zoom_out_button();
    }
    assert_eq!(v.preview_zoom, 60);
    v.apply_command(AppMenuCommand::PreviewZoomOut);
    assert_eq!(v.preview_zoom, 50);
    v.zoom_out_button();
    assert_eq!(v.preview_zoom, 60);
}

#[test]
fn menu_toggles_undo_themselves() {
    let start = ViewState::new();
    for c in [
        AppMenuCommand::ToggleProjectSidebar,
        AppMenuCommand::TogglePreview,
        AppMenuCommand::ToggleProblems,
        AppMenuCommand::PreviewToggleFitPage,
    ] {
        let mut v = start;
        v.apply_command(c);
        assert_ne!(v, start);
        v.apply_command(c);
        assert_eq!(v, start);
    }
    let mut v = start;
    v.apply_command(AppMenuCommand::NextTheme);
    assert_eq!(v.theme, ThemePreset::Paper);
    v.apply_command(AppMenuCommand::PreviousTheme);
    assert_eq!(v, start);
}

#[test]
fn menu_actions_for_commands() {
    let mut v = ViewState::new();
    assert!(matches!(v.apply_command(AppMenuCommand::NewStarterDocument), MenuAction::RestoreStarter(n) if n == STARTER_RESTORED_NOTE));
    assert!(matches!(v.apply_command(AppMenuCommand::SaveFile), MenuAction::Save));
    assert!(matches!(v.apply_command(AppMenuCommand::ReloadFile), MenuAction::Reload));
    assert!(matches!(v.apply_command(AppMenuCommand::Compile), MenuAction::Compile));
    assert!(matches!(v.apply_command(AppMenuCommand::StopCompile), MenuAction::StopCompile(n) if n == STOP_COMPILE_NOTE));
    assert!(!v.problems_expanded);
    assert!(matches!(v.apply_command(AppMenuCommand::OpenFile), MenuAction::ShowLog(n) if n == OPEN_FILE_NOTE));
    assert!(v.problems_expanded);
    assert!(matches!(v.apply_command(AppMenuCommand::SaveFileAs), MenuAction::ShowLog(n) if n == SAVE_AS_NOTE));
    assert!(matches!(v.apply_command(AppMenuCommand::ToggleFullscreen), MenuAction::ShowLog(n) if n == FULLSCREEN_NOTE));
    assert!(matches!(v.apply_command(AppMenuCommand::ShowKeyboardShortcuts), MenuAction::ShowLog(n) if n == SHORTCUTS_NOTE));
    assert!(SHORTCUTS_NOTE.starts_with("Keyboard shortcuts\n\n  ⌘N"));
    assert!(matches!(v.apply_command(AppMenuCommand::TogglePreview), MenuAction::Nothing));
}

#[test]
fn file_watch_reports_outside_changes_once() {
    let mut w = FileWatch::new();
    assert_eq!(w.observe("mine".to_string(), "mine"), None);
    assert_eq!(w.observe("theirs".to_string(), "mine"), Some("theirs".to_string()));
    assert_eq!(w.observe("theirs".to_string(), "mine"), None);
    assert_eq!(w.observe("mine".to_string(), "mine"), None);
    assert_eq!(w.observe("theirs".to_string(), "mine"), Some("theirs".to_string()));
    assert_eq!(w.last_seen, Some("theirs".to_string()));
}

#[test]
fn save_and_autosave_status_lines() {
    assert_eq!(autosave_pending_status("main.tex"), "Autosave on · main.tex");
    assert_eq!(autosave_status(&Ok(()), "doc.tex"), "Autosaved · doc.tex");
    assert_eq!(autosave_status(&Err("disk full".to_string()), "doc.tex"), "Autosave failed · disk full");
    assert_eq!(save_status(&Ok(()), "main.tex"), "Saved · main.tex");
    assert_eq!(save_status(&Err("denied".to_string()), "main.tex"), "Save failed · denied");
    assert_eq!(reload_status("main.tex"), "Reloaded · main.tex");
    assert_eq!(reload_failure_log("gone"), "Reload failed.\n\ngone");
}

#[test]
fn compile_reports() {
    let q = compile_queued();
    assert_eq!(q.pdf_status, "Compiling...");
    assert_eq!(q.compile_log, COMPILE_QUEUED_NOTE);
    assert!(!q.open_problems);

    let ok = compile_succeeded(2048, &Ok(3));
    assert_eq!(ok.pdf_status, "Compiled PDF successfully: 2048 bytes");
    assert_eq!(
        ok.compile_log,
        "Build finished successfully.\n\nOutput size: 2048 bytes\nPages rendered: 3\nStatus: PDF rendered and ready for preview."
    );
    assert!(!ok.open_problems);
    assert_eq!(preview_summary(&ok.pdf_status), "Synced");

    let bad_render = compile_succeeded(10, &Err("PDF has no pages".to_string()));
    assert_eq!(bad_render.pdf_status, "Render Error: PDF has no pages");
    assert_eq!(
        bad_render.compile_log,
        "PDF render failed after a successful TeX build.\n\nRender Error: PDF has no pages"
    );
    assert!(bad_render.open_problems);

    let failed = compile_failed("undefined control sequence");
    assert_eq!(failed.pdf_status, "Compile Error: undefined control sequence");
    assert_eq!(
        failed.compile_log,
        "Compilation failed.\n\nundefined control sequence\n\nA production editor would parse this into structured diagnostics."
    );
    assert!(failed.open_problems);
    assert_eq!(preview_summary(&failed.pdf_status), "Unavailable");
    assert_eq!(count_text(0), "0");
    assert_eq!(count_text(1234567), "1234567");
}

#[test]
fn session_update_folds_events() {
    let events = vec![
        CollabEvent::StatusChanged(CollabStatus::WaitingForPeer),
        CollabEvent::RoomCode("ABC123".to_string()),
        CollabEvent::PeerJoined,
        CollabEvent::RemoteSyncApplied,
        CollabEvent::Info("paired".to_string()),
        CollabEvent::Error("oops".to_string()),
        CollabEvent::StatusChanged(CollabStatus::Disconnected("peer \"left\"".to_string())),
    ];
    let u = session_update(&events);
    assert_eq!(
        u.log,
        "status: WaitingForPeer\nroom created: ABC123\npeer joined\npaired\nerror: oops\nstatus: Disconnected(\"peer \\\"left\\\"\")\n"
    );
    assert_eq!(u.status, Some(CollabStatus::Disconnected("peer \"left\"".to_string())));
    assert_eq!(u.room_code, Some("ABC123".to_string()));
    assert!(u.remote_applied);
    assert_eq!(
        format!("{:?}", CollabStatus::Disconnected("peer \"left\"".to_string())),
        "Disconnected(\"peer \\\"left\\\"\")"
    );

    let left = session_update(&vec![CollabEvent::RoomCode("X".to_string()), CollabEvent::PeerLeft]);
    assert_eq!(left.room_code, Some(String::new()));
    assert_eq!(left.log, "room created: X\npeer left\n");
    assert_eq!(left.status, None);
    assert!(!left.remote_applied);

    let none = session_update(&Vec::new());
    assert_eq!(none.log, "");
    assert_eq!(none.room_code, None);
}

#[test]
fn autosave_writes_only_the_last_content_of_a_burst() {
    let (p, w) = autosave_step(None, AutosaveInput::Content("a".to_string()));
    assert_eq!((p.clone(), w), (Some("a".to_string()), None));
    let (p, w) = autosave_step(p, AutosaveInput::Content("ab".to_string()));
    assert_eq!((p.clone(), w), (Some("ab".to_string()), None));
    let (p, w) = autosave_step(p, AutosaveInput::Quiet);
    assert_eq!((p.clone(), w), (None, Some("ab".to_string())));
    let (p, w) = autosave_step(p, AutosaveInput::Quiet);
    assert_eq!((p, w), (None, None));
}
