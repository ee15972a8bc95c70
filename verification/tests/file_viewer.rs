use fresh_editor::{
    display_name_of, Action, BufferId, CloseError, Editor, Focus, KeyCode, KeyContext, KeyModifiers, LoadedFile,
    StatusMessage, ViewMode, VIEWER_MODE,
};

/// A file the buffer loader read as text.
fn file(name: &str, _contents: &[u8]) -> LoadedFile {
    LoadedFile { path: format!("/project/{name}"), binary: false }
}

/// A file the buffer loader classified as binary.
fn binary_file(name: &str) -> LoadedFile {
    LoadedFile { path: format!("/project/{name}"), binary: true }
}

/// Presses `key` (unmodified) in the active buffer's viewer context and
/// performs what it resolves to.
fn press_in_viewer(editor: &mut Editor, key: KeyCode) -> Option<Action> {
    let ctx = KeyContext::Mode(VIEWER_MODE.to_string());
    let action = editor.keybindings.resolve(&ctx, key, KeyModifiers::none());
    match action {
        Some(Action::ToggleHexView) => editor.window.handle_toggle_hex_view(),
        Some(Action::FocusFileExplorer) => editor.focus_file_explorer(),
        _ => {}
    }
    action
}

/// The names on the tab bar, in order.
fn tab_bar(editor: &Editor) -> String {
    editor
        .window
        .tabs
        .iter()
        .map(|b| b.name.clone())
        .collect::<Vec<_>>()
        .join(" | ")
}

/// The status bar's read-only segment for the active buffer.
fn status_bar(editor: &Editor) -> String {
    match editor.active_state() {
        Some(b) if b.read_only => format!("{} [RO]", b.name),
        Some(b) => b.name.clone(),
        None => String::new(),
    }
}

fn view(editor: &mut Editor, name: &str, contents: &[u8]) -> BufferId {
    let r: Result<(), String> = editor.open_file_in_viewer(Ok(file(name, contents)));
    assert!(r.is_ok());
    editor.active_buffer().unwrap()
}

fn tab(editor: &Editor, id: BufferId) -> Option<&fresh_editor::Buffer> {
    editor.window.tabs.iter().find(|b| b.id == id)
}

#[test]
fn enter_on_a_file_opens_it_read_only() {
    let mut editor = Editor::new();
    view(&mut editor, "alpha.txt", b"alpha contents");
    assert!(tab_bar(&editor).contains("alpha.txt"));

    let status = status_bar(&editor);
    assert!(
        status.contains("RO"),
        "a viewed file must be read-only, status bar was:\n{status}"
    );
}

#[test]
fn viewing_a_second_file_retires_the_first() {
    let mut editor = Editor::new();
    view(&mut editor, "alpha.txt", b"alpha contents");
    assert!(tab_bar(&editor).contains("alpha.txt"));

    editor.focus_file_explorer();
    view(&mut editor, "beta.txt", b"beta contents");
    assert!(tab_bar(&editor).contains("beta.txt"));

    let tabs = tab_bar(&editor);
    assert!(
        !tabs.contains("alpha.txt"),
        "the previous viewer tab should have been retired, tab bar was:\n{tabs}"
    );
}

#[test]
fn viewed_buffer_is_locked_kept_and_focused() {
    let mut editor = Editor::new();
    editor.focus_file_explorer();
    let id = view(&mut editor, "alpha.txt", b"alpha contents");
    let b = tab(&editor, id).unwrap();
    assert!(b.read_only);
    assert!(b.editing_disabled);
    assert!(!b.preview);
    assert_eq!(b.view_mode, ViewMode::Text);
    assert_eq!(editor.window.focus, Focus::Editor);
    assert!(editor.active_buffer_is_viewer());
    assert_eq!(editor.window.viewer_buffers.len(), 1);
    match &editor.status_message {
        Some(StatusMessage::ViewerOpened { name }) => assert_eq!(name, "alpha.txt"),
        None => panic!("no status message"),
    }
}

#[test]
fn viewing_a_previewed_file_promotes_its_tab() {
    let mut editor = Editor::new();
    let preview = editor.window.open_file(file("alpha.txt", b"alpha"), true);
    assert!(tab(&editor, preview).unwrap().preview);
    let id = view(&mut editor, "alpha.txt", b"alpha");
    assert_eq!(id, preview);
    assert_eq!(editor.window.tabs.len(), 1);
    assert!(!tab(&editor, id).unwrap().preview);
}

#[test]
fn file_classified_binary_comes_up_as_hex() {
    let mut editor = Editor::new();
    let r: Result<(), String> = editor.open_file_in_viewer(Ok(binary_file("blob.bin")));
    assert!(r.is_ok());
    let id = editor.active_buffer().unwrap();
    let b = tab(&editor, id).unwrap();
    assert!(b.binary);
    assert_eq!(b.view_mode, ViewMode::Hex);
    assert_eq!(editor.active_view_mode(), Some(ViewMode::Hex));
}

#[test]
fn sample_bin_opens_as_text_and_h_shows_the_dump() {
    let mut bytes = vec![0x7F, 0x45, 0x4C, 0x46, 0x02, 0x01, 0x01, 0x00];
    bytes.extend_from_slice(&[0x00; 8]);
    bytes.extend_from_slice(&[0xDE, 0xAD, 0xBE, 0xEF]);
    bytes.extend_from_slice(b"Hello");
    let mut editor = Editor::new();
    view(&mut editor, "sample.bin", &bytes);
    assert_eq!(editor.active_view_mode(), Some(ViewMode::Text));
    assert_eq!(
        press_in_viewer(&mut editor, KeyCode::Char('h')),
        Some(Action::ToggleHexView)
    );
    assert_eq!(editor.active_view_mode(), Some(ViewMode::Hex));
}

#[test]
fn text_file_stays_text() {
    let mut editor = Editor::new();
    view(&mut editor, "plain.txt", b"readable text here");
    assert_eq!(editor.active_view_mode(), Some(ViewMode::Text));
    editor.default_to_hex_if_binary();
    assert_eq!(editor.active_view_mode(), Some(ViewMode::Text));
}

#[test]
fn hex_view_toggles_back_to_text_in_model() {
    let mut editor = Editor::new();
    view(&mut editor, "plain.txt", b"readable text here");
    press_in_viewer(&mut editor, KeyCode::Char('h'));
    assert_eq!(editor.active_view_mode(), Some(ViewMode::Hex));
    press_in_viewer(&mut editor, KeyCode::Char('H'));
    assert_eq!(editor.active_view_mode(), Some(ViewMode::Text));
}

#[test]
fn default_to_hex_is_idempotent() {
    let mut editor = Editor::new();
    editor.window.open_file(binary_file("blob.bin"), false);
    editor.default_to_hex_if_binary();
    assert_eq!(editor.active_view_mode(), Some(ViewMode::Hex));
    editor.default_to_hex_if_binary();
    assert_eq!(editor.active_view_mode(), Some(ViewMode::Hex));
}

#[test]
fn default_to_hex_without_buffers_does_nothing() {
    let mut editor = Editor::new();
    editor.default_to_hex_if_binary();
    assert!(editor.window.tabs.is_empty());
    assert_eq!(editor.active_view_mode(), None);
}

#[test]
fn normally_opened_tabs_are_never_retired() {
    let mut editor = Editor::new();
    let normal = editor.window.open_file(file("notes.txt", b"notes"), false);
    view(&mut editor, "alpha.txt", b"alpha");
    view(&mut editor, "beta.txt", b"beta");
    assert!(tab(&editor, normal).is_some());
    assert!(!tab(&editor, normal).unwrap().read_only);
    assert_eq!(tab_bar(&editor), "notes.txt | beta.txt");
}

#[test]
fn unlocked_glance_is_adopted_not_closed() {
    let mut editor = Editor::new();
    let alpha = view(&mut editor, "alpha.txt", b"alpha");
    editor.window.mark_buffer_read_only(alpha, false);
    let beta = view(&mut editor, "beta.txt", b"beta");
    assert!(tab(&editor, alpha).is_some());
    assert!(!editor.window.viewer_buffers.contains(&alpha));
    assert!(editor.window.viewer_buffers.contains(&beta));
    // A later glance never reconsiders it.
    view(&mut editor, "gamma.txt", b"gamma");
    assert!(tab(&editor, alpha).is_some());
    assert!(tab(&editor, beta).is_none());
}

#[test]
fn modified_glance_is_adopted_not_closed() {
    let mut editor = Editor::new();
    let alpha = view(&mut editor, "alpha.txt", b"alpha");
    let i = editor.window.index_of(alpha).unwrap();
    editor.window.tabs[i].modified = true;
    view(&mut editor, "beta.txt", b"beta");
    assert!(tab(&editor, alpha).is_some());
    assert!(!editor.window.viewer_buffers.contains(&alpha));
}

#[test]
fn retire_keeps_only_the_kept_buffer_tracked() {
    let mut editor = Editor::new();
    let a = editor.window.open_file(file("a.txt", b"a"), false);
    let b = editor.window.open_file(file("b.txt", b"b"), false);
    let c = editor.window.open_file(file("c.txt", b"c"), false);
    for id in [a, b, c] {
        editor.window.viewer_buffers.insert(id);
    }
    editor.window.mark_buffer_read_only(a, true);
    editor.window.mark_buffer_read_only(c, true);
    editor.retire_previous_viewer_buffers(c);
    assert!(tab(&editor, a).is_none());
    assert!(tab(&editor, b).is_some());
    assert!(tab(&editor, c).is_some());
    assert_eq!(editor.window.viewer_buffers.len(), 1);
    assert!(editor.window.viewer_buffers.contains(&c));
    assert_eq!(editor.active_buffer(), Some(c));
}

#[test]
fn retiring_the_active_glance_activates_the_last_tab() {
    let mut editor = Editor::new();
    let a = editor.window.open_file(file("a.txt", b"a"), false);
    let b = editor.window.open_file(file("b.txt", b"b"), false);
    editor.window.viewer_buffers.insert(b);
    editor.window.mark_buffer_read_only(b, true);
    editor.retire_previous_viewer_buffers(a);
    assert!(tab(&editor, b).is_none());
    assert_eq!(editor.active_buffer(), Some(a));
    assert!(editor.window.viewer_buffers.is_empty());
}

#[test]
fn retire_forgets_viewer_buffers_closed_elsewhere() {
    let mut editor = Editor::new();
    let a = view(&mut editor, "alpha.txt", b"alpha");
    let other = editor.window.open_file(file("notes.txt", b"notes"), false);
    editor.window.mark_buffer_read_only(a, false);
    assert_eq!(editor.window.close_buffer(a), Ok(()));
    editor.retire_previous_viewer_buffers(other);
    assert!(editor.window.viewer_buffers.is_empty());
    assert_eq!(editor.window.tabs.len(), 1);
}

#[test]
fn reviewing_the_same_file_reuses_its_tab() {
    let mut editor = Editor::new();
    let first = view(&mut editor, "alpha.txt", b"alpha");
    let second = view(&mut editor, "alpha.txt", b"alpha");
    assert_eq!(first, second);
    assert_eq!(tab_bar(&editor), "alpha.txt");
    assert!(editor.active_buffer_is_viewer());
}

#[test]
fn active_buffer_is_viewer_only_for_viewer_tabs() {
    let mut editor = Editor::new();
    assert!(!editor.active_buffer_is_viewer());
    editor.window.open_file(file("notes.txt", b"notes"), false);
    assert!(!editor.active_buffer_is_viewer());
    view(&mut editor, "alpha.txt", b"alpha");
    assert!(editor.active_buffer_is_viewer());
    editor.window.open_file(file("notes.txt", b"notes"), false);
    assert!(!editor.active_buffer_is_viewer());
}

#[test]
fn failed_read_is_handed_back_after_registration() {
    let mut editor = Editor::new();
    let r = editor.open_file_in_viewer::<String>(Err("no such file".to_string()));
    assert_eq!(r, Err("no such file".to_string()));
    assert!(editor.window.tabs.is_empty());
    assert!(editor.status_message.is_none());
    assert!(editor.mode_registry.get(VIEWER_MODE).is_some());
}

#[test]
fn viewer_mode_bindings_are_installed() {
    let mut editor = Editor::new();
    editor.ensure_viewer_mode_registered();
    let ctx = KeyContext::Mode(VIEWER_MODE.to_string());
    let kb = &editor.keybindings;
    assert_eq!(
        kb.plugin_default(&ctx, KeyCode::Char('h'), KeyModifiers::none()),
        Some(Action::ToggleHexView)
    );
    assert_eq!(
        kb.plugin_default(&ctx, KeyCode::Char('H'), KeyModifiers::none()),
        Some(Action::ToggleHexView)
    );
    assert_eq!(
        kb.plugin_default(&ctx, KeyCode::Esc, KeyModifiers::none()),
        Some(Action::FocusFileExplorer)
    );
    assert_eq!(
        kb.plugin_default(&KeyContext::Normal, KeyCode::Char('h'), KeyModifiers::none()),
        None
    );
    assert!(kb.inherits_normal_bindings(VIEWER_MODE));
    let mode = editor.mode_registry.get(VIEWER_MODE).unwrap();
    assert!(mode.read_only);
    assert!(mode.inherit_normal_bindings);
}

#[test]
fn viewer_mode_registration_is_idempotent() {
    let mut editor = Editor::new();
    editor.ensure_viewer_mode_registered();
    editor.ensure_viewer_mode_registered();
    assert_eq!(editor.keybindings.plugin_defaults.len(), 3);
    assert_eq!(editor.keybindings.inheriting_modes.len(), 1);
    assert_eq!(editor.mode_registry.modes.len(), 1);
}

#[test]
fn registration_replaces_stale_viewer_bindings_only() {
    let mut editor = Editor::new();
    editor.keybindings.load_plugin_default(
        KeyContext::Mode(VIEWER_MODE.to_string()),
        KeyCode::Char('q'),
        KeyModifiers::none(),
        Action::ToggleReadOnly,
    );
    editor.keybindings.load_plugin_default(
        KeyContext::Mode("help".to_string()),
        KeyCode::Esc,
        KeyModifiers::none(),
        Action::FocusFileExplorer,
    );
    editor.ensure_viewer_mode_registered();
    let viewer = KeyContext::Mode(VIEWER_MODE.to_string());
    let help = KeyContext::Mode("help".to_string());
    assert_eq!(
        editor
            .keybindings
            .plugin_default(&viewer, KeyCode::Char('q'), KeyModifiers::none()),
        None
    );
    assert_eq!(
        editor
            .keybindings
            .plugin_default(&help, KeyCode::Esc, KeyModifiers::none()),
        Some(Action::FocusFileExplorer)
    );
    assert_eq!(editor.keybindings.plugin_defaults.len(), 4);
}

#[test]
fn load_plugin_default_replaces_in_place() {
    let mut editor = Editor::new();
    let ctx = || KeyContext::Mode("m".to_string());
    editor
        .keybindings
        .load_plugin_default(ctx(), KeyCode::Enter, KeyModifiers::none(), Action::ToggleHexView);
    editor.keybindings.load_plugin_default(
        ctx(),
        KeyCode::Enter,
        KeyModifiers::none(),
        Action::ToggleReadOnly,
    );
    assert_eq!(editor.keybindings.plugin_defaults.len(), 1);
    assert_eq!(
        editor
            .keybindings
            .plugin_default(&ctx(), KeyCode::Enter, KeyModifiers::none()),
        Some(Action::ToggleReadOnly)
    );
    assert_eq!(
        editor
            .keybindings
            .plugin_default(&ctx(), KeyCode::Enter, KeyModifiers { bits: 2 }),
        None
    );
}

#[test]
fn inheritance_can_be_switched_off() {
    let mut editor = Editor::new();
    editor
        .keybindings
        .set_mode_inherits_normal_bindings("m", true);
    editor
        .keybindings
        .set_mode_inherits_normal_bindings("m", true);
    assert!(editor.keybindings.inherits_normal_bindings("m"));
    assert_eq!(editor.keybindings.inheriting_modes.len(), 1);
    editor
        .keybindings
        .set_mode_inherits_normal_bindings("m", false);
    assert!(!editor.keybindings.inherits_normal_bindings("m"));
}

#[test]
fn close_buffer_refuses_missing_and_modified() {
    let mut editor = Editor::new();
    assert_eq!(editor.window.close_buffer(7), Err(CloseError::NotFound));
    let a = editor.window.open_file(file("a.txt", b"a"), false);
    let i = editor.window.index_of(a).unwrap();
    editor.window.tabs[i].modified = true;
    assert_eq!(editor.window.close_buffer(a), Err(CloseError::Modified));
    assert_eq!(editor.window.tabs.len(), 1);
    editor.window.tabs[i].modified = false;
    assert_eq!(editor.window.close_buffer(a), Ok(()));
    assert!(editor.window.tabs.is_empty());
    assert_eq!(editor.active_buffer(), None);
}

#[test]
fn mode_registry_replaces_by_name() {
    let mut editor = Editor::new();
    editor
        .mode_registry
        .register(fresh_editor::BufferMode::new("viewer"));
    editor.ensure_viewer_mode_registered();
    assert_eq!(editor.mode_registry.modes.len(), 1);
    assert!(editor.mode_registry.get("viewer").unwrap().read_only);
    assert!(editor.mode_registry.get("other").is_none());
}

#[test]
fn viewer_keys_fall_back_on_normal_bindings() {
    let mut editor = Editor::new();
    editor.keybindings.load_plugin_default(
        KeyContext::Normal,
        KeyCode::Char('h'),
        KeyModifiers::none(),
        Action::ToggleReadOnly,
    );
    editor.keybindings.load_plugin_default(
        KeyContext::Normal,
        KeyCode::Down,
        KeyModifiers::none(),
        Action::FocusFileExplorer,
    );
    view(&mut editor, "alpha.txt", b"alpha");
    let ctx = KeyContext::Mode(VIEWER_MODE.to_string());
    let kb = &editor.keybindings;
    assert_eq!(
        kb.resolve(&ctx, KeyCode::Down, KeyModifiers::none()),
        Some(Action::FocusFileExplorer)
    );
    assert_eq!(
        kb.resolve(&ctx, KeyCode::Char('h'), KeyModifiers::none()),
        Some(Action::ToggleHexView)
    );
    assert_eq!(kb.resolve(&ctx, KeyCode::Up, KeyModifiers::none()), None);
    let other = KeyContext::Mode("other".to_string());
    assert_eq!(kb.resolve(&other, KeyCode::Down, KeyModifiers::none()), None);
}

#[test]
fn esc_in_viewer_returns_to_the_listing() {
    let mut editor = Editor::new();
    view(&mut editor, "alpha.txt", b"alpha");
    assert_eq!(editor.window.focus, Focus::Editor);
    assert_eq!(
        press_in_viewer(&mut editor, KeyCode::Esc),
        Some(Action::FocusFileExplorer)
    );
    assert_eq!(editor.window.focus, Focus::FileExplorer);
}

#[test]
fn display_name_is_the_final_path_component() {
    let cases = [
        "/usr/bin/",
        "tmp/foo.txt",
        "foo.txt/.",
        "foo.txt/.//",
        "foo.txt/..",
        "/",
        "",
        ".",
        "./",
        "..",
        "a/./b",
        "./a",
        "/project/alpha.txt",
        "//x//",
        "a/b/..c",
        "\u{e9}t\u{e9}/r\u{e9}sum\u{e9}.txt",
    ];
    for path in cases {
        let expected = std::path::Path::new(path)
            .file_name()
            .map(|n| n.to_string_lossy().into_owned())
            .unwrap_or_default();
        assert_eq!(display_name_of(path), expected, "path {path:?}");
    }
}

#[test]
fn status_message_names_the_files_final_component() {
    let mut editor = Editor::new();
    let r: Result<(), String> = editor.open_file_in_viewer(Ok(LoadedFile {
        path: "/project/docs/".to_string(),
        binary: false,
    }));
    assert!(r.is_ok());
    match &editor.status_message {
        Some(StatusMessage::ViewerOpened { name }) => assert_eq!(name, "docs"),
        None => panic!("no status message"),
    }
    let r: Result<(), String> =
        editor.open_file_in_viewer(Ok(LoadedFile { path: "/".to_string(), binary: false }));
    assert!(r.is_ok());
    match &editor.status_message {
        Some(StatusMessage::ViewerOpened { name }) => assert_eq!(name, ""),
        None => panic!("no status message"),
    }
}

#[test]
fn viewing_the_same_file_again_changes_nothing() {
    let mut editor = Editor::new();
    editor.window.open_file(file("notes.txt", b"notes"), false);
    let a = view(&mut editor, "alpha.txt", b"alpha");
    let tabs = tab_bar(&editor);
    let next = editor.window.next_buffer_id;
    let b = view(&mut editor, "alpha.txt", b"alpha");
    assert_eq!(a, b);
    assert_eq!(tab_bar(&editor), tabs);
    assert_eq!(editor.window.next_buffer_id, next);
    assert_eq!(editor.active_buffer(), Some(a));
    assert_eq!(editor.window.viewer_buffers.len(), 1);
    assert!(editor.window.viewer_buffers.contains(&a));
    assert_eq!(editor.keybindings.plugin_defaults.len(), 3);
}

#[test]
fn function_and_paging_keys_fall_back_in_the_viewer() {
    let mut editor = Editor::new();
    for key in [KeyCode::PageDown, KeyCode::Home, KeyCode::F(3)] {
        editor.keybindings.load_plugin_default(
            KeyContext::Normal,
            key,
            KeyModifiers::none(),
            Action::FocusFileExplorer,
        );
    }
    editor.ensure_viewer_mode_registered();
    let ctx = KeyContext::Mode(VIEWER_MODE.to_string());
    for key in [KeyCode::PageDown, KeyCode::Home, KeyCode::F(3)] {
        assert_eq!(
            editor.keybindings.resolve(&ctx, key, KeyModifiers::none()),
            Some(Action::FocusFileExplorer)
        );
    }
    assert_eq!(
        editor.keybindings.resolve(&ctx, KeyCode::End, KeyModifiers::none()),
        None
    );
}
