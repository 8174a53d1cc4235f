use cosmic_clip_keep::clip::wayland::typist::{
    is_terminal, keystroke, moment_of, paste_shortcut, terminal_shortcut, PasteShortcut,
    CONTROL, INSERT_KEY, KEYMAP, PASTE_KEY, SHIFT,
};

#[test]
fn common_reverse_dns_ids_are_recognised() {
    for id in [
        "org.kde.konsole",
        "com.system76.CosmicTerm",
        "org.gnome.Console",
        "org.gnome.Terminal",
        "app.devsuite.Ptyxis",
        "com.mitchellh.ghostty",
        "com.raggesilver.BlackBox",
        "com.gexperts.Tilix",
        "io.elementary.terminal",
        "net.launchpad.terminator",
        "org.contourterminal.Contour",
        "org.deepin.terminal",
        "org.qterminal.qterminal",
        "org.wezfurlong.wezterm",
    ] {
        assert!(is_terminal(id), "{id} should be recognised as a terminal");
    }
}

#[test]
fn common_bare_ids_are_recognised() {
    for id in [
        "alacritty",
        "boxi",
        "foot",
        "footclient",
        "Kitty",
        "st",
        "uxterm",
        "warp",
        "xfce4-terminal",
    ] {
        assert!(is_terminal(id), "{id} should be recognised as a terminal");
    }
}

#[test]
fn desktop_process_and_development_variants_are_normalised() {
    assert!(is_terminal("com.system76.CosmicTerm.desktop"));
    assert!(is_terminal("gnome-terminal-server"));
    assert!(is_terminal("org.gnome.Terminal.Server"));
    assert!(is_terminal("org.wezfurlong.wezterm-gui"));
    assert!(is_terminal("org.gnome.Ptyxis.Devel"));
    assert!(is_terminal("org.gnome.Ptyxis.Nightly.desktop"));
    assert!(is_terminal("dev.boxi.Boxi.fedora"));
}

#[test]
fn paste_shortcut_follows_the_terminal_family() {
    assert_eq!(paste_shortcut(None), PasteShortcut::ControlV);
    assert_eq!(paste_shortcut(Some("firefox")), PasteShortcut::ControlV);
    assert_eq!(
        paste_shortcut(Some("com.gexperts.Tilix")),
        PasteShortcut::ControlShiftV
    );
    assert_eq!(
        paste_shortcut(Some("xfce4-terminal")),
        PasteShortcut::ControlShiftV
    );
    assert_eq!(
        paste_shortcut(Some("dev.boxi.Boxi.fedora")),
        PasteShortcut::ControlShiftV
    );
    assert_eq!(paste_shortcut(Some("XTerm")), PasteShortcut::ShiftInsert);
    assert_eq!(paste_shortcut(Some("UXTerm")), PasteShortcut::ShiftInsert);
}

#[test]
fn an_explicit_terminal_suffix_is_recognised() {
    assert!(is_terminal("org.example.acme-terminal"));
    assert!(is_terminal("vendor_custom_terminal"));
}

#[test]
fn an_ordinary_application_is_left_alone() {
    for id in [
        "",
        "   ",
        "firefox",
        "org.mozilla.firefox",
        "code",
        "com.system76.CosmicFiles",
        "org.gnome.Builder",
        "com.jetbrains.IntelliJ-IDEA",
        "org.example.Determination",
        "org.example.LongTerm",
        "org.example.Terminalizer",
    ] {
        assert!(!is_terminal(id), "{id} should not be treated as a terminal");
    }
}

#[test]
fn an_id_made_only_of_build_names_is_no_terminal() {
    assert_eq!(terminal_shortcut("nightly.dev"), None);
    assert_eq!(terminal_shortcut("org.example.Beta"), None);
}

#[test]
fn process_suffixes_are_stripped_one_after_another() {
    assert_eq!(
        terminal_shortcut("xterm-gui-server"),
        Some(PasteShortcut::ShiftInsert)
    );
    assert_eq!(terminal_shortcut("  KONSOLE_gui.desktop "), Some(PasteShortcut::ControlShiftV));
}

#[test]
fn each_shortcut_presses_its_own_keys() {
    assert_eq!(keystroke(PasteShortcut::ControlV), (PASTE_KEY, CONTROL));
    assert_eq!(keystroke(PasteShortcut::ControlShiftV), (47, 5));
    assert_eq!(keystroke(PasteShortcut::ShiftInsert), (INSERT_KEY, SHIFT));
}

#[test]
fn key_times_are_whole_milliseconds_wrapped_into_u32() {
    assert_eq!(moment_of(1, 2_500_000), 1002);
    assert_eq!(moment_of(0, 999_999), 0);
    assert_eq!(moment_of(4_294_967, 295_000_000), 0);
    assert_eq!(moment_of(4_294_967, 296_000_000), 1);
}

#[test]
fn the_keymap_names_the_keys_the_paste_needs() {
    assert!(KEYMAP.contains("<AB05>"), "the v key must be defined");
    assert!(KEYMAP.contains("<INS>"), "the Insert key must be defined");
    assert!(KEYMAP.contains("modifier_map Control"));
    assert!(KEYMAP.contains("modifier_map Shift"));
}
