use cosmic_clip_keep::control::TOGGLE;
use cosmic_clip_keep::shortcut::{command, launches, registration, Outcome, APP_ID, COMBINATION};

#[test]
fn a_manual_shortcut_for_our_command_is_recognised() {
    let command = "flatpak run io.github.example.ClipKeep --toggle";
    assert!(launches(&[command.to_owned()], command));
    assert!(launches(&[format!("  {command}\n")], command));
}

#[test]
fn another_spawn_action_does_not_count_as_ours() {
    assert!(!launches(
        &["something-else --toggle".to_owned()],
        "clip-keep --toggle"
    ));
    assert!(!launches(&[], "clip-keep --toggle"));
}

#[test]
fn an_existing_shortcut_wins_and_a_taken_combination_is_left_alone() {
    assert_eq!(registration(true, true), Outcome::Present);
    assert_eq!(registration(false, true), Outcome::Taken);
    assert_eq!(registration(false, false), Outcome::Added);
    assert_eq!(COMBINATION, "Super+v");
}

#[test]
fn the_command_carries_the_toggle_flag() {
    assert!(command(false, Some("/usr/bin/cosmic-ext-applet-clip-keep")).ends_with(TOGGLE));
    assert!(command(true, None).ends_with(TOGGLE));
    assert!(command(false, None).ends_with(TOGGLE));
}

#[test]
fn the_command_names_the_program_it_can_find() {
    assert_eq!(
        command(false, Some("/opt/clip/bin/clip-keep")),
        "/opt/clip/bin/clip-keep --toggle"
    );
    assert_eq!(
        command(false, Some("target/debug/clip-keep")),
        "cosmic-ext-applet-clip-keep --toggle"
    );
    assert_eq!(command(false, None), "cosmic-ext-applet-clip-keep --toggle");
    assert_eq!(command(true, Some("/app/bin/clip-keep")), format!("flatpak run {APP_ID} --toggle"));
}
