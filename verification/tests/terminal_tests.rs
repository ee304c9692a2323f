use icy_draw::cli::{Cli, Commands};
use icy_draw::terminal::{
    frame_output, play_kind, playback_options, select_frame, PlayKind, Terminal,
};

#[test]
fn dcs_is_used_by_the_two_known_terminals() {
    assert!(Terminal::IcyTerm.use_dcs());
    assert!(Terminal::SyncTerm.use_dcs());
    assert!(!Terminal::Unknown.use_dcs());
    assert!(!Terminal::Name("xterm".to_string()).use_dcs());
}

#[test]
fn terminal_is_detected_by_its_signature() {
    assert_eq!(Terminal::detect("\x1b[=73;99;121;84;101;114;109;1;0c"), Terminal::IcyTerm);
    assert_eq!(Terminal::detect("\x1b[=67;84;101;114;109;1;316c"), Terminal::SyncTerm);
    assert_eq!(
        Terminal::detect("67;84;101;114 and 73;99;121;84;101;114;109"),
        Terminal::IcyTerm
    );
    assert_eq!(Terminal::detect("\x1b[?1;2c"), Terminal::Name("\x1b[?1;2c".to_string()));
    assert_eq!(Terminal::detect(""), Terminal::Name(String::new()));
    assert_eq!(Terminal::detect("67;84;101;11"), Terminal::Name("67;84;101;11".to_string()));
}

#[test]
fn frames_are_bracketed_for_terminals_that_use_dcs() {
    let doc = b"AB".to_vec();
    assert_eq!(
        frame_output(&doc, false, &Terminal::IcyTerm),
        b"\x1BP0;1;0!z\x1b[0mAB\x1b\\\x1b[0*z\n\r".to_vec()
    );
    assert_eq!(frame_output(&doc, true, &Terminal::IcyTerm), b"\x1b[0mAB\n\r".to_vec());
    assert_eq!(frame_output(&doc, false, &Terminal::Unknown), b"\x1b[0mAB\n\r".to_vec());
    assert_eq!(frame_output(&[], true, &Terminal::SyncTerm), b"\x1b[0m\n\r".to_vec());
}

#[test]
fn animation_files_are_known_by_extension() {
    assert_eq!(play_kind("icyanim"), PlayKind::Animation);
    assert_eq!(play_kind("IcyAnim"), PlayKind::Animation);
    assert_eq!(play_kind("ans"), PlayKind::Document);
    assert_eq!(play_kind("icyanimx"), PlayKind::Document);
    assert_eq!(play_kind(""), PlayKind::Document);
}

#[test]
fn playback_options_follow_the_utf8_switch() {
    let o = playback_options(true);
    assert!(o.modern_terminal_output && o.filter_control_chars && o.longer_terminal_output);
    assert!(!o.compress);
    assert!(!playback_options(false).modern_terminal_output);
}

#[test]
fn frames_are_selected_by_index() {
    assert_eq!(select_frame(0, 3), Some(0));
    assert_eq!(select_frame(2, 3), Some(2));
    assert_eq!(select_frame(3, 3), None);
    assert_eq!(select_frame(0, 0), None);
}

#[test]
fn cli_address_and_default_command() {
    let mut cli = Cli { utf8: false, path: None, port: Some("4567".to_string()), command: None };
    assert_eq!(cli.address(), Some("127.0.0.1:4567".to_string()));
    assert_eq!(cli.command_or_default(), Commands::Play);
    cli.port = None;
    cli.command = Some(Commands::ShowFrame { frame: 3 });
    assert_eq!(cli.address(), None);
    assert_eq!(cli.command_or_default(), Commands::ShowFrame { frame: 3 });
}
