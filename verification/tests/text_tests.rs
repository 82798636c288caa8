use mechaflt::cli::{shell_action, Cli, Commands, ShellAction};
use mechaflt::text::{matches_at, replace_all, split_lines, starts_with_hash, trim_line};

#[test]
fn replace_all_replaces_every_occurrence() {
    assert_eq!(replace_all("a _t b _t", "_t", "x"), "a x b x");
    assert_eq!(replace_all("no token here", "_t", "x"), "no token here");
    assert_eq!(replace_all("", "_t", "x"), "");
}

#[test]
fn replace_all_scans_left_to_right_without_rescanning() {
    // the leftmost pair wins; the replacement output is not rescanned
    assert_eq!(replace_all("aaa", "aa", "b"), "ba");
    assert_eq!(replace_all("abab", "aba", "x"), "xb");
}

#[test]
fn replace_all_grows_and_shrinks_lines() {
    assert_eq!(replace_all("cp _i /mnt", "_i", "a-long-name.img"), "cp a-long-name.img /mnt");
    assert_eq!(replace_all("cp _image /mnt", "_image", ""), "cp  /mnt");
}

#[test]
fn matches_at_finds_the_token_position() {
    assert!(matches_at("boot -f _flash.bin", "_flash.bin", 8));
    assert!(!matches_at("boot -f _flash.bin", "boot", 1));
    assert!(matches_at("aa", "aa", 0));
}

#[test]
fn trim_line_drops_leading_and_trailing_blanks() {
    assert_eq!(trim_line("   FB: go   "), "FB: go");
    assert_eq!(trim_line("\t x \r"), "x");
    assert_eq!(trim_line("bare"), "bare");
    assert_eq!(trim_line("    "), "");
    assert_eq!(trim_line(""), "");
}

#[test]
fn split_lines_matches_physical_lines() {
    let v = split_lines("one\ntwo\r\nthree");
    assert_eq!(v, vec!["one".to_string(), "two".to_string(), "three".to_string()]);
    let v = split_lines("tail\n");
    assert_eq!(v, vec!["tail".to_string()]);
    let v = split_lines("\n\n");
    assert_eq!(v, vec!["".to_string(), "".to_string()]);
}

#[test]
fn starts_with_hash_detects_comments() {
    assert!(starts_with_hash("# comment"));
    assert!(starts_with_hash("#"));
    assert!(!starts_with_hash(" # not first"));
    assert!(!starts_with_hash(""));
}

#[test]
fn shell_action_decides_quit_skip_run() {
    assert!(matches!(shell_action("exit"), ShellAction::Quit));
    assert!(matches!(shell_action("quit"), ShellAction::Quit));
    assert!(matches!(shell_action(""), ShellAction::Skip));
    assert!(matches!(shell_action("FB: ucmd sync"), ShellAction::Run));
    assert!(matches!(shell_action("exit "), ShellAction::Run));
}

#[test]
fn cli_commands_carry_their_arguments() {
    let cli = Cli { command: Commands::Flash { image: "rootfs.tar.gz".to_string() } };
    match cli.command {
        Commands::Flash { image } => assert_eq!(image, "rootfs.tar.gz"),
        _ => panic!("wrong subcommand"),
    }
    let cli = Cli { command: Commands::Script { script: "flash.auto".to_string() } };
    assert!(matches!(cli.command, Commands::Script { .. }));
    assert!(matches!(Cli { command: Commands::Devices }.command, Commands::Devices));
    assert!(matches!(Cli { command: Commands::Shell }.command, Commands::Shell));
}
