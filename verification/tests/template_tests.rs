use mechaflt::executor::RecordingDriver;
use mechaflt::script::Script;
use mechaflt::templates::{load_builtin, COMET_PROFILE, COMET_TEMPLATE};

#[test]
fn default_template_is_trimmed_per_line() {
    let s = Script::default();
    assert_eq!(s.commands.len(), 47);
    assert_eq!(s.commands[0], "SDP: boot -f _flash.bin -scanlimited 0x800000");
    assert_eq!(s.commands[1], "SDPV: delay 1000");
    assert_eq!(s.commands[46], "FBK: DONE");
    // indentation is layout only; no command keeps leading blanks
    for c in &s.commands {
        assert!(!c.starts_with(' '));
        assert!(!c.starts_with('\t'));
    }
}

#[test]
fn from_template_trims_before_the_comment_check() {
    let s = Script::from_template("   # indented comment\n   FB: real");
    assert_eq!(s.commands.len(), 2);
    assert_eq!(s.commands[0], "");
    assert_eq!(s.commands[1], "FB: real");
}

#[test]
fn builtin_registry_knows_its_profile() {
    let s = load_builtin(COMET_PROFILE).expect("registered profile loads");
    assert_eq!(s.commands.len(), 47);
    assert!(load_builtin("unknown-device").is_none());
    assert!(load_builtin("").is_none());
}

#[test]
fn default_flash_flow_substitutes_both_tokens() {
    let s = Script::default()
        .with_image("my-rootfs.tar.gz")
        .with_bootloader("flash.bin");
    assert_eq!(s.commands[0], "SDP: boot -f flash.bin -scanlimited 0x800000");
    let ucp: Vec<&String> = s
        .commands
        .iter()
        .filter(|c| c.starts_with("FBK: ucp"))
        .collect();
    assert_eq!(ucp.len(), 1);
    assert_eq!(ucp[0], "FBK: ucp my-rootfs.tar.gz t:- /mnt");
    for c in &s.commands {
        assert!(!c.contains("_image"));
        assert!(!c.contains("_flash.bin"));
    }
}

#[test]
fn default_flash_run_dispatches_every_line() {
    let s = Script::default()
        .with_image("rootfs.tar.gz")
        .with_bootloader("flash.bin");
    let mut d = RecordingDriver::new(None);
    assert!(s.run(&mut d).is_ok());
    // the built-in template has no comment lines, so every line is sent
    assert_eq!(d.command_count(), 47);
    assert_eq!(d.command_at(46), "FBK: DONE");
}

#[test]
fn template_text_mentions_both_placeholders() {
    assert!(COMET_TEMPLATE.contains("_image"));
    assert!(COMET_TEMPLATE.contains("_flash.bin"));
}
