use mechaflt::script::{load_script, Script};

#[test]
fn new_strips_comments_to_noops() {
    let s = Script::new("# a comment\nSDP: boot -f _flash.bin\n\nFBK: DONE");
    assert_eq!(s.commands.len(), 4);
    assert_eq!(s.commands[0], "");
    assert_eq!(s.commands[1], "SDP: boot -f _flash.bin");
    assert_eq!(s.commands[2], "");
    assert_eq!(s.commands[3], "FBK: DONE");
}

#[test]
fn new_keeps_lines_verbatim_without_trimming() {
    let s = Script::new("  indented: stays\nplain");
    assert_eq!(s.commands[0], "  indented: stays");
    assert_eq!(s.commands[1], "plain");
}

#[test]
fn new_handles_crlf_and_final_newline() {
    let s = Script::new("a\r\nb\n");
    assert_eq!(s.commands.len(), 2);
    assert_eq!(s.commands[0], "a");
    assert_eq!(s.commands[1], "b");
}

#[test]
fn new_keeps_lone_carriage_return() {
    let s = Script::new("a\rb");
    assert_eq!(s.commands.len(), 1);
    assert_eq!(s.commands[0], "a\rb");
}

#[test]
fn new_of_empty_text_is_empty() {
    let s = Script::new("");
    assert_eq!(s.commands.len(), 0);
}

#[test]
fn with_image_replaces_every_occurrence_in_a_line() {
    let s = Script::new("FBK: ucp _image t:- /mnt\necho _image and _image again");
    let s = s.with_image("rootfs.tar.gz");
    assert_eq!(s.commands[0], "FBK: ucp rootfs.tar.gz t:- /mnt");
    assert_eq!(s.commands[1], "echo rootfs.tar.gz and rootfs.tar.gz again");
}

#[test]
fn substitution_changes_no_length_or_order() {
    let s = Script::new("one _image\n# note\ntwo\nthree _image");
    let before: Vec<String> = s.commands.clone();
    let s = s.with_image("img");
    assert_eq!(s.commands.len(), before.len());
    // untouched lines are byte-identical
    assert_eq!(s.commands[1], before[1]);
    assert_eq!(s.commands[2], before[2]);
    assert_eq!(s.commands[0], "one img");
    assert_eq!(s.commands[3], "three img");
}

#[test]
fn substitution_completeness_counts() {
    // the token appears in exactly two lines
    let s = Script::new("a _image\nplain\nb _image _image");
    let s = s.with_image("firmware.img");
    let with_token = s.commands.iter().filter(|l| l.contains("_image")).count();
    let with_value = s
        .commands
        .iter()
        .filter(|l| l.contains("firmware.img"))
        .count();
    assert_eq!(with_token, 0);
    assert_eq!(with_value, 2);
}

#[test]
fn with_bootloader_replaces_its_own_token_only() {
    let s = Script::new("SDP: boot -f _flash.bin\nFBK: ucp _image t:- /mnt");
    let s = s.with_bootloader("flash.bin");
    assert_eq!(s.commands[0], "SDP: boot -f flash.bin");
    assert_eq!(s.commands[1], "FBK: ucp _image t:- /mnt");
}

#[test]
fn load_script_of_read_text_is_ok() {
    let r = load_script("flash.auto", Some("# hdr\ncmd: go"));
    let s = r.expect("text loads");
    assert_eq!(s.commands.len(), 2);
    assert_eq!(s.commands[0], "");
    assert_eq!(s.commands[1], "cmd: go");
}

#[test]
fn load_script_of_missing_file_is_error() {
    let r = load_script("no-such-file.auto", None);
    match r {
        Ok(_) => panic!("missing file must not load"),
        Err(e) => assert_eq!(e.path, "no-such-file.auto"),
    }
}

#[test]
fn script_len_and_line_at() {
    let s = Script::new("a\n# b\nc");
    assert_eq!(s.len(), 3);
    assert_eq!(s.line_at(0), "a");
    assert_eq!(s.line_at(1), "");
    assert_eq!(s.line_at(2), "c");
}
