use mechaflt::executor::{ensure_device_present, CallbackDriver, DeviceDriver, RecordingDriver};
use mechaflt::script::Script;
use std::cell::RefCell;

#[test]
fn run_dispatches_non_noops_in_order() {
    let s = Script::new("# header\nSDP: one\n# note\nFB: two\nFBK: three");
    let mut d = RecordingDriver::new(None);
    let r = s.run(&mut d);
    assert!(r.is_ok());
    assert_eq!(d.command_count(), 3);
    assert_eq!(d.command_at(0), "SDP: one");
    assert_eq!(d.command_at(1), "FB: two");
    assert_eq!(d.command_at(2), "FBK: three");
}

#[test]
fn run_of_all_comments_contacts_driver_never() {
    let s = Script::new("# one\n# two\n# three");
    let mut d = RecordingDriver::new(None);
    let r = s.run(&mut d);
    assert!(r.is_ok());
    assert_eq!(d.command_count(), 0);
}

#[test]
fn run_of_empty_script_succeeds() {
    let s = Script::new("");
    let mut d = RecordingDriver::new(None);
    assert!(s.run(&mut d).is_ok());
    assert_eq!(d.command_count(), 0);
}

#[test]
fn run_fails_fast_on_second_of_three() {
    let s = Script::new("FB: first\nFB: second\nFB: third");
    let mut d = RecordingDriver::new(Some(1));
    let r = s.run(&mut d);
    let e = match r {
        Ok(()) => panic!("the failing command must fail the run"),
        Err(e) => e,
    };
    // exactly two invocations: the third command is never attempted
    assert_eq!(d.command_count(), 2);
    assert_eq!(e.command, "FB: second");
    assert_eq!(e.description, "device reported failure");
}

#[test]
fn run_fail_fast_skips_noops_in_the_count() {
    // the failing dispatch is the second, although it is the fourth line
    let s = Script::new("# c\nFB: a\n# c\nFB: b\nFB: never");
    let mut d = RecordingDriver::new(Some(1));
    let r = s.run(&mut d);
    assert!(r.is_err());
    assert_eq!(d.command_count(), 2);
    assert_eq!(d.command_at(1), "FB: b");
}

#[test]
fn failure_on_first_command_dispatches_once() {
    let s = Script::new("FB: only\nFB: more");
    let mut d = RecordingDriver::new(Some(0));
    let r = s.run(&mut d);
    assert!(r.is_err());
    assert_eq!(d.command_count(), 1);
}

#[test]
fn scenario_template_substitute_then_run() {
    let s = Script::new("#header\nSDP: boot -f _flash.bin\nFBK: ucp _image t:- /mnt");
    let s = s.with_image("firmware.img").with_bootloader("flash.bin");
    let mut d = RecordingDriver::new(None);
    let r = s.run(&mut d);
    assert!(r.is_ok());
    assert_eq!(d.command_count(), 2);
    assert_eq!(d.command_at(0), "SDP: boot -f flash.bin");
    assert_eq!(d.command_at(1), "FBK: ucp firmware.img t:- /mnt");
}

#[test]
fn scenario_missing_file_means_no_device_contact() {
    let r = mechaflt::script::load_script("gone.auto", None);
    assert!(r.is_err());
    // no script was produced, so nothing can be dispatched
    let d = RecordingDriver::new(None);
    assert_eq!(d.command_count(), 0);
}

#[test]
fn device_must_be_present_before_execution() {
    assert!(ensure_device_present(0).is_err());
    assert!(ensure_device_present(1).is_ok());
    assert!(ensure_device_present(7).is_ok());
}

#[test]
fn callback_driver_hands_each_command_to_the_callback() {
    let seen: RefCell<Vec<String>> = RefCell::new(Vec::new());
    let s = Script::new("FB: a\n# skip\nFB: b");
    let mut d = CallbackDriver::new(|cmd: &str| {
        seen.borrow_mut().push(cmd.to_string());
        Ok(())
    });
    assert!(s.run(&mut d).is_ok());
    assert_eq!(*seen.borrow(), vec!["FB: a".to_string(), "FB: b".to_string()]);
}

#[test]
fn callback_driver_failure_aborts_the_run() {
    let s = Script::new("FB: a\nFB: b\nFB: c");
    let calls = RefCell::new(0usize);
    let mut d = CallbackDriver::new(|_cmd: &str| {
        let mut n = calls.borrow_mut();
        *n += 1;
        if *n == 2 {
            Err("transport failed".to_string())
        } else {
            Ok(())
        }
    });
    let e = s.run(&mut d).expect_err("second command fails the run");
    assert_eq!(*calls.borrow(), 2);
    assert_eq!(e.command, "FB: b");
    assert_eq!(e.description, "transport failed");
}

#[test]
fn recording_driver_reports_commands_through_the_trait() {
    let mut d = RecordingDriver::new(None);
    assert!(d.run_command("FB: hello").is_ok());
    assert_eq!(d.command_count(), 1);
    assert_eq!(d.command_at(0), "FB: hello");
}
