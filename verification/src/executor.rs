//! The executor: walks a script's commands strictly in order, skips no-op
//! lines, dispatches every other line verbatim to the device driver, and
//! aborts the remainder of the sequence on the first failure.

use vstd::prelude::*;
use vstd::string::*;

use crate::script::{noop_stripped, script_of_text, Script};

verus! {

/// The lines of a script that are dispatched to the device driver: every
/// line that is not a no-op (not empty), in source order.
pub open spec fn dispatch_lines(s: Seq<Seq<char>>) -> Seq<Seq<char>>
    decreases s.len(),
{
    if s.len() == 0 {
        Seq::empty()
    } else if s[0].len() == 0 {
        dispatch_lines(s.drop_first())
    } else {
        seq![s[0]] + dispatch_lines(s.drop_first())
    }
}

/// Dispatching distributes over concatenation of scripts.
pub proof fn lemma_dispatch_append(a: Seq<Seq<char>>, b: Seq<Seq<char>>)
    ensures
        dispatch_lines(a + b) == dispatch_lines(a) + dispatch_lines(b),
    decreases a.len(),
{
    if a.len() == 0 {
        assert(a + b =~= b);
        assert(dispatch_lines(a) + dispatch_lines(b) =~= dispatch_lines(b));
    } else {
        assert((a + b).drop_first() =~= a.drop_first() + b);
        lemma_dispatch_append(a.drop_first(), b);
        assert((a + b)[0] == a[0]);
        if a[0].len() > 0 {
            assert(seq![a[0]] + (dispatch_lines(a.drop_first()) + dispatch_lines(b)) =~= (
            seq![a[0]] + dispatch_lines(a.drop_first())) + dispatch_lines(b));
        }
    }
}

/// Dispatching one line: a no-op vanishes, anything else is kept.
pub proof fn lemma_dispatch_singleton(x: Seq<char>)
    ensures
        x.len() == 0 ==> dispatch_lines(seq![x]) == Seq::<Seq<char>>::empty(),
        x.len() > 0 ==> dispatch_lines(seq![x]) == seq![x],
{
    let s = seq![x];
    assert(s.drop_first() =~= Seq::<Seq<char>>::empty());
    assert(dispatch_lines(Seq::<Seq<char>>::empty()) == Seq::<Seq<char>>::empty());
    if x.len() > 0 {
        assert(dispatch_lines(s) =~= seq![x]);
    }
}

/// A script whose every line is a no-op dispatches nothing at all.
pub proof fn lemma_noop_script_dispatches_nothing(s: Seq<Seq<char>>)
    requires
        forall|i: int| 0 <= i < s.len() ==> s[i].len() == 0,
    ensures
        dispatch_lines(s) == Seq::<Seq<char>>::empty(),
    decreases s.len(),
{
    if s.len() > 0 {
        lemma_noop_script_dispatches_nothing(s.drop_first());
    }
}

/// A text consisting solely of comment lines loads to a script that
/// dispatches nothing: together with `run`'s contract, such a script yields
/// zero driver invocations and overall success.
pub proof fn lemma_comment_only_text_dispatches_nothing(text: Seq<char>)
    requires
        forall|i: int|
            0 <= i < crate::text::lines_of(text).len() ==> (#[trigger] crate::text::lines_of(
                text,
            )[i]).len() > 0 && crate::text::lines_of(text)[i][0] == '#',
    ensures
        dispatch_lines(script_of_text(text)) == Seq::<Seq<char>>::empty(),
{
    let s = script_of_text(text);
    assert forall|i: int| 0 <= i < s.len() implies s[i].len() == 0 by {
        assert(s[i] == noop_stripped(crate::text::lines_of(text)[i]));
    }
    lemma_noop_script_dispatches_nothing(s);
}

/// Log entries for dispatched commands that all succeeded: each command
/// paired with the outcome `None`.
pub open spec fn ok_entries(cmds: Seq<Seq<char>>) -> Seq<(Seq<char>, Option<Seq<char>>)> {
    cmds.map_values(|c: Seq<char>| (c, None::<Seq<char>>))
}

/// The capability contract of the external device driver: it executes one
/// opaque command string against the currently attached device, returning
/// success or a descriptive failure. The ghost `log` records every submitted
/// command with its reported outcome, in order.
pub trait DeviceDriver: Sized {
    /// Every command ever submitted, in order, each with the outcome the
    /// driver reported for it (`None` for success, the description for a
    /// failure).
    spec fn log(&self) -> Seq<(Seq<char>, Option<Seq<char>>)>;

    /// Submits one command line for execution against the attached device.
    fn run_command(&mut self, cmd: &str) -> (r: Result<(), String>)
        ensures
            match r {
                Ok(()) => final (self).log() == old(self).log().push((cmd@, None::<Seq<char>>)),
                Err(e) => final (self).log() == old(self).log().push((cmd@, Some(e@))),
            },
    ;
}

/// The device driver reported failure for a specific command line during a
/// run; execution stopped at that point. Carries the failing line and the
/// driver's description.
#[derive(Debug)]
pub struct ExecutionError {
    pub command: String,
    pub description: String,
}

/// Device enumeration yielded zero candidates; no commands were sent.
#[derive(Debug)]
pub struct NoDeviceError {}

/// Decides whether execution may begin: at least one device must be visible.
pub fn ensure_device_present(device_count: usize) -> (r: Result<(), NoDeviceError>)
    ensures
        r is Ok <==> device_count > 0,
{
    if device_count > 0 {
        Ok(())
    } else {
        Err(NoDeviceError {  })
    }
}

impl Script {
    /// Runs the script against a device driver. Lines are dispatched
    /// strictly in source order; no-op lines are skipped without contacting
    /// the driver; the first failure terminates the run, and no further
    /// lines are dispatched. On success every non-no-op line was dispatched
    /// exactly once, in order, and none failed.
    pub fn run<D: DeviceDriver>(&self, driver: &mut D) -> (r: Result<(), ExecutionError>)
        ensures
            old(driver).log().is_prefix_of(final (driver).log()),
            ({
                let sent = final (driver).log().skip(old(driver).log().len() as int);
                let disp = dispatch_lines(self@);
                match r {
                    Ok(()) => sent == ok_entries(disp),
                    Err(e) => {
                        &&& 1 <= sent.len() <= disp.len()
                        &&& (forall|k: int|
                            0 <= k < sent.len() - 1 ==> sent[k] == (disp[k], None::<Seq<char>>))
                        &&& sent[sent.len() - 1] == (disp[sent.len() - 1], Some(e.description@))
                        &&& e.command@ == disp[sent.len() - 1]
                    },
                }
            }),
            dispatch_lines(self@).len() == 0 ==> r is Ok,
    {
        let n = self.commands.len();
        let mut i: usize = 0;
        proof {
            assert(self@.take(0) =~= Seq::<Seq<char>>::empty());
            assert(driver.log().skip(old(driver).log().len() as int) =~= ok_entries(
                dispatch_lines(self@.take(0)),
            ));
        }
        while i < n
            invariant
                n == self.commands.len(),
                i <= n,
                old(driver).log().is_prefix_of(driver.log()),
                driver.log().skip(old(driver).log().len() as int) == ok_entries(
                    dispatch_lines(self@.take(i as int)),
                ),
            decreases n - i,
        {
            let ghost pre_take = self@.take(i as int);
            let ghost line = self@[i as int];
            proof {
                assert(self@.take(i + 1) =~= pre_take + seq![line]);
                lemma_dispatch_append(pre_take, seq![line]);
                lemma_dispatch_singleton(line);
                assert(self.commands@[i as int]@ == line);
            }
            let cmd: &String = &self.commands[i];
            if cmd.as_str().is_empty() {
                proof {
                    assert(dispatch_lines(self@.take(i + 1)) =~= dispatch_lines(pre_take));
                }
            } else {
                proof {
                    assert(dispatch_lines(self@.take(i + 1)) =~= dispatch_lines(pre_take).push(
                        line,
                    ));
                    assert(self@ =~= self@.take(i + 1) + self@.skip(i + 1));
                    lemma_dispatch_append(self@.take(i + 1), self@.skip(i + 1));
                }
                let ghost pre_sent = ok_entries(dispatch_lines(pre_take));
                let ghost pre_log = driver.log();
                let ghost base = old(driver).log().len() as int;
                match driver.run_command(cmd.as_str()) {
                    Ok(()) => {
                        proof {
                            assert(driver.log() == pre_log.push((line, None::<Seq<char>>)));
                            assert(driver.log().skip(base) =~= pre_log.skip(base).push(
                                (line, None::<Seq<char>>),
                            ));
                            assert(ok_entries(dispatch_lines(self@.take(i + 1))) =~= pre_sent.push(
                                (line, None::<Seq<char>>),
                            ));
                        }
                    },
                    Err(description) => {
                        let err = ExecutionError { command: cmd.clone(), description };
                        proof {
                            let sent = driver.log().skip(old(driver).log().len() as int);
                            let disp = dispatch_lines(self@);
                            let dnow = dispatch_lines(self@.take(i + 1));
                            assert(sent =~= pre_sent.push((line, Some(err.description@))));
                            assert(sent.len() == dnow.len());
                            assert(forall|k: int| 0 <= k < dnow.len() ==> disp[k] == dnow[k]);
                            assert(dnow[dnow.len() - 1] == line);
                        }
                        return Err(err);
                    },
                }
            }
            i += 1;
        }
        proof {
            assert(self@.take(n as int) =~= self@);
        }
        Ok(())
    }
}

/// Bridges an unverified command callback (the native transport binding of
/// the surrounding program) into the driver interface. The ghost log records
/// what was submitted and what the callback reported.
pub struct CallbackDriver<F: FnMut(&str) -> Result<(), String>> {
    callback: F,
    history: Ghost<Seq<(Seq<char>, Option<Seq<char>>)>>,
}

impl<F: FnMut(&str) -> Result<(), String>> CallbackDriver<F> {
    /// A driver with an empty log that hands every command to `callback`.
    pub fn new(callback: F) -> (d: CallbackDriver<F>)
        ensures
            d.log() == Seq::<(Seq<char>, Option<Seq<char>>)>::empty(),
    {
        CallbackDriver { callback, history: Ghost(Seq::empty()) }
    }
}

/// Relies on the caller-supplied callback to carry one command to the
/// device; nothing is assumed of its outcome.
#[verifier::external_body]
fn invoke_callback<F: FnMut(&str) -> Result<(), String>>(callback: &mut F, cmd: &str) -> Result<
    (),
    String,
> {
    callback(cmd)
}

impl<F: FnMut(&str) -> Result<(), String>> DeviceDriver for CallbackDriver<F> {
    closed spec fn log(&self) -> Seq<(Seq<char>, Option<Seq<char>>)> {
        self.history@
    }

    fn run_command(&mut self, cmd: &str) -> (r: Result<(), String>) {
        let r = invoke_callback(&mut self.callback, cmd);
        let ghost entry = if r is Ok {
            (cmd@, None::<Seq<char>>)
        } else {
            (cmd@, Some(r->Err_0@))
        };
        self.history = Ghost(self.history@.push(entry));
        r
    }
}

/// A device driver double for tests and dry runs: records every command
/// submitted, in order, and can be programmed to report failure on one
/// chosen call.
pub struct RecordingDriver {
    entries: Vec<(String, Option<String>)>,
    fail_at: Option<usize>,
}

impl RecordingDriver {
    /// A fresh driver with an empty log; if `fail_at` is `Some(k)`, the
    /// `k`-th submitted command (counting from zero) is reported as failed,
    /// and every other one as succeeded.
    pub fn new(fail_at: Option<usize>) -> (d: RecordingDriver)
        ensures
            d.log() == Seq::<(Seq<char>, Option<Seq<char>>)>::empty(),
    {
        let d = RecordingDriver { entries: Vec::new(), fail_at };
        proof {
            assert(d.log() =~= Seq::<(Seq<char>, Option<Seq<char>>)>::empty());
        }
        d
    }

    /// How many commands have been submitted so far.
    pub fn command_count(&self) -> (n: usize)
        ensures
            n == self.log().len(),
    {
        self.entries.len()
    }

    /// The `i`-th submitted command.
    pub fn command_at(&self, i: usize) -> (c: &String)
        requires
            i < self.log().len(),
        ensures
            c@ == self.log()[i as int].0,
    {
        &self.entries[i].0
    }
}

impl DeviceDriver for RecordingDriver {
    closed spec fn log(&self) -> Seq<(Seq<char>, Option<Seq<char>>)> {
        self.entries.deep_view()
    }

    fn run_command(&mut self, cmd: &str) -> (r: Result<(), String>) {
        let fail = match self.fail_at {
            Some(k) => k == self.entries.len(),
            None => false,
        };
        if fail {
            let desc = String::from_str("device reported failure");
            self.entries.push((String::from_str(cmd), Some(desc.clone())));
            proof {
                assert(self.log() =~= old(self).log().push((cmd@, Some(desc@))));
            }
            Err(desc)
        } else {
            self.entries.push((String::from_str(cmd), None));
            proof {
                assert(self.log() =~= old(self).log().push((cmd@, None::<Seq<char>>)));
            }
            Ok(())
        }
    }
}

} // verus!
