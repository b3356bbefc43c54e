//! `smix capsule up/down`: the decisions.
//!
//! A hard capsule boots the simulator headless, used when Simulator.app
//! is not on screen; a soft capsule falls back to event-ledger
//! reconciliation when it is. The processes, the store and the HTTP
//! calls are the caller's.

use vstd::prelude::*;
use crate::text::{
    chars_of, contains_chars, contains_seq, debug_quoted, debug_str, decimal, find_char,
    int_error_message, int_error_text, join, join_path, join_strings, lines, lines_of, owned,
    parse_u16, parse_unsigned, path_join, push_chars, push_decimal, slice_chars, split_once,
    split_once_chars, string_of, strs, words, words_of, IntError,
};

verus! {

broadcast use vstd::string::group_string_axioms;

/// Which capsule was brought up.
#[derive(Debug, Clone, Copy, PartialEq, Eq, Structural)]
pub enum CapsuleMode {
    Hard,
    Soft,
}

/// The record of a capsule that is up.
#[derive(Debug, Clone)]
pub struct CapsuleState {
    pub mode: CapsuleMode,
    pub udid: String,
    /// RFC3339 timestamp of `capsule up`.
    pub started_at: String,
    pub runner_port: u16,
    /// The smix-server entry point, e.g. `http://127.0.0.1:8787`.
    pub capture_endpoint: String,
    /// Was Simulator.app running at `capsule up` time?
    pub simulator_app_was_running: bool,
    /// True iff `capsule up --no-capture` skipped the capture start, so
    /// `down` must not stop it.
    pub no_capture: bool,
}

/// The refusal to bring up a hard capsule with a window on screen.
#[derive(Debug)]
pub struct CapsuleGuardRejected {
    pub hint: String,
}

/// Why a window on screen refuses a hard capsule, and the ways out.
pub const GUARD_HINT: &'static str = "Simulator.app is running — simctl boot will pop a window, which violates the hard-capsule precondition.\nClose it (`pkill -INT Simulator`) and retry, or pass `--soft` to explicitly accept the soft-capsule fallback (window visible, event-ledger reconciliation only; no headless entry point).";

/// Where the capture endpoint comes from, said in full.
pub const CAPTURE_HINT: &'static str = "capture needs the smix-server process, which is separate from the runner.\nStart it with `cargo run -p smix-server` (or the installed `smix-server` binary), or pass `--no-capture` to bring the capsule up without it.";

/// The warning a degraded (soft) capsule prints.
pub open spec fn soft_warning() -> Seq<char> {
    "Simulator.app is on screen, so this is a soft capsule: the window is visible and reconciliation is event-ledger only. Pass `--require-hard` to make this a failure instead."@
}

/// Full path to `.smix/capsule/<UDID>.state.json` under a workspace.
pub fn state_path(workspace_root: &str, udid: &str) -> (p: String)
    ensures
        p@ == path_join(path_join(path_join(workspace_root@, ".smix"@), "capsule"@), udid@ + ".state.json"@),
{
    let a = join_path(workspace_root, ".smix");
    let b = join_path(a.as_str(), "capsule");
    let mut file = owned(udid);
    file.append(".state.json");
    join_path(b.as_str(), file.as_str())
}

/// Decide the capsule mode. No window: hard. A window and
/// `require_hard`: refused with [`GUARD_HINT`]. A window otherwise:
/// soft, with a warning unless `soft` said that was the intent.
pub fn decide_mode(sim_running: bool, soft: bool, require_hard: bool) -> (r: Result<(CapsuleMode, Option<String>), CapsuleGuardRejected>)
    ensures
        !sim_running ==> r matches Ok((CapsuleMode::Hard, None)),
        sim_running && require_hard ==> (r matches Err(e) && e.hint@ == GUARD_HINT@),
        sim_running && !require_hard && soft ==> r matches Ok((CapsuleMode::Soft, None)),
        sim_running && !require_hard && !soft ==> (r matches Ok((CapsuleMode::Soft, Some(w))) && w@
            == soft_warning()),
        (r matches Ok((CapsuleMode::Hard, _))) <==> !sim_running,
{
    if !sim_running {
        Ok((CapsuleMode::Hard, None))
    } else if require_hard {
        Err(CapsuleGuardRejected { hint: owned(GUARD_HINT) })
    } else if soft {
        Ok((CapsuleMode::Soft, None))
    } else {
        Ok(
            (
                CapsuleMode::Soft,
                Some(
                    owned(
                        "Simulator.app is on screen, so this is a soft capsule: the window is visible and reconciliation is event-ledger only. Pass `--require-hard` to make this a failure instead.",
                    ),
                ),
            ),
        )
    }
}

/// End-to-end options for `capsule up <DEVICE>`.
pub struct UpOptions<'a> {
    /// Refuse rather than degrade when a window is on screen.
    pub require_hard: bool,
    pub root: &'a str,
    pub udid: &'a str,
    pub runner_port: u16,
    pub capture_endpoint: &'a str,
    pub bundle: Option<&'a str>,
    pub soft: bool,
    /// Skip the capture start.
    pub no_capture: bool,
}

/// What `parse_url` makes of a URL: `(host, port, path)` or the message.
pub open spec fn url_parts(url: Seq<char>) -> Result<(Seq<char>, u16, Seq<char>), Seq<char>> {
    if !(url.len() >= 7 && url.take(7) == "http://"@) {
        Err("only http:// supported, got "@ + url)
    } else {
        let rest = url.skip(7);
        let (host_port, path) = match split_once(rest, '/') {
            Some(p) => p,
            None => (rest, seq![]),
        };
        match split_once(host_port, ':') {
            Some((h, p)) => match parse_unsigned(p, 65535) {
                Ok(port) => Ok((h, port as u16, seq!['/'] + path)),
                Err(e) => Err("port parse: "@ + int_error_message(e)),
            },
            None => Ok((host_port, 80, seq!['/'] + path)),
        }
    }
}

/// Split an `http://host[:port][/path]` URL. Only `http://` is taken;
/// the port defaults to 80 and the path always starts with `/`.
pub fn parse_url(url: &str) -> (r: Result<(String, u16, String), String>)
    ensures
        match r {
            Ok((h, port, path)) => url_parts(url@) == Ok::<_, Seq<char>>((h@, port, path@)),
            Err(m) => url_parts(url@) == Err::<(Seq<char>, u16, Seq<char>), _>(m@),
        },
{
    let u = chars_of(url);
    proof {
        reveal_strlit("http://");
        reveal_strlit("/");
    }
    let prefix = chars_of("http://");
    let has_prefix = u.len() >= 7 && crate::text::chars_eq(slice_chars(u.as_slice(), 0, 7).as_slice(), prefix.as_slice());
    if !has_prefix {
        proof {
            if u@.len() >= 7 {
                assert(u@.take(7) =~= u@.subrange(0, 7));
            }
        }
        let mut m = owned("only http:// supported, got ");
        m.append(url);
        return Err(m);
    }
    assert(u@.take(7) =~= u@.subrange(0, 7));
    let n = u.len();
    let rest = slice_chars(u.as_slice(), 7, n);
    assert(rest@ =~= u@.skip(7));
    let (host_port, path) = match split_once_chars(rest.as_slice(), '/') {
        Some(p) => p,
        None => (rest, Vec::new()),
    };
    let ghost sp = match split_once(rest@, '/') {
        Some(p) => p,
        None => (rest@, Seq::<char>::empty()),
    };
    assert(host_port@ == sp.0 && path@ == sp.1);
    let mut full_path = owned("/");
    crate::text::push_chars(&mut full_path, path.as_slice());
    assert(full_path@ =~= seq!['/'] + sp.1);
    match split_once_chars(host_port.as_slice(), ':') {
        Some((h, p)) => {
            let ptext = string_of(p.as_slice());
            match parse_u16(ptext.as_str()) {
                Ok(port) => Ok((string_of(h.as_slice()), port, full_path)),
                Err(e) => {
                    let mut m = owned("port parse: ");
                    m.append(int_error_text(e).as_str());
                    Err(m)
                },
            }
        },
        None => Ok((string_of(host_port.as_slice()), 80, full_path)),
    }
}


// ---- the steps of `capsule up` and `capsule down` ------------------------------

/// The URL and JSON body of a capture start (or stop) for a device.
pub open spec fn capture_call_spec(endpoint: Seq<char>, udid: Seq<char>, start: bool) -> (Seq<char>, Seq<char>) {
    (
        endpoint + if start {
            "/api/capture/start"@
        } else {
            "/api/capture/stop"@
        },
        "{\"udid\":\""@ + udid + "\"}"@,
    )
}

/// The capture server call that starts (or stops) capturing a device.
pub fn capture_call(endpoint: &str, udid: &str, start: bool) -> (r: (String, String))
    ensures
        (r.0@, r.1@) == capture_call_spec(endpoint@, udid@, start),
{
    let mut url = owned(endpoint);
    if start {
        url.append("/api/capture/start");
    } else {
        url.append("/api/capture/stop");
    }
    let mut body = owned("{\"udid\":\"");
    body.append(udid);
    body.append("\"}");
    (url, body)
}

/// A failed `simctl boot` that only says the device is already booted
/// is no failure.
pub fn already_booted(stderr: &str) -> (r: bool)
    ensures
        r == contains_seq(stderr@, "current state: Booted"@),
{
    let needle = chars_of("current state: Booted");
    contains_chars(chars_of(stderr).as_slice(), needle.as_slice())
}

/// The mode's name, as `{:?}` writes it.
pub open spec fn mode_name(m: CapsuleMode) -> Seq<char> {
    match m {
        CapsuleMode::Hard => "Hard"@,
        CapsuleMode::Soft => "Soft"@,
    }
}

/// The line `capsule up` prints once capture is running (or skipped).
pub open spec fn up_banner_spec(mode: CapsuleMode, udid: Seq<char>, endpoint: Seq<char>, no_capture: bool) -> Seq<char> {
    if no_capture {
        "capsule up: mode="@ + mode_name(mode) + " device="@ + udid
            + " no-capture (simctl io recordVideo lock free for in-scenario use)"@
    } else {
        "capsule up: mode="@ + mode_name(mode) + " device="@ + udid + " /live="@ + endpoint + "/live/"@ + udid
    }
}

pub fn up_banner(mode: CapsuleMode, udid: &str, endpoint: &str, no_capture: bool) -> (s: String)
    ensures
        s@ == up_banner_spec(mode, udid@, endpoint@, no_capture),
{
    let mut s = owned("capsule up: mode=");
    match mode {
        CapsuleMode::Hard => s.append("Hard"),
        CapsuleMode::Soft => s.append("Soft"),
    }
    s.append(" device=");
    s.append(udid);
    if no_capture {
        s.append(" no-capture (simctl io recordVideo lock free for in-scenario use)");
    } else {
        s.append(" /live=");
        s.append(endpoint);
        s.append("/live/");
        s.append(udid);
    }
    s
}

/// Why `capsule up` stopped at the capture start, with the endpoint it
/// tried and where a capture server comes from.
pub fn capture_start_failed(error: &str, endpoint: &str) -> (s: String)
    ensures
        s@ == "capsule up: capture start failed: "@ + error@ + "\ntried "@ + endpoint@ + " — "@ + CAPTURE_HINT@,
{
    let mut s = owned("capsule up: capture start failed: ");
    s.append(error);
    s.append("\ntried ");
    s.append(endpoint);
    s.append(" — ");
    s.append(CAPTURE_HINT);
    s
}

/// A capture stop that failed because the capture is already gone
/// (404 or 410) is not a teardown error.
pub fn stop_failure_counts(error: &str) -> (r: bool)
    ensures
        r == !(contains_seq(error@, "status=404"@) || contains_seq(error@, "status=410"@)),
{
    let e = chars_of(error);
    let a = chars_of("status=404");
    let b = chars_of("status=410");
    !(contains_chars(e.as_slice(), a.as_slice()) || contains_chars(e.as_slice(), b.as_slice()))
}

/// How a best-effort teardown ends: cleanly, or naming every step that failed.
pub fn down_outcome(errors: &[String]) -> (r: Result<(), String>)
    ensures
        errors@.len() == 0 ==> r is Ok,
        errors@.len() > 0 ==> (r matches Err(m) && m@ == "capsule down completed with errors: "@ + join(
            strs(errors@),
            "; "@,
        )),
{
    if errors.len() == 0 {
        return Ok(());
    }
    let mut m = owned("capsule down completed with errors: ");
    m.append(join_strings(errors, "; ").as_str());
    Err(m)
}

/// The request `post_json` writes: a `POST` of a JSON body, its length
/// in bytes, closing the connection after.
pub open spec fn post_request_spec(host: Seq<char>, path: Seq<char>, body: Seq<char>, body_len: nat) -> Seq<char> {
    "POST "@ + path + " HTTP/1.1\r\nHost: "@ + host + "\r\nContent-Type: application/json\r\nContent-Length: "@
        + decimal(body_len) + "\r\nConnection: close\r\n\r\n"@ + body
}

pub fn post_request(host: &str, path: &str, body: &str) -> (s: String)
    ensures
        s@ == post_request_spec(host@, path@, body@, body.len() as nat),
{
    let mut s = owned("POST ");
    s.append(path);
    s.append(" HTTP/1.1\r\nHost: ");
    s.append(host);
    s.append("\r\nContent-Type: application/json\r\nContent-Length: ");
    push_decimal(&mut s, body.len());
    s.append("\r\nConnection: close\r\n\r\n");
    s.append(body);
    s
}

/// What a reply to `post_json` comes to: a 2xx is success; another
/// status is an error naming it (`status=<code>`, so callers can branch
/// on it) and the reply's last line; a status line without a readable
/// code is named back.
pub open spec fn post_outcome(resp: Seq<char>) -> Result<(), Seq<char>> {
    let ls = lines(resp);
    let status_line = if ls.len() > 0 {
        ls[0]
    } else {
        seq![]
    };
    let ws = words(status_line);
    let code = if ws.len() > 1 {
        match parse_unsigned(ws[1], 65535) {
            Ok(c) => Some(c),
            Err(_) => None,
        }
    } else {
        None
    };
    match code {
        None => Err("malformed status line: "@ + debug_quoted(status_line)),
        Some(c) => if 200 <= c < 300 {
            Ok(())
        } else {
            Err(
                "status="@ + decimal(c) + " body="@ + if ls.len() > 0 {
                    ls.last()
                } else {
                    seq![]
                },
            )
        },
    }
}

pub fn post_reply_outcome(resp: &str) -> (r: Result<(), String>)
    ensures
        match r {
            Ok(()) => post_outcome(resp@) is Ok,
            Err(m) => post_outcome(resp@) == Err::<(), Seq<char>>(m@),
        },
{
    let ls = lines_of(chars_of(resp).as_slice());
    let status_line: Vec<char> = if ls.len() > 0 {
        slice_chars(ls[0].as_slice(), 0, ls[0].len())
    } else {
        Vec::new()
    };
    assert(ls@.len() > 0 ==> status_line@ == crate::text::views(ls@)[0]);
    let ws = words_of(status_line.as_slice());
    let code: Option<u16> = if ws.len() > 1 {
        assert(ws@[1]@ == crate::text::views(ws@)[1]);
        match parse_u16(string_of(ws[1].as_slice()).as_str()) {
            Ok(c) => Some(c),
            Err(_) => None,
        }
    } else {
        None
    };
    match code {
        None => {
            let mut m = owned("malformed status line: ");
            m.append(debug_str(string_of(status_line.as_slice()).as_str()).as_str());
            Err(m)
        },
        Some(c) => {
            if 200 <= c && c < 300 {
                Ok(())
            } else {
                let mut m = owned("status=");
                push_decimal(&mut m, c as usize);
                m.append(" body=");
                if ls.len() > 0 {
                    assert(ls@[ls@.len() - 1]@ == crate::text::views(ls@).last());
                    push_chars(&mut m, ls[ls.len() - 1].as_slice());
                }
                Err(m)
            }
        },
    }
}


// ---- capsule down, step by step ---------------------------------------------

/// The next thing `capsule down` does.
#[derive(Debug, PartialEq, Eq)]
pub enum DownAction {
    /// Bring the runner down on the recorded port.
    StopRunner,
    /// Tell the capture server to stop recording the device.
    StopCapture,
    /// Shut the simulator down.
    ShutDown,
    /// Delete the capsule's record.
    ClearRecord,
    /// Done: cleanly, or naming every step that failed.
    Finish(Result<(), String>),
}

/// Where a teardown stands: which step was asked for last, whether the
/// capsule captured, and the failures so far.
#[derive(Debug, Clone, PartialEq, Eq)]
pub struct Teardown {
    pub step: u8,
    pub no_capture: bool,
    pub errors: Vec<String>,
}

impl Teardown {
    /// The well-formed teardowns: a step between the first (0, the
    /// runner) and the last (4, finished).
    pub open spec fn wf(self) -> bool {
        self.step <= 4
    }
}

/// Start tearing a recorded capsule down: the runner goes first.
pub fn begin_teardown(no_capture: bool) -> (r: (Teardown, DownAction))
    ensures
        r.0.wf(),
        r.0.step == 0 && r.0.no_capture == no_capture && r.0.errors@.len() == 0,
        r.1 == DownAction::StopRunner,
{
    (Teardown { step: 0, no_capture, errors: Vec::new() }, DownAction::StopRunner)
}

/// The failure a step adds, when it failed; the capture server's 404 or
/// 410 (already gone) is not a failure.
pub open spec fn step_failure(step: u8, outcome: Result<(), Seq<char>>) -> Option<Seq<char>> {
    match outcome {
        Ok(()) => None,
        Err(e) => if step == 0 {
            Some("runner: "@ + e)
        } else if step == 1 {
            if !(contains_seq(e, "status=404"@) || contains_seq(e, "status=410"@)) {
                Some("capture: "@ + e)
            } else {
                None
            }
        } else if step == 2 {
            Some("shutdown: "@ + e)
        } else if step == 3 {
            Some("rm state: "@ + e)
        } else {
            None
        },
    }
}

/// The next step of a teardown: runner, then capture (unless the
/// capsule had none), then shutdown; the record is deleted only when
/// those all completed, so a failed teardown leaves it for the next try
/// to find; then the outcome.
pub open spec fn next_step(step: u8, no_capture: bool, errors: Seq<Seq<char>>) -> (u8, Option<DownActionKind>) {
    if step == 0 {
        if no_capture {
            (2, Some(DownActionKind::ShutDown))
        } else {
            (1, Some(DownActionKind::StopCapture))
        }
    } else if step == 1 {
        (2, Some(DownActionKind::ShutDown))
    } else if step == 2 {
        if errors.len() == 0 {
            (3, Some(DownActionKind::ClearRecord))
        } else {
            (4, None)
        }
    } else {
        (4, None)
    }
}

/// The kinds of action, without the outcome a `Finish` carries.
#[derive(Debug, Clone, Copy, PartialEq, Eq, Structural)]
pub enum DownActionKind {
    StopRunner,
    StopCapture,
    ShutDown,
    ClearRecord,
}

pub open spec fn outcome_view(o: Result<(), String>) -> Result<(), Seq<char>> {
    match o {
        Ok(()) => Ok(()),
        Err(e) => Err(e@),
    }
}

/// The outcome a finished teardown reports.
pub open spec fn finish_outcome(errors: Seq<Seq<char>>) -> Result<(), Seq<char>> {
    if errors.len() == 0 {
        Ok(())
    } else {
        Err("capsule down completed with errors: "@ + join(errors, "; "@))
    }
}

impl Teardown {
    /// Record how the step just asked for went, and say what comes next.
    pub fn after_step(&mut self, outcome: Result<(), String>) -> (a: DownAction)
        requires
            old(self).wf(),
            old(self).step < 4,
        ensures
            final(self).wf(),
            final(self).no_capture == old(self).no_capture,
            strs(final(self).errors@) == strs(old(self).errors@) + match step_failure(old(self).step, outcome_view(outcome)) {
                Some(f) => seq![f],
                None => seq![],
            },
            ({
                let (next, kind) = next_step(old(self).step, old(self).no_capture, strs(final(self).errors@));
                &&& final(self).step == next
                &&& match kind {
                    Some(DownActionKind::StopRunner) => a == DownAction::StopRunner,
                    Some(DownActionKind::StopCapture) => a == DownAction::StopCapture,
                    Some(DownActionKind::ShutDown) => a == DownAction::ShutDown,
                    Some(DownActionKind::ClearRecord) => a == DownAction::ClearRecord,
                    None => a matches DownAction::Finish(o) && outcome_view(o) == finish_outcome(strs(final(self).errors@)),
                }
            }),
    {
        let ghost before = strs(self.errors@);
        let step = self.step;
        match outcome {
            Ok(()) => {},
            Err(e) => {
                if step == 0 {
                    let mut m = owned("runner: ");
                    m.append(e.as_str());
                    self.errors.push(m);
                } else if step == 1 {
                    if stop_failure_counts(e.as_str()) {
                        let mut m = owned("capture: ");
                        m.append(e.as_str());
                        self.errors.push(m);
                    }
                } else if step == 2 {
                    let mut m = owned("shutdown: ");
                    m.append(e.as_str());
                    self.errors.push(m);
                } else {
                    let mut m = owned("rm state: ");
                    m.append(e.as_str());
                    self.errors.push(m);
                }
                proof {
                    assert(strs(self.errors@) =~= before + match step_failure(step, outcome_view(Err(e))) {
                        Some(f) => seq![f],
                        None => seq![],
                    });
                }
            },
        }
        proof {
            assert(strs(self.errors@) =~= before + match step_failure(step, outcome_view(outcome)) {
                Some(f) => seq![f],
                None => seq![],
            });
        }
        if step == 0 {
            if self.no_capture {
                self.step = 2;
                DownAction::ShutDown
            } else {
                self.step = 1;
                DownAction::StopCapture
            }
        } else if step == 1 {
            self.step = 2;
            DownAction::ShutDown
        } else if step == 2 && self.errors.len() == 0 {
            self.step = 3;
            DownAction::ClearRecord
        } else {
            self.step = 4;
            DownAction::Finish(down_outcome(self.errors.as_slice()))
        }
    }
}

/// A teardown deletes the record only when stopping the runner, the
/// capture and the simulator all completed: a step that failed leaves
/// the record in place, so what it left running stays known.
pub proof fn lemma_a_failed_step_keeps_the_record(no_capture: bool, errors: Seq<Seq<char>>)
    requires
        errors.len() > 0,
    ensures
        next_step(2, no_capture, errors).1 != Some(DownActionKind::ClearRecord),
{
}


// ---- capsule up, step by step -----------------------------------------------

/// The next thing `capsule up` does, once the mode is decided.
#[derive(Debug, PartialEq, Eq)]
pub enum UpAction {
    /// Boot the simulator and wait until it is ready.
    Boot,
    /// Ask the capture server to start recording the device.
    StartCapture,
    /// Print the banner, then bring the runner up in record mode.
    StartRunner(String),
    /// Write the capsule's record.
    WriteRecord,
    /// Done: `Ok` once the record is written, else the first failure.
    Finish(Result<(), String>),
}

/// Where a bring-up stands: which step was asked for last (0 boot, 1
/// capture, 2 runner, 3 record, 4 finished), and what the steps need.
#[derive(Debug, Clone, PartialEq, Eq)]
pub struct Bringup {
    pub step: u8,
    pub mode: CapsuleMode,
    pub udid: String,
    pub capture_endpoint: String,
    pub no_capture: bool,
}

impl Bringup {
    pub open spec fn wf(self) -> bool {
        self.step <= 4
    }
}

/// Whether the step just asked for went well: a boot that failed only
/// because the device was already booted went well too.
pub open spec fn up_step_succeeded(step: u8, outcome: Result<(), Seq<char>>) -> bool {
    match outcome {
        Ok(()) => true,
        Err(e) => step == 0 && contains_seq(e, "current state: Booted"@),
    }
}

/// The step after one that went well; `None` after the record is
/// written, when the bring-up is complete.
pub open spec fn up_next_step(step: u8, no_capture: bool) -> Option<u8> {
    if step == 0 {
        if no_capture { Some(2u8) } else { Some(1u8) }
    } else if step == 1 {
        Some(2u8)
    } else if step == 2 {
        Some(3u8)
    } else {
        None
    }
}

/// What a failed step reports.
pub open spec fn up_failure(step: u8, udid: Seq<char>, endpoint: Seq<char>, e: Seq<char>) -> Seq<char> {
    if step == 0 {
        "simctl boot "@ + udid + ": "@ + e
    } else if step == 1 {
        "capsule up: capture start failed: "@ + e + "\ntried "@ + endpoint + " — "@ + CAPTURE_HINT@
    } else {
        e
    }
}

/// Where a run of outcomes, each answering the step asked for, leaves a
/// bring-up that is at `step`: `Some` of the step asked for last, or
/// `None` once it finished.
pub open spec fn up_walk(step: u8, no_capture: bool, outcomes: Seq<Result<(), Seq<char>>>) -> Option<u8>
    decreases outcomes.len(),
{
    if outcomes.len() == 0 {
        Some(step)
    } else if !up_step_succeeded(step, outcomes[0]) {
        None
    } else {
        match up_next_step(step, no_capture) {
            Some(n) => up_walk(n, no_capture, outcomes.drop_first()),
            None => None,
        }
    }
}

/// Start bringing a capsule up in `mode`: the simulator boots first.
pub fn begin_bringup(mode: CapsuleMode, udid: &str, capture_endpoint: &str, no_capture: bool) -> (r: (Bringup, UpAction))
    ensures
        r.0.wf(),
        r.0.step == 0 && r.0.mode == mode && r.0.udid@ == udid@ && r.0.capture_endpoint@ == capture_endpoint@,
        r.0.no_capture == no_capture,
        r.1 == UpAction::Boot,
{
    (
        Bringup { step: 0, mode, udid: owned(udid), capture_endpoint: owned(capture_endpoint), no_capture },
        UpAction::Boot,
    )
}

impl Bringup {
    /// Record how the step just asked for went, and say what comes next:
    /// the first failure ends the bring-up with its message, so nothing
    /// after it runs and no record is written.
    pub fn after_step(&mut self, outcome: Result<(), String>) -> (a: UpAction)
        requires
            old(self).wf(),
            old(self).step < 4,
        ensures
            final(self).wf(),
            final(self).mode == old(self).mode,
            final(self).udid == old(self).udid,
            final(self).capture_endpoint == old(self).capture_endpoint,
            final(self).no_capture == old(self).no_capture,
            !up_step_succeeded(old(self).step, outcome_view(outcome)) ==> ({
                &&& final(self).step == 4
                &&& outcome matches Err(e)
                &&& a matches UpAction::Finish(Err(m))
                &&& m@ == up_failure(old(self).step, old(self).udid@, old(self).capture_endpoint@, e@)
            }),
            up_step_succeeded(old(self).step, outcome_view(outcome)) ==> match up_next_step(old(self).step, old(self).no_capture) {
                Some(n) => {
                    &&& final(self).step == n
                    &&& n == 1 ==> a == UpAction::StartCapture
                    &&& n == 2 ==> (a matches UpAction::StartRunner(b) && b@ == up_banner_spec(old(self).mode, old(self).udid@, old(self).capture_endpoint@, old(self).no_capture))
                    &&& n == 3 ==> a == UpAction::WriteRecord
                },
                None => final(self).step == 4 && a == UpAction::Finish(Ok(())),
            },
    {
        let step = self.step;
        match outcome {
            Err(e) => {
                if !(step == 0 && already_booted(e.as_str())) {
                    self.step = 4;
                    let m = if step == 0 {
                        let mut m = owned("simctl boot ");
                        m.append(self.udid.as_str());
                        m.append(": ");
                        m.append(e.as_str());
                        m
                    } else if step == 1 {
                        capture_start_failed(e.as_str(), self.capture_endpoint.as_str())
                    } else {
                        e
                    };
                    return UpAction::Finish(Err(m));
                }
            },
            Ok(()) => {},
        }
        if step == 0 && !self.no_capture {
            self.step = 1;
            UpAction::StartCapture
        } else if step <= 1 {
            self.step = 2;
            UpAction::StartRunner(up_banner(self.mode, self.udid.as_str(), self.capture_endpoint.as_str(), self.no_capture))
        } else if step == 2 {
            self.step = 3;
            UpAction::WriteRecord
        } else {
            self.step = 4;
            UpAction::Finish(Ok(()))
        }
    }
}

/// `capsule up` writes the record only when every step before it went
/// well: a run of outcomes that gets a bring-up from its start to the
/// record write boots (or finds the device booted), starts the capture
/// unless it was skipped, and brings the runner up, each without a
/// failure, and holds nothing more.
pub proof fn lemma_the_record_is_written_only_after_every_step_went_well(
    no_capture: bool,
    outcomes: Seq<Result<(), Seq<char>>>,
)
    requires
        up_walk(0, no_capture, outcomes) == Some(3u8),
    ensures
        outcomes.len() == if no_capture { 2int } else { 3int },
        up_step_succeeded(0, outcomes[0]),
        forall|i: int| 1 <= i < outcomes.len() ==> outcomes[i] is Ok,
{
    reveal_with_fuel(up_walk, 5);
    let o1 = outcomes.drop_first();
    let o2 = o1.drop_first();
    let o3 = o2.drop_first();
    assert(outcomes.len() > 0);
    if no_capture {
        assert(o1.len() > 0);
        assert(o2.len() == 0);
    } else {
        assert(o1.len() > 0);
        assert(o2.len() > 0);
        assert(o3.len() == 0);
    }
    assert forall|i: int| 1 <= i < outcomes.len() implies outcomes[i] is Ok by {
        if i == 1 {
            assert(outcomes[1] == o1[0]);
        } else {
            assert(outcomes[2] == o2[0]);
        }
    }
}


/// After the runner step, a capsule that captures always goes on to stop
/// the capture, whether or not the runner stopped; only `no_capture`
/// skips it. Likewise the shutdown always follows the capture step. What
/// failed so far never changes which step comes next before the record.
pub proof fn lemma_a_failed_runner_stop_still_stops_the_capture(
    no_capture: bool,
    errors: Seq<Seq<char>>,
    other: Seq<Seq<char>>,
)
    ensures
        !no_capture ==> next_step(0, no_capture, errors) == (1u8, Some(DownActionKind::StopCapture)),
        no_capture ==> next_step(0, no_capture, errors) == (2u8, Some(DownActionKind::ShutDown)),
        next_step(1, no_capture, errors) == (2u8, Some(DownActionKind::ShutDown)),
        next_step(0, no_capture, errors) == next_step(0, no_capture, other),
        next_step(1, no_capture, errors) == next_step(1, no_capture, other),
{
}


/// Every failed teardown step is reported, prefixed by the step it came
/// from, except a capture stop the server answers with 404 or 410 (the
/// capture is already gone); a step that went well adds nothing.
pub proof fn lemma_every_failed_step_is_reported(step: u8, e: Seq<char>)
    requires
        step < 4,
    ensures
        step_failure(step, Ok(())) is None,
        step == 0 ==> step_failure(step, Err(e)) == Some("runner: "@ + e),
        step == 1 ==> (step_failure(step, Err(e)) is Some <==> !(contains_seq(e, "status=404"@) || contains_seq(
            e,
            "status=410"@,
        ))),
        step == 1 && step_failure(step, Err(e)) is Some ==> step_failure(step, Err(e)) == Some("capture: "@ + e),
        step == 2 ==> step_failure(step, Err(e)) == Some("shutdown: "@ + e),
        step == 3 ==> step_failure(step, Err(e)) == Some("rm state: "@ + e),
{
}

} // verus!
