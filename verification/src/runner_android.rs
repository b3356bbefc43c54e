//! `smix runner up/down` for the Android emulator: the adb argvs that
//! install the instrumentation APK, forward the port and start the
//! server, and what is said along the way. Every argv names its device
//! with `-s`: without it adb targets whatever single device is attached.

use vstd::prelude::*;
use crate::runner::tail_of;
use crate::text::{
    chars_eq, chars_of, chars_start_with, debug_quoted, debug_str, decimal, join, join_path, join_strings, lines, lines_of, owned,
    path_join, push_decimal, starts_with, strs, views, words, words_of,
};
use crate::runner::{last_lines, push_u64};

verus! {

broadcast use vstd::string::group_string_axioms;

/// The Kotlin runner's HTTP port, by convention.
pub const DEFAULT_ANDROID_PORT: u16 = 28080;

/// The instrumentation package of the runner's tests.
pub const TEST_PACKAGE: &'static str = "dev.smix.runner.test";

/// The instrumentation runner `am instrument` is pointed at.
pub const TEST_RUNNER: &'static str = "androidx.test.runner.AndroidJUnitRunner";

/// The test method that serves forever.
pub const SERVER_ENTRY: &'static str = "dev.smix.runner.RunnerTest#runServerForever";

/// Where `./gradlew :app:assembleDebugAndroidTest` leaves the APK, under
/// the workspace root.
pub const TEST_APK: &'static str = "android-runner/app/build/outputs/apk/androidTest/debug/app-debug-androidTest.apk";

/// Whether `adb devices` lists `serial` as ready: a line that starts
/// with it and whose second word is `device`.
pub open spec fn device_listed_ready(list: Seq<char>, serial: Seq<char>) -> bool {
    exists|k: int|
        0 <= k < lines(list).len() && starts_with(#[trigger] lines(list)[k], serial) && words(lines(list)[k]).len() >= 2
            && words(lines(list)[k])[1] == "device"@
}

pub fn device_ready(adb_devices: &str, serial: &str) -> (r: bool)
    ensures
        r == device_listed_ready(adb_devices@, serial@),
{
    let ls = lines_of(chars_of(adb_devices).as_slice());
    let s = chars_of(serial);
    let device = chars_of("device");
    proof {
        reveal_strlit("device");
    }
    let ghost all = lines(adb_devices@);
    let mut i: usize = 0;
    while i < ls.len()
        invariant
            i <= ls@.len(),
            views(ls@) == all,
            all == lines(adb_devices@),
            s@ == serial@,
            device@ == "device"@,
            forall|k: int|
                0 <= k < i ==> !(starts_with(#[trigger] all[k], serial@) && words(all[k]).len() >= 2
                    && words(all[k])[1] == "device"@),
        decreases ls@.len() - i,
    {
        assert(ls@[i as int]@ == all[i as int]);
        if chars_start_with(ls[i].as_slice(), s.as_slice()) {
            let ws = words_of(ls[i].as_slice());
            if ws.len() >= 2 && chars_eq(ws[1].as_slice(), device.as_slice()) {
                assert(views(ws@)[1] == ws@[1]@);
                return true;
            }
            assert(views(ws@).len() == ws@.len());
            if ws.len() >= 2 {
                assert(views(ws@)[1] == ws@[1]@);
            }
        }
        i = i + 1;
    }
    false
}

/// `-s <serial>` and then the verb's own words.
pub open spec fn on_device(serial: Seq<char>, rest: Seq<Seq<char>>) -> Seq<Seq<char>> {
    seq!["-s"@, serial] + rest
}

/// `tcp:<port>`.
pub open spec fn tcp(port: u16) -> Seq<char> {
    "tcp:"@ + decimal(port as nat)
}

fn tcp_string(port: u16) -> (s: String)
    ensures
        s@ == tcp(port),
{
    let mut s = owned("tcp:");
    push_decimal(&mut s, port as usize);
    s
}

fn device_argv(serial: &str) -> (v: Vec<String>)
    ensures
        strs(v@) == seq!["-s"@, serial@],
{
    let mut v: Vec<String> = Vec::new();
    v.push(owned("-s"));
    v.push(owned(serial));
    assert(strs(v@) =~= seq!["-s"@, serial@]);
    v
}

/// The adb argv that installs (or replaces) the instrumentation APK.
pub fn install_argv(serial: &str, apk: &str) -> (v: Vec<String>)
    ensures
        strs(v@) == on_device(serial@, seq!["install"@, "-r"@, "-t"@, apk@]),
{
    let mut v = device_argv(serial);
    v.push(owned("install"));
    v.push(owned("-r"));
    v.push(owned("-t"));
    v.push(owned(apk));
    assert(strs(v@) =~= on_device(serial@, seq!["install"@, "-r"@, "-t"@, apk@]));
    v
}

/// The adb argv that forwards the host's port to the same port on the
/// device.
pub fn forward_argv(serial: &str, port: u16) -> (v: Vec<String>)
    ensures
        strs(v@) == on_device(serial@, seq!["forward"@, tcp(port), tcp(port)]),
{
    let mut v = device_argv(serial);
    v.push(owned("forward"));
    v.push(tcp_string(port));
    v.push(tcp_string(port));
    assert(strs(v@) =~= on_device(serial@, seq!["forward"@, tcp(port), tcp(port)]));
    v
}

/// The adb argv that starts the runner's server: `am instrument -w` on
/// the server entry point, which blocks for the server's life.
pub fn instrument_argv(serial: &str) -> (v: Vec<String>)
    ensures
        strs(v@) == on_device(
            serial@,
            seq![
                "shell"@,
                "am"@,
                "instrument"@,
                "-w"@,
                "-e"@,
                "class"@,
                SERVER_ENTRY@,
                TEST_PACKAGE@ + "/"@ + TEST_RUNNER@,
            ],
        ),
{
    let mut v = device_argv(serial);
    v.push(owned("shell"));
    v.push(owned("am"));
    v.push(owned("instrument"));
    v.push(owned("-w"));
    v.push(owned("-e"));
    v.push(owned("class"));
    v.push(owned(SERVER_ENTRY));
    let mut target = owned(TEST_PACKAGE);
    target.append("/");
    target.append(TEST_RUNNER);
    v.push(target);
    assert(strs(v@) =~= on_device(
        serial@,
        seq![
            "shell"@,
            "am"@,
            "instrument"@,
            "-w"@,
            "-e"@,
            "class"@,
            SERVER_ENTRY@,
            TEST_PACKAGE@ + "/"@ + TEST_RUNNER@,
        ],
    ));
    v
}

/// The adb argv that ends the server: a force-stop of the
/// instrumentation package (killing the host-side adb would leave the
/// device's process serving).
pub fn force_stop_argv(serial: &str) -> (v: Vec<String>)
    ensures
        strs(v@) == on_device(serial@, seq!["shell"@, "am"@, "force-stop"@, TEST_PACKAGE@]),
{
    let mut v = device_argv(serial);
    v.push(owned("shell"));
    v.push(owned("am"));
    v.push(owned("force-stop"));
    v.push(owned(TEST_PACKAGE));
    assert(strs(v@) =~= on_device(serial@, seq!["shell"@, "am"@, "force-stop"@, TEST_PACKAGE@]));
    v
}

/// The adb argv that drops the port forward.
pub fn forward_remove_argv(serial: &str, port: u16) -> (v: Vec<String>)
    ensures
        strs(v@) == on_device(serial@, seq!["forward"@, "--remove"@, tcp(port)]),
{
    let mut v = device_argv(serial);
    v.push(owned("forward"));
    v.push(owned("--remove"));
    v.push(tcp_string(port));
    assert(strs(v@) =~= on_device(serial@, seq!["forward"@, "--remove"@, tcp(port)]));
    v
}

/// Where the instrumentation APK is looked for.
pub fn test_apk_path(root: &str) -> (p: String)
    ensures
        p@ == path_join(root@, TEST_APK@),
{
    join_path(root, TEST_APK)
}

/// Where the server's output goes: `.smix/runner/runner-<serial>.log`.
pub fn runner_log_path(root: &str, serial: &str) -> (p: String)
    ensures
        p@ == path_join(path_join(root@, ".smix/runner"@), "runner-"@ + serial@ + ".log"@),
{
    let dir = join_path(root, ".smix/runner");
    let mut name = owned("runner-");
    name.append(serial);
    name.append(".log");
    join_path(dir.as_str(), name.as_str())
}

/// The refusal when adb has no ready device of that serial.
pub fn no_device_error(serial: &str) -> (s: String)
    ensures
        s@ == "adb has no ready device "@ + debug_quoted(serial@)
            + ". `adb devices` lists what is attached; start the emulator first (`emulator -avd <name>`), or pass the serial of a running one."@,
{
    let mut s = owned("adb has no ready device ");
    let q = debug_str(serial);
    s.append(q.as_str());
    s.append(
        ". `adb devices` lists what is attached; start the emulator first (`emulator -avd <name>`), or pass the serial of a running one.",
    );
    s
}

/// The line printed once the server is spawned.
pub fn android_starting_line(serial: &str, port: u16, pid: u32, log: &str) -> (s: String)
    ensures
        s@ == "runner starting: device="@ + serial@ + " port="@ + decimal(port as nat) + " pid="@ + decimal(
            pid as nat,
        ) + " — log: "@ + log@,
{
    let mut s = owned("runner starting: device=");
    s.append(serial);
    s.append(" port=");
    push_decimal(&mut s, port as usize);
    s.append(" pid=");
    push_decimal(&mut s, pid as usize);
    s.append(" — log: ");
    s.append(log);
    s
}

/// The error when `/health` never answered: the wait, then the log's
/// last 15 lines.
pub fn android_timeout_error(timeout_secs: u64, log_text: &str) -> (s: String)
    ensures
        s@ == "runner did not become healthy within "@ + decimal(timeout_secs as nat) + "s. Log tail:\n"@ + join(
            tail_of(log_text@, 15),
            "\n"@,
        ),
{
    let mut s = owned("runner did not become healthy within ");
    push_u64(&mut s, timeout_secs);
    s.append("s. Log tail:\n");
    let tail = last_lines(log_text, 15);
    let joined = join_strings(tail.as_slice(), "\n");
    s.append(joined.as_str());
    s
}

/// What `runner down` says once the server is stopped.
pub fn android_down_line(serial: &str, port: u16) -> (s: String)
    ensures
        s@ == "runner down: device="@ + serial@ + " port "@ + decimal(port as nat) + " closed"@,
{
    let mut s = owned("runner down: device=");
    s.append(serial);
    s.append(" port ");
    push_decimal(&mut s, port as usize);
    s.append(" closed");
    s
}

} // verus!
