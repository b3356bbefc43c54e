//! `smix runner up/down`: the argv and environment of the host-side
//! `xcodebuild test` session that keeps the XCUITest runner alive, and
//! where its handle is recorded.

use vstd::prelude::*;
use crate::text::{
    ascii_lower, chars_eq, chars_of, contains_chars, contains_seq, debug_quoted, debug_str, decimal,
    decimal_string, join, join_path, join_strings, lines, lines_of, owned, parse_u64_chars,
    parse_unsigned, path_join, push_chars, push_decimal, string_of, strs, to_ascii_lower, views,
};

verus! {

broadcast use vstd::string::group_string_axioms;

/// The CLI's own version, forwarded to the runner so `/health` can echo
/// it back and a mismatch can be refused.
pub const CLI_VERSION: &'static str = "0.1.0";

/// Persisted handle for the host-side xcodebuild process.
#[derive(Debug, Clone, PartialEq)]
pub struct RunnerState {
    pub pid: u32,
    pub udid: String,
    pub port: u16,
    /// Path of the xcodebuild log.
    pub log: String,
    /// Target bundle the runner is bound to (`None` = runner default).
    pub bundle: Option<String>,
    /// Pid of the `--supervise` sidecar, if one was started.
    pub supervisor_pid: Option<u32>,
}

/// The environment `runner_env` sets, by characters: the target bundle
/// when given, the record switch when on, the port, the CLI version,
/// then the interactive-probe JSON when the workspace config has one.
pub open spec fn runner_env_spec(
    bundle: Option<Seq<char>>,
    record_enabled: bool,
    port: u16,
    probe: Option<Seq<char>>,
) -> Seq<(Seq<char>, Seq<char>)> {
    (match bundle {
        Some(b) => seq![("TEST_RUNNER_SMIX_RUNNER_TARGET_BUNDLE"@, b)],
        None => seq![],
    }) + (if record_enabled {
        seq![("TEST_RUNNER_SMIX_RECORD_ENABLED"@, "1"@)]
    } else {
        seq![]
    }) + seq![
        ("TEST_RUNNER_SMIX_RUNNER_PORT"@, decimal(port as nat)),
        ("TEST_RUNNER_SMIX_RUNNER_VERSION"@, CLI_VERSION@),
    ] + match probe {
        Some(j) => seq![("TEST_RUNNER_SMIX_INTERACTIVE_PROBE_JSON"@, j)],
        None => seq![],
    }
}

/// The pairs by their characters.
pub open spec fn pair_views(v: Seq<(String, String)>) -> Seq<(Seq<char>, Seq<char>)> {
    v.map_values(|p: (String, String)| (p.0@, p.1@))
}

fn push_pair(env: &mut Vec<(String, String)>, k: &str, v: String)
    ensures
        pair_views(final(env)@) == pair_views(old(env)@).push((k@, v@)),
{
    env.push((owned(k), v));
    assert(pair_views(final(env)@) =~= pair_views(old(env)@).push((k@, v@)));
}

/// Env pairs for the xcodebuild process. Xcode forwards `TEST_RUNNER_*`
/// variables into the runner process with the prefix stripped.
/// `interactive_probe_json` is the workspace config's `interactiveProbe`
/// mapping as JSON, when it has one.
pub fn runner_env(
    bundle: Option<&str>,
    record_enabled: bool,
    port: u16,
    interactive_probe_json: Option<String>,
) -> (env: Vec<(String, String)>)
    ensures
        pair_views(env@) == runner_env_spec(
            match bundle {
                Some(b) => Some(b@),
                None => None,
            },
            record_enabled,
            port,
            match interactive_probe_json {
                Some(j) => Some(j@),
                None => None,
            },
        ),
{
    let mut env: Vec<(String, String)> = Vec::new();
    if let Some(b) = bundle {
        push_pair(&mut env, "TEST_RUNNER_SMIX_RUNNER_TARGET_BUNDLE", owned(b));
    }
    if record_enabled {
        push_pair(&mut env, "TEST_RUNNER_SMIX_RECORD_ENABLED", owned("1"));
    }
    push_pair(&mut env, "TEST_RUNNER_SMIX_RUNNER_PORT", decimal_string(port as usize));
    push_pair(&mut env, "TEST_RUNNER_SMIX_RUNNER_VERSION", owned(CLI_VERSION));
    if let Some(json) = interactive_probe_json {
        push_pair(&mut env, "TEST_RUNNER_SMIX_INTERACTIVE_PROBE_JSON", json);
    }
    proof {
        assert(pair_views(env@) =~= runner_env_spec(
            match bundle {
                Some(b) => Some(b@),
                None => None,
            },
            record_enabled,
            port,
            match interactive_probe_json {
                Some(j) => Some(j@),
                None => None,
            },
        ));
    }
    env
}

/// The argv of the runner session, after the `xcodebuild` word: the
/// project, scheme `SmixRunner`, the simulator pinned by UDID, and a
/// per-UDID derived-data directory.
pub fn xcodebuild_argv(project: &str, udid: &str) -> (argv: Vec<String>)
    ensures
        strs(argv@) == seq![
            "test"@,
            "-project"@,
            project@,
            "-scheme"@,
            "SmixRunner"@,
            "-destination"@,
            "platform=iOS Simulator,id="@ + udid@,
            "-derivedDataPath"@,
            ".smix/runner/derived-data-"@ + udid@,
        ],
{
    let mut derived = owned(".smix/runner/derived-data-");
    derived.append(udid);
    let mut destination = owned("platform=iOS Simulator,id=");
    destination.append(udid);
    let mut argv: Vec<String> = Vec::new();
    argv.push(owned("test"));
    argv.push(owned("-project"));
    argv.push(owned(project));
    argv.push(owned("-scheme"));
    argv.push(owned("SmixRunner"));
    argv.push(owned("-destination"));
    argv.push(destination);
    argv.push(owned("-derivedDataPath"));
    argv.push(derived);
    proof {
        assert(strs(argv@) =~= seq![
            "test"@,
            "-project"@,
            project@,
            "-scheme"@,
            "SmixRunner"@,
            "-destination"@,
            "platform=iOS Simulator,id="@ + udid@,
            "-derivedDataPath"@,
            ".smix/runner/derived-data-"@ + udid@,
        ]);
    }
    argv
}

/// `<root>/.smix/runner/state.json`.
pub fn state_path(root: &str) -> (p: String)
    ensures
        p@ == path_join(root@, ".smix/runner/state.json"@),
{
    join_path(root, ".smix/runner/state.json")
}

/// The install-shipped project under the install-shipped runner directory.
pub fn installed_runner_project(runner_dir: &str) -> (p: String)
    ensures
        p@ == path_join(runner_dir@, "SmixRunner.xcodeproj"@),
{
    join_path(runner_dir, "SmixRunner.xcodeproj")
}


// ---- runner up: the decisions around the session -------------------------------

/// What `runner up` does about the target bundle.
#[derive(Debug, Clone, PartialEq, Eq)]
pub enum BundleGate {
    /// A bundle was given: announce it on stdout.
    Target(String),
    /// None was given and the default was opted into: warn on stderr.
    DefaultAllowed(String),
}

/// Why `runner up` refuses to start without `--bundle`.
pub open spec fn no_bundle_refusal() -> Seq<char> {
    "no --bundle passed; the runner would latch to the built-in default (com.apple.Preferences) and every subsequent /tree call would report Preferences as the app.\n\nfix: pass --bundle <your-app-bundle-id>, e.g.\n  smix runner up <device> --bundle com.example.app\n\nto keep the legacy default (v1.0.3 behavior), export\n  SMIX_RUNNER_UP_ALLOW_DEFAULT_BUNDLE=1\n— but expect empty a11y trees until you re-attach a real target."@
}

/// Whether `SMIX_RUNNER_UP_ALLOW_DEFAULT_BUNDLE` opts into the default:
/// `1`, or `true` in any ASCII case.
pub open spec fn allows_default(v: Option<Seq<char>>) -> bool {
    match v {
        Some(s) => s == "1"@ || ascii_lower(s) == "true"@,
        None => false,
    }
}

/// Start only with a target bundle, or with the default explicitly
/// allowed.
pub fn bundle_gate(bundle: Option<&str>, allow_default: Option<&str>) -> (r: Result<BundleGate, String>)
    ensures
        match bundle {
            Some(b) => r matches Ok(BundleGate::Target(line)) && line@ == "[runner] target bundle-id: "@ + b@,
            None => if allows_default(match allow_default {
                Some(v) => Some(v@),
                None => None,
            }) {
                r matches Ok(BundleGate::DefaultAllowed(line)) && line@
                    == "[runner] warning: no --bundle passed and SMIX_RUNNER_UP_ALLOW_DEFAULT_BUNDLE=1 set; latching to default com.apple.Preferences"@
            } else {
                r matches Err(m) && m@ == no_bundle_refusal()
            },
        },
{
    match bundle {
        Some(b) => {
            let mut line = owned("[runner] target bundle-id: ");
            line.append(b);
            Ok(BundleGate::Target(line))
        },
        None => {
            let allowed = match allow_default {
                Some(v) => {
                    let one = chars_of("1");
                    let t = chars_of("true");
                    chars_eq(chars_of(v).as_slice(), one.as_slice()) || chars_eq(
                        to_ascii_lower(v).as_slice(),
                        t.as_slice(),
                    )
                },
                None => false,
            };
            if allowed {
                Ok(
                    BundleGate::DefaultAllowed(
                        owned(
                            "[runner] warning: no --bundle passed and SMIX_RUNNER_UP_ALLOW_DEFAULT_BUNDLE=1 set; latching to default com.apple.Preferences",
                        ),
                    ),
                )
            } else {
                Err(
                    owned(
                        "no --bundle passed; the runner would latch to the built-in default (com.apple.Preferences) and every subsequent /tree call would report Preferences as the app.\n\nfix: pass --bundle <your-app-bundle-id>, e.g.\n  smix runner up <device> --bundle com.example.app\n\nto keep the legacy default (v1.0.3 behavior), export\n  SMIX_RUNNER_UP_ALLOW_DEFAULT_BUNDLE=1\n— but expect empty a11y trees until you re-attach a real target.",
                    ),
                )
            }
        },
    }
}

/// `{:?}` of an optional bundle.
pub open spec fn debug_option(b: Option<Seq<char>>) -> Seq<char> {
    match b {
        Some(s) => "Some("@ + debug_quoted(s) + ")"@,
        None => "None"@,
    }
}

fn debug_option_str(b: Option<&String>) -> (r: String)
    ensures
        r@ == debug_option(match b {
            Some(s) => Some(s@),
            None => None,
        }),
{
    match b {
        Some(s) => {
            let mut r = owned("Some(");
            r.append(debug_str(s.as_str()).as_str());
            r.append(")");
            r
        },
        None => owned("None"),
    }
}

/// What to make of a port that already answers `/health`: the same
/// runner asked for is already up; anything else is refused rather than
/// killed.
pub open spec fn serving_verdict(
    port: u16,
    udid: Seq<char>,
    bundle: Option<Seq<char>>,
    recorded: Option<(Seq<char>, Option<Seq<char>>, u32)>,
) -> Result<Seq<char>, Seq<char>> {
    match recorded {
        Some((u, b, pid)) => if u == udid && b == bundle {
            Ok("runner already up: udid="@ + udid + " port="@ + decimal(port as nat) + " pid="@ + decimal(pid as nat))
        } else {
            Err(
                "port "@ + decimal(port as nat) + " already serves a runner recorded for udid="@ + u + " bundle="@
                    + debug_option(b) + " — run `smix runner down` first"@,
            )
        },
        None => Err(
            "port "@ + decimal(port as nat)
                + " already serves /health but no .smix/runner/state.json records it — not killing blindly; investigate (pgrep -fl xcodebuild), then `smix runner down`"@,
        ),
    }
}

/// Judge a runner that is already serving on the port against the one
/// asked for, by the recorded state.
pub fn already_serving(port: u16, udid: &str, bundle: Option<&str>, recorded: Option<&RunnerState>) -> (r: Result<String, String>)
    ensures
        match r {
            Ok(m) => serving_verdict(port, udid@, match bundle {
                Some(b) => Some(b@),
                None => None,
            }, match recorded {
                Some(st) => Some((st.udid@, match st.bundle {
                    Some(b) => Some(b@),
                    None => None,
                }, st.pid)),
                None => None,
            }) == Ok::<Seq<char>, Seq<char>>(m@),
            Err(m) => serving_verdict(port, udid@, match bundle {
                Some(b) => Some(b@),
                None => None,
            }, match recorded {
                Some(st) => Some((st.udid@, match st.bundle {
                    Some(b) => Some(b@),
                    None => None,
                }, st.pid)),
                None => None,
            }) == Err::<Seq<char>, Seq<char>>(m@),
        },
{
    let st = match recorded {
        None => {
            let mut m = owned("port ");
            push_decimal(&mut m, port as usize);
            m.append(
                " already serves /health but no .smix/runner/state.json records it — not killing blindly; investigate (pgrep -fl xcodebuild), then `smix runner down`",
            );
            return Err(m);
        },
        Some(st) => st,
    };
    let same_udid = chars_eq(chars_of(st.udid.as_str()).as_slice(), chars_of(udid).as_slice());
    let same_bundle = match (&st.bundle, bundle) {
        (Some(a), Some(b)) => chars_eq(chars_of(a.as_str()).as_slice(), chars_of(b).as_slice()),
        (None, None) => true,
        _ => false,
    };
    if same_udid && same_bundle {
        let mut m = owned("runner already up: udid=");
        m.append(udid);
        m.append(" port=");
        push_decimal(&mut m, port as usize);
        m.append(" pid=");
        push_decimal(&mut m, st.pid as usize);
        Ok(m)
    } else {
        let mut m = owned("port ");
        push_decimal(&mut m, port as usize);
        m.append(" already serves a runner recorded for udid=");
        m.append(st.udid.as_str());
        m.append(" bundle=");
        m.append(debug_option_str(st.bundle.as_ref()).as_str());
        m.append(" — run `smix runner down` first");
        Err(m)
    }
}

/// How long `runner up` waits for `/health`: `SMIX_RUNNER_UP_TIMEOUT_SECS`
/// when it reads as a `u64`, else 300 seconds.
pub fn up_timeout_secs(value: Option<&str>) -> (t: u64)
    ensures
        t == match value {
            Some(v) => match parse_unsigned(v@, 0xFFFF_FFFF_FFFF_FFFF) {
                Ok(n) => n as u64,
                Err(_) => 300,
            },
            None => 300,
        },
{
    match value {
        Some(v) => match parse_u64_chars(chars_of(v).as_slice()) {
            Some(n) => n,
            None => 300,
        },
        None => 300,
    }
}

/// The line `runner up` prints once xcodebuild is started: a cold
/// rebuild (no derived data yet) is told it may take ten minutes.
pub open spec fn start_line(udid: Seq<char>, port: u16, pid: u32, cold: bool, log: Seq<char>, timeout: u64) -> Seq<char> {
    if cold {
        "runner starting: udid="@ + udid + " port="@ + decimal(port as nat) + " pid="@ + decimal(pid as nat)
            + " — COLD REBUILD expected up to 10 minutes (first run after upgrade compiles the XCUITest bundle for smix "@
            + CLI_VERSION@ + "). Log: "@ + log + ". Timeout "@ + decimal(timeout as nat) + "s."@
    } else {
        "runner starting: udid="@ + udid + " port="@ + decimal(port as nat) + " pid="@ + decimal(pid as nat)
            + " (warm rebuild ~3 s expected; log "@ + log + ", timeout "@ + decimal(timeout as nat) + "s)"@
    }
}

pub fn starting_line(udid: &str, port: u16, pid: u32, cold: bool, log: &str, timeout: u64) -> (s: String)
    ensures
        s@ == start_line(udid@, port, pid, cold, log@, timeout),
{
    let mut s = owned("runner starting: udid=");
    s.append(udid);
    s.append(" port=");
    push_decimal(&mut s, port as usize);
    s.append(" pid=");
    push_decimal(&mut s, pid as usize);
    if cold {
        s.append(
            " — COLD REBUILD expected up to 10 minutes (first run after upgrade compiles the XCUITest bundle for smix ",
        );
        s.append(CLI_VERSION);
        s.append("). Log: ");
        s.append(log);
        s.append(". Timeout ");
        push_u64(&mut s, timeout);
        s.append("s.");
    } else {
        s.append(" (warm rebuild ~3 s expected; log ");
        s.append(log);
        s.append(", timeout ");
        push_u64(&mut s, timeout);
        s.append("s)");
    }
    s
}

pub(crate) fn push_u64(s: &mut String, n: u64)
    ensures
        final(s)@ == old(s)@ + decimal(n as nat),
    decreases n,
{
    if n >= 10 {
        push_u64(s, n / 10);
    }
    let d = (n % 10) as usize;
    let mut digit = String::new();
    push_decimal(&mut digit, d);
    assert(decimal(d as nat) == seq![crate::text::digit_char(d as nat)]);
    s.append(digit.as_str());
    proof {
        if n >= 10 {
            assert(decimal(n as nat) == decimal((n / 10) as nat).push(crate::text::digit_char((n % 10) as nat)));
        }
    }
    assert(final(s)@ =~= old(s)@ + decimal(n as nat));
}

/// What the version a healthy runner reports means for `runner up`.
#[derive(Debug, Clone, PartialEq, Eq)]
pub enum VersionGate {
    /// Same version as the CLI: up, with this line.
    Matches(String),
    /// Another version: refuse, stop the runner, with this error.
    Mismatch(String),
    /// An older runner that does not say: warn (the first string, on
    /// stderr) and go on (the second, on stdout).
    Legacy(String, String),
}

/// Judge the reported version against the CLI's.
pub fn version_gate(port: u16, reported: Option<&str>) -> (g: VersionGate)
    ensures
        match reported {
            Some(v) => if v@ == CLI_VERSION@ {
                g matches VersionGate::Matches(line) && line@ == "runner up: http://localhost:"@ + decimal(
                    port as nat,
                ) + "/health = 200 (runner v"@ + v@ + ")"@
            } else {
                g matches VersionGate::Mismatch(m) && m@ == "runner version mismatch: CLI is v"@ + CLI_VERSION@
                    + " but the running SmixRunner reports v"@ + v@
                    + ". This means the on-disk runner project used by xcodebuild is out of sync with the installed CLI — the v1.0.4-v1.0.9 distribution gap the v1.0.10 auto-sync closes. Fix: `smix runner install --force` to re-extract the embedded runner sources, then retry `smix runner up`. If you're using an explicit --runner-project / $SMIX_RUNNER_PROJECT, either update that path to a v"@
                    + CLI_VERSION@ + " runner or drop the override."@
            },
            None => g matches VersionGate::Legacy(w, line) && w@
                == "runner up: warning — runner /health returned legacy body (no `runnerVersion` field). This runner predates v1.0.10 and cannot self-report its version. If you see missing routes (e.g. `/session/open` 404), run `smix runner install --force` to sync sources to v"@
                + CLI_VERSION@ + "."@ && line@ == "runner up: http://localhost:"@ + decimal(port as nat)
                + "/health = 200 (legacy body)"@,
        },
{
    match reported {
        Some(v) => {
            if chars_eq(chars_of(v).as_slice(), chars_of(CLI_VERSION).as_slice()) {
                let mut line = owned("runner up: http://localhost:");
                push_decimal(&mut line, port as usize);
                line.append("/health = 200 (runner v");
                line.append(v);
                line.append(")");
                VersionGate::Matches(line)
            } else {
                let mut m = owned("runner version mismatch: CLI is v");
                m.append(CLI_VERSION);
                m.append(" but the running SmixRunner reports v");
                m.append(v);
                m.append(
                    ". This means the on-disk runner project used by xcodebuild is out of sync with the installed CLI — the v1.0.4-v1.0.9 distribution gap the v1.0.10 auto-sync closes. Fix: `smix runner install --force` to re-extract the embedded runner sources, then retry `smix runner up`. If you're using an explicit --runner-project / $SMIX_RUNNER_PROJECT, either update that path to a v",
                );
                m.append(CLI_VERSION);
                m.append(" runner or drop the override.");
                VersionGate::Mismatch(m)
            }
        },
        None => {
            let mut w = owned(
                "runner up: warning — runner /health returned legacy body (no `runnerVersion` field). This runner predates v1.0.10 and cannot self-report its version. If you see missing routes (e.g. `/session/open` 404), run `smix runner install --force` to sync sources to v",
            );
            w.append(CLI_VERSION);
            w.append(".");
            let mut line = owned("runner up: http://localhost:");
            push_decimal(&mut line, port as usize);
            line.append("/health = 200 (legacy body)");
            VersionGate::Legacy(w, line)
        },
    }
}

// ---- where the runner project is ---------------------------------------------

/// The install-shipped runner directory: `$XDG_DATA_HOME/smix/runner`,
/// else `$HOME/.local/share/smix/runner`; none without either.
pub open spec fn installed_dir_spec(xdg: Option<Seq<char>>, home: Option<Seq<char>>) -> Option<Seq<char>> {
    match xdg {
        Some(x) => Some(path_join(x, "smix/runner"@)),
        None => match home {
            Some(h) => Some(path_join(path_join(h, ".local/share"@), "smix/runner"@)),
            None => None,
        },
    }
}

pub fn installed_runner_dir(xdg_data_home: Option<&str>, home: Option<&str>) -> (r: Option<String>)
    ensures
        match r {
            Some(d) => installed_dir_spec(
                match xdg_data_home {
                    Some(x) => Some(x@),
                    None => None,
                },
                match home {
                    Some(h) => Some(h@),
                    None => None,
                },
            ) == Some(d@),
            None => xdg_data_home is None && home is None,
        },
{
    match xdg_data_home {
        Some(x) => Some(join_path(x, "smix/runner")),
        None => match home {
            Some(h) => {
                let base = join_path(h, ".local/share");
                Some(join_path(base.as_str(), "smix/runner"))
            },
            None => None,
        },
    }
}

/// Where a runner project is looked for when none is named: the
/// install-shipped one, then the repo's own.
pub fn runner_project_candidates(installed_dir: Option<&str>, root: &str) -> (r: Vec<String>)
    ensures
        strs(r@) == (match installed_dir {
            Some(d) => seq![path_join(d@, "SmixRunner.xcodeproj"@)],
            None => seq![],
        }) + seq![path_join(root@, "swift-bridge/SmixRunner.xcodeproj"@)],
{
    let mut r: Vec<String> = Vec::new();
    match installed_dir {
        Some(d) => {
            r.push(installed_runner_project(d));
        },
        None => {},
    }
    r.push(join_path(root, "swift-bridge/SmixRunner.xcodeproj"));
    proof {
        assert(strs(r@) =~= (match installed_dir {
            Some(d) => seq![path_join(d@, "SmixRunner.xcodeproj"@)],
            None => seq![],
        }) + seq![path_join(root@, "swift-bridge/SmixRunner.xcodeproj"@)]);
    }
    r
}

/// The lines listing the candidates tried, `  - <path>` each.
pub open spec fn tried_list(cands: Seq<Seq<char>>) -> Seq<char> {
    join(cands.map_values(|c: Seq<char>| "  - "@ + c), "\n"@)
}

/// Which runner project `runner up` uses. An explicit one (flag or
/// environment) must exist: there is no falling back from it. Otherwise
/// the first candidate that exists; when none does, the error names the
/// last and lists all of them.
pub open spec fn project_choice(explicit: Option<(Seq<char>, bool)>, cands: Seq<(Seq<char>, bool)>) -> Result<Seq<char>, Seq<char>> {
    match explicit {
        Some((p, exists)) => if exists {
            Ok(p)
        } else {
            Err(
                "runner project missing: "@ + p
                    + "\nexplicit override (--runner-project or $SMIX_RUNNER_PROJECT) does not point to an existing SmixRunner.xcodeproj — fix the path, or unset the override to fall back to install-shipped / repo-local defaults."@,
            )
        },
        None => match first_existing(cands) {
            Some(i) => Ok(cands[i as int].0),
            None => Err(
                "runner project missing: "@ + (if cands.len() > 0 {
                    cands.last().0
                } else {
                    "<no candidates — this should not happen>"@
                }) + "\ntried:\n"@ + tried_list(cands.map_values(|c: (Seq<char>, bool)| c.0))
                    + "\nfix: (a) `smix runner install` to populate ~/.local/share/smix/runner/, or (b) pass `--runner-project <path>` on `smix runner up`, or (c) set $SMIX_RUNNER_PROJECT"@,
            ),
        },
    }
}

/// Index of the first candidate that exists.
pub open spec fn first_existing(cands: Seq<(Seq<char>, bool)>) -> Option<nat>
    decreases cands.len(),
{
    if cands.len() == 0 {
        None
    } else if cands[0].1 {
        Some(0)
    } else {
        match first_existing(cands.drop_first()) {
            Some(i) => Some(i + 1),
            None => None,
        }
    }
}

proof fn lemma_first_existing(cands: Seq<(Seq<char>, bool)>, i: nat)
    requires
        i <= cands.len(),
        forall|k: int| 0 <= k < i ==> !(#[trigger] cands[k]).1,
    ensures
        i < cands.len() && cands[i as int].1 ==> first_existing(cands) == Some(i),
        i == cands.len() ==> first_existing(cands) is None,
    decreases i,
{
    if i > 0 {
        assert(!cands[0].1);
        assert forall|k: int| 0 <= k < i - 1 implies !(#[trigger] cands.drop_first()[k]).1 by {
            assert(cands.drop_first()[k] == cands[k + 1]);
        }
        lemma_first_existing(cands.drop_first(), (i - 1) as nat);
    }
}

pub open spec fn cand_views(v: Seq<(String, bool)>) -> Seq<(Seq<char>, bool)> {
    v.map_values(|c: (String, bool)| (c.0@, c.1))
}

/// Choose the runner project from what exists, given the explicit
/// override (with whether it exists) and the candidates (likewise).
pub fn choose_runner_project(explicit: Option<(&str, bool)>, candidates: &[(String, bool)]) -> (r: Result<String, String>)
    ensures
        match r {
            Ok(p) => project_choice(match explicit {
                Some((p, e)) => Some((p@, e)),
                None => None,
            }, cand_views(candidates@)) == Ok::<Seq<char>, Seq<char>>(p@),
            Err(m) => project_choice(match explicit {
                Some((p, e)) => Some((p@, e)),
                None => None,
            }, cand_views(candidates@)) == Err::<Seq<char>, Seq<char>>(m@),
        },
{
    match explicit {
        Some((p, exists)) => {
            if exists {
                return Ok(owned(p));
            }
            let mut m = owned("runner project missing: ");
            m.append(p);
            m.append(
                "\nexplicit override (--runner-project or $SMIX_RUNNER_PROJECT) does not point to an existing SmixRunner.xcodeproj — fix the path, or unset the override to fall back to install-shipped / repo-local defaults.",
            );
            return Err(m);
        },
        None => {},
    }
    let ghost cv = cand_views(candidates@);
    let mut i: usize = 0;
    while i < candidates.len()
        invariant
            i <= candidates@.len(),
            explicit is None,
            cv == cand_views(candidates@),
            forall|k: int| 0 <= k < i ==> !(#[trigger] cv[k]).1,
        decreases candidates@.len() - i,
    {
        assert(cv[i as int] == (candidates@[i as int].0@, candidates@[i as int].1));
        if candidates[i].1 {
            proof {
                lemma_first_existing(cv, i as nat);
            }
            return Ok(owned(candidates[i].0.as_str()));
        }
        i = i + 1;
    }
    proof {
        lemma_first_existing(cv, i as nat);
    }
    let mut listed: Vec<String> = Vec::new();
    let mut j: usize = 0;
    while j < candidates.len()
        invariant
            j <= candidates@.len(),
            cv == cand_views(candidates@),
            strs(listed@) == cv.map_values(|c: (Seq<char>, bool)| c.0).take(j as int).map_values(
                |c: Seq<char>| "  - "@ + c,
            ),
        decreases candidates@.len() - j,
    {
        let mut line = owned("  - ");
        line.append(candidates[j].0.as_str());
        let ghost before = strs(listed@);
        listed.push(line);
        assert(strs(listed@) =~= before.push("  - "@ + cv[j as int].0));
        assert(cv.map_values(|c: (Seq<char>, bool)| c.0).take(j + 1).map_values(|c: Seq<char>| "  - "@ + c)
            =~= cv.map_values(|c: (Seq<char>, bool)| c.0).take(j as int).map_values(|c: Seq<char>| "  - "@ + c).push(
            "  - "@ + cv[j as int].0,
        ));
        j = j + 1;
    }
    assert(cv.map_values(|c: (Seq<char>, bool)| c.0).take(j as int) =~= cv.map_values(|c: (Seq<char>, bool)| c.0));
    let mut m = owned("runner project missing: ");
    if candidates.len() > 0 {
        assert(cv.last() == (candidates@[candidates@.len() - 1].0@, candidates@[candidates@.len() - 1].1));
        m.append(candidates[candidates.len() - 1].0.as_str());
    } else {
        m.append("<no candidates — this should not happen>");
    }
    m.append("\ntried:\n");
    m.append(join_strings(listed.as_slice(), "\n").as_str());
    m.append(
        "\nfix: (a) `smix runner install` to populate ~/.local/share/smix/runner/, or (b) pass `--runner-project <path>` on `smix runner up`, or (c) set $SMIX_RUNNER_PROJECT",
    );
    Err(m)
}

/// The last `n` lines of a text (all of them when it has fewer).
pub open spec fn tail_of(text: Seq<char>, n: nat) -> Seq<Seq<char>> {
    let ls = lines(text);
    ls.skip(if ls.len() >= n {
        ls.len() - n
    } else {
        0
    })
}

/// The last `n` lines of a log, oldest first.
pub fn last_lines(text: &str, n: usize) -> (r: Vec<String>)
    ensures
        strs(r@) == tail_of(text@, n as nat),
{
    let ls = lines_of(chars_of(text).as_slice());
    let start = if ls.len() >= n {
        ls.len() - n
    } else {
        0
    };
    let mut tail: Vec<String> = Vec::new();
    let mut i: usize = start;
    while i < ls.len()
        invariant
            start <= i <= ls@.len(),
            strs(tail@) == views(ls@).subrange(start as int, i as int),
        decreases ls@.len() - i,
    {
        let ghost before = strs(tail@);
        tail.push(string_of(ls[i].as_slice()));
        assert(strs(tail@) =~= before.push(views(ls@)[i as int]));
        assert(views(ls@).subrange(start as int, i + 1) =~= views(ls@).subrange(start as int, i as int).push(
            views(ls@)[i as int],
        ));
        i = i + 1;
    }
    assert(views(ls@).subrange(start as int, i as int) =~= views(ls@).skip(start as int));
    tail
}

/// The last `n` lines of a log joined by newlines: what an early exit
/// of xcodebuild is reported with.
pub fn log_tail(text: &str, n: usize) -> (s: String)
    ensures
        s@ == join(tail_of(text@, n as nat), "\n"@),
{
    let tail = last_lines(text, n);
    join_strings(tail.as_slice(), "\n")
}

// ---- runner down ----------------------------------------------------------------

/// Whether `runner down` stops the recorded supervisor: it is not this
/// process, and its command line is still a smix supervisor.
pub open spec fn supervisor_stoppable(supervisor_pid: Option<u32>, self_pid: u32, command: Option<Seq<char>>) -> bool {
    match (supervisor_pid, command) {
        (Some(p), Some(c)) => p != self_pid && (contains_seq(c, "smix"@) || contains_seq(c, "supervise"@)),
        _ => false,
    }
}

pub fn stops_supervisor(supervisor_pid: Option<u32>, self_pid: u32, command: Option<&str>) -> (r: bool)
    ensures
        r == supervisor_stoppable(supervisor_pid, self_pid, match command {
            Some(c) => Some(c@),
            None => None,
        }),
{
    match (supervisor_pid, command) {
        (Some(p), Some(c)) => {
            let cs = chars_of(c);
            let a = chars_of("smix");
            let b = chars_of("supervise");
            p != self_pid && (contains_chars(cs.as_slice(), a.as_slice()) || contains_chars(cs.as_slice(), b.as_slice()))
        },
        _ => false,
    }
}

/// What the recorded runner pid turns out to be.
#[derive(Debug, Clone, PartialEq, Eq)]
pub enum RunnerHandle {
    /// Still xcodebuild: stop it, saying this.
    Stop(String),
    /// Now some other process: drop the record without killing it.
    Stale(String),
    /// Gone: drop the record.
    Gone(String),
}

/// Judge the recorded runner by what its pid runs now.
pub fn runner_handle(pid: u32, udid: &str, command: Option<&str>) -> (h: RunnerHandle)
    ensures
        match command {
            Some(c) => if contains_seq(c@, "xcodebuild"@) {
                h matches RunnerHandle::Stop(m) && m@ == "stopping runner: pid="@ + decimal(pid as nat) + " udid="@ + udid@
            } else {
                h matches RunnerHandle::Stale(m) && m@ == "stale handle: pid "@ + decimal(pid as nat) + " is now "@
                    + debug_quoted(c@) + " (not xcodebuild) — dropping state without killing"@
            },
            None => h matches RunnerHandle::Gone(m) && m@ == "runner pid "@ + decimal(pid as nat)
                + " already gone — dropping stale handle"@,
        },
{
    match command {
        Some(c) => {
            let x = chars_of("xcodebuild");
            if contains_chars(chars_of(c).as_slice(), x.as_slice()) {
                let mut m = owned("stopping runner: pid=");
                push_decimal(&mut m, pid as usize);
                m.append(" udid=");
                m.append(udid);
                RunnerHandle::Stop(m)
            } else {
                let mut m = owned("stale handle: pid ");
                push_decimal(&mut m, pid as usize);
                m.append(" is now ");
                m.append(debug_str(c).as_str());
                m.append(" (not xcodebuild) — dropping state without killing");
                RunnerHandle::Stale(m)
            }
        },
        None => {
            let mut m = owned("runner pid ");
            push_decimal(&mut m, pid as usize);
            m.append(" already gone — dropping stale handle");
            RunnerHandle::Gone(m)
        },
    }
}


/// What `runner cycle` does: bring the recorded runner down and back up
/// on the recorded device, port and bundle, keeping its supervisor.
#[derive(Debug, Clone, PartialEq)]
pub struct CyclePlan {
    pub udid: String,
    /// The recorded port, which wins over the one asked for.
    pub port: u16,
    pub bundle: Option<String>,
    /// Whether a supervisor is re-attached after the new runner is up.
    pub supervise: bool,
    /// Said when the recorded port is not the one asked for.
    pub port_note: Option<String>,
    /// The line announcing the cycle.
    pub banner: String,
}

/// An optional string by its characters.
pub open spec fn opt_chars(o: Option<String>) -> Option<Seq<char>> {
    match o {
        Some(s) => Some(s@),
        None => None,
    }
}

/// Plan a cycle from the recorded state: refused when nothing is
/// recorded, since a cycle only cycles a known runner.
pub fn cycle_plan(recorded: Option<&RunnerState>, port: u16) -> (r: Result<CyclePlan, String>)
    ensures
        recorded is None ==> (r matches Err(m) && m@
            == "no runner state.json — cycle only cycles a known runner; run `smix runner up <device> [--bundle <id>]` for a cold start"@),
        recorded matches Some(st) ==> (r matches Ok(p) && p.udid@ == st.udid@ && p.port == st.port
            && opt_chars(p.bundle) == opt_chars(st.bundle) && p.supervise == st.supervisor_pid is Some
            && (st.port == port ==> p.port_note is None) && (st.port != port ==> (p.port_note matches Some(n) && n@
            == "note: state.json port "@ + decimal(st.port as nat) + " differs from --runner-port "@ + decimal(
            port as nat,
        ) + "; cycling on state.json's "@ + decimal(st.port as nat))) && p.banner@ == "cycling runner: udid="@
            + st.udid@ + " port="@ + decimal(st.port as nat) + " bundle="@ + debug_option(opt_chars(st.bundle))),
{
    let st = match recorded {
        None => {
            return Err(
                owned(
                    "no runner state.json — cycle only cycles a known runner; run `smix runner up <device> [--bundle <id>]` for a cold start",
                ),
            );
        },
        Some(st) => st,
    };
    let port_note = if st.port != port {
        let mut n = owned("note: state.json port ");
        push_decimal(&mut n, st.port as usize);
        n.append(" differs from --runner-port ");
        push_decimal(&mut n, port as usize);
        n.append("; cycling on state.json's ");
        push_decimal(&mut n, st.port as usize);
        Some(n)
    } else {
        None
    };
    let mut banner = owned("cycling runner: udid=");
    banner.append(st.udid.as_str());
    banner.append(" port=");
    push_decimal(&mut banner, st.port as usize);
    banner.append(" bundle=");
    banner.append(debug_option_str(st.bundle.as_ref()).as_str());
    let bundle = match &st.bundle {
        Some(b) => Some(owned(b.as_str())),
        None => None,
    };
    Ok(CyclePlan {
        udid: owned(st.udid.as_str()),
        port: st.port,
        bundle,
        supervise: st.supervisor_pid.is_some(),
        port_note,
        banner,
    })
}


// ---- runner up: waiting for /health -------------------------------------------

/// The wait for a freshly started runner: when it started, when to give
/// up, when progress was last reported, and whether a cold rebuild is
/// expected (which reports progress every 30 s).
#[derive(Debug, Clone, PartialEq, Eq)]
pub struct UpWait {
    pub started_ms: u64,
    pub deadline_ms: u64,
    pub last_heartbeat_ms: u64,
    pub cold: bool,
    pub timeout_secs: u64,
}

/// What one poll of the wait comes to.
#[derive(Debug, Clone, PartialEq, Eq)]
pub enum UpPoll {
    /// The deadline passed: stop the session with SIGINT, delete the
    /// record, and fail with this.
    TimedOut { error: String },
    /// xcodebuild ended before the runner answered: delete the record
    /// and fail with this.
    ExitedEarly { error: String },
    /// `/health` answered: go on to the version gate.
    Healthy,
    /// Nothing yet: wait two seconds and poll again.
    Wait,
}

/// Start waiting at `now_ms` for `timeout_secs` at most.
pub fn begin_up_wait(now_ms: u64, timeout_secs: u64, cold: bool) -> (w: UpWait)
    ensures
        w.started_ms == now_ms && w.last_heartbeat_ms == now_ms && w.cold == cold && w.timeout_secs == timeout_secs,
        w.deadline_ms as int == if now_ms as int + timeout_secs as int * 1000 > u64::MAX as int {
            u64::MAX as int
        } else {
            now_ms as int + timeout_secs as int * 1000
        },
{
    let room = u64::MAX - now_ms;
    let deadline = if timeout_secs > room / 1000 {
        u64::MAX
    } else {
        now_ms + timeout_secs * 1000
    };
    assert(timeout_secs > room / 1000 ==> now_ms as int + timeout_secs as int * 1000 > u64::MAX as int) by (nonlinear_arith)
        requires room == u64::MAX - now_ms;
    UpWait { started_ms: now_ms, deadline_ms: deadline, last_heartbeat_ms: now_ms, cold, timeout_secs }
}

/// One poll at `now_ms`, given whether xcodebuild has exited (and how)
/// and whether `/health` answers, with the log's text for an error's
/// tail. In order: past the deadline the wait times out; a cold rebuild
/// reports progress every 30 s; an exited xcodebuild fails; a healthy
/// runner ends the wait; otherwise wait on.
pub fn up_poll(w: &mut UpWait, now_ms: u64, exited: Option<&str>, healthy: bool, log_text: &str) -> (r: (Option<String>, UpPoll))
    ensures
        final(w).started_ms == old(w).started_ms && final(w).deadline_ms == old(w).deadline_ms && final(w).cold
            == old(w).cold && final(w).timeout_secs == old(w).timeout_secs,
        now_ms >= old(w).deadline_ms ==> r.0 is None && final(w).last_heartbeat_ms == old(w).last_heartbeat_ms && (r.1 matches UpPoll::TimedOut { error } && error@
            == "runner did not become healthy within "@ + decimal(old(w).timeout_secs as nat) + "s — sent SIGINT; log tail:\n"@
            + join(tail_of(log_text@, 25), "\n"@)),
        now_ms < old(w).deadline_ms ==> {
            let due = old(w).cold && now_ms >= old(w).last_heartbeat_ms && now_ms - old(w).last_heartbeat_ms >= 30_000;
            &&& due ==> (r.0 matches Some(h) && h@ == "runner up: xcodebuild still working ("@ + decimal(
                (if now_ms >= old(w).started_ms { (now_ms - old(w).started_ms) / 1000 } else { 0 }) as nat,
            ) + "s elapsed)"@) && final(w).last_heartbeat_ms == now_ms
            &&& !due ==> r.0 is None && final(w).last_heartbeat_ms == old(w).last_heartbeat_ms
            &&& match exited {
                Some(status) => r.1 matches UpPoll::ExitedEarly { error } && error@ == "xcodebuild exited early ("@
                    + status@ + ") — log tail:\n"@ + join(tail_of(log_text@, 25), "\n"@),
                None => if healthy {
                    r.1 == UpPoll::Healthy
                } else {
                    r.1 == UpPoll::Wait
                },
            }
        },
{
    if now_ms >= w.deadline_ms {
        let mut e = owned("runner did not become healthy within ");
        push_u64(&mut e, w.timeout_secs);
        e.append("s — sent SIGINT; log tail:\n");
        e.append(log_tail(log_text, 25).as_str());
        return (None, UpPoll::TimedOut { error: e });
    }
    let mut heartbeat: Option<String> = None;
    if w.cold && now_ms >= w.last_heartbeat_ms && now_ms - w.last_heartbeat_ms >= 30_000 {
        let elapsed: u64 = if now_ms >= w.started_ms { (now_ms - w.started_ms) / 1000 } else { 0 };
        let mut h = owned("runner up: xcodebuild still working (");
        push_u64(&mut h, elapsed);
        h.append("s elapsed)");
        heartbeat = Some(h);
        w.last_heartbeat_ms = now_ms;
    }
    match exited {
        Some(status) => {
            let mut e = owned("xcodebuild exited early (");
            e.append(status);
            e.append(") — log tail:\n");
            e.append(log_tail(log_text, 25).as_str());
            (heartbeat, UpPoll::ExitedEarly { error: e })
        },
        None => {
            if healthy {
                (heartbeat, UpPoll::Healthy)
            } else {
                (heartbeat, UpPoll::Wait)
            }
        },
    }
}


/// A port that already serves is taken for the runner asked for only
/// when the record names the same device and the same bundle (both
/// absent counts as the same); a record of another device or another
/// bundle, or no record at all, is refused.
pub proof fn lemma_only_the_same_runner_counts_as_already_up(
    port: u16,
    udid: Seq<char>,
    bundle: Option<Seq<char>>,
    recorded: Option<(Seq<char>, Option<Seq<char>>, u32)>,
)
    ensures
        serving_verdict(port, udid, bundle, recorded) is Ok <==> (recorded matches Some((u, b, _)) && u == udid && b
            == bundle),
{
}

} // verus!
