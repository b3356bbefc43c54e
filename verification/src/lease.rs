//! What the device ledger says, in sentences: whether a device is free,
//! held, adoptable or abandoned; whether it is recording; and whether a
//! teardown may turn it off.

use vstd::prelude::*;
use crate::text::{ascii_lower, chars_eq, chars_of, decimal, owned, push_decimal, to_ascii_lower};
use crate::down::{pair_views, same_ignoring_ascii_case};

verus! {

broadcast use vstd::string::group_string_axioms;

/// Why an abandoned lease is stale.
#[derive(Debug, Clone, Copy, PartialEq, Eq, Structural)]
pub enum StaleReason {
    HolderExited,
    PidRecycled,
    HeartbeatExpired,
}

/// Whether a command may take a device, as the ledger judged it.
#[derive(Debug, Clone, PartialEq, Eq)]
pub enum Admission {
    /// Nobody holds it.
    Granted,
    /// Somebody holds it: their pid and command, when they took it, and
    /// whether the process that took it is still alive.
    Denied { holder_alive: bool, pid: u32, cmd: String, acquired_at: String },
    /// A finished session left its runner serving; the next command adopts it.
    Adoptable,
    /// The holder is gone; `owed` closes are still outstanding.
    Reclaimable { owed: usize, reason: StaleReason },
}

/// The words for each stale reason.
pub open spec fn stale_words(r: StaleReason) -> Seq<char> {
    match r {
        StaleReason::HolderExited => "holder exited"@,
        StaleReason::PidRecycled => "holder gone, its pid was reused"@,
        StaleReason::HeartbeatExpired => "holder stopped responding"@,
    }
}

/// The sentence for one device's admission.
pub open spec fn admission_sentence(device_id: Seq<char>, a: Admission) -> Seq<char> {
    match a {
        Admission::Granted => device_id + ": free"@,
        Admission::Denied { holder_alive, pid, cmd, acquired_at } => if holder_alive {
            device_id + ": held by pid "@ + decimal(pid as nat) + " ("@ + cmd@ + ") since "@ + acquired_at@
        } else {
            device_id + ": in use — the command that took it (pid "@ + decimal(pid as nat)
                + ") has exited, but what it started is still running"@
        },
        Admission::Adoptable => device_id
            + ": a finished session left its runner serving — the next command takes the lease over as-is"@,
        Admission::Reclaimable { owed, reason } => device_id + ": abandoned ("@ + stale_words(reason)
            + ") — "@ + decimal(owed as nat) + " close(s) owed"@,
    }
}

/// Render the verdict for one device.
pub fn describe(device_id: &str, admission: &Admission) -> (s: String)
    ensures
        s@ == admission_sentence(device_id@, *admission),
{
    let mut s = owned(device_id);
    match admission {
        Admission::Granted => {
            s.append(": free");
        },
        Admission::Denied { holder_alive, pid, cmd, acquired_at } => {
            if *holder_alive {
                s.append(": held by pid ");
                push_decimal(&mut s, *pid as usize);
                s.append(" (");
                s.append(cmd.as_str());
                s.append(") since ");
                s.append(acquired_at.as_str());
            } else {
                s.append(": in use — the command that took it (pid ");
                push_decimal(&mut s, *pid as usize);
                s.append(") has exited, but what it started is still running");
            }
        },
        Admission::Adoptable => {
            s.append(
                ": a finished session left its runner serving — the next command takes the lease over as-is",
            );
        },
        Admission::Reclaimable { owed, reason } => {
            s.append(": abandoned (");
            match reason {
                StaleReason::HolderExited => s.append("holder exited"),
                StaleReason::PidRecycled => s.append("holder gone, its pid was reused"),
                StaleReason::HeartbeatExpired => s.append("holder stopped responding"),
            }
            s.append(") — ");
            push_decimal(&mut s, *owed);
            s.append(" close(s) owed");
        },
    }
    s
}

/// A recording row of the ledger: where it writes, the recorder's pid,
/// and whether that process is still the one that took the row.
#[derive(Debug, Clone)]
pub struct Recording {
    pub path: String,
    pub pid: u32,
    pub live: bool,
}

/// The sentence for a device's recording state.
pub open spec fn recording_sentence(device_id: Seq<char>, r: Option<Recording>) -> Seq<char> {
    match r {
        None => device_id + ": not recording"@,
        Some(rec) => if rec.live {
            device_id + ": recording to "@ + rec.path@ + " (pid "@ + decimal(rec.pid as nat) + ")"@
        } else {
            device_id + ": a recording to "@ + rec.path@ + " was left behind by pid "@ + decimal(
                rec.pid as nat,
            ) + " — run `smix lease reconcile "@ + device_id + "` to close it"@
        },
    }
}

/// What `record status` found, said in a sentence: where the file is
/// going, or that a row outlived its recorder.
pub fn describe_status(device_id: &str, recording: Option<&Recording>) -> (s: String)
    ensures
        s@ == recording_sentence(
            device_id@,
            match recording {
                Some(r) => Some(*r),
                None => None,
            },
        ),
{
    let mut s = owned(device_id);
    match recording {
        None => {
            s.append(": not recording");
        },
        Some(rec) => {
            if rec.live {
                s.append(": recording to ");
                s.append(rec.path.as_str());
                s.append(" (pid ");
                push_decimal(&mut s, rec.pid as usize);
                s.append(")");
            } else {
                s.append(": a recording to ");
                s.append(rec.path.as_str());
                s.append(" was left behind by pid ");
                push_decimal(&mut s, rec.pid as usize);
                s.append(" — run `smix lease reconcile ");
                s.append(device_id);
                s.append("` to close it");
            }
        },
    }
    s
}

/// May a teardown turn a device off?
#[derive(Debug, PartialEq)]
pub enum Teardown {
    Proceed,
    NotOurs,
    OursButHeld { pid: u32 },
}

/// Both must hold: the ledger's boot row says smix started the device
/// (`booted_by_us`), and nobody alive holds it now.
pub fn teardown_verdict(booted_by_us: bool, admission: Option<&Admission>) -> (t: Teardown)
    ensures
        !booted_by_us ==> t == Teardown::NotOurs,
        booted_by_us ==> t == match admission {
            Some(Admission::Denied { holder_alive: true, pid, .. }) => Teardown::OursButHeld { pid: *pid },
            _ => Teardown::Proceed,
        },
        t == Teardown::Proceed <==> booted_by_us && !(admission matches Some(
            Admission::Denied { holder_alive: true, .. },
        )),
{
    if !booted_by_us {
        return Teardown::NotOurs;
    }
    match admission {
        Some(Admission::Denied { holder_alive, pid, .. }) => {
            if *holder_alive {
                Teardown::OursButHeld { pid: *pid }
            } else {
                Teardown::Proceed
            }
        },
        _ => Teardown::Proceed,
    }
}


// ---- lease owner / claim / release / migrate ----------------------------------

/// What a device's ledger says about who has it: whether smix booted it,
/// when it was claimed, its holder's pid and command, and whether that
/// holder is still the process that took it.
#[derive(Debug, Clone)]
pub struct LedgerFacts {
    pub booted_by_us: bool,
    pub claimed_at: Option<String>,
    pub holder_pid: u32,
    pub holder_cmd: String,
    pub alive: bool,
}

pub open spec fn liveness(alive: bool) -> Seq<char> {
    if alive {
        "still running"@
    } else {
        "exited"@
    }
}

/// `smix lease owner`: the exit code and the sentence. `3` when nothing
/// here booted or claimed it; `0` when smix booted it or it was claimed,
/// the sentence saying which.
pub open spec fn owner_answer(udid: Seq<char>, ledger: Option<LedgerFacts>) -> (u8, Seq<char>) {
    match ledger {
        None => (3, udid + ": no ledger — nothing here booted it"@),
        Some(l) => if !l.booted_by_us && l.claimed_at is None {
            (
                3,
                udid + ": a ledger exists (holder pid "@ + decimal(l.holder_pid as nat)
                    + ") but no row says smix booted or claimed it"@,
            )
        } else if l.booted_by_us {
            (
                0,
                udid + ": booted by smix — holder pid "@ + decimal(l.holder_pid as nat) + " ("@
                    + l.holder_cmd@ + "), "@ + liveness(l.alive),
            )
        } else {
            (
                0,
                udid + ": claimed at "@ + l.claimed_at->0@ + " — holder pid "@ + decimal(l.holder_pid as nat)
                    + " ("@ + l.holder_cmd@ + "), "@ + liveness(l.alive)
                    + ". Nothing here booted it, so it is this machine's to drive and not to shut down."@,
            )
        },
    }
}

/// Who booted this device, in one line and an exit code.
pub fn owner_report(udid: &str, ledger: Option<&LedgerFacts>) -> (r: (u8, String))
    ensures
        (r.0, r.1@) == owner_answer(
            udid@,
            match ledger {
                Some(l) => Some(*l),
                None => None,
            },
        ),
{
    let mut s = owned(udid);
    let l = match ledger {
        None => {
            s.append(": no ledger — nothing here booted it");
            return (3, s);
        },
        Some(l) => l,
    };
    if !l.booted_by_us && l.claimed_at.is_none() {
        s.append(": a ledger exists (holder pid ");
        push_decimal(&mut s, l.holder_pid as usize);
        s.append(") but no row says smix booted or claimed it");
        return (3, s);
    }
    if l.booted_by_us {
        s.append(": booted by smix — holder pid ");
    } else {
        s.append(": claimed at ");
        match &l.claimed_at {
            Some(at) => s.append(at.as_str()),
            None => {},
        }
        s.append(" — holder pid ");
    }
    push_decimal(&mut s, l.holder_pid as usize);
    s.append(" (");
    s.append(l.holder_cmd.as_str());
    s.append("), ");
    if l.alive {
        s.append("still running");
    } else {
        s.append("exited");
    }
    if !l.booted_by_us {
        s.append(". Nothing here booted it, so it is this machine's to drive and not to shut down.");
    }
    (0, s)
}

/// What `smix lease claim` does.
#[derive(Debug, Clone, PartialEq, Eq)]
pub enum ClaimVerdict {
    /// Somebody holds it: say so and exit 3.
    Held(String),
    /// smix booted it; nothing to claim, exit 0.
    AlreadyAnswered(String),
    /// Record the claim, then say this, exit 0.
    Record(String),
}

pub open spec fn claim_answer(udid: Seq<char>, admission: Admission, booted_by_us: bool) -> (nat, Seq<char>) {
    match admission {
        Admission::Denied { pid, cmd, acquired_at, .. } => (
            0,
            udid + ": held by pid "@ + decimal(pid as nat) + " ("@ + cmd@ + ") since "@ + acquired_at@
                + " — not a device to claim"@,
        ),
        _ => if booted_by_us {
            (1, udid + ": smix booted this one — it is already answered for"@)
        } else {
            (
                2,
                udid + ": claimed. Yours to drive; not yours to shut down, because nothing here booted it. `smix lease release "@
                    + udid + "` ends it, and so does the device going off."@,
            )
        },
    }
}

pub open spec fn claim_view(v: ClaimVerdict) -> (nat, Seq<char>) {
    match v {
        ClaimVerdict::Held(s) => (0, s@),
        ClaimVerdict::AlreadyAnswered(s) => (1, s@),
        ClaimVerdict::Record(s) => (2, s@),
    }
}

/// Whether a device may be claimed: never over a live session, and not
/// when smix booted it; otherwise the claim is recorded.
pub fn claim_verdict(udid: &str, admission: &Admission, booted_by_us: bool) -> (v: ClaimVerdict)
    ensures
        claim_view(v) == claim_answer(udid@, *admission, booted_by_us),
{
    let mut s = owned(udid);
    match admission {
        Admission::Denied { pid, cmd, acquired_at, .. } => {
            s.append(": held by pid ");
            push_decimal(&mut s, *pid as usize);
            s.append(" (");
            s.append(cmd.as_str());
            s.append(") since ");
            s.append(acquired_at.as_str());
            s.append(" — not a device to claim");
            ClaimVerdict::Held(s)
        },
        _ => {
            if booted_by_us {
                s.append(": smix booted this one — it is already answered for");
                ClaimVerdict::AlreadyAnswered(s)
            } else {
                s.append(
                    ": claimed. Yours to drive; not yours to shut down, because nothing here booted it. `smix lease release ",
                );
                s.append(udid);
                s.append("` ends it, and so does the device going off.");
                ClaimVerdict::Record(s)
            }
        },
    }
}

/// A claim over a live session is never recorded.
pub proof fn lemma_a_live_session_is_never_claimed(udid: Seq<char>, admission: Admission, booted_by_us: bool)
    requires
        admission is Denied,
    ensures
        claim_answer(udid, admission, booted_by_us).0 == 0,
{
}

/// What one ledger met while folding a checkout's ledgers into this
/// machine's comes to.
#[derive(Debug, Clone, Copy, PartialEq, Eq, Structural)]
pub enum MigrateVerdict {
    /// None here yet: it moves.
    Move,
    /// The same holder's ledger is already here.
    AlreadyHere,
    /// Two holders, one device: left for a person.
    Conflict,
}

/// Judge one incoming ledger against this machine's, by holder pid.
pub fn migrate_verdict(existing_holder: Option<u32>, incoming_holder: u32) -> (v: MigrateVerdict)
    ensures
        v == match existing_holder {
            None => MigrateVerdict::Move,
            Some(p) => if p == incoming_holder {
                MigrateVerdict::AlreadyHere
            } else {
                MigrateVerdict::Conflict
            },
        },
{
    match existing_holder {
        None => MigrateVerdict::Move,
        Some(p) => {
            if p == incoming_holder {
                MigrateVerdict::AlreadyHere
            } else {
                MigrateVerdict::Conflict
            }
        },
    }
}

/// How a migration ends: how many moved (or would), where to, and an
/// error when any device had a ledger in two places.
pub fn migrate_outcome(moved: usize, refused: usize, dry_run: bool, leases: &str) -> (r: (Vec<String>, Result<(), String>))
    ensures
        crate::text::strs(r.0@) == (if dry_run {
            seq![decimal(moved as nat) + " ledger(s) would move into "@ + leases@ + "; nothing was written"@]
        } else if refused > 0 {
            seq![decimal(moved as nat) + " ledger(s) now in "@ + leases@]
        } else {
            seq![decimal(moved as nat) + " ledger(s) now in "@ + leases@, "the source ledgers are untouched"@]
        }),
        refused > 0 ==> (r.1 matches Err(m) && m@ == decimal(refused as nat)
            + " device(s) had a ledger in two places and were left alone"@),
        refused == 0 ==> r.1 is Ok,
{
    let mut lines: Vec<String> = Vec::new();
    let mut first = String::new();
    push_decimal(&mut first, moved);
    if dry_run {
        first.append(" ledger(s) would move into ");
        first.append(leases);
        first.append("; nothing was written");
    } else {
        first.append(" ledger(s) now in ");
        first.append(leases);
    }
    lines.push(first);
    if refused > 0 {
        let mut m = String::new();
        push_decimal(&mut m, refused);
        m.append(" device(s) had a ledger in two places and were left alone");
        return (lines, Err(m));
    }
    if !dry_run {
        lines.push(owned("the source ledgers are untouched"));
    }
    (lines, Ok(()))
}


/// Whether a device is switched on, as far as this machine can tell.
/// `Unknown` is not `Off`: a device simctl does not list (an Android
/// serial, a physical iPhone) has a state nobody here can see.
#[derive(Debug, Clone, Copy, PartialEq, Eq, Structural)]
pub enum Power {
    On,
    Off,
    Unknown,
}

/// The power of `id` from simctl's device list (`(udid, state)` pairs;
/// `None` when simctl could not be asked): the first entry whose UDID
/// matches in any ASCII case decides, `On` exactly when it is `Booted`.
pub open spec fn power_spec(id: Seq<char>, listed: Option<Seq<(Seq<char>, Seq<char>)>>) -> Power {
    match listed {
        None => Power::Unknown,
        Some(ds) => if exists|k: int| 0 <= k < ds.len() && same_ignoring_ascii_case(#[trigger] ds[k].0, id) {
            let k = choose|k: int|
                0 <= k < ds.len() && same_ignoring_ascii_case(#[trigger] ds[k].0, id) && forall|j: int|
                    0 <= j < k ==> !same_ignoring_ascii_case(#[trigger] ds[j].0, id);
            if ds[k].1 == "Booted"@ {
                Power::On
            } else {
                Power::Off
            }
        } else {
            Power::Unknown
        },
    }
}

pub fn power_of(id: &str, listed: Option<&[(String, String)]>) -> (p: Power)
    ensures
        p == power_spec(id@, match listed {
            Some(ds) => Some(pair_views(ds@)),
            None => None,
        }),
{
    match listed {
        None => Power::Unknown,
        Some(ds) => power_in(id, ds),
    }
}

fn power_in(id: &str, ds: &[(String, String)]) -> (p: Power)
    ensures
        p == power_spec(id@, Some(pair_views(ds@))),
{
    let ghost pv = pair_views(ds@);
    let lid = to_ascii_lower(id);
    let booted = chars_of("Booted");
    proof {
        reveal_strlit("Booted");
    }
    let mut i: usize = 0;
    while i < ds.len()
        invariant
            i <= ds@.len(),
            pv == pair_views(ds@),
            lid@ == ascii_lower(id@),
            booted@ == "Booted"@,
            forall|j: int| 0 <= j < i ==> !same_ignoring_ascii_case(#[trigger] pv[j].0, id@),
        decreases ds@.len() - i,
    {
        let lo = to_ascii_lower(ds[i].0.as_str());
        assert(pv[i as int] == (ds@[i as int].0@, ds@[i as int].1@));
        if chars_eq(lo.as_slice(), lid.as_slice()) {
            let st = chars_of(ds[i].1.as_str());
            proof {
                assert(same_ignoring_ascii_case(pv[i as int].0, id@));
                assert(0 <= i < pv.len() && same_ignoring_ascii_case(pv[i as int].0, id@) && forall|j: int|
                    0 <= j < i ==> !same_ignoring_ascii_case(#[trigger] pv[j].0, id@));
                let k = choose|k: int|
                    0 <= k < pv.len() && same_ignoring_ascii_case(#[trigger] pv[k].0, id@) && forall|j: int|
                        0 <= j < k ==> !same_ignoring_ascii_case(#[trigger] pv[j].0, id@);
                if k > i {
                    assert(!same_ignoring_ascii_case(pv[i as int].0, id@));
                }
                assert(k == i);
            }
            if chars_eq(st.as_slice(), booted.as_slice()) {
                return Power::On;
            } else {
                return Power::Off;
            }
        }
        i = i + 1;
    }
    Power::Unknown
}

/// The last line of `lease prune`: how many ledgers went, or would.
pub fn prune_summary(gone: usize, dry_run: bool) -> (s: String)
    ensures
        s@ == decimal(gone as nat) + if dry_run {
            " ledger(s) would be removed"@
        } else {
            " ledger(s) removed"@
        },
{
    let mut s = String::new();
    push_decimal(&mut s, gone);
    if dry_run {
        s.append(" ledger(s) would be removed");
    } else {
        s.append(" ledger(s) removed");
    }
    s
}

} // verus!
