//! `smix down` and the ledger sweeps: which ledgers there are, which a
//! sweep leaves alone, what it keeps, and which processes it looks for.

use vstd::prelude::*;
use crate::a11y::{chars_lt, key_lt, lemma_key_lt_asymmetric, lemma_key_lt_total, lemma_key_lt_transitive};
use crate::lease::Teardown;
use crate::text::{ascii_lower, chars_eq, chars_of, decimal, owned, push_decimal, string_of, strs, to_ascii_lower};

verus! {

broadcast use vstd::seq_lib::group_to_multiset_ensures;

/// The suffix every ledger file carries.
pub open spec fn json_suffix() -> Seq<char> {
    seq!['.', 'j', 's', 'o', 'n']
}

/// The device id a ledger file stands for: its name without `.json`;
/// nothing for any other file.
pub open spec fn ledger_id(name: Seq<char>) -> Option<Seq<char>> {
    if name.len() >= 5 && name.skip(name.len() - 5) == json_suffix() {
        Some(name.take(name.len() - 5))
    } else {
        None
    }
}

/// The ids of the ledger files among `names`, in listing order.
pub open spec fn ledger_ids_of(names: Seq<Seq<char>>) -> Seq<Seq<char>>
    decreases names.len(),
{
    if names.len() == 0 {
        seq![]
    } else {
        let rest = ledger_ids_of(names.drop_last());
        match ledger_id(names.last()) {
            Some(id) => rest.push(id),
            None => rest,
        }
    }
}

/// Never a later entry before an earlier one, by character order (the
/// order `String`'s `Ord` gives).
pub open spec fn ordered(s: Seq<Seq<char>>) -> bool {
    forall|i: int, j: int| 0 <= i < j < s.len() ==> !key_lt(#[trigger] s[j], #[trigger] s[i])
}

fn strip_json(name: &str) -> (r: Option<Vec<char>>)
    ensures
        match r {
            Some(v) => ledger_id(name@) == Some(v@),
            None => ledger_id(name@) is None,
        },
{
    let cs = chars_of(name);
    let n = cs.len();
    if n < 5 {
        return None;
    }
    let suffix = ['.', 'j', 's', 'o', 'n'];
    let mut k: usize = 0;
    while k < 5
        invariant
            n == cs@.len(),
            n >= 5,
            k <= 5,
            cs@ == name@,
            suffix@ == json_suffix(),
            forall|m: int| 0 <= m < k ==> cs@[n - 5 + m] == json_suffix()[m],
        decreases 5 - k,
    {
        if cs[n - 5 + k] != suffix[k] {
            assert(name@.skip(n - 5)[k as int] != json_suffix()[k as int]);
            return None;
        }
        k = k + 1;
    }
    assert(name@.skip(n - 5) =~= json_suffix());
    let mut id: Vec<char> = Vec::new();
    let mut i: usize = 0;
    while i < n - 5
        invariant
            n == cs@.len(),
            n >= 5,
            i <= n - 5,
            id@ == cs@.take(i as int),
        decreases n - 5 - i,
    {
        id.push(cs[i]);
        assert(cs@.take(i + 1) =~= cs@.take(i as int).push(cs@[i as int]));
        i = i + 1;
    }
    Some(id)
}

/// Where `id` goes in an ordered list so that it stays ordered and lands
/// after every entry equal to it.
fn insertion_point(ids: &Vec<String>, id: &[char]) -> (p: usize)
    requires
        ordered(strs(ids@)),
    ensures
        p <= ids@.len(),
        forall|k: int| 0 <= k < p ==> !key_lt(id@, #[trigger] strs(ids@)[k]),
        p < ids@.len() ==> key_lt(id@, strs(ids@)[p as int]),
{
    let mut p: usize = 0;
    while p < ids.len()
        invariant
            p <= ids@.len(),
            forall|k: int| 0 <= k < p ==> !key_lt(id@, #[trigger] strs(ids@)[k]),
        decreases ids@.len() - p,
    {
        let other = chars_of(ids[p].as_str());
        if chars_lt(id, other.as_slice()) {
            return p;
        }
        p = p + 1;
    }
    p
}

/// The device ids of a ledger directory's file names: each `.json`
/// name without its suffix, every other name dropped, in character
/// order.
pub fn ledger_ids(names: &[String]) -> (r: Vec<String>)
    ensures
        ordered(strs(r@)),
        strs(r@).to_multiset() == ledger_ids_of(strs(names@)).to_multiset(),
{
    let mut ids: Vec<String> = Vec::new();
    let mut i: usize = 0;
    assert(strs(names@).take(0) =~= Seq::<Seq<char>>::empty());
    assert(strs(ids@) =~= Seq::<Seq<char>>::empty());
    while i < names.len()
        invariant
            i <= names@.len(),
            ordered(strs(ids@)),
            strs(ids@).to_multiset() == ledger_ids_of(strs(names@).take(i as int)).to_multiset(),
        decreases names@.len() - i,
    {
        assert(strs(names@).take(i + 1).drop_last() =~= strs(names@).take(i as int));
        assert(strs(names@).take(i + 1).last() == names@[i as int]@);
        match strip_json(names[i].as_str()) {
            Some(id) => {
                let p = insertion_point(&ids, id.as_slice());
                let ghost before = strs(ids@);
                let s = string_of(id.as_slice());
                ids.insert(p, s);
                proof {
                    assert(strs(ids@) =~= before.insert(p as int, id@));
                    assert forall|a: int, b: int| 0 <= a < b < strs(ids@).len() implies !key_lt(
                        #[trigger] strs(ids@)[b],
                        #[trigger] strs(ids@)[a],
                    ) by {
                        let sa = strs(ids@)[a];
                        let sb = strs(ids@)[b];
                        if b < p {
                            assert(sa == before[a] && sb == before[b]);
                        } else if b == p {
                            assert(sa == before[a]);
                            assert(!key_lt(id@, before[a]));
                        } else if a == p {
                            let q = before[p as int];
                            assert(sb == before[b - 1]);
                            assert(key_lt(id@, q));
                            if b - 1 > p {
                                assert(!key_lt(before[b - 1], q));
                                lemma_key_lt_total(q, sb);
                                if q != sb {
                                    lemma_key_lt_transitive(id@, q, sb);
                                }
                            }
                            lemma_key_lt_asymmetric(id@, sb);
                        } else if a < p {
                            assert(sa == before[a] && sb == before[b - 1]);
                        } else {
                            assert(sa == before[a - 1] && sb == before[b - 1]);
                        }
                    }
                }
            },
            None => {},
        }
        i = i + 1;
    }
    assert(strs(names@).take(i as int) =~= strs(names@));
    ids
}


/// Who holds a ledger now, as the sweep sees it.
#[derive(Debug, Clone, PartialEq, Eq)]
pub struct Holder {
    pub pid: u32,
    /// The holder's command line as the ledger recorded it.
    pub cmd: String,
    /// Whether that pid still runs that command.
    pub alive: bool,
}

/// What the sweep does with one ledger.
#[derive(Debug, Clone, PartialEq, Eq)]
pub enum Settle {
    /// Nothing is recorded: say so, touch nothing.
    NothingOwed(String),
    /// Someone else's live session: say so, touch nothing.
    LeftAlone(String),
    /// Close what the ledger says is open.
    Close,
}

/// A sweep closes a ledger only when no live process other than itself
/// holds it.
pub fn settle_verdict(id: &str, holder: Option<&Holder>, self_pid: u32) -> (s: Settle)
    ensures
        match holder {
            None => s matches Settle::NothingOwed(m) && m@ == "  "@ + id@ + ": nothing owed"@,
            Some(h) => if h.alive && h.pid != self_pid {
                s matches Settle::LeftAlone(m) && m@ == "  "@ + id@ + ": held by pid "@ + decimal(h.pid as nat)
                    + " ("@ + h.cmd@ + ") — still alive, left alone"@
            } else {
                s == Settle::Close
            },
        },
{
    match holder {
        None => {
            let mut m = owned("  ");
            m.append(id);
            m.append(": nothing owed");
            Settle::NothingOwed(m)
        },
        Some(h) => {
            if h.alive && h.pid != self_pid {
                let mut m = owned("  ");
                m.append(id);
                m.append(": held by pid ");
                push_decimal(&mut m, h.pid as usize);
                m.append(" (");
                m.append(h.cmd.as_str());
                m.append(") — still alive, left alone");
                Settle::LeftAlone(m)
            } else {
                Settle::Close
            }
        },
    }
}


/// After the closes: the ledger goes when every close closed; when one
/// failed it is kept, so the next command still sees what did not
/// close, and the line says so.
pub fn ledger_kept_line(id: &str, all_clean: bool) -> (r: Option<String>)
    ensures
        all_clean <==> r is None,
        r matches Some(m) ==> m@ == "  "@ + id@ + ": some closes failed — ledger kept so they stay visible"@,
{
    if all_clean {
        None
    } else {
        let mut m = owned("  ");
        m.append(id);
        m.append(": some closes failed — ledger kept so they stay visible");
        Some(m)
    }
}

/// The orphan recorder of a registered simulator: `simctl io <udid>
/// recordVideo`, stopped with SIGINT so the video is finalized.
pub open spec fn recorder_pattern(udid: Seq<char>) -> Seq<char> {
    "simctl io.*"@ + udid + ".*recordVideo"@
}

/// The orphan motion loop of a registered simulator: a Settings launch
/// loop, stopped with SIGTERM.
pub open spec fn motion_loop_pattern(udid: Seq<char>) -> Seq<char> {
    "simctl launch.*"@ + udid + ".*com.apple.Preferences"@
}

/// The sweeps over one registered simulator's orphans, each as
/// `(signal, pkill pattern, label)`: scoped to its UDID, so another
/// project's recorders on its own simulators are never matched.
pub fn orphan_sweeps(udid: &str, device_name: &str) -> (r: Vec<(String, String, String)>)
    ensures
        r@.len() == 2,
        r@[0].0@ == "-INT"@ && r@[0].1@ == recorder_pattern(udid@) && r@[0].2@ == "recordVideo ("@ + device_name@ + ")"@,
        r@[1].0@ == "-TERM"@ && r@[1].1@ == motion_loop_pattern(udid@) && r@[1].2@ == "motion loop ("@ + device_name@
            + ")"@,
{
    let mut rec = owned("simctl io.*");
    rec.append(udid);
    rec.append(".*recordVideo");
    let mut rec_label = owned("recordVideo (");
    rec_label.append(device_name);
    rec_label.append(")");
    let mut motion = owned("simctl launch.*");
    motion.append(udid);
    motion.append(".*com.apple.Preferences");
    let mut motion_label = owned("motion loop (");
    motion_label.append(device_name);
    motion_label.append(")");
    let mut r: Vec<(String, String, String)> = Vec::new();
    r.push((owned("-INT"), rec, rec_label));
    r.push((owned("-TERM"), motion, motion_label));
    r
}

/// The process patterns whose survivors the last pass reports: smix's
/// own servers and runners, then each registered simulator's recorder.
pub fn residue_patterns(udids: &[String]) -> (r: Vec<String>)
    ensures
        strs(r@) == seq!["xcodebuild.*Smix|smix-server|smix/web.*vite"@] + strs(udids@).map_values(
            |u: Seq<char>| recorder_pattern(u),
        ),
{
    let mut r: Vec<String> = Vec::new();
    r.push(owned("xcodebuild.*Smix|smix-server|smix/web.*vite"));
    let mut i: usize = 0;
    while i < udids.len()
        invariant
            i <= udids@.len(),
            strs(r@) == seq!["xcodebuild.*Smix|smix-server|smix/web.*vite"@] + strs(udids@).take(i as int).map_values(
                |u: Seq<char>| recorder_pattern(u),
            ),
        decreases udids@.len() - i,
    {
        let mut p = owned("simctl io.*");
        p.append(udids[i].as_str());
        p.append(".*recordVideo");
        let ghost before = strs(r@);
        r.push(p);
        assert(strs(r@) =~= before.push(p@));
        assert(strs(udids@).take(i + 1) =~= strs(udids@).take(i as int).push(udids@[i as int]@));
        i = i + 1;
    }
    assert(strs(udids@).take(i as int) =~= strs(udids@));
    r
}

/// Equal but for ASCII case, as `eq_ignore_ascii_case` compares.
pub open spec fn same_ignoring_ascii_case(a: Seq<char>, b: Seq<char>) -> bool {
    ascii_lower(a) == ascii_lower(b)
}

/// Whether a registered device is running: an emulator when adb lists
/// its serial as attached; a simulator when simctl lists its UDID (in any
/// ASCII case) as `Booted`.
pub open spec fn device_running(
    is_emulator: bool,
    udid: Seq<char>,
    running_emulators: Seq<Seq<char>>,
    simulators: Seq<(Seq<char>, Seq<char>)>,
) -> bool {
    if is_emulator {
        running_emulators.contains(udid)
    } else {
        exists|k: int|
            0 <= k < simulators.len() && same_ignoring_ascii_case(#[trigger] simulators[k].0, udid)
                && simulators[k].1 == "Booted"@
    }
}

/// Pairs by their characters.
pub open spec fn pair_views(v: Seq<(String, String)>) -> Seq<(Seq<char>, Seq<char>)> {
    v.map_values(|p: (String, String)| (p.0@, p.1@))
}

pub fn is_running(
    is_emulator: bool,
    udid: &str,
    running_emulators: &[String],
    simulators: &[(String, String)],
) -> (r: bool)
    ensures
        r == device_running(is_emulator, udid@, strs(running_emulators@), pair_views(simulators@)),
{
    let u = chars_of(udid);
    if is_emulator {
        let mut i: usize = 0;
        while i < running_emulators.len()
            invariant
                i <= running_emulators@.len(),
                is_emulator,
                u@ == udid@,
                forall|k: int| 0 <= k < i ==> strs(running_emulators@)[k] != udid@,
            decreases running_emulators@.len() - i,
        {
            let e = chars_of(running_emulators[i].as_str());
            if chars_eq(e.as_slice(), u.as_slice()) {
                assert(strs(running_emulators@)[i as int] == udid@);
                assert(strs(running_emulators@).contains(udid@));
                return true;
            }
            i = i + 1;
        }
        return false;
    }
    let lu = to_ascii_lower(udid);
    let booted = chars_of("Booted");
    proof {
        reveal_strlit("Booted");
    }
    let mut i: usize = 0;
    while i < simulators.len()
        invariant
            i <= simulators@.len(),
            !is_emulator,
            lu@ == ascii_lower(udid@),
            booted@ == "Booted"@,
            forall|k: int|
                0 <= k < i ==> !(same_ignoring_ascii_case(#[trigger] pair_views(simulators@)[k].0, udid@)
                    && pair_views(simulators@)[k].1 == "Booted"@),
        decreases simulators@.len() - i,
    {
        let lo = to_ascii_lower(simulators[i].0.as_str());
        let st = chars_of(simulators[i].1.as_str());
        if chars_eq(lo.as_slice(), lu.as_slice()) && chars_eq(st.as_slice(), booted.as_slice()) {
            let ghost pv = pair_views(simulators@);
            assert(pv[i as int] == (simulators@[i as int].0@, simulators@[i as int].1@));
            assert(same_ignoring_ascii_case(pv[i as int].0, udid@));
            assert(pv[i as int].1 == "Booted"@);
            return true;
        }
        i = i + 1;
    }
    false
}

/// What the shutdown pass says of a running device it may not turn off;
/// nothing when it may.
pub fn teardown_line(alias: &str, udid: &str, t: &Teardown) -> (r: Option<String>)
    ensures
        match *t {
            Teardown::Proceed => r is None,
            Teardown::NotOurs => r matches Some(m) && m@ == "  "@ + alias@ + " ("@ + udid@
                + ") is up but not ours — left alone"@,
            Teardown::OursButHeld { pid } => r matches Some(m) && m@ == "  "@ + alias@ + " ("@ + udid@
                + ") is ours by boot row but pid "@ + decimal(pid as nat) + " is alive on it — left alone"@,
        },
{
    match t {
        Teardown::Proceed => None,
        Teardown::NotOurs => {
            let mut m = owned("  ");
            m.append(alias);
            m.append(" (");
            m.append(udid);
            m.append(") is up but not ours — left alone");
            Some(m)
        },
        Teardown::OursButHeld { pid } => {
            let mut m = owned("  ");
            m.append(alias);
            m.append(" (");
            m.append(udid);
            m.append(") is ours by boot row but pid ");
            push_decimal(&mut m, *pid as usize);
            m.append(" is alive on it — left alone");
            Some(m)
        },
    }
}

/// The verdict of the last pass on what `pgrep` still found: clean when
/// nothing, else an error listing it.
pub fn residue_verdict(residue: &str) -> (r: Result<String, String>)
    ensures
        residue@.len() == 0 ==> (r matches Ok(m) && m@ == "clean — no smix residual processes."@),
        residue@.len() > 0 ==> (r matches Err(m) && m@ == "STILL RUNNING (inspect manually):\n"@ + residue@),
{
    if residue.unicode_len() == 0 {
        Ok(owned("clean — no smix residual processes."))
    } else {
        let mut m = owned("STILL RUNNING (inspect manually):\n");
        m.append(residue);
        Err(m)
    }
}

} // verus!
