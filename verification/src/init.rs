//! `smix init`: what to register, decided over the device list and the
//! aliases already registered, refusing rather than guessing.

use vstd::prelude::*;
use crate::text::{decimal, join, owned, push_decimal, strs};

verus! {

broadcast use vstd::string::group_string_axioms;

/// A simulator that could be registered.
#[derive(Debug, Clone)]
pub struct Candidate {
    /// Its UDID.
    pub udid: String,
    /// Its device name, for showing in a list of choices.
    pub name: String,
}

/// What init would do.
#[derive(Debug, Clone, PartialEq, Eq)]
pub struct InitPlan {
    /// Alias to register under.
    pub alias: String,
    /// Device the alias will point at.
    pub udid: String,
}

/// Why init will not do it, and what to do instead.
#[derive(Debug, Clone, PartialEq, Eq)]
pub struct InitRefusal {
    /// What is in the way.
    pub reason: String,
    /// The command or flag that resolves it.
    pub remedy: String,
}

/// One line of the list of choices: `  <udid>  <name>`.
pub open spec fn choice_line(c: Candidate) -> Seq<char> {
    "  "@ + c.udid@ + "  "@ + c.name@
}

/// The list of choices offered when several devices are available.
pub open spec fn choice_list(devices: Seq<Candidate>) -> Seq<char> {
    join(devices.map_values(|c: Candidate| choice_line(c)), "\n"@)
}

/// What `plan_init` decides: `Ok((alias, udid))` or `Err((reason, remedy))`.
pub open spec fn init_decision(
    devices: Seq<Candidate>,
    alias: Seq<char>,
    requested: Option<Seq<char>>,
    existing: Seq<Seq<char>>,
) -> Result<(Seq<char>, Seq<char>), (Seq<char>, Seq<char>)> {
    if devices.len() == 0 {
        Err(
            (
                "no available simulator to register"@,
                "create one first: xcrun simctl create smix-dev 'iPhone 17 Pro' <runtime-id>"@,
            ),
        )
    } else if existing.contains(alias) {
        Err(
            (
                "the alias `"@ + alias + "` is already registered"@,
                "register under a different name with --alias, or drive the existing one: smix capsule up "@
                    + alias + " --bundle <your.bundle.id>"@,
            ),
        )
    } else {
        match requested {
            Some(want) => if exists|i: int| 0 <= i < devices.len() && devices[i].udid@ == want {
                Ok((alias, want))
            } else {
                Err(
                    (
                        "no available simulator with UDID "@ + want,
                        "list what is available: smix sim list"@,
                    ),
                )
            },
            None => if devices.len() == 1 {
                Ok((alias, devices[0].udid@))
            } else {
                Err(
                    (
                        decimal(devices.len()) + " simulators are available"@,
                        "name the one to register with --device <UDID>:\n"@ + choice_list(devices),
                    ),
                )
            },
        }
    }
}

fn contains_str(list: &[String], s: &str) -> (r: bool)
    ensures
        r == strs(list@).contains(s@),
{
    let mut i: usize = 0;
    while i < list.len()
        invariant
            i <= list@.len(),
            forall|k: int| 0 <= k < i ==> list@[k]@ != s@,
        decreases list@.len() - i,
    {
        if crate::text::str_eq(list[i].as_str(), s) {
            assert(strs(list@)[i as int] == s@);
            return true;
        }
        i = i + 1;
    }
    proof {
        if strs(list@).contains(s@) {
            let k = choose|k: int| 0 <= k < strs(list@).len() && strs(list@)[k] == s@;
            assert(list@[k]@ == s@);
        }
    }
    false
}

fn choices(devices: &[Candidate]) -> (r: String)
    ensures
        r@ == choice_list(devices@),
{
    let mut r = String::new();
    let mut i: usize = 0;
    while i < devices.len()
        invariant
            i <= devices@.len(),
            r@ == choice_list(devices@.take(i as int)),
        decreases devices@.len() - i,
    {
        if i > 0 {
            r.append("\n");
        }
        r.append("  ");
        r.append(devices[i].udid.as_str());
        r.append("  ");
        r.append(devices[i].name.as_str());
        proof {
            let t = devices@.take(i + 1).map_values(|c: Candidate| choice_line(c));
            assert(t.drop_last() =~= devices@.take(i as int).map_values(|c: Candidate| choice_line(c)));
            assert(t.last() == choice_line(devices@[i as int]));
            if i == 0 {
                assert(t.len() == 1);
            }
        }
        i = i + 1;
    }
    assert(devices@.take(i as int) =~= devices@);
    r
}

/// Decide what to register, or refuse with a way forward. Never picks
/// between several devices, and never repoints an alias that exists.
pub fn plan_init(
    devices: &[Candidate],
    alias: &str,
    requested_udid: Option<&str>,
    existing_aliases: &[String],
) -> (r: Result<InitPlan, InitRefusal>)
    ensures
        init_decision(
            devices@,
            alias@,
            match requested_udid {
                Some(w) => Some(w@),
                None => None,
            },
            strs(existing_aliases@),
        ) == match r {
            Ok(p) => Ok((p.alias@, p.udid@)),
            Err(e) => Err((e.reason@, e.remedy@)),
        },
{
    if devices.len() == 0 {
        return Err(
            InitRefusal {
                reason: owned("no available simulator to register"),
                remedy: owned(
                    "create one first: xcrun simctl create smix-dev 'iPhone 17 Pro' <runtime-id>",
                ),
            },
        );
    }
    if contains_str(existing_aliases, alias) {
        let mut reason = owned("the alias `");
        reason.append(alias);
        reason.append("` is already registered");
        let mut remedy = owned(
            "register under a different name with --alias, or drive the existing one: smix capsule up ",
        );
        remedy.append(alias);
        remedy.append(" --bundle <your.bundle.id>");
        return Err(InitRefusal { reason, remedy });
    }
    match requested_udid {
        Some(want) => {
            let mut i: usize = 0;
            while i < devices.len()
                invariant
                    i <= devices@.len(),
                    devices@.len() > 0,
                    !strs(existing_aliases@).contains(alias@),
                    requested_udid == Some(want),
                    forall|k: int| 0 <= k < i ==> devices@[k].udid@ != want@,
                decreases devices@.len() - i,
            {
                if crate::text::str_eq(devices[i].udid.as_str(), want) {
                    assert(devices@[i as int].udid@ == want@);
                    return Ok(InitPlan { alias: owned(alias), udid: owned(want) });
                }
                i = i + 1;
            }
            let mut reason = owned("no available simulator with UDID ");
            reason.append(want);
            Err(InitRefusal { reason, remedy: owned("list what is available: smix sim list") })
        },
        None => {
            if devices.len() == 1 {
                Ok(InitPlan { alias: owned(alias), udid: devices[0].udid.clone() })
            } else {
                let mut reason = String::new();
                push_decimal(&mut reason, devices.len());
                reason.append(" simulators are available");
                let mut remedy = owned("name the one to register with --device <UDID>:\n");
                remedy.append(choices(devices).as_str());
                Err(InitRefusal { reason, remedy })
            }
        },
    }
}


/// An alias that is already registered is never planned again: init
/// refuses rather than repoint it, whatever the devices.
pub proof fn lemma_an_existing_alias_is_never_repointed(
    devices: Seq<Candidate>,
    alias: Seq<char>,
    requested: Option<Seq<char>>,
    existing: Seq<Seq<char>>,
)
    requires
        existing.contains(alias),
    ensures
        init_decision(devices, alias, requested, existing) is Err,
{
}

/// Init never picks between several devices: with more than one
/// available and none named, it refuses and lists them.
pub proof fn lemma_several_devices_are_never_guessed_between(
    devices: Seq<Candidate>,
    alias: Seq<char>,
    existing: Seq<Seq<char>>,
)
    requires
        devices.len() >= 2,
    ensures
        init_decision(devices, alias, None, existing) is Err,
{
}

/// What init plans is the alias asked for, pointing at a device that is
/// available, and the one named when one was named.
pub proof fn lemma_a_plan_points_at_an_available_device(
    devices: Seq<Candidate>,
    alias: Seq<char>,
    requested: Option<Seq<char>>,
    existing: Seq<Seq<char>>,
)
    requires
        init_decision(devices, alias, requested, existing) is Ok,
    ensures
        ({
            let (a, udid) = init_decision(devices, alias, requested, existing)->Ok_0;
            &&& a == alias
            &&& !existing.contains(alias)
            &&& exists|i: int| 0 <= i < devices.len() && devices[i].udid@ == udid
            &&& requested matches Some(w) ==> udid == w
        }),
{
    let (a, udid) = init_decision(devices, alias, requested, existing)->Ok_0;
    if requested is None {
        assert(devices[0].udid@ == udid);
    }
}


/// The simulators init may register: those simctl marks available, as
/// `(udid, name, available)`.
pub open spec fn available(devices: Seq<(String, String, bool)>) -> Seq<(Seq<char>, Seq<char>)>
    decreases devices.len(),
{
    if devices.len() == 0 {
        seq![]
    } else {
        available(devices.drop_last()) + if devices.last().2 {
            seq![(devices.last().0@, devices.last().1@)]
        } else {
            seq![]
        }
    }
}

pub open spec fn candidate_views(v: Seq<Candidate>) -> Seq<(Seq<char>, Seq<char>)> {
    v.map_values(|c: Candidate| (c.udid@, c.name@))
}

/// Keep the available simulators, in order, as candidates.
pub fn init_candidates(devices: &[(String, String, bool)]) -> (r: Vec<Candidate>)
    ensures
        candidate_views(r@) == available(devices@),
{
    let mut r: Vec<Candidate> = Vec::new();
    let mut i: usize = 0;
    assert(devices@.take(0) =~= Seq::<(String, String, bool)>::empty());
    while i < devices.len()
        invariant
            i <= devices@.len(),
            candidate_views(r@) == available(devices@.take(i as int)),
        decreases devices@.len() - i,
    {
        assert(devices@.take(i + 1).drop_last() =~= devices@.take(i as int));
        assert(devices@.take(i + 1).last() == devices@[i as int]);
        if devices[i].2 {
            let ghost before = candidate_views(r@);
            r.push(Candidate { udid: owned(devices[i].0.as_str()), name: owned(devices[i].1.as_str()) });
            assert(candidate_views(r@) =~= before.push((devices@[i as int].0@, devices@[i as int].1@)));
        }
        i = i + 1;
    }
    assert(devices@.take(i as int) =~= devices@);
    r
}

/// A refusal as init reports it: the reason, then the remedy.
pub fn refusal_text(r: &InitRefusal) -> (s: String)
    ensures
        s@ == r.reason@ + "\n"@ + r.remedy@,
{
    let mut s = owned(r.reason.as_str());
    s.append("\n");
    s.append(r.remedy.as_str());
    s
}

/// What init prints once the alias is registered: the next command,
/// with the installed app's bundle id when there was one.
pub fn next_steps(alias: &str, bundle: Option<&str>) -> (r: Vec<String>)
    ensures
        strs(r@) == seq![
            seq![],
            "next: smix capsule up "@ + alias@ + " --bundle "@ + match bundle {
                Some(b) => b@,
                None => "<your.bundle.id>"@,
            },
            "      boots the device and starts the runner that carries every tap and query"@,
        ],
{
    let mut r: Vec<String> = Vec::new();
    r.push(String::new());
    let mut next = owned("next: smix capsule up ");
    next.append(alias);
    next.append(" --bundle ");
    match bundle {
        Some(b) => next.append(b),
        None => next.append("<your.bundle.id>"),
    }
    r.push(next);
    r.push(owned("      boots the device and starts the runner that carries every tap and query"));
    assert(strs(r@) =~= seq![
        seq![],
        "next: smix capsule up "@ + alias@ + " --bundle "@ + match bundle {
            Some(b) => b@,
            None => "<your.bundle.id>"@,
        },
        "      boots the device and starts the runner that carries every tap and query"@,
    ]);
    r
}


/// A named UDID is registered whenever some available device has it, at
/// any place in the list, and the alias is free: the plan is that alias
/// and that UDID. With the alias free and devices available, a named
/// UDID is refused exactly when no available device has it.
pub proof fn lemma_a_named_available_device_is_registered(
    devices: Seq<Candidate>,
    alias: Seq<char>,
    want: Seq<char>,
    existing: Seq<Seq<char>>,
    i: int,
)
    requires
        0 <= i < devices.len(),
        devices[i].udid@ == want,
        !existing.contains(alias),
    ensures
        init_decision(devices, alias, Some(want), existing) == Ok::<(Seq<char>, Seq<char>), (Seq<char>, Seq<char>)>(
            (alias, want),
        ),
{
}

/// With the alias free and devices available, a named UDID is refused
/// exactly when no available device has it.
pub proof fn lemma_a_named_device_is_refused_only_when_absent(
    devices: Seq<Candidate>,
    alias: Seq<char>,
    want: Seq<char>,
    existing: Seq<Seq<char>>,
)
    requires
        devices.len() > 0,
        !existing.contains(alias),
    ensures
        init_decision(devices, alias, Some(want), existing) is Err <==> forall|i: int|
            0 <= i < devices.len() ==> #[trigger] devices[i].udid@ != want,
{
}


/// With one simulator available, no UDID named and the alias free, init
/// registers that simulator under the alias.
pub proof fn lemma_a_lone_device_is_registered(devices: Seq<Candidate>, alias: Seq<char>, existing: Seq<Seq<char>>)
    requires
        devices.len() == 1,
        !existing.contains(alias),
    ensures
        init_decision(devices, alias, None, existing) == Ok::<(Seq<char>, Seq<char>), (Seq<char>, Seq<char>)>(
            (alias, devices[0].udid@),
        ),
{
}

} // verus!
