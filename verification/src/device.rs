//! Kinds of device; which `smix sim` verbs can act on which kind, and
//! which of them destroy something; and whether `smix sim boot --cold`
//! can do what it says on one.

use vstd::prelude::*;
use crate::text::owned;

verus! {

broadcast use vstd::string::group_string_axioms;

/// What a registered device is.
#[derive(Debug, Clone, Copy, PartialEq, Eq, Structural)]
pub enum DeviceKind {
    Simulator,
    Emulator,
    PhysicalIos,
    PhysicalAndroid,
}

/// Why `--cold` cannot be honoured on a device, or nothing when it can:
/// only an Android emulator that is off has a Quick Boot snapshot to skip.
pub open spec fn cold_refusal(device: Seq<char>, kind: DeviceKind, running: bool) -> Option<Seq<char>> {
    match kind {
        DeviceKind::Emulator => if running {
            Some(
                device
                    + " is already running, so there is no boot to make cold. Stop it first — `smix sim shutdown "@
                    + device + "` — then `smix sim boot "@ + device + " --cold`."@,
            )
        } else {
            None
        },
        DeviceKind::Simulator => Some(
            device
                + " is an iOS simulator, which has no boot snapshot to skip: every `simctl boot` starts it from its data. Boot it without --cold."@,
        ),
        DeviceKind::PhysicalIos | DeviceKind::PhysicalAndroid => Some(
            device
                + " is a physical device; smix does not boot phones, so there is nothing for --cold to change."@,
        ),
    }
}

/// Why `--cold` cannot be honoured, or `None` when it can.
pub fn cold_boot_refusal(device: &str, kind: DeviceKind, running: bool) -> (r: Option<String>)
    ensures
        match r {
            Some(m) => cold_refusal(device@, kind, running) == Some(m@),
            None => cold_refusal(device@, kind, running) is None,
        },
{
    match kind {
        DeviceKind::Emulator => {
            if running {
                let mut m = owned(device);
                m.append(
                    " is already running, so there is no boot to make cold. Stop it first — `smix sim shutdown ",
                );
                m.append(device);
                m.append("` — then `smix sim boot ");
                m.append(device);
                m.append(" --cold`.");
                Some(m)
            } else {
                None
            }
        },
        DeviceKind::Simulator => {
            let mut m = owned(device);
            m.append(
                " is an iOS simulator, which has no boot snapshot to skip: every `simctl boot` starts it from its data. Boot it without --cold.",
            );
            Some(m)
        },
        DeviceKind::PhysicalIos | DeviceKind::PhysicalAndroid => {
            let mut m = owned(device);
            m.append(
                " is a physical device; smix does not boot phones, so there is nothing for --cold to change.",
            );
            Some(m)
        },
    }
}


/// The verbs of `smix sim`.
#[derive(Debug, Clone, Copy, PartialEq, Eq, Structural)]
pub enum SimVerb {
    List,
    Register,
    Unregister,
    Migrate,
    Resolve,
    Boot,
    Shutdown,
    Erase,
    Screenshot,
    Launch,
    Terminate,
    Install,
    Uninstall,
    Openurl,
    Appearance,
    AllowDestructive,
    KeychainReset,
    Locale,
    Exec,
}

/// Whether a verb is pointed at a device (`register` at the UDID it
/// registers).
pub open spec fn names_a_device(v: SimVerb) -> bool {
    !(v is List || v is Migrate || v is Unregister)
}

/// Whether a verb names a device.
pub fn takes_device(v: SimVerb) -> (r: bool)
    ensures
        r == names_a_device(v),
{
    match v {
        SimVerb::List | SimVerb::Migrate | SimVerb::Unregister => false,
        _ => true,
    }
}

/// The kinds each verb can act on; `None` for the verbs that take no
/// device or act on the registry rather than the device.
pub open spec fn supported_kinds(v: SimVerb) -> Option<Seq<DeviceKind>> {
    match v {
        SimVerb::List | SimVerb::Register | SimVerb::AllowDestructive | SimVerb::Migrate
        | SimVerb::Unregister | SimVerb::Resolve => None,
        SimVerb::Screenshot | SimVerb::Uninstall => Some(
            seq![
                DeviceKind::Simulator,
                DeviceKind::Emulator,
                DeviceKind::PhysicalIos,
                DeviceKind::PhysicalAndroid,
            ],
        ),
        SimVerb::KeychainReset => Some(seq![DeviceKind::Simulator, DeviceKind::PhysicalIos]),
        SimVerb::Install => Some(
            seq![DeviceKind::Simulator, DeviceKind::Emulator, DeviceKind::PhysicalAndroid],
        ),
        SimVerb::Boot | SimVerb::Shutdown | SimVerb::Erase | SimVerb::Launch | SimVerb::Terminate
        | SimVerb::Openurl | SimVerb::Appearance | SimVerb::Locale | SimVerb::Exec => Some(
            seq![DeviceKind::Simulator],
        ),
    }
}

/// Which device kinds a `smix sim` verb can act on.
pub fn sim_verb_supports(v: SimVerb) -> (r: Option<Vec<DeviceKind>>)
    ensures
        match r {
            Some(ks) => supported_kinds(v) == Some(ks@),
            None => supported_kinds(v) is None,
        },
{
    let mut ks: Vec<DeviceKind> = Vec::new();
    match v {
        SimVerb::List | SimVerb::Register | SimVerb::AllowDestructive | SimVerb::Migrate
        | SimVerb::Unregister | SimVerb::Resolve => {
            return None;
        },
        SimVerb::Screenshot | SimVerb::Uninstall => {
            ks.push(DeviceKind::Simulator);
            ks.push(DeviceKind::Emulator);
            ks.push(DeviceKind::PhysicalIos);
            ks.push(DeviceKind::PhysicalAndroid);
        },
        SimVerb::KeychainReset => {
            ks.push(DeviceKind::Simulator);
            ks.push(DeviceKind::PhysicalIos);
        },
        SimVerb::Install => {
            ks.push(DeviceKind::Simulator);
            ks.push(DeviceKind::Emulator);
            ks.push(DeviceKind::PhysicalAndroid);
        },
        _ => {
            ks.push(DeviceKind::Simulator);
        },
    }
    proof {
        assert(supported_kinds(v) == Some(ks@)) by {
            assert(ks@ =~= supported_kinds(v)->0);
        }
    }
    Some(ks)
}

/// The verbs that destroy something on the device; `exec` among them,
/// since it runs whatever it is given.
pub open spec fn destroys(v: SimVerb) -> bool {
    v is Erase || v is Uninstall || v is KeychainReset || v is Exec
}

/// Whether a verb destroys something on the device.
pub fn is_destructive(v: SimVerb) -> (r: bool)
    ensures
        r == destroys(v),
{
    match v {
        SimVerb::Erase | SimVerb::Uninstall | SimVerb::KeychainReset | SimVerb::Exec => true,
        _ => false,
    }
}

/// Whether the destruction gate has a device to ask about.
pub fn needs_destruction_gate(v: SimVerb) -> (r: bool)
    ensures
        r == (destroys(v) && names_a_device(v)),
{
    is_destructive(v) && takes_device(v)
}

/// What a device kind is called in a refusal.
pub open spec fn kind_phrase(k: DeviceKind) -> Seq<char> {
    match k {
        DeviceKind::Simulator => "an iOS Simulator"@,
        DeviceKind::Emulator => "an Android emulator"@,
        DeviceKind::PhysicalIos => "a physical iPhone or iPad"@,
        DeviceKind::PhysicalAndroid => "a physical Android device"@,
    }
}

/// The refusal of a verb that cannot reach a device of `kind`.
pub open spec fn verb_refusal(v: SimVerb, device: Seq<char>, kind: DeviceKind) -> Option<Seq<char>> {
    match supported_kinds(v) {
        None => None,
        Some(ks) => if ks.contains(kind) {
            None
        } else {
            Some(
                "this command runs through simctl, and "@ + device + " is "@ + kind_phrase(kind)
                    + " — so there is nothing here it could do to it."@ + if kind is Emulator
                    || kind is PhysicalAndroid {
                    "\nAndroid lifecycle goes through adb — `smix runner up <serial> --platform android` brings the device up for driving."@
                } else {
                    seq![]
                },
            )
        },
    }
}

/// Refuse a verb the device's kind has no path for, naming the kind and,
/// for an Android device, what does work.
pub fn guard_sim_verb(v: SimVerb, device: &str, kind: DeviceKind) -> (r: Result<(), String>)
    ensures
        match r {
            Ok(()) => verb_refusal(v, device@, kind) is None,
            Err(m) => verb_refusal(v, device@, kind) == Some(m@),
        },
{
    let kinds = match sim_verb_supports(v) {
        None => {
            return Ok(());
        },
        Some(ks) => ks,
    };
    let mut i: usize = 0;
    while i < kinds.len()
        invariant
            i <= kinds@.len(),
            supported_kinds(v) == Some(kinds@),
            forall|j: int| 0 <= j < i ==> kinds@[j] != kind,
        decreases kinds@.len() - i,
    {
        if kinds[i] == kind {
            assert(kinds@.contains(kind)) by {
                assert(kinds@[i as int] == kind);
            }
            return Ok(());
        }
        i = i + 1;
    }
    let mut m = owned("this command runs through simctl, and ");
    m.append(device);
    m.append(" is ");
    match kind {
        DeviceKind::Simulator => m.append("an iOS Simulator"),
        DeviceKind::Emulator => m.append("an Android emulator"),
        DeviceKind::PhysicalIos => m.append("a physical iPhone or iPad"),
        DeviceKind::PhysicalAndroid => m.append("a physical Android device"),
    }
    m.append(" — so there is nothing here it could do to it.");
    match kind {
        DeviceKind::Emulator | DeviceKind::PhysicalAndroid => {
            m.append(
                "\nAndroid lifecycle goes through adb — `smix runner up <serial> --platform android` brings the device up for driving.",
            );
        },
        _ => {},
    }
    Err(m)
}

/// What kind a device reference names: the registry's word when it has
/// one; otherwise an emulator serial is an emulator, and anything else
/// that got this far is a simulator the platform lists.
pub fn classify_device(registered: Option<DeviceKind>, emulator_serial: bool) -> (k: DeviceKind)
    ensures
        k == match registered {
            Some(r) => r,
            None => if emulator_serial {
                DeviceKind::Emulator
            } else {
                DeviceKind::Simulator
            },
        },
{
    match registered {
        Some(r) => r,
        None => {
            if emulator_serial {
                DeviceKind::Emulator
            } else {
                DeviceKind::Simulator
            }
        },
    }
}

/// A verb that acts on the device never lets a device it cannot reach
/// through: whenever the guard passes a verb with a list of kinds, the
/// device's kind is on that list.
pub proof fn lemma_guard_admits_only_supported_kinds(v: SimVerb, device: Seq<char>, kind: DeviceKind)
    requires
        supported_kinds(v) is Some,
        verb_refusal(v, device, kind) is None,
    ensures
        supported_kinds(v)->0.contains(kind),
{
}

} // verus!
