//! The tables `smix sim list` prints: simulators and Android devices,
//! and the devices smix has records for.

use vstd::prelude::*;
use crate::device::DeviceKind;
use crate::text::{chars_of, decimal, find_char, owned, push_char, push_chars, push_decimal, string_of, strs};

verus! {

broadcast use vstd::string::group_string_axioms;

/// `{:<w}`: the text, then spaces up to `w` characters.
pub open spec fn pad(s: Seq<char>, w: nat) -> Seq<char> {
    if s.len() >= w {
        s
    } else {
        s + Seq::new((w - s.len()) as nat, |i: int| ' ')
    }
}

pub(crate) fn push_padded(out: &mut String, s: &str, w: usize)
    ensures
        final(out)@ == old(out)@ + pad(s@, w as nat),
{
    let cs = chars_of(s);
    push_chars(out, cs.as_slice());
    let mut n = cs.len();
    let ghost base = old(out)@ + s@;
    while n < w
        invariant
            cs@ == s@,
            cs@.len() <= n <= w || (n == cs@.len() && n >= w),
            out@ == base + Seq::new((n - cs@.len()) as nat, |i: int| ' '),
        decreases w - n,
    {
        push_char(out, ' ');
        assert(base + Seq::new((n + 1 - cs@.len()) as nat, |i: int| ' ') =~= base + Seq::new(
            (n - cs@.len()) as nat,
            |i: int| ' ',
        ).push(' '));
        n = n + 1;
    }
    assert(out@ =~= old(out)@ + pad(s@, w as nat));
}

/// The text after the last `.` (all of it when there is none): a
/// runtime identifier's short name.
pub open spec fn after_last_dot(s: Seq<char>) -> Seq<char>
    decreases s.len(),
{
    if s.len() == 0 {
        s
    } else if s.last() == '.' {
        seq![]
    } else {
        after_last_dot(s.drop_last()).push(s.last())
    }
}

pub(crate) fn short_runtime(s: &str) -> (r: String)
    ensures
        r@ == after_last_dot(s@),
{
    let cs = chars_of(s);
    let mut i: usize = cs.len();
    assert(cs@.take(i as int) =~= cs@);
    assert(cs@.subrange(i as int, cs@.len() as int) =~= Seq::<char>::empty());
    assert(after_last_dot(cs@) + Seq::<char>::empty() =~= after_last_dot(cs@));
    while i > 0 && cs[i - 1] != '.'
        invariant
            i <= cs@.len(),
            cs@ == s@,
            after_last_dot(s@) == after_last_dot(cs@.take(i as int)) + cs@.subrange(i as int, cs@.len() as int),
        decreases i,
    {
        assert(cs@.take(i as int).drop_last() =~= cs@.take(i - 1));
        assert(cs@.take(i as int).last() == cs@[i - 1]);
        assert(cs@.subrange(i - 1, cs@.len() as int) =~= seq![cs@[i - 1]] + cs@.subrange(i as int, cs@.len() as int));
        assert(after_last_dot(cs@.take(i - 1)).push(cs@[i - 1]) + cs@.subrange(i as int, cs@.len() as int)
            =~= after_last_dot(cs@.take(i - 1)) + cs@.subrange(i - 1, cs@.len() as int));
        i = i - 1;
    }
    if i > 0 {
        assert(cs@.take(i as int).last() == '.');
    }
    assert(after_last_dot(cs@.take(i as int)) =~= Seq::<char>::empty());
    let mut r = String::new();
    let mut j: usize = i;
    while j < cs.len()
        invariant
            i <= j <= cs@.len(),
            r@ == cs@.subrange(i as int, j as int),
        decreases cs@.len() - j,
    {
        push_char(&mut r, cs[j]);
        assert(r@ =~= cs@.subrange(i as int, j + 1));
        j = j + 1;
    }
    assert(r@ =~= Seq::<char>::empty() + cs@.subrange(i as int, cs@.len() as int));
    r
}

/// The heading of `smix sim list`.
pub open spec fn list_heading() -> Seq<char> {
    pad("UDID"@, 40) + " "@ + pad("NAME"@, 28) + " "@ + pad("STATE"@, 10) + " RUNTIME"@
}

pub fn sim_list_heading() -> (s: String)
    ensures
        s@ == list_heading(),
{
    let mut s = String::new();
    push_padded(&mut s, "UDID", 40);
    s.append(" ");
    push_padded(&mut s, "NAME", 28);
    s.append(" ");
    push_padded(&mut s, "STATE", 10);
    s.append(" RUNTIME");
    s
}

/// A simulator's row: its runtime by short name.
pub open spec fn simulator_row_spec(udid: Seq<char>, name: Seq<char>, state: Seq<char>, runtime: Seq<char>) -> Seq<char> {
    pad(udid, 40) + " "@ + pad(name, 28) + " "@ + pad(state, 10) + " "@ + after_last_dot(runtime)
}

pub fn simulator_row(udid: &str, name: &str, state: &str, runtime: &str) -> (s: String)
    ensures
        s@ == simulator_row_spec(udid@, name@, state@, runtime@),
{
    let mut s = String::new();
    push_padded(&mut s, udid, 40);
    s.append(" ");
    push_padded(&mut s, name, 28);
    s.append(" ");
    push_padded(&mut s, state, 10);
    s.append(" ");
    s.append(short_runtime(runtime).as_str());
    s
}

/// An Android device's row: named by its model when adb gives one, and
/// its Android release when known.
pub open spec fn android_row_spec(serial: Seq<char>, state: Seq<char>, model: Seq<char>, release: Seq<char>) -> Seq<char> {
    pad(serial, 40) + " "@ + pad(if model.len() == 0 { serial } else { model }, 28) + " "@ + pad(state, 10) + " "@
        + if release.len() == 0 {
        "Android"@
    } else {
        "Android-"@ + release
    }
}

pub fn android_row(serial: &str, state: &str, model: &str, release: &str) -> (s: String)
    ensures
        s@ == android_row_spec(serial@, state@, model@, release@),
{
    let mut s = String::new();
    push_padded(&mut s, serial, 40);
    s.append(" ");
    if model.unicode_len() == 0 {
        push_padded(&mut s, serial, 28);
    } else {
        push_padded(&mut s, model, 28);
    }
    s.append(" ");
    push_padded(&mut s, state, 10);
    s.append(" ");
    if release.unicode_len() == 0 {
        s.append("Android");
    } else {
        s.append("Android-");
        s.append(release);
    }
    s
}

/// A device kind as the registered listing names it (its `{:?}`,
/// lowercased).
pub open spec fn kind_word(k: DeviceKind) -> Seq<char> {
    match k {
        DeviceKind::Simulator => "simulator"@,
        DeviceKind::Emulator => "emulator"@,
        DeviceKind::PhysicalIos => "physicalios"@,
        DeviceKind::PhysicalAndroid => "physicalandroid"@,
    }
}

pub open spec fn registered_heading() -> Seq<char> {
    pad("ALIAS"@, 20) + " "@ + pad("UDID"@, 40) + " "@ + pad("KIND"@, 10) + " SCOPE"@
}

pub fn registered_list_heading() -> (s: String)
    ensures
        s@ == registered_heading(),
{
    let mut s = String::new();
    push_padded(&mut s, "ALIAS", 20);
    s.append(" ");
    push_padded(&mut s, "UDID", 40);
    s.append(" ");
    push_padded(&mut s, "KIND", 10);
    s.append(" SCOPE");
    s
}

/// A recorded device's row: where its record lives, the checkout it
/// was left in or `machine`.
pub open spec fn registered_row_spec(alias: Seq<char>, udid: Seq<char>, kind: DeviceKind, checkout: Option<Seq<char>>) -> Seq<char> {
    pad(alias, 20) + " "@ + pad(udid, 40) + " "@ + pad(kind_word(kind), 10) + " "@ + match checkout {
        Some(p) => p,
        None => "machine"@,
    }
}

pub fn registered_row(alias: &str, udid: &str, kind: DeviceKind, checkout: Option<&str>) -> (s: String)
    ensures
        s@ == registered_row_spec(alias@, udid@, kind, match checkout {
            Some(p) => Some(p@),
            None => None,
        }),
{
    let mut s = String::new();
    push_padded(&mut s, alias, 20);
    s.append(" ");
    push_padded(&mut s, udid, 40);
    s.append(" ");
    match kind {
        DeviceKind::Simulator => push_padded(&mut s, "simulator", 10),
        DeviceKind::Emulator => push_padded(&mut s, "emulator", 10),
        DeviceKind::PhysicalIos => push_padded(&mut s, "physicalios", 10),
        DeviceKind::PhysicalAndroid => push_padded(&mut s, "physicalandroid", 10),
    }
    s.append(" ");
    match checkout {
        Some(p) => s.append(p),
        None => s.append("machine"),
    }
    s
}

/// The note after the registered listing when some records still live
/// in a checkout.
pub fn unmigrated_note(count: usize) -> (r: Option<String>)
    ensures
        count == 0 ==> r is None,
        count > 0 ==> (r matches Some(s) && s@ == decimal(count as nat)
            + " record(s) live in a checkout and are invisible from anywhere else — `smix sim migrate` folds them in"@),
{
    if count == 0 {
        return None;
    }
    let mut s = String::new();
    push_decimal(&mut s, count);
    s.append(" record(s) live in a checkout and are invisible from anywhere else — `smix sim migrate` folds them in");
    Some(s)
}

/// The closing line of `smix sim migrate`.
pub fn sim_migrate_summary(added: usize, unchanged: usize, dry_run: bool, into: &str) -> (r: Vec<String>)
    ensures
        strs(r@) == seq![
            decimal(added as nat) + " device(s) "@ + (if dry_run {
                "would be recorded"@
            } else {
                "now recorded"@
            }) + " in "@ + into@ + " ("@ + decimal(unchanged as nat) + " already there)"@,
        ] + if added > 0 && !dry_run {
            seq![
                "the source registries are untouched — delete them yourself once every tree you use has been migrated"@,
            ]
        } else {
            seq![]
        },
{
    let mut r: Vec<String> = Vec::new();
    let mut s = String::new();
    push_decimal(&mut s, added);
    s.append(" device(s) ");
    if dry_run {
        s.append("would be recorded");
    } else {
        s.append("now recorded");
    }
    s.append(" in ");
    s.append(into);
    s.append(" (");
    push_decimal(&mut s, unchanged);
    s.append(" already there)");
    r.push(s);
    if added > 0 && !dry_run {
        r.push(
            owned(
                "the source registries are untouched — delete them yourself once every tree you use has been migrated",
            ),
        );
    }
    proof {
        let want = seq![
            decimal(added as nat) + " device(s) "@ + (if dry_run {
                "would be recorded"@
            } else {
                "now recorded"@
            }) + " in "@ + into@ + " ("@ + decimal(unchanged as nat) + " already there)"@,
        ] + if added > 0 && !dry_run {
            seq![
                "the source registries are untouched — delete them yourself once every tree you use has been migrated"@,
            ]
        } else {
            seq![]
        };
        assert(strs(r@) =~= want);
    }
    r
}

} // verus!
