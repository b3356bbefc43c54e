//! Argument-level decisions of the `smix` command line: `KEY=VALUE`
//! flags, the `sim exec` passthrough, `adb devices -l` output, the
//! runner port ladder, and the `runner up` flags only iOS implements.

use vstd::prelude::*;
use crate::text::{
    chars_of, chars_start_with, is_blank, join, join_strings, lines, lines_of, owned, slice_chars,
    split_once, split_once_chars, starts_with, str_eq, string_of, strs, trim, views, words,
    words_of, parse_u16, parse_unsigned, chars_eq, debug_quoted, debug_str, ascii_lower,
    to_ascii_lower, contains_seq,
};

verus! {

broadcast use vstd::string::group_string_axioms;

/// The port the runner binds when nobody says otherwise.
pub const DEFAULT_RUNNER_PORT: u16 = 22087;

// ---- KEY=VALUE -----------------------------------------------------------

/// What `parse_kv_pair` makes of its argument.
pub open spec fn kv_pair(s: Seq<char>) -> Result<(Seq<char>, Seq<char>), Seq<char>> {
    match split_once(s, '=') {
        None => Err("expected `KEY=VALUE`, got `"@ + s + "`"@),
        Some((k, v)) => if k.len() == 0 {
            Err("empty KEY in `"@ + s + "`"@)
        } else {
            Ok((k, v))
        },
    }
}

/// A key without `=`, then `=`, then any value, reads back as that key
/// and that value: only the first `=` splits, so the value may hold more.
pub proof fn lemma_a_pair_reads_back(k: Seq<char>, v: Seq<char>)
    requires
        k.len() > 0,
        !k.contains('='),
    ensures
        kv_pair(k + seq!['='] + v) == Ok::<_, Seq<char>>((k, v)),
{
    let s = k + seq!['='] + v;
    assert forall|j: int| 0 <= j < k.len() implies s[j] != '=' by {
        assert(s[j] == k[j]);
    }
    crate::text::lemma_find_char_unique(s, '=', k.len());
    assert(s.take(k.len() as int) =~= k);
    assert(s.skip(k.len() as int + 1) =~= v);
}

/// Parse a `KEY=VALUE` flag value: split at the first `=` (the value may
/// hold more), refusing a missing `=` or an empty key.
pub fn parse_kv_pair(s: &str) -> (r: Result<(String, String), String>)
    ensures
        match r {
            Ok((k, v)) => kv_pair(s@) == Ok::<_, Seq<char>>((k@, v@)),
            Err(m) => kv_pair(s@) == Err::<(Seq<char>, Seq<char>), _>(m@),
        },
{
    let cs = chars_of(s);
    match split_once_chars(cs.as_slice(), '=') {
        None => {
            let mut m = owned("expected `KEY=VALUE`, got `");
            m.append(s);
            m.append("`");
            Err(m)
        },
        Some((k, v)) => {
            if k.len() == 0 {
                let mut m = owned("empty KEY in `");
                m.append(s);
                m.append("`");
                Err(m)
            } else {
                Ok((string_of(k.as_slice()), string_of(v.as_slice())))
            }
        },
    }
}

// ---- sim exec --------------------------------------------------------------

/// The number of bytes UTF-8 takes for `c`.
pub open spec fn utf8_width(c: char) -> nat {
    if (c as u32) < 0x80 {
        1
    } else if (c as u32) < 0x800 {
        2
    } else if (c as u32) < 0x10000 {
        3
    } else {
        4
    }
}

/// The UTF-8 length of `s` (`str::len`).
pub open spec fn byte_len(s: Seq<char>) -> nat
    decreases s.len(),
{
    if s.len() == 0 {
        0
    } else {
        byte_len(s.drop_last()) + utf8_width(s.last())
    }
}

/// `str::split(c)`: the pieces between separators, `n + 1` of them for
/// `n` separators.
pub open spec fn split_char(s: Seq<char>, c: char) -> Seq<Seq<char>>
    decreases s.len(),
{
    match split_once(s, c) {
        None => seq![s],
        Some((a, b)) => {
            proof {
                crate::text::lemma_find_char(s, c);
            }
            seq![a] + split_char(b, c)
        },
    }
}

proof fn lemma_split_pieces_short(s: Seq<char>, c: char)
    ensures
        forall|j: int| 0 <= j < split_char(s, c).len() ==> (#[trigger] split_char(s, c)[j]).len() <= s.len(),
    decreases s.len(),
{
    crate::text::lemma_find_char(s, c);
    match split_once(s, c) {
        None => {},
        Some((a, b)) => {
            lemma_split_pieces_short(b, c);
            assert forall|j: int| 0 <= j < split_char(s, c).len() implies (#[trigger] split_char(s, c)[j]).len() <= s.len() by {
                if j > 0 {
                    assert(split_char(s, c)[j] == split_char(b, c)[j - 1]);
                }
            }
        },
    }
}

/// A UDID's shape: 36 bytes, five `-`-separated groups of 8-4-4-4-12 bytes.
pub open spec fn looks_like_udid(a: Seq<char>) -> bool {
    &&& byte_len(a) == 36
    &&& split_char(a, '-').map_values(|p: Seq<char>| byte_len(p)) == seq![8nat, 4, 4, 4, 12]
}

/// The verbs whose device `sim exec` already supplies.
pub open spec fn device_implied(verb: Seq<char>) -> bool {
    verb == "openurl"@ || verb == "launch"@ || verb == "terminate"@ || verb == "install"@ || verb
        == "uninstall"@
}

/// The first argument that looks like a UDID.
pub open spec fn first_udid(args: Seq<Seq<char>>) -> Option<int> {
    if exists|i: int| 0 <= i < args.len() && looks_like_udid(args[i]) {
        Some(
            choose|i: int|
                0 <= i < args.len() && looks_like_udid(args[i]) && forall|k: int|
                    0 <= k < i ==> !looks_like_udid(args[k]),
        )
    } else {
        None
    }
}

/// The complaint about a UDID passed where the alias already named the
/// device, for the verbs whose arity is known.
pub open spec fn arity_complaint(verb: Seq<char>, args: Seq<Seq<char>>) -> Option<Seq<char>> {
    if !device_implied(verb) {
        None
    } else {
        match first_udid(args) {
            None => None,
            Some(stray) => Some(
                "`"@ + verb
                    + "` takes no device argument — `sim exec <ALIAS|UDID>` already named one, and simctl would read `"@
                    + args[stray]
                    + "` as the device and everything after it shifted by one. Drop it: `smix sim exec <ALIAS> "@
                    + verb + " "@ + join(args.remove(stray), " "@) + "`"@,
            ),
        }
    }
}

fn byte_len_of(s: &[char]) -> (n: usize)
    requires
        s@.len() < 0x1000_0000,
    ensures
        n == byte_len(s@),
{
    let mut n: usize = 0;
    let mut i: usize = 0;
    while i < s.len()
        invariant
            i <= s@.len(),
            s@.len() < 0x1000_0000,
            n == byte_len(s@.take(i as int)),
            n <= 4 * i,
        decreases s@.len() - i,
    {
        let c = s[i];
        let w: usize = if (c as u32) < 0x80 {
            1
        } else if (c as u32) < 0x800 {
            2
        } else if (c as u32) < 0x10000 {
            3
        } else {
            4
        };
        assert(s@.take(i + 1).drop_last() =~= s@.take(i as int));
        n = n + w;
        i = i + 1;
    }
    assert(s@.take(i as int) =~= s@);
    n
}

proof fn lemma_byte_len_lower(s: Seq<char>)
    ensures
        byte_len(s) >= s.len(),
    decreases s.len(),
{
    if s.len() > 0 {
        lemma_byte_len_lower(s.drop_last());
    }
}

/// Whether `a` has a UDID's shape (see [`looks_like_udid`]).
pub fn is_udid_shaped(a: &str) -> (r: bool)
    ensures
        r == looks_like_udid(a@),
{
    let cs = chars_of(a);
    if cs.len() > 36 {
        proof {
            lemma_byte_len_lower(a@);
        }
        return false;
    }
    if byte_len_of(cs.as_slice()) != 36 {
        return false;
    }
    let mut pieces: Vec<Vec<char>> = Vec::new();
    let mut rest = cs;
    loop
        invariant_except_break
            views(pieces@) + split_char(rest@, '-') == split_char(a@, '-'),
        invariant
            rest@.len() <= 36,
            byte_len(a@) == 36,
        ensures
            views(pieces@) == split_char(a@, '-'),
        decreases rest@.len(),
    {
        proof {
            crate::text::lemma_find_char(rest@, '-');
        }
        match split_once_chars(rest.as_slice(), '-') {
            None => {
                let ghost before = views(pieces@);
                assert(split_char(rest@, '-') == seq![rest@]);
                pieces.push(rest);
                assert(views(pieces@) =~= before.push(rest@));
                assert(views(pieces@) =~= before + seq![rest@]);
                break;
            },
            Some((x, y)) => {
                let ghost before = views(pieces@);
                pieces.push(x);
                assert(views(pieces@) =~= before.push(x@));
                assert(before + split_char(rest@, '-') =~= views(pieces@) + split_char(y@, '-'));
                rest = y;
            },
        }
    }
    let ghost ps = split_char(a@, '-').map_values(|p: Seq<char>| byte_len(p));
    assert(views(pieces@) == split_char(a@, '-'));
    if pieces.len() != 5 {
        assert(ps.len() != 5);
        return false;
    }
    proof {
        lemma_split_pieces_short(a@, '-');
        assert forall|j: int| 0 <= j < 5 implies #[trigger] pieces@[j]@.len() <= 36 by {
            assert(pieces@[j]@ == views(pieces@)[j]);
        }
    }
    let want: [usize; 5] = [8, 4, 4, 4, 12];
    let mut k: usize = 0;
    while k < 5
        invariant
            k <= 5,
            pieces@.len() == 5,
            views(pieces@) == split_char(a@, '-'),
            ps == split_char(a@, '-').map_values(|p: Seq<char>| byte_len(p)),
            want@ == seq![8usize, 4, 4, 4, 12],
            forall|j: int| 0 <= j < k ==> ps[j] == want@[j],
            forall|j: int| 0 <= j < 5 ==> #[trigger] pieces@[j]@.len() <= 36,
        decreases 5 - k,
    {
        if byte_len_of(pieces[k].as_slice()) != want[k] {
            assert(ps[k as int] != seq![8nat, 4, 4, 4, 12][k as int]);
            return false;
        }
        k = k + 1;
    }
    assert(ps =~= seq![8nat, 4, 4, 4, 12]);
    true
}


/// Catch a UDID passed where the alias already implied the device, for
/// the verbs whose arity is known (`openurl`, `launch`, `terminate`,
/// `install`, `uninstall`); any other verb passes through unjudged.
pub fn exec_arity_complaint(verb: &str, args: &[String]) -> (r: Option<String>)
    ensures
        match r {
            Some(m) => arity_complaint(verb@, strs(args@)) == Some(m@),
            None => arity_complaint(verb@, strs(args@)) is None,
        },
{
    let implied = str_eq(verb, "openurl") || str_eq(verb, "launch") || str_eq(verb, "terminate")
        || str_eq(verb, "install") || str_eq(verb, "uninstall");
    if !implied {
        return None;
    }
    let ghost a = strs(args@);
    let mut i: usize = 0;
    let mut found = false;
    while i < args.len() && !found
        invariant
            i <= args@.len(),
            a == strs(args@),
            forall|k: int| 0 <= k < i ==> !looks_like_udid(a[k]),
            found ==> i < args@.len() && looks_like_udid(a[i as int]),
        decreases args@.len() - i + (if found { 0int } else { 1int }),
    {
        if is_udid_shaped(args[i].as_str()) {
            found = true;
        } else {
            i = i + 1;
        }
    }
    if !found {
        assert(!(exists|k: int| 0 <= k < a.len() && looks_like_udid(a[k])));
        return None;
    }
    let stray = i;
    proof {
        assert(looks_like_udid(a[stray as int]));
        let c = choose|c: int|
            0 <= c < a.len() && looks_like_udid(a[c]) && forall|k: int| 0 <= k < c ==> !looks_like_udid(a[k]);
        assert(0 <= c < a.len() && looks_like_udid(a[c]) && forall|k: int| 0 <= k < c ==> !looks_like_udid(a[k]));
        if c < stray {
            assert(!looks_like_udid(a[c]));
        }
        if c > stray {
            assert(!looks_like_udid(a[stray as int]));
        }
        assert(first_udid(a) == Some(stray as int));
    }
    let mut others: Vec<String> = Vec::new();
    let mut k: usize = 0;
    while k < args.len()
        invariant
            k <= args@.len(),
            stray < args@.len(),
            a == strs(args@),
            strs(others@) == (if k <= stray { a.take(k as int) } else { a.remove(stray as int).take(k - 1) }),
        decreases args@.len() - k,
    {
        let ghost before = strs(others@);
        if k != stray {
            others.push(args[k].clone());
            assert(strs(others@) =~= before.push(a[k as int]));
        }
        proof {
            if k + 1 <= stray {
                assert(a.take(k + 1) =~= a.take(k as int).push(a[k as int]));
            } else if k == stray {
                assert(a.remove(stray as int).take(k as int) =~= a.take(k as int));
            } else {
                assert(a.remove(stray as int).take(k as int) =~= a.remove(stray as int).take(k - 1).push(a[k as int]));
            }
        }
        k = k + 1;
    }
    assert(a.remove(stray as int).take(k - 1) =~= a.remove(stray as int));
    let mut m = owned("`");
    m.append(verb);
    m.append(
        "` takes no device argument — `sim exec <ALIAS|UDID>` already named one, and simctl would read `",
    );
    m.append(args[stray].as_str());
    m.append(
        "` as the device and everything after it shifted by one. Drop it: `smix sim exec <ALIAS> ",
    );
    m.append(verb);
    m.append(" ");
    m.append(join_strings(others.as_slice(), " ").as_str());
    m.append("`");
    Some(m)
}

/// The simctl argv for an exec passthrough.
pub open spec fn exec_argv_spec(verb: Seq<char>, udid: Seq<char>, args: Seq<Seq<char>>) -> Seq<Seq<char>> {
    if args.contains("{udid}"@) {
        seq![verb] + args.map_values(|a: Seq<char>| if a == "{udid}"@ { udid } else { a })
    } else {
        seq![verb, udid] + args
    }
}

/// Build the simctl argv for `sim exec`: a `{udid}` placeholder is
/// substituted where it appears; otherwise the UDID goes right after the
/// verb, simctl's device position.
pub fn exec_argv(verb: &str, udid: &str, args: &[String]) -> (argv: Vec<String>)
    ensures
        strs(argv@) == exec_argv_spec(verb@, udid@, strs(args@)),
{
    let ghost a = strs(args@);
    let mut has_placeholder = false;
    let mut i: usize = 0;
    while i < args.len()
        invariant
            i <= args@.len(),
            a == strs(args@),
            has_placeholder == a.take(i as int).contains("{udid}"@),
        decreases args@.len() - i,
    {
        if str_eq(args[i].as_str(), "{udid}") {
            has_placeholder = true;
        }
        proof {
            assert(a.take(i + 1) =~= a.take(i as int).push(a[i as int]));
            if a.take(i + 1).contains("{udid}"@) && !(a[i as int] == "{udid}"@) {
                let t = a.take(i + 1);
                let j = choose|j: int| 0 <= j < t.len() && #[trigger] t[j] == "{udid}"@;
                assert(a.take(i as int)[j] == "{udid}"@);
            }
            if a[i as int] == "{udid}"@ {
                assert(a.take(i + 1)[i as int] == "{udid}"@);
            }
        }
        i = i + 1;
    }
    assert(a.take(i as int) =~= a);
    let mut argv: Vec<String> = Vec::new();
    argv.push(owned(verb));
    if has_placeholder {
        let mut k: usize = 0;
        while k < args.len()
            invariant
                k <= args@.len(),
                a == strs(args@),
                strs(argv@) == seq![verb@] + a.take(k as int).map_values(
                    |x: Seq<char>| if x == "{udid}"@ { udid@ } else { x },
                ),
            decreases args@.len() - k,
        {
            let ghost before = strs(argv@);
            assert(a[k as int] == args@[k as int]@);
            if str_eq(args[k].as_str(), "{udid}") {
                argv.push(owned(udid));
            } else {
                argv.push(args[k].clone());
            }
            assert(strs(argv@) =~= before.push(if a[k as int] == "{udid}"@ { udid@ } else { a[k as int] }));
            assert(a.take(k + 1).map_values(|x: Seq<char>| if x == "{udid}"@ { udid@ } else { x })
                =~= a.take(k as int).map_values(|x: Seq<char>| if x == "{udid}"@ { udid@ } else { x }).push(
                if a[k as int] == "{udid}"@ { udid@ } else { a[k as int] }));
            k = k + 1;
        }
        assert(a.take(k as int) =~= a);
    } else {
        argv.push(owned(udid));
        crate::text::extend_strings(&mut argv, args);
        assert(strs(argv@) =~= seq![verb@, udid@] + a);
    }
    argv
}


// ---- adb devices -l --------------------------------------------------------

/// The lines after the leading `List of devices` header lines.
pub open spec fn drop_header(ls: Seq<Seq<char>>) -> Seq<Seq<char>>
    decreases ls.len(),
{
    if ls.len() > 0 && starts_with(ls[0], "List of devices"@) {
        drop_header(ls.drop_first())
    } else {
        ls
    }
}

/// The first field carrying a `model:` prefix, without it, or empty.
pub open spec fn model_of(fields: Seq<Seq<char>>) -> Seq<char>
    decreases fields.len(),
{
    if fields.len() == 0 {
        seq![]
    } else if starts_with(fields[0], "model:"@) {
        fields[0].skip(6)
    } else {
        model_of(fields.drop_first())
    }
}

/// One line of `adb devices -l` as `(serial, state, model)`, when it has
/// at least a serial and a state.
pub open spec fn adb_entry(line: Seq<char>) -> Option<(Seq<char>, Seq<char>, Seq<char>)> {
    let ws = words(line);
    if trim(line).len() == 0 || ws.len() < 2 {
        None
    } else {
        Some((ws[0], ws[1], model_of(ws.skip(2))))
    }
}

/// The entries of a sequence of lines, in order.
pub open spec fn adb_entries(ls: Seq<Seq<char>>) -> Seq<(Seq<char>, Seq<char>, Seq<char>)>
    decreases ls.len(),
{
    if ls.len() == 0 {
        seq![]
    } else {
        (match adb_entry(ls[0]) {
            Some(e) => seq![e],
            None => seq![],
        }) + adb_entries(ls.drop_first())
    }
}

/// The entries by their characters.
pub open spec fn triple_views(v: Seq<(String, String, String)>) -> Seq<(Seq<char>, Seq<char>, Seq<char>)> {
    v.map_values(|t: (String, String, String)| (t.0@, t.1@, t.2@))
}

fn model_field(fields: &Vec<Vec<char>>) -> (m: Vec<char>)
    requires
        fields@.len() >= 2,
    ensures
        m@ == model_of(views(fields@).skip(2)),
{
    let prefix = chars_of("model:");
    proof {
        reveal_strlit("model:");
    }
    let mut k: usize = 2;
    while k < fields.len()
        invariant
            2 <= k <= fields@.len(),
            prefix@ == "model:"@,
            model_of(views(fields@).skip(2)) == model_of(views(fields@).skip(k as int)),
        decreases fields@.len() - k,
    {
        let f = &fields[k];
        proof {
            reveal_strlit("model:");
        }
        assert(views(fields@).skip(k as int)[0] == f@);
        assert(views(fields@).skip(k as int).drop_first() =~= views(fields@).skip(k + 1));
        if chars_start_with(f.as_slice(), prefix.as_slice()) {
            let n = f.len();
            let m = slice_chars(f.as_slice(), 6, n);
            assert(m@ =~= f@.skip(6));
            return m;
        }
        k = k + 1;
    }
    assert(views(fields@).skip(k as int).len() == 0);
    Vec::new()
}

/// Parse `adb devices -l` output into `(serial, state, model)`: header
/// lines and blank lines are skipped, a line needs a serial and a state,
/// and the model is the `model:` field or empty.
pub fn parse_adb_devices(list: &str) -> (r: Vec<(String, String, String)>)
    ensures
        triple_views(r@) == adb_entries(drop_header(lines(list@))),
{
    let text = chars_of(list);
    let ls = lines_of(text.as_slice());
    let header = chars_of("List of devices");
    let ghost all = views(ls@);
    let mut i: usize = 0;
    assert(all.skip(0) =~= all);
    while i < ls.len() && chars_start_with(ls[i].as_slice(), header.as_slice())
        invariant
            i <= ls@.len(),
            header@ == "List of devices"@,
            all == views(ls@),
            drop_header(all) == drop_header(all.skip(i as int)),
        decreases ls@.len() - i,
    {
        assert(all.skip(i as int)[0] == ls@[i as int]@);
        assert(all.skip(i as int).drop_first() =~= all.skip(i + 1));
        i = i + 1;
    }
    proof {
        if i < ls@.len() {
            assert(all.skip(i as int)[0] == ls@[i as int]@);
        }
        assert(drop_header(all.skip(i as int)) == all.skip(i as int));
    }
    let mut r: Vec<(String, String, String)> = Vec::new();
    let start = i;
    while i < ls.len()
        invariant
            start <= i <= ls@.len(),
            all == views(ls@),
            triple_views(r@) + adb_entries(all.skip(i as int)) == adb_entries(all.skip(start as int)),
        decreases ls@.len() - i,
    {
        let line = &ls[i];
        assert(all.skip(i as int)[0] == line@);
        assert(all.skip(i as int).drop_first() =~= all.skip(i + 1));
        let ghost before = triple_views(r@);
        if !is_blank(line.as_slice()) {
            let fields = words_of(line.as_slice());
            if fields.len() >= 2 {
                let model = model_field(&fields);
                r.push((string_of(fields[0].as_slice()), string_of(fields[1].as_slice()), string_of(model.as_slice())));
                assert(triple_views(r@) =~= before.push((views(fields@)[0], views(fields@)[1], model@)));
                assert(before + adb_entries(all.skip(i as int)) =~= triple_views(r@) + adb_entries(all.skip(i + 1)));
            } else {
                assert(before + adb_entries(all.skip(i as int)) =~= triple_views(r@) + adb_entries(all.skip(i + 1)));
            }
        } else {
            assert(before + adb_entries(all.skip(i as int)) =~= triple_views(r@) + adb_entries(all.skip(i + 1)));
        }
        i = i + 1;
    }
    assert(adb_entries(all.skip(i as int)) =~= Seq::<(Seq<char>, Seq<char>, Seq<char>)>::empty());
    assert(triple_views(r@) + Seq::<(Seq<char>, Seq<char>, Seq<char>)>::empty() =~= triple_views(r@));
    r
}

// ---- runner ports --------------------------------------------------------

/// The port `smix run` dials: the explicit flag, else what the registry
/// says for the device (asked only when there is no flag), else
/// [`DEFAULT_RUNNER_PORT`].
pub fn run_port<F: FnOnce() -> Option<u16>>(flag: Option<u16>, registered: F) -> (port: u16)
    requires
        flag is None ==> call_requires(registered, ()),
    ensures
        flag matches Some(p) ==> port == p,
        flag is None ==> exists|o: Option<u16>|
            call_ensures(registered, (), o) && port == match o {
                Some(p) => p,
                None => DEFAULT_RUNNER_PORT,
            },
{
    match flag {
        Some(p) => p,
        None => {
            let o = registered();
            match o {
                Some(p) => p,
                None => DEFAULT_RUNNER_PORT,
            }
        },
    }
}

/// The port a single-shot verb dials: the `--port` flag, else the
/// `SMIX_RUNNER_PORT` value the caller read, else the registry, else the
/// default — the same ladder as [`run_port`].
pub fn runner_dial_port<F: FnOnce() -> Option<u16>>(flag: Option<u16>, env_port: Option<u16>, registered: F) -> (port: u16)
    requires
        flag is None && env_port is None ==> call_requires(registered, ()),
    ensures
        flag matches Some(p) ==> port == p,
        flag is None ==> (env_port matches Some(p) ==> port == p),
        flag is None && env_port is None ==> exists|o: Option<u16>|
            call_ensures(registered, (), o) && port == match o {
                Some(p) => p,
                None => DEFAULT_RUNNER_PORT,
            },
{
    let explicit = match flag {
        Some(p) => Some(p),
        None => env_port,
    };
    run_port(explicit, registered)
}

// ---- runner up on android --------------------------------------------------

/// The refusal of `runner up --platform android` for the iOS-only flags
/// given, all of them named at once.
pub open spec fn ios_only_refusal(bundle: bool, runner_project: bool, supervise: bool) -> Option<Seq<char>> {
    let offenders = (if bundle { seq!["--bundle"@] } else { seq![] }) + (if runner_project {
        seq!["--runner-project"@]
    } else {
        seq![]
    }) + (if supervise { seq!["--supervise"@] } else { seq![] });
    if offenders.len() == 0 {
        None
    } else {
        Some(
            "runner up --platform android does not implement "@ + join(offenders, " / "@) + ": "@ + (if offenders.len() == 1 {
                "it is"@
            } else {
                "they are"@
            })
                + " iOS-only. Drop the flag — the Android runner takes its target app from the App-Bundle-Id header per request, builds no Xcode project, and has no supervise sidecar. Only "@
                + "--runner-port"@ + " applies on this platform."@,
        )
    }
}

proof fn lemma_contains_left(a: Seq<char>, b: Seq<char>, n: Seq<char>)
    requires
        contains_seq(a, n),
    ensures
        contains_seq(a + b, n),
{
    let i = choose|i: int| 0 <= i && i + n.len() <= a.len() && #[trigger] a.subrange(i, i + n.len()) == n;
    assert((a + b).subrange(i, i + n.len()) =~= a.subrange(i, i + n.len()));
}

proof fn lemma_contains_right(a: Seq<char>, b: Seq<char>, n: Seq<char>)
    requires
        contains_seq(b, n),
    ensures
        contains_seq(a + b, n),
{
    let i = choose|i: int| 0 <= i && i + n.len() <= b.len() && #[trigger] b.subrange(i, i + n.len()) == n;
    assert((a + b).subrange(a.len() + i, a.len() + i + n.len()) =~= b.subrange(i, i + n.len()));
}

proof fn lemma_contains_self(n: Seq<char>)
    ensures
        contains_seq(n, n),
{
    let z: int = 0;
    assert(n.subrange(z, z + n.len()) =~= n);
}

proof fn lemma_join_contains_part(parts: Seq<Seq<char>>, sep: Seq<char>, k: int)
    requires
        0 <= k < parts.len(),
    ensures
        contains_seq(join(parts, sep), parts[k]),
    decreases parts.len(),
{
    if parts.len() == 1 {
        lemma_contains_self(parts[0]);
    } else if k == parts.len() - 1 {
        lemma_contains_self(parts.last());
        lemma_contains_right(join(parts.drop_last(), sep) + sep, parts.last(), parts[k]);
    } else {
        lemma_join_contains_part(parts.drop_last(), sep, k);
        assert(parts.drop_last()[k] == parts[k]);
        lemma_contains_left(join(parts.drop_last(), sep), sep + parts.last(), parts[k]);
        assert(join(parts.drop_last(), sep) + (sep + parts.last()) =~= join(parts.drop_last(), sep) + sep + parts.last());
    }
}

/// `runner up --platform android` refuses exactly when an iOS-only flag
/// is given, and then names every flag given at once and no other, says
/// what does apply (`--runner-port`), and speaks of one flag as "it is"
/// and of two or three as "they are".
pub proof fn lemma_every_dropped_flag_is_named(bundle: bool, runner_project: bool, supervise: bool)
    ensures
        ios_only_refusal(bundle, runner_project, supervise) is None <==> !bundle && !runner_project && !supervise,
        ios_only_refusal(bundle, runner_project, supervise) matches Some(m) ==> {
            &&& bundle <==> contains_seq(m, "--bundle"@)
            &&& runner_project <==> contains_seq(m, "--runner-project"@)
            &&& supervise <==> contains_seq(m, "--supervise"@)
            &&& contains_seq(m, "--runner-port"@)
            &&& (bundle as int + runner_project as int + supervise as int == 1) <==> contains_seq(m, "it is"@)
            &&& (bundle as int + runner_project as int + supervise as int >= 2) <==> contains_seq(m, "they are"@)
        },
{
    let offenders = (if bundle { seq!["--bundle"@] } else { seq![] }) + (if runner_project {
        seq!["--runner-project"@]
    } else {
        seq![]
    }) + (if supervise { seq!["--supervise"@] } else { seq![] });
    let count = bundle as int + runner_project as int + supervise as int;
    assert(offenders.len() == count);
    if offenders.len() > 0 {
        let p = "runner up --platform android does not implement "@;
        let j = join(offenders, " / "@);
        let form = if offenders.len() == 1 { "it is"@ } else { "they are"@ };
        let t1 = " iOS-only. Drop the flag — the Android runner takes its target app from the App-Bundle-Id header per request, builds no Xcode project, and has no supervise sidecar. Only "@;
        let t2 = " applies on this platform."@;
        let m = p + j + ": "@ + form + t1 + "--runner-port"@ + t2;
        assert(ios_only_refusal(bundle, runner_project, supervise) == Some(m));
        lemma_unnamed_flags_are_absent(bundle, runner_project, supervise);
        assert forall|n: Seq<char>| contains_seq(j, n) implies contains_seq(m, n) by {
            lemma_contains_right(p, j, n);
            lemma_contains_left(p + j, ": "@ + form + t1 + "--runner-port"@ + t2, n);
            assert(p + j + (": "@ + form + t1 + "--runner-port"@ + t2) =~= m);
        }
        if bundle {
            assert(offenders[0] == "--bundle"@);
            lemma_join_contains_part(offenders, " / "@, 0);
        }
        if runner_project {
            let k: int = if bundle { 1 } else { 0 };
            assert(offenders[k] == "--runner-project"@);
            lemma_join_contains_part(offenders, " / "@, k);
        }
        if supervise {
            let k: int = offenders.len() - 1;
            assert(offenders[k] == "--supervise"@);
            lemma_join_contains_part(offenders, " / "@, k);
        }
        lemma_contains_self("--runner-port"@);
        lemma_contains_right(p + j + ": "@ + form + t1, "--runner-port"@, "--runner-port"@);
        lemma_contains_left(p + j + ": "@ + form + t1 + "--runner-port"@, t2, "--runner-port"@);
        lemma_contains_self(form);
        lemma_contains_right(p + j + ": "@, form, form);
        lemma_contains_left(p + j + ": "@ + form, t1 + "--runner-port"@ + t2, form);
        assert(p + j + ": "@ + form + (t1 + "--runner-port"@ + t2) =~= m);
    }
}

/// Refuse the `runner up` flags only the iOS path implements.
pub fn reject_ios_only_up_flags(bundle: bool, runner_project: bool, supervise: bool) -> (r: Result<(), String>)
    ensures
        match r {
            Ok(()) => ios_only_refusal(bundle, runner_project, supervise) is None,
            Err(m) => ios_only_refusal(bundle, runner_project, supervise) == Some(m@),
        },
{
    let mut offenders: Vec<String> = Vec::new();
    if bundle {
        offenders.push(owned("--bundle"));
    }
    if runner_project {
        offenders.push(owned("--runner-project"));
    }
    if supervise {
        offenders.push(owned("--supervise"));
    }
    let ghost want = (if bundle { seq!["--bundle"@] } else { seq![] }) + (if runner_project {
        seq!["--runner-project"@]
    } else {
        seq![]
    }) + (if supervise { seq!["--supervise"@] } else { seq![] });
    assert(strs(offenders@) =~= want);
    if offenders.len() == 0 {
        return Ok(());
    }
    let mut m = owned("runner up --platform android does not implement ");
    m.append(join_strings(offenders.as_slice(), " / ").as_str());
    m.append(": ");
    if offenders.len() == 1 {
        m.append("it is");
    } else {
        m.append("they are");
    }
    m.append(
        " iOS-only. Drop the flag — the Android runner takes its target app from the App-Bundle-Id header per request, builds no Xcode project, and has no supervise sidecar. Only ",
    );
    m.append("--runner-port");
    m.append(" applies on this platform.");
    Err(m)
}


// ---- SMIX_RUNNER_PORT ------------------------------------------------------

/// The port a `SMIX_RUNNER_PORT` value names: the value when it reads as
/// a `u16`, and nothing for an unset or unreadable variable, so the
/// ladder goes on to the registry rather than to a default.
pub fn port_from_env_value(value: Option<&str>) -> (r: Option<u16>)
    ensures
        r == match value {
            Some(v) => match parse_unsigned(v@, 65535) {
                Ok(n) => Some(n as u16),
                Err(_) => None,
            },
            None => None,
        },
{
    match value {
        Some(v) => match parse_u16(v) {
            Ok(n) => Some(n),
            Err(_) => None,
        },
        None => None,
    }
}


// ---- appearance ------------------------------------------------------------

/// The appearance a simulator is switched to.
#[derive(Debug, Clone, Copy, PartialEq, Eq, Structural)]
pub enum Appearance {
    Light,
    Dark,
}

/// What `--appearance` names: `light` or `dark` in any ASCII case, or
/// the lowered value named back.
pub open spec fn appearance_named(s: Seq<char>) -> Result<Appearance, Seq<char>> {
    let l = ascii_lower(s);
    if l == "light"@ {
        Ok(Appearance::Light)
    } else if l == "dark"@ {
        Ok(Appearance::Dark)
    } else {
        Err("expected 'light' or 'dark', got "@ + debug_quoted(l))
    }
}

pub fn parse_appearance(s: &str) -> (r: Result<Appearance, String>)
    ensures
        match r {
            Ok(a) => appearance_named(s@) == Ok::<_, Seq<char>>(a),
            Err(m) => appearance_named(s@) == Err::<Appearance, _>(m@),
        },
{
    let l = to_ascii_lower(s);
    let light = chars_of("light");
    let dark = chars_of("dark");
    if chars_eq(l.as_slice(), light.as_slice()) {
        Ok(Appearance::Light)
    } else if chars_eq(l.as_slice(), dark.as_slice()) {
        Ok(Appearance::Dark)
    } else {
        let mut m = owned("expected 'light' or 'dark', got ");
        m.append(debug_str(string_of(l.as_slice()).as_str()).as_str());
        Err(m)
    }
}



/// The refusal's text when at least one iOS-only flag is given.
pub open spec fn refusal_text(bundle: bool, runner_project: bool, supervise: bool) -> Seq<char> {
    match ios_only_refusal(bundle, runner_project, supervise) {
        Some(m) => m,
        None => seq![],
    }
}


proof fn occurrence(m: Seq<char>, w: Seq<char>) -> (i: int)
    requires
        contains_seq(m, w),
    ensures
        0 <= i && i + w.len() <= m.len(),
        forall|k: int| 0 <= k < w.len() ==> m[i + k] == #[trigger] w[k],
{
    let i = choose|i: int| 0 <= i && i + w.len() <= m.len() && #[trigger] m.subrange(i, i + w.len()) == w;
    assert forall|k: int| 0 <= k < w.len() implies m[i + k] == #[trigger] w[k] by {
        assert(m.subrange(i, i + w.len())[k] == m[i + k]);
    }
    i
}

proof fn lemma_no_flag_word(m: Seq<char>, w: Seq<char>, c: char)
    requires
        w.len() >= 3,
        w[0] == '-' && w[1] == '-' && w[2] == c,
        forall|i: int| 0 <= i && i + 2 < m.len() ==> !(#[trigger] m[i] == '-' && m[i + 1] == '-' && m[i + 2] == c),
    ensures
        !contains_seq(m, w),
{
    if contains_seq(m, w) {
        let i = occurrence(m, w);
        assert(w[0] == m[i + 0] && w[1] == m[i + 1] && w[2] == m[i + 2]);
        assert(m[i] == '-');
    }
}

proof fn lemma_no_runner_project(m: Seq<char>)
    requires
        forall|i: int|
            0 <= i && i + 10 < m.len() ==> !(#[trigger] m[i] == '-' && m[i + 1] == '-' && m[i + 2] == 'r' && m[i + 9]
                == 'p' && m[i + 10] == 'r'),
    ensures
        !contains_seq(m, "--runner-project"@),
{
    reveal_strlit("--runner-project");
    let w = "--runner-project"@;
    if contains_seq(m, w) {
        let i = occurrence(m, w);
        assert(w[0] == m[i + 0] && w[1] == m[i + 1] && w[2] == m[i + 2] && w[9] == m[i + 9] && w[10] == m[i + 10]);
        assert(m[i] == '-');
    }
}

proof fn lemma_no_it_is(m: Seq<char>)
    requires
        forall|i: int|
            0 <= i && i + 4 < m.len() ==> !(#[trigger] m[i] == 'i' && m[i + 1] == 't' && m[i + 2] == ' ' && m[i + 3] == 'i'
                && m[i + 4] == 's'),
    ensures
        !contains_seq(m, "it is"@),
{
    reveal_strlit("it is");
    let w = "it is"@;
    if contains_seq(m, w) {
        let i = occurrence(m, w);
        assert(w[0] == m[i + 0] && w[1] == m[i + 1] && w[2] == m[i + 2] && w[3] == m[i + 3] && w[4] == m[i + 4]);
        assert(m[i] == 'i');
    }
}

proof fn lemma_no_they(m: Seq<char>)
    requires
        forall|i: int| 0 <= i && i + 3 < m.len() ==> !(#[trigger] m[i] == 't' && m[i + 1] == 'h' && m[i + 2] == 'e' && m[i + 3] == 'y'),
    ensures
        !contains_seq(m, "they are"@),
{
    reveal_strlit("they are");
    let w = "they are"@;
    if contains_seq(m, w) {
        let i = occurrence(m, w);
        assert(w[0] == m[i + 0] && w[1] == m[i + 1] && w[2] == m[i + 2] && w[3] == m[i + 3]);
        assert(m[i] == 't');
    }
}

/// The refusal names no flag that was not given, and uses "it is" only
/// for one flag and "they are" only for more.
proof fn lemma_unnamed_flags_are_absent(bundle: bool, runner_project: bool, supervise: bool)
    requires
        bundle || runner_project || supervise,
    ensures
        !bundle ==> !contains_seq(refusal_text(bundle, runner_project, supervise), "--bundle"@),
        !runner_project ==> !contains_seq(refusal_text(bundle, runner_project, supervise), "--runner-project"@),
        !supervise ==> !contains_seq(refusal_text(bundle, runner_project, supervise), "--supervise"@),
        bundle as int + runner_project as int + supervise as int == 1 ==> !contains_seq(
            refusal_text(bundle, runner_project, supervise),
            "they are"@,
        ),
        bundle as int + runner_project as int + supervise as int >= 2 ==> !contains_seq(
            refusal_text(bundle, runner_project, supervise),
            "it is"@,
        ),
{
    reveal_strlit("runner up --platform android does not implement ");
    reveal_strlit(" / ");
    reveal_strlit(": ");
    reveal_strlit("it is");
    reveal_strlit("they are");
    reveal_strlit(" iOS-only. Drop the flag — the Android runner takes its target app from the App-Bundle-Id header per request, builds no Xcode project, and has no supervise sidecar. Only ");
    reveal_strlit("--runner-port");
    reveal_strlit(" applies on this platform.");
    reveal_strlit("--bundle");
    reveal_strlit("--runner-project");
    reveal_strlit("--supervise");
    reveal_with_fuel(join, 3);
    let (bn, rn, sn) = ("--bundle"@, "--runner-project"@, "--supervise"@);
    let m = refusal_text(bundle, runner_project, supervise);
    if bundle && !runner_project && !supervise {
        assert(join(seq![bn], " / "@) == bn);
        assert((seq![bn] + seq![]) + seq![] =~= seq![bn]);
    } else if !bundle && runner_project && !supervise {
        assert(join(seq![rn], " / "@) == rn);
        assert((seq![] + seq![rn]) + seq![] =~= seq![rn]);
    } else if !bundle && !runner_project && supervise {
        assert(join(seq![sn], " / "@) == sn);
        assert((seq![] + seq![]) + seq![sn] =~= seq![sn]);
    } else if bundle && runner_project && !supervise {
        assert(seq![bn, rn].drop_last() =~= seq![bn]);
        assert((seq![bn] + seq![rn]) + seq![] =~= seq![bn, rn]);
    } else if bundle && !runner_project && supervise {
        assert(seq![bn, sn].drop_last() =~= seq![bn]);
        assert((seq![bn] + seq![]) + seq![sn] =~= seq![bn, sn]);
    } else if !bundle && runner_project && supervise {
        assert(seq![rn, sn].drop_last() =~= seq![rn]);
        assert((seq![] + seq![rn]) + seq![sn] =~= seq![rn, sn]);
    } else {
        assert(seq![bn, rn, sn].drop_last() =~= seq![bn, rn]);
        assert(seq![bn, rn].drop_last() =~= seq![bn]);
        assert((seq![bn] + seq![rn]) + seq![sn] =~= seq![bn, rn, sn]);
    }
    if !bundle {
        assert(forall|i: int| 0 <= i && i + 2 < m.len() ==> !(#[trigger] m[i] == '-' && m[i + 1] == '-' && m[i + 2] == 'b'));
        lemma_no_flag_word(m, bn, 'b');
    }
    if !supervise {
        assert(forall|i: int| 0 <= i && i + 2 < m.len() ==> !(#[trigger] m[i] == '-' && m[i + 1] == '-' && m[i + 2] == 's'));
        lemma_no_flag_word(m, sn, 's');
    }
    if !runner_project {
        assert(forall|i: int|
            0 <= i && i + 10 < m.len() ==> !(#[trigger] m[i] == '-' && m[i + 1] == '-' && m[i + 2] == 'r' && m[i + 9] == 'p'
                && m[i + 10] == 'r'));
        lemma_no_runner_project(m);
    }
    if bundle as int + runner_project as int + supervise as int == 1 {
        assert(forall|i: int| 0 <= i && i + 3 < m.len() ==> !(#[trigger] m[i] == 't' && m[i + 1] == 'h' && m[i + 2] == 'e' && m[i + 3] == 'y'));
        lemma_no_they(m);
    } else {
        assert(forall|i: int|
            0 <= i && i + 4 < m.len() ==> !(#[trigger] m[i] == 'i' && m[i + 1] == 't' && m[i + 2] == ' ' && m[i + 3] == 'i'
                && m[i + 4] == 's'));
        lemma_no_it_is(m);
    }
}
} // verus!
