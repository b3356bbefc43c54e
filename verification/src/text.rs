//! Text helpers the rest of the crate is written with: characters in
//! and out of `String`, decimal rendering, whitespace trimming, line
//! and word splitting, all specified over `Seq<char>`.

use vstd::prelude::*;
use vstd::string::*;

verus! {

broadcast use vstd::string::group_string_axioms;

/// Appends one character to a `String`.
///
/// Calls `String::push`, which std documents as appending the given
/// `char` to the end of the string; the contract says the view grows by
/// exactly that character.
#[verifier::external_body]
pub(crate) fn push_char(s: &mut String, c: char)
    ensures
        final(s)@ == old(s)@.push(c),
{
    s.push(c);
}

/// The characters of a string slice, in order.
pub fn chars_of(s: &str) -> (v: Vec<char>)
    ensures
        v@ == s@,
{
    let n = s.unicode_len();
    let mut v: Vec<char> = Vec::new();
    let mut i: usize = 0;
    while i < n
        invariant
            n == s@.len(),
            i <= n,
            v@ == s@.take(i as int),
        decreases n - i,
    {
        let c = s.get_char(i);
        v.push(c);
        assert(s@.take(i + 1) =~= s@.take(i as int).push(c));
        i = i + 1;
    }
    assert(s@.take(n as int) =~= s@);
    v
}

/// Appends characters to a `String`.
pub fn push_chars(s: &mut String, cs: &[char])
    ensures
        final(s)@ == old(s)@ + cs@,
{
    let mut i: usize = 0;
    while i < cs.len()
        invariant
            i <= cs@.len(),
            s@ == old(s)@ + cs@.take(i as int),
        decreases cs@.len() - i,
    {
        push_char(s, cs[i]);
        assert(cs@.take(i + 1) =~= cs@.take(i as int).push(cs@[i as int]));
        i = i + 1;
    }
    assert(cs@.take(i as int) =~= cs@);
}

/// A `String` holding exactly these characters.
pub fn string_of(cs: &[char]) -> (s: String)
    ensures
        s@ == cs@,
{
    let mut s = String::new();
    push_chars(&mut s, cs);
    s
}

/// Appends a string slice to a `String`.
pub fn push_str(s: &mut String, t: &str)
    ensures
        final(s)@ == old(s)@ + t@,
{
    s.append(t);
}

/// A fresh `String` with the contents of `t`.
pub fn owned(t: &str) -> (s: String)
    ensures
        s@ == t@,
{
    String::from_str(t)
}

/// Whether two character sequences are equal, element by element.
pub fn chars_eq(a: &[char], b: &[char]) -> (r: bool)
    ensures
        r == (a@ == b@),
{
    if a.len() != b.len() {
        return false;
    }
    let mut i: usize = 0;
    while i < a.len()
        invariant
            a@.len() == b@.len(),
            i <= a@.len(),
            forall|j: int| 0 <= j < i ==> a@[j] == b@[j],
        decreases a@.len() - i,
    {
        if a[i] != b[i] {
            return false;
        }
        i = i + 1;
    }
    assert(a@ =~= b@);
    true
}

/// Whether two string slices hold the same characters.
pub fn str_eq(a: &str, b: &str) -> (r: bool)
    ensures
        r == (a@ == b@),
{
    let x = chars_of(a);
    let y = chars_of(b);
    chars_eq(x.as_slice(), y.as_slice())
}

// ---- decimal ---------------------------------------------------------

/// The ASCII digit for `d` (`0 <= d < 10`).
pub open spec fn digit_char(d: nat) -> char {
    if d == 0 {
        '0'
    } else if d == 1 {
        '1'
    } else if d == 2 {
        '2'
    } else if d == 3 {
        '3'
    } else if d == 4 {
        '4'
    } else if d == 5 {
        '5'
    } else if d == 6 {
        '6'
    } else if d == 7 {
        '7'
    } else if d == 8 {
        '8'
    } else {
        '9'
    }
}

/// Base-10 rendering of `n`, as `Display` writes an unsigned integer:
/// no sign, no leading zeros, `0` for zero.
pub open spec fn decimal(n: nat) -> Seq<char>
    decreases n,
{
    if n < 10 {
        seq![digit_char(n)]
    } else {
        decimal(n / 10).push(digit_char(n % 10))
    }
}

fn digit_of(d: usize) -> (c: char)
    requires
        d < 10,
    ensures
        c == digit_char(d as nat),
{
    if d == 0 {
        '0'
    } else if d == 1 {
        '1'
    } else if d == 2 {
        '2'
    } else if d == 3 {
        '3'
    } else if d == 4 {
        '4'
    } else if d == 5 {
        '5'
    } else if d == 6 {
        '6'
    } else if d == 7 {
        '7'
    } else if d == 8 {
        '8'
    } else {
        '9'
    }
}

/// Appends the decimal rendering of `n`.
pub fn push_decimal(s: &mut String, n: usize)
    ensures
        final(s)@ == old(s)@ + decimal(n as nat),
    decreases n,
{
    if n >= 10 {
        push_decimal(s, n / 10);
    }
    let c = digit_of(n % 10);
    push_char(s, c);
    proof {
        if n >= 10 {
            assert(decimal(n as nat) == decimal((n / 10) as nat).push(digit_char((n % 10) as nat)));
        }
    }
}

/// The decimal rendering of `n` as a `String`.
pub fn decimal_string(n: usize) -> (s: String)
    ensures
        s@ == decimal(n as nat),
{
    let mut s = String::new();
    push_decimal(&mut s, n);
    s
}


// ---- whitespace, trimming -------------------------------------------

/// `char::is_whitespace`: the Unicode `White_Space` property.
pub open spec fn is_whitespace(c: char) -> bool {
    let u = c as u32;
    ||| 9 <= u <= 13
    ||| u == 32
    ||| u == 0x85
    ||| u == 0xa0
    ||| u == 0x1680
    ||| 0x2000 <= u <= 0x200a
    ||| u == 0x2028
    ||| u == 0x2029
    ||| u == 0x202f
    ||| u == 0x205f
    ||| u == 0x3000
}

pub fn char_is_whitespace(c: char) -> (r: bool)
    ensures
        r == is_whitespace(c),
{
    let u = c as u32;
    (9 <= u && u <= 13) || u == 32 || u == 0x85 || u == 0xa0 || u == 0x1680 || (0x2000 <= u && u
        <= 0x200a) || u == 0x2028 || u == 0x2029 || u == 0x202f || u == 0x205f || u == 0x3000
}

/// `s` without leading whitespace.
pub open spec fn trim_start(s: Seq<char>) -> Seq<char>
    decreases s.len(),
{
    if s.len() > 0 && is_whitespace(s[0]) {
        trim_start(s.drop_first())
    } else {
        s
    }
}

/// `s` without trailing whitespace.
pub open spec fn trim_end(s: Seq<char>) -> Seq<char>
    decreases s.len(),
{
    if s.len() > 0 && is_whitespace(s.last()) {
        trim_end(s.drop_last())
    } else {
        s
    }
}

/// `str::trim`: both ends stripped of whitespace.
pub open spec fn trim(s: Seq<char>) -> Seq<char> {
    trim_end(trim_start(s))
}

/// The index where `trim_start` begins.
fn trim_start_index(s: &[char]) -> (i: usize)
    ensures
        i <= s@.len(),
        trim_start(s@) == s@.skip(i as int),
        i < s@.len() ==> !is_whitespace(s@[i as int]),
        forall|k: int| 0 <= k < i ==> is_whitespace(#[trigger] s@[k]),
{
    let mut i: usize = 0;
    assert(s@.skip(0) =~= s@);
    while i < s.len() && char_is_whitespace(s[i])
        invariant
            i <= s@.len(),
            trim_start(s@) == trim_start(s@.skip(i as int)),
            forall|k: int| 0 <= k < i ==> is_whitespace(#[trigger] s@[k]),
        decreases s@.len() - i,
    {
        assert(s@.skip(i as int).drop_first() =~= s@.skip(i + 1));
        i = i + 1;
    }
    assert(trim_start(s@.skip(i as int)) == s@.skip(i as int));
    i
}

/// `s.take(j)` is what `trim_end` leaves of `s.take(n)` once the
/// characters between `j` and `n` are all whitespace.
fn trim_end_index(s: &[char], from: usize) -> (j: usize)
    requires
        from <= s@.len(),
    ensures
        from <= j <= s@.len(),
        trim_end(s@.skip(from as int)) == s@.subrange(from as int, j as int),
{
    let mut j: usize = s.len();
    while j > from && char_is_whitespace(s[j - 1])
        invariant
            from <= j <= s@.len(),
            trim_end(s@.skip(from as int)) == trim_end(s@.subrange(from as int, j as int)),
        decreases j,
    {
        assert(s@.subrange(from as int, j as int).drop_last() =~= s@.subrange(
            from as int,
            j - 1,
        ));
        j = j - 1;
    }
    assert(s@.skip(from as int) =~= s@.subrange(from as int, s@.len() as int));
    j
}

/// `str::trim` over characters.
pub fn trim_chars(s: &[char]) -> (r: Vec<char>)
    ensures
        r@ == trim(s@),
{
    let i = trim_start_index(s);
    let j = trim_end_index(s, i);
    slice_chars(s, i, j)
}

/// `s[from..to]`, copied.
pub fn slice_chars(s: &[char], from: usize, to: usize) -> (r: Vec<char>)
    requires
        from <= to <= s@.len(),
    ensures
        r@ == s@.subrange(from as int, to as int),
{
    let mut r: Vec<char> = Vec::new();
    let mut k: usize = from;
    while k < to
        invariant
            from <= k <= to,
            to <= s@.len(),
            r@ == s@.subrange(from as int, k as int),
        decreases to - k,
    {
        r.push(s[k]);
        assert(s@.subrange(from as int, k + 1) =~= s@.subrange(from as int, k as int).push(
            s@[k as int],
        ));
        k = k + 1;
    }
    r
}

/// Whether every character is whitespace (so `trim` leaves nothing).
pub fn is_blank(s: &[char]) -> (r: bool)
    ensures
        r == (trim(s@).len() == 0),
{
    let i = trim_start_index(s);
    proof {
        lemma_trim_end_of_nonempty(s@.skip(i as int));
    }
    i == s.len()
}

proof fn lemma_trim_end_of_nonempty(s: Seq<char>)
    requires
        s.len() > 0 ==> !is_whitespace(s[0]),
    ensures
        (trim_end(s).len() == 0) == (s.len() == 0),
    decreases s.len(),
{
    if s.len() > 1 && is_whitespace(s.last()) {
        assert(s.drop_last()[0] == s[0]);
        lemma_trim_end_of_nonempty(s.drop_last());
    }
}

// ---- words -------------------------------------------------------------

pub proof fn lemma_trim_start_shorter(s: Seq<char>)
    ensures
        trim_start(s).len() <= s.len(),
        trim_start(s).len() > 0 ==> !is_whitespace(trim_start(s)[0]),
    decreases s.len(),
{
    if s.len() > 0 && is_whitespace(s[0]) {
        lemma_trim_start_shorter(s.drop_first());
    }
}

/// How many leading characters are not whitespace.
pub open spec fn word_len(s: Seq<char>) -> nat
    decreases s.len(),
{
    if s.len() == 0 || is_whitespace(s[0]) {
        0
    } else {
        1 + word_len(s.drop_first())
    }
}

pub proof fn lemma_word_len_bound(s: Seq<char>)
    ensures
        word_len(s) <= s.len(),
    decreases s.len(),
{
    if s.len() > 0 && !is_whitespace(s[0]) {
        lemma_word_len_bound(s.drop_first());
    }
}

/// `str::split_whitespace`: the maximal runs of non-whitespace.
pub open spec fn words(s: Seq<char>) -> Seq<Seq<char>>
    decreases s.len(),
{
    let t = trim_start(s);
    if t.len() == 0 {
        seq![]
    } else {
        proof {
            lemma_trim_start_shorter(s);
            lemma_word_len_bound(t);
        }
        let k = word_len(t);
        seq![t.take(k as int)] + words(t.skip(k as int))
    }
}

proof fn lemma_trim_start_skip(s: Seq<char>, i: int, j: int)
    requires
        0 <= i <= j <= s.len(),
        forall|k: int| i <= k < j ==> is_whitespace(#[trigger] s[k]),
        j == s.len() || !is_whitespace(s[j]),
    ensures
        trim_start(s.skip(i)) == s.skip(j),
    decreases j - i,
{
    if i < j {
        assert(s.skip(i).drop_first() =~= s.skip(i + 1));
        lemma_trim_start_skip(s, i + 1, j);
    } else {
        if j < s.len() {
            assert(s.skip(j)[0] == s[j]);
        }
    }
}

proof fn lemma_word_len_run(s: Seq<char>, i: int, j: int)
    requires
        0 <= i <= j <= s.len(),
        forall|k: int| i <= k < j ==> !is_whitespace(#[trigger] s[k]),
        j == s.len() || is_whitespace(s[j]),
    ensures
        word_len(s.skip(i)) == j - i,
    decreases j - i,
{
    if i < j {
        assert(s.skip(i).drop_first() =~= s.skip(i + 1));
        assert(s.skip(i)[0] == s[i]);
        lemma_word_len_run(s, i + 1, j);
    } else {
        if j < s.len() {
            assert(s.skip(j)[0] == s[j]);
        }
    }
}

/// `str::split_whitespace` over characters.
pub fn words_of(s: &[char]) -> (r: Vec<Vec<char>>)
    ensures
        views(r@) == words(s@),
{
    let mut r: Vec<Vec<char>> = Vec::new();
    let n = s.len();
    let mut i: usize = 0;
    assert(s@.skip(0) =~= s@);
    while i < n
        invariant
            n == s@.len(),
            i <= n,
            views(r@) + words(s@.skip(i as int)) == words(s@),
        decreases n - i,
    {
        let start = i;
        let mut j: usize = i;
        while j < n && char_is_whitespace(s[j])
            invariant
                start <= j <= n,
                n == s@.len(),
                forall|k: int| start <= k < j ==> is_whitespace(#[trigger] s@[k]),
            decreases n - j,
        {
            j = j + 1;
        }
        proof {
            lemma_trim_start_skip(s@, start as int, j as int);
        }
        if j == n {
            assert(s@.skip(j as int).len() == 0);
            assert(words(s@.skip(start as int)) =~= Seq::<Seq<char>>::empty());
            assert(views(r@) + words(s@.skip(j as int)) =~= views(r@));
            i = j;
        } else {
            let w0 = j;
            let mut m: usize = j;
            while m < n && !char_is_whitespace(s[m])
                invariant
                    w0 <= m <= n,
                    n == s@.len(),
                    forall|k: int| w0 <= k < m ==> !is_whitespace(#[trigger] s@[k]),
                decreases n - m,
            {
                m = m + 1;
            }
            proof {
                lemma_word_len_run(s@, w0 as int, m as int);
                let t = s@.skip(w0 as int);
                assert(t.take(m - w0) =~= s@.subrange(w0 as int, m as int));
                assert(t.skip(m - w0) =~= s@.skip(m as int));
                assert(t.len() > 0);
            }
            let word = slice_chars(s, w0, m);
            let ghost before = views(r@);
            r.push(word);
            proof {
                assert(views(r@) =~= before.push(word@));
                assert(words(s@.skip(start as int)) == seq![word@] + words(s@.skip(m as int)));
                assert(before + (seq![word@] + words(s@.skip(m as int))) =~= views(r@) + words(s@.skip(m as int)));
            }
            i = m;
        }
    }
    assert(s@.skip(i as int).len() == 0);
    assert(words(s@.skip(i as int)) =~= Seq::<Seq<char>>::empty());
    assert(views(r@) + words(s@.skip(i as int)) =~= views(r@));
    r
}

/// Whether `s` begins with `p`.
pub open spec fn starts_with(s: Seq<char>, p: Seq<char>) -> bool {
    p.len() <= s.len() && s.take(p.len() as int) == p
}

pub fn chars_start_with(s: &[char], p: &[char]) -> (r: bool)
    ensures
        r == starts_with(s@, p@),
{
    if p.len() > s.len() {
        return false;
    }
    let head = slice_chars(s, 0, p.len());
    assert(head@ =~= s@.take(p@.len() as int));
    chars_eq(head.as_slice(), p)
}

// ---- case ---------------------------------------------------------------

/// `str::to_lowercase`: every character mapped by Unicode's lowercase
/// mapping.
pub uninterp spec fn lowercase(s: Seq<char>) -> Seq<char>;

/// Calls `str::to_lowercase`. std documents the result as the string's
/// lowercase equivalent under Unicode's `Lowercase` mapping, which
/// depends on the text alone; the contract names it `lowercase`.
#[verifier::external_body]
pub(crate) fn to_lowercase(s: &str) -> (r: String)
    ensures
        r@ == lowercase(s@),
{
    s.to_lowercase()
}

// ---- ASCII case ---------------------------------------------------------

/// `str::to_ascii_lowercase`: ASCII capitals lowered, everything else kept.
pub open spec fn ascii_lower(s: Seq<char>) -> Seq<char> {
    s.map_values(|c: char| if 'A' <= c && c <= 'Z' { ((c as u8) + 32u8) as char } else { c })
}

pub fn to_ascii_lower(s: &str) -> (r: Vec<char>)
    ensures
        r@ == ascii_lower(s@),
{
    let cs = chars_of(s);
    let mut r: Vec<char> = Vec::new();
    let mut i: usize = 0;
    while i < cs.len()
        invariant
            i <= cs@.len(),
            cs@ == s@,
            r@ == ascii_lower(cs@.take(i as int)),
        decreases cs@.len() - i,
    {
        let c = cs[i];
        let l = if 'A' <= c && c <= 'Z' {
            ((c as u8) + 32u8) as char
        } else {
            c
        };
        r.push(l);
        assert(ascii_lower(cs@.take(i + 1)) =~= ascii_lower(cs@.take(i as int)).push(l));
        i = i + 1;
    }
    assert(cs@.take(i as int) =~= cs@);
    r
}

// ---- Debug quoting ------------------------------------------------------

/// `{:?}` of a `str`: the text in double quotes, escaped by std's
/// `Debug` for `str` (which leaves single quotes as they are, unlike
/// `str::escape_debug`).
pub uninterp spec fn debug_quoted(s: Seq<char>) -> Seq<char>;

/// Formats `s` with `{:?}`, std's `Debug` for `str`: quoted and escaped
/// by rules that depend on the text alone, named `debug_quoted`.
#[verifier::external_body]
pub(crate) fn debug_str(s: &str) -> (r: String)
    ensures
        r@ == debug_quoted(s@),
{
    format!("{s:?}")
}

// ---- containment ---------------------------------------------------------

/// Whether `n` occurs in `h` as a contiguous run.
pub open spec fn contains_seq(h: Seq<char>, n: Seq<char>) -> bool {
    exists|i: int| 0 <= i && i + n.len() <= h.len() && #[trigger] h.subrange(i, i + n.len()) == n
}

/// Whether `n` occurs in `h` as a contiguous run.
pub fn contains_chars(h: &[char], n: &[char]) -> (r: bool)
    ensures
        r == contains_seq(h@, n@),
{
    let nl = n.len();
    let hl = h.len();
    if nl > hl {
        return false;
    }
    let last = hl - nl;
    let mut i: usize = 0;
    while i <= last
        invariant
            nl == n@.len(),
            hl == h@.len(),
            nl <= hl,
            last == hl - nl,
            i <= last + 1,
            forall|k: int| 0 <= k < i ==> #[trigger] h@.subrange(k, k + n@.len()) != n@,
        decreases last + 1 - i,
    {
        let part = slice_chars(h, i, i + nl);
        if chars_eq(part.as_slice(), n) {
            return true;
        }
        if i == last {
            assert(forall|k: int| 0 <= k <= i ==> #[trigger] h@.subrange(k, k + n@.len()) != n@);
            return false;
        }
        i = i + 1;
    }
    false
}

// ---- searching ---------------------------------------------------------

/// Index of the first `c` in `s`, if any.
pub open spec fn find_char(s: Seq<char>, c: char) -> Option<nat>
    decreases s.len(),
{
    if s.len() == 0 {
        None
    } else if s[0] == c {
        Some(0)
    } else {
        match find_char(s.drop_first(), c) {
            Some(i) => Some(i + 1),
            None => None,
        }
    }
}

pub proof fn lemma_find_char(s: Seq<char>, c: char)
    ensures
        match find_char(s, c) {
            Some(i) => i < s.len() && s[i as int] == c && forall|k: int| 0 <= k < i ==> s[k] != c,
            None => forall|k: int| 0 <= k < s.len() ==> s[k] != c,
        },
    decreases s.len(),
{
    if s.len() > 0 && s[0] != c {
        lemma_find_char(s.drop_first(), c);
        match find_char(s.drop_first(), c) {
            Some(i) => {
                assert forall|k: int| 0 <= k < i + 1 implies s[k] != c by {
                    if k > 0 {
                        assert(s[k] == s.drop_first()[k - 1]);
                    }
                }
            },
            None => {
                assert forall|k: int| 0 <= k < s.len() implies s[k] != c by {
                    if k > 0 {
                        assert(s[k] == s.drop_first()[k - 1]);
                    }
                }
            },
        }
    }
}

/// The first index of `c` in `s`, or `None`.
pub fn find_char_index(s: &[char], c: char) -> (r: Option<usize>)
    ensures
        match r {
            Some(i) => find_char(s@, c) == Some(i as nat) && i < s@.len(),
            None => find_char(s@, c) is None,
        },
{
    proof {
        lemma_find_char(s@, c);
    }
    let mut i: usize = 0;
    while i < s.len()
        invariant
            i <= s@.len(),
            forall|k: int| 0 <= k < i ==> s@[k] != c,
        decreases s@.len() - i,
    {
        if s[i] == c {
            proof {
                lemma_find_char_unique(s@, c, i as nat);
            }
            return Some(i);
        }
        i = i + 1;
    }
    proof {
        lemma_find_char(s@, c);
        if find_char(s@, c) is Some {
            let j = find_char(s@, c)->0;
            assert(s@[j as int] == c);
        }
    }
    None
}

pub proof fn lemma_find_char_unique(s: Seq<char>, c: char, i: nat)
    requires
        i < s.len(),
        s[i as int] == c,
        forall|k: int| 0 <= k < i ==> s[k] != c,
    ensures
        find_char(s, c) == Some(i),
    decreases i,
{
    if i > 0 {
        lemma_find_char_unique(s.drop_first(), c, (i - 1) as nat);
    }
}

/// `str::split_once(c)`: the text before and after the first `c`.
pub open spec fn split_once(s: Seq<char>, c: char) -> Option<(Seq<char>, Seq<char>)> {
    match find_char(s, c) {
        Some(i) => Some((s.take(i as int), s.skip(i as int + 1))),
        None => None,
    }
}

pub fn split_once_chars(s: &[char], c: char) -> (r: Option<(Vec<char>, Vec<char>)>)
    ensures
        match r {
            Some(p) => split_once(s@, c) == Some((p.0@, p.1@)),
            None => split_once(s@, c) is None,
        },
{
    proof {
        lemma_find_char(s@, c);
    }
    match find_char_index(s, c) {
        Some(i) => {
            let n = s.len();
            let a = slice_chars(s, 0, i);
            let b = slice_chars(s, i + 1, n);
            assert(a@ =~= s@.take(i as int));
            assert(b@ =~= s@.skip(i + 1));
            Some((a, b))
        },
        None => None,
    }
}


// ---- lines -------------------------------------------------------------

/// A line without the `\r` of a `\r\n` ending.
pub open spec fn strip_cr(s: Seq<char>) -> Seq<char> {
    if s.len() > 0 && s.last() == '\r' {
        s.drop_last()
    } else {
        s
    }
}

/// `str::lines`: split at `\n`, each line losing a `\r` just before
/// its `\n`; a final line ending adds no empty line.
pub open spec fn lines(s: Seq<char>) -> Seq<Seq<char>>
    decreases s.len(),
{
    if s.len() == 0 {
        seq![]
    } else {
        match find_char(s, '\n') {
            Some(i) => {
                proof {
                    lemma_find_char(s, '\n');
                }
                seq![strip_cr(s.take(i as int))] + lines(s.skip(i as int + 1))
            },
            None => seq![s],
        }
    }
}

/// The characters of each element, as sequences.
pub open spec fn views(v: Seq<Vec<char>>) -> Seq<Seq<char>> {
    v.map_values(|x: Vec<char>| x@)
}

/// `str::lines` over characters.
pub fn lines_of(s: &[char]) -> (r: Vec<Vec<char>>)
    ensures
        views(r@) == lines(s@),
{
    let mut r: Vec<Vec<char>> = Vec::new();
    let mut rest: Vec<char> = slice_chars(s, 0, s.len());
    assert(rest@ =~= s@);
    assert(views(r@) + lines(rest@) =~= lines(s@));
    while rest.len() > 0
        invariant
            views(r@) + lines(rest@) == lines(s@),
        decreases rest@.len(),
    {
        proof {
            lemma_find_char(rest@, '\n');
        }
        match find_char_index(rest.as_slice(), '\n') {
            Some(i) => {
                let mut line = slice_chars(rest.as_slice(), 0, i);
                if i > 0 && rest[i - 1] == '\r' {
                    line = slice_chars(rest.as_slice(), 0, i - 1);
                    assert(line@ =~= strip_cr(rest@.take(i as int)));
                } else {
                    assert(line@ =~= strip_cr(rest@.take(i as int)));
                }
                let n = rest.len();
                let next = slice_chars(rest.as_slice(), i + 1, n);
                assert(next@ =~= rest@.skip(i as int + 1));
                let ghost old_r = r@;
                r.push(line);
                assert(views(r@) =~= views(old_r).push(line@));
                assert(views(r@) + lines(next@) =~= views(old_r) + lines(rest@));
                rest = next;
            },
            None => {
                let ghost old_r = r@;
                r.push(rest.clone());
                assert(views(r@) =~= views(old_r) + lines(rest@));
                rest = Vec::new();
                assert(views(r@) + lines(rest@) =~= views(r@));
            },
        }
    }
    assert(views(r@) + lines(rest@) =~= views(r@));
    r
}


// ---- sequences of strings -------------------------------------------

/// The characters of each string.
pub open spec fn strs(v: Seq<String>) -> Seq<Seq<char>> {
    v.map_values(|x: String| x@)
}

/// The parts with `sep` between neighbours (`[T]::join`).
pub open spec fn join(parts: Seq<Seq<char>>, sep: Seq<char>) -> Seq<char>
    decreases parts.len(),
{
    if parts.len() == 0 {
        seq![]
    } else if parts.len() == 1 {
        parts[0]
    } else {
        join(parts.drop_last(), sep) + sep + parts.last()
    }
}

/// Appends clones of every string in `src` to `dst`.
pub fn extend_strings(dst: &mut Vec<String>, src: &[String])
    ensures
        strs(final(dst)@) == strs(old(dst)@) + strs(src@),
{
    let mut i: usize = 0;
    while i < src.len()
        invariant
            i <= src@.len(),
            strs(dst@) == strs(old(dst)@) + strs(src@.take(i as int)),
        decreases src@.len() - i,
    {
        let ghost before = dst@;
        dst.push(src[i].clone());
        assert(strs(dst@) =~= strs(before).push(src@[i as int]@));
        assert(strs(src@.take(i + 1)) =~= strs(src@.take(i as int)).push(src@[i as int]@));
        i = i + 1;
    }
    assert(src@.take(i as int) =~= src@);
}

/// `parts.join(sep)`.
pub fn join_strings(parts: &[String], sep: &str) -> (r: String)
    ensures
        r@ == join(strs(parts@), sep@),
{
    let mut r = String::new();
    let mut i: usize = 0;
    while i < parts.len()
        invariant
            i <= parts@.len(),
            r@ == join(strs(parts@.take(i as int)), sep@),
        decreases parts@.len() - i,
    {
        let ghost before = r@;
        if i > 0 {
            r.append(sep);
        }
        r.append(parts[i].as_str());
        proof {
            let t = strs(parts@.take(i + 1));
            assert(t.drop_last() =~= strs(parts@.take(i as int)));
            assert(t.last() == parts@[i as int]@);
            if i == 0 {
                assert(t.len() == 1);
            }
        }
        i = i + 1;
    }
    assert(parts@.take(i as int) =~= parts@);
    r
}


// ---- paths -------------------------------------------------------------

/// `Path::join` on a Unix path: an absolute component replaces the base;
/// otherwise a `/` separates them unless the base is empty or already
/// ends in one.
pub open spec fn path_join(base: Seq<char>, comp: Seq<char>) -> Seq<char> {
    if comp.len() > 0 && comp[0] == '/' {
        comp
    } else if base.len() > 0 && base.last() != '/' {
        base + seq!['/'] + comp
    } else {
        base + comp
    }
}

/// `Path::join` on Unix paths held as strings.
pub fn join_path(base: &str, comp: &str) -> (r: String)
    ensures
        r@ == path_join(base@, comp@),
{
    let b = chars_of(base);
    let c = chars_of(comp);
    if c.len() > 0 && c[0] == '/' {
        return string_of(c.as_slice());
    }
    let mut r = string_of(b.as_slice());
    if b.len() > 0 && b[b.len() - 1] != '/' {
        push_char(&mut r, '/');
    }
    push_chars(&mut r, c.as_slice());
    r
}

// ---- integers ------------------------------------------------------------

/// Why an integer did not parse (`core::num::IntErrorKind`, the kinds an
/// unsigned parse can meet).
#[derive(Debug, Clone, Copy, PartialEq, Eq, Structural)]
pub enum IntError {
    /// The text was empty.
    Empty,
    /// A character that is not a decimal digit.
    InvalidDigit,
    /// The value does not fit.
    PosOverflow,
}

/// `ParseIntError`'s message for each kind.
pub open spec fn int_error_message(e: IntError) -> Seq<char> {
    match e {
        IntError::Empty => "cannot parse integer from empty string"@,
        IntError::InvalidDigit => "invalid digit found in string"@,
        IntError::PosOverflow => "number too large to fit in target type"@,
    }
}

pub fn int_error_text(e: IntError) -> (s: String)
    ensures
        s@ == int_error_message(e),
{
    match e {
        IntError::Empty => owned("cannot parse integer from empty string"),
        IntError::InvalidDigit => owned("invalid digit found in string"),
        IntError::PosOverflow => owned("number too large to fit in target type"),
    }
}

pub open spec fn is_digit(c: char) -> bool {
    '0' <= c <= '9'
}

pub open spec fn digit_value(c: char) -> nat {
    (c as u32 - '0' as u32) as nat
}

/// Reading decimal digits left to right onto `acc`, failing at the first
/// non-digit, or as soon as the value passes `max`.
pub open spec fn scan_digits(ds: Seq<char>, acc: nat, max: nat) -> Result<nat, IntError>
    decreases ds.len(),
{
    if ds.len() == 0 {
        Ok(acc)
    } else if !is_digit(ds[0]) {
        Err(IntError::InvalidDigit)
    } else if acc * 10 + digit_value(ds[0]) > max {
        Err(IntError::PosOverflow)
    } else {
        scan_digits(ds.drop_first(), acc * 10 + digit_value(ds[0]), max)
    }
}

/// `str::parse` for an unsigned integer no larger than `max`: an
/// optional `+`, then one or more decimal digits.
pub open spec fn parse_unsigned(s: Seq<char>, max: nat) -> Result<nat, IntError> {
    if s.len() == 0 {
        Err(IntError::Empty)
    } else if s[0] == '+' && s.len() == 1 {
        Err(IntError::InvalidDigit)
    } else if s[0] == '+' {
        scan_digits(s.drop_first(), 0, max)
    } else {
        scan_digits(s, 0, max)
    }
}

/// Scan the digits of `ds` from `start`, refusing a value over `max`.
fn scan_bounded(ds: &[char], start: usize, max: u64) -> (r: Result<u64, IntError>)
    requires
        start <= ds@.len(),
        max <= 0xFFFF_FFFF,
    ensures
        match r {
            Ok(v) => v <= max && scan_digits(ds@.skip(start as int), 0, max as nat) == Ok::<nat, IntError>(
                v as nat,
            ),
            Err(e) => scan_digits(ds@.skip(start as int), 0, max as nat) == Err::<nat, IntError>(e),
        },
{
    let mut acc: u64 = 0;
    let mut i: usize = start;
    while i < ds.len()
        invariant
            start <= i <= ds@.len(),
            max <= 0xFFFF_FFFF,
            acc <= max,
            scan_digits(ds@.skip(start as int), 0, max as nat) == scan_digits(ds@.skip(i as int), acc as nat, max as nat),
        decreases ds@.len() - i,
    {
        let c = ds[i];
        assert(ds@.skip(i as int)[0] == c);
        assert(ds@.skip(i as int).drop_first() =~= ds@.skip(i + 1));
        if !('0' <= c && c <= '9') {
            return Err(IntError::InvalidDigit);
        }
        let d = (c as u64) - ('0' as u64);
        let next = acc * 10 + d;
        if next > max {
            return Err(IntError::PosOverflow);
        }
        acc = next;
        i = i + 1;
    }
    assert(ds@.skip(i as int).len() == 0);
    Ok(acc)
}

/// `str::parse::<u16>()`.
pub fn parse_u16(s: &str) -> (r: Result<u16, IntError>)
    ensures
        match r {
            Ok(v) => parse_unsigned(s@, 65535) == Ok::<nat, IntError>(v as nat),
            Err(e) => parse_unsigned(s@, 65535) == Err::<nat, IntError>(e),
        },
{
    let cs = chars_of(s);
    if cs.len() == 0 {
        return Err(IntError::Empty);
    }
    if cs[0] == '+' {
        if cs.len() == 1 {
            return Err(IntError::InvalidDigit);
        }
        assert(cs@.skip(1) =~= s@.drop_first());
        match scan_bounded(cs.as_slice(), 1, 65535) {
            Ok(v) => Ok(v as u16),
            Err(e) => Err(e),
        }
    } else {
        assert(cs@.skip(0) =~= s@);
        match scan_bounded(cs.as_slice(), 0, 65535) {
            Ok(v) => Ok(v as u16),
            Err(e) => Err(e),
        }
    }
}


/// `str::parse::<i32>()`, by its outcome: the value, or `None` for any
/// refusal.
pub open spec fn parse_i32(s: Seq<char>) -> Option<int> {
    if s.len() == 0 {
        None
    } else if (s[0] == '+' || s[0] == '-') && s.len() == 1 {
        None
    } else if s[0] == '-' {
        match scan_digits(s.drop_first(), 0, 2147483648) {
            Ok(v) => Some(-v),
            Err(_) => None,
        }
    } else if s[0] == '+' {
        match scan_digits(s.drop_first(), 0, 2147483647) {
            Ok(v) => Some(v as int),
            Err(_) => None,
        }
    } else {
        match scan_digits(s, 0, 2147483647) {
            Ok(v) => Some(v as int),
            Err(_) => None,
        }
    }
}

/// `str::parse::<i32>().ok()` over characters.
pub fn parse_i32_chars(s: &[char]) -> (r: Option<i32>)
    ensures
        match r {
            Some(v) => parse_i32(s@) == Some(v as int),
            None => parse_i32(s@) is None,
        },
{
    if s.len() == 0 {
        return None;
    }
    if (s[0] == '+' || s[0] == '-') && s.len() == 1 {
        return None;
    }
    if s[0] == '-' {
        assert(s@.skip(1) =~= s@.drop_first());
        match scan_bounded(s, 1, 2147483648) {
            Ok(v) => {
                if v == 2147483648 {
                    Some(-2147483648i32)
                } else {
                    Some(-(v as i32))
                }
            },
            Err(_) => None,
        }
    } else if s[0] == '+' {
        assert(s@.skip(1) =~= s@.drop_first());
        match scan_bounded(s, 1, 2147483647) {
            Ok(v) => Some(v as i32),
            Err(_) => None,
        }
    } else {
        assert(s@.skip(0) =~= s@);
        match scan_bounded(s, 0, 2147483647) {
            Ok(v) => Some(v as i32),
            Err(_) => None,
        }
    }
}

// ---- splitting at any of several characters -------------------------------

/// Index of the first character of `s` that is one of `seps`.
pub open spec fn find_any(s: Seq<char>, seps: Seq<char>) -> Option<nat>
    decreases s.len(),
{
    if s.len() == 0 {
        None
    } else if seps.contains(s[0]) {
        Some(0)
    } else {
        match find_any(s.drop_first(), seps) {
            Some(i) => Some(i + 1),
            None => None,
        }
    }
}

pub proof fn lemma_find_any(s: Seq<char>, seps: Seq<char>)
    ensures
        match find_any(s, seps) {
            Some(i) => i < s.len() && seps.contains(s[i as int]) && forall|k: int|
                0 <= k < i ==> !seps.contains(#[trigger] s[k]),
            None => forall|k: int| 0 <= k < s.len() ==> !seps.contains(#[trigger] s[k]),
        },
    decreases s.len(),
{
    if s.len() > 0 && !seps.contains(s[0]) {
        lemma_find_any(s.drop_first(), seps);
        match find_any(s.drop_first(), seps) {
            Some(i) => {
                assert forall|k: int| 0 <= k < i + 1 implies !seps.contains(#[trigger] s[k]) by {
                    if k > 0 {
                        assert(s[k] == s.drop_first()[k - 1]);
                    }
                }
            },
            None => {
                assert forall|k: int| 0 <= k < s.len() implies !seps.contains(#[trigger] s[k]) by {
                    if k > 0 {
                        assert(s[k] == s.drop_first()[k - 1]);
                    }
                }
            },
        }
    }
}

proof fn lemma_find_any_unique(s: Seq<char>, seps: Seq<char>, i: nat)
    requires
        i < s.len(),
        seps.contains(s[i as int]),
        forall|k: int| 0 <= k < i ==> !seps.contains(#[trigger] s[k]),
    ensures
        find_any(s, seps) == Some(i),
    decreases i,
{
    if i > 0 {
        assert(!seps.contains(s[0]));
        assert forall|k: int| 0 <= k < i - 1 implies !seps.contains(#[trigger] s.drop_first()[k]) by {
            assert(s.drop_first()[k] == s[k + 1]);
        }
        lemma_find_any_unique(s.drop_first(), seps, (i - 1) as nat);
    }
}

fn is_one_of(c: char, seps: &[char]) -> (r: bool)
    ensures
        r == seps@.contains(c),
{
    let mut j: usize = 0;
    while j < seps.len()
        invariant
            j <= seps@.len(),
            forall|k: int| 0 <= k < j ==> seps@[k] != c,
        decreases seps@.len() - j,
    {
        if seps[j] == c {
            assert(seps@[j as int] == c);
            return true;
        }
        j = j + 1;
    }
    false
}

/// The first index of one of `seps` in `s`, or `None`.
pub fn find_any_index(s: &[char], seps: &[char]) -> (r: Option<usize>)
    ensures
        match r {
            Some(i) => find_any(s@, seps@) == Some(i as nat) && i < s@.len(),
            None => find_any(s@, seps@) is None,
        },
{
    proof {
        lemma_find_any(s@, seps@);
    }
    let mut i: usize = 0;
    while i < s.len()
        invariant
            i <= s@.len(),
            forall|k: int| 0 <= k < i ==> !seps@.contains(#[trigger] s@[k]),
        decreases s@.len() - i,
    {
        if is_one_of(s[i], seps) {
            proof {
                lemma_find_any_unique(s@, seps@, i as nat);
            }
            return Some(i);
        }
        i = i + 1;
    }
    proof {
        if find_any(s@, seps@) is Some {
            let j = find_any(s@, seps@)->0;
            assert(seps@.contains(s@[j as int]));
        }
    }
    None
}

/// `str::split` at every character that is one of `seps`: the pieces
/// between them, always at least one.
pub open spec fn split_on(s: Seq<char>, seps: Seq<char>) -> Seq<Seq<char>>
    decreases s.len(),
{
    match find_any(s, seps) {
        Some(i) => {
            proof {
                lemma_find_any(s, seps);
            }
            seq![s.take(i as int)] + split_on(s.skip(i as int + 1), seps)
        },
        None => seq![s],
    }
}

pub proof fn lemma_split_on_nonempty(s: Seq<char>, seps: Seq<char>)
    ensures
        split_on(s, seps).len() >= 1,
        split_on(s, seps)[0] == match find_any(s, seps) {
            Some(i) => s.take(i as int),
            None => s,
        },
{
    lemma_find_any(s, seps);
}

/// `str::split` over characters.
pub fn split_on_chars(s: &[char], seps: &[char]) -> (r: Vec<Vec<char>>)
    ensures
        views(r@) == split_on(s@, seps@),
{
    let mut r: Vec<Vec<char>> = Vec::new();
    let mut rest: Vec<char> = slice_chars(s, 0, s.len());
    assert(rest@ =~= s@);
    assert(views(r@) + split_on(rest@, seps@) =~= split_on(s@, seps@));
    loop
        invariant
            views(r@) + split_on(rest@, seps@) == split_on(s@, seps@),
        decreases rest@.len(),
    {
        proof {
            lemma_find_any(rest@, seps@);
        }
        match find_any_index(rest.as_slice(), seps) {
            Some(i) => {
                let piece = slice_chars(rest.as_slice(), 0, i);
                assert(piece@ =~= rest@.take(i as int));
                let n = rest.len();
                let next = slice_chars(rest.as_slice(), i + 1, n);
                assert(next@ =~= rest@.skip(i as int + 1));
                let ghost old_r = r@;
                r.push(piece);
                assert(views(r@) =~= views(old_r).push(piece@));
                assert(views(r@) + split_on(next@, seps@) =~= views(old_r) + split_on(rest@, seps@));
                rest = next;
            },
            None => {
                let ghost old_r = r@;
                let ghost rest_v = rest@;
                r.push(rest);
                assert(split_on(rest_v, seps@) =~= seq![rest_v]);
                assert(views(r@) =~= views(old_r) + split_on(rest_v, seps@));
                return r;
            },
        }
    }
}


/// `str::parse::<u64>()` over characters, by its outcome.
pub fn parse_u64_chars(s: &[char]) -> (r: Option<u64>)
    ensures
        match r {
            Some(v) => parse_unsigned(s@, 0xFFFF_FFFF_FFFF_FFFF) == Ok::<nat, IntError>(v as nat),
            None => parse_unsigned(s@, 0xFFFF_FFFF_FFFF_FFFF) is Err,
        },
{
    if s.len() == 0 {
        return None;
    }
    let start: usize = if s[0] == '+' {
        if s.len() == 1 {
            return None;
        }
        1
    } else {
        0
    };
    let ghost ds = s@.skip(start as int);
    assert(s[0] == '+' ==> ds =~= s@.drop_first());
    assert(s[0] != '+' ==> ds =~= s@);
    let mut acc: u64 = 0;
    let mut i: usize = start;
    while i < s.len()
        invariant
            start <= i <= s@.len(),
            ds == s@.skip(start as int),
            parse_unsigned(s@, 0xFFFF_FFFF_FFFF_FFFF) == scan_digits(ds, 0, 0xFFFF_FFFF_FFFF_FFFF),
            scan_digits(ds, 0, 0xFFFF_FFFF_FFFF_FFFF) == scan_digits(s@.skip(i as int), acc as nat, 0xFFFF_FFFF_FFFF_FFFF),
        decreases s@.len() - i,
    {
        let c = s[i];
        assert(s@.skip(i as int)[0] == c);
        assert(s@.skip(i as int).drop_first() =~= s@.skip(i + 1));
        if !('0' <= c && c <= '9') {
            return None;
        }
        let d = (c as u64) - ('0' as u64);
        let next = match acc.checked_mul(10) {
            Some(m) => m.checked_add(d),
            None => None,
        };
        match next {
            Some(n) => {
                acc = n;
            },
            None => {
                return None;
            },
        }
        i = i + 1;
    }
    assert(s@.skip(i as int).len() == 0);
    Some(acc)
}

} // verus!
