//! Reading the runner's reply to `GET /health`: whether it is up, the
//! version it reports, and the wire schemas it says it speaks. The
//! socket is the caller's; these read the bytes that came back.

use vstd::prelude::*;
use crate::json::{json_nested_u64s, json_string_member, read_json_nested_u64s, read_json_string_member};
use crate::text::{chars_of, contains_chars, contains_seq};
use vstd::utf8::{decode_utf8, valid_utf8};

verus! {

broadcast use vstd::string::group_string_axioms;

/// The text that bytes spell in UTF-8, or `None` when they are not
/// UTF-8.
pub open spec fn utf8_decode(bytes: Seq<u8>) -> Option<Seq<char>> {
    if valid_utf8(bytes) {
        Some(decode_utf8(bytes))
    } else {
        None
    }
}

/// Calls `std::str::from_utf8`, which std documents as succeeding
/// exactly on valid UTF-8 and then giving the text it encodes.
#[verifier::external_body]
fn utf8_text(bytes: &[u8]) -> (r: Option<String>)
    ensures
        match r {
            Some(s) => utf8_decode(bytes@) == Some(s@),
            None => utf8_decode(bytes@) is None,
        },
{
    match std::str::from_utf8(bytes) {
        Ok(s) => Some(s.to_string()),
        Err(_) => None,
    }
}

/// A reply is a 200 when it is text and says ` 200` somewhere.
pub open spec fn reply_ok(reply: Seq<u8>) -> bool {
    match utf8_decode(reply) {
        Some(t) => contains_seq(t, " 200"@),
        None => false,
    }
}

/// Whether a `\r\n\r\n` starts at `k`.
pub open spec fn blank_line_at(r: Seq<u8>, k: int) -> bool {
    0 <= k && k + 4 <= r.len() && r[k] == 13 && r[k + 1] == 10 && r[k + 2] == 13 && r[k + 3] == 10
}

/// Where the body starts: just after the first blank line.
pub open spec fn body_start(reply: Seq<u8>) -> Option<nat>
    decreases reply.len(),
{
    if reply.len() < 4 {
        None
    } else if blank_line_at(reply, 0) {
        Some(4)
    } else {
        match body_start(reply.drop_first()) {
            Some(i) => Some(i + 1),
            None => None,
        }
    }
}

/// The body's text, when the reply is a 200 with a body that is text.
pub open spec fn reply_body_text(reply: Seq<u8>) -> Option<Seq<char>> {
    if !reply_ok(reply) {
        None
    } else {
        match body_start(reply) {
            None => None,
            Some(i) => utf8_decode(reply.skip(i as int)),
        }
    }
}

/// The version a reply reports: the body's non-empty `runnerVersion`.
pub open spec fn reported_version(reply: Seq<u8>) -> Option<Seq<char>> {
    match reply_body_text(reply) {
        None => None,
        Some(body) => version_from_member(json_string_member(body, "runnerVersion"@)),
    }
}

/// A `runnerVersion` member read out of a body: its text when it is a
/// non-empty string.
pub open spec fn version_from_member(m: Option<Option<Seq<char>>>) -> Option<Seq<char>> {
    match m {
        Some(Some(v)) => if v.len() == 0 {
            None
        } else {
            Some(v)
        },
        _ => None,
    }
}

/// The numbers of a `supports` list that are `u32`s, in order.
pub open spec fn u32s(xs: Seq<Option<u64>>) -> Seq<u32>
    decreases xs.len(),
{
    if xs.len() == 0 {
        seq![]
    } else {
        u32s(xs.drop_last()) + match xs.last() {
            Some(n) => if n <= u32::MAX {
                seq![n as u32]
            } else {
                seq![]
            },
            None => seq![],
        }
    }
}

/// A `wireSchema.supports` member read out of a body: its `u32`s, and
/// nothing when it is absent or not a list.
pub open spec fn schemas_from_member(m: Option<Option<Seq<Option<u64>>>>) -> Seq<u32> {
    match m {
        Some(Some(xs)) => u32s(xs),
        _ => seq![],
    }
}

/// The wire schemas a reply says the runner speaks.
pub open spec fn reported_schemas(reply: Seq<u8>) -> Seq<u32> {
    match reply_body_text(reply) {
        None => seq![],
        Some(body) => schemas_from_member(json_nested_u64s(body, "wireSchema"@, "supports"@)),
    }
}

/// Whether a `/health` reply is a 200.
pub fn health_reply_ok(reply: &[u8]) -> (r: bool)
    ensures
        r == reply_ok(reply@),
{
    match utf8_text(reply) {
        Some(t) => {
            let needle = chars_of(" 200");
            contains_chars(chars_of(t.as_str()).as_slice(), needle.as_slice())
        },
        None => false,
    }
}

proof fn lemma_body_start(reply: Seq<u8>, i: nat)
    requires
        blank_line_at(reply, i as int),
        forall|k: int| 0 <= k < i ==> !#[trigger] blank_line_at(reply, k),
    ensures
        body_start(reply) == Some(i + 4),
    decreases i,
{
    if i > 0 {
        let d = reply.drop_first();
        assert forall|k: int| 0 <= k < i - 1 implies !#[trigger] blank_line_at(d, k) by {
            assert(!blank_line_at(reply, k + 1));
        }
        assert(!blank_line_at(reply, 0));
        lemma_body_start(d, (i - 1) as nat);
    }
}

proof fn lemma_no_body_start(reply: Seq<u8>)
    requires
        forall|k: int| 0 <= k && k + 4 <= reply.len() ==> !#[trigger] blank_line_at(reply, k),
    ensures
        body_start(reply) is None,
    decreases reply.len(),
{
    if reply.len() >= 4 {
        let d = reply.drop_first();
        assert forall|k: int| 0 <= k && k + 4 <= d.len() implies !#[trigger] blank_line_at(d, k) by {
            assert(!blank_line_at(reply, k + 1));
        }
        assert(!blank_line_at(reply, 0));
        lemma_no_body_start(d);
    }
}

/// Where the body of a reply starts: just after the first `\r\n\r\n`.
pub fn find_body_start(reply: &[u8]) -> (r: Option<usize>)
    ensures
        match r {
            Some(i) => body_start(reply@) == Some(i as nat) && i <= reply@.len(),
            None => body_start(reply@) is None,
        },
{
    if reply.len() < 4 {
        return None;
    }
    let mut i: usize = 0;
    while i < reply.len() - 3
        invariant
            i + 3 <= reply@.len(),
            forall|k: int| 0 <= k < i ==> !#[trigger] blank_line_at(reply@, k),
        decreases reply@.len() - i,
    {
        if reply[i] == 13 && reply[i + 1] == 10 && reply[i + 2] == 13 && reply[i + 3] == 10 {
            proof {
                lemma_body_start(reply@, i as nat);
            }
            return Some(i + 4);
        }
        i = i + 1;
    }
    proof {
        lemma_no_body_start(reply@);
    }
    None
}

fn body_text(reply: &[u8]) -> (r: Option<String>)
    ensures
        match r {
            Some(t) => reply_body_text(reply@) == Some(t@),
            None => reply_body_text(reply@) is None,
        },
{
    if !health_reply_ok(reply) {
        return None;
    }
    match find_body_start(reply) {
        None => None,
        Some(i) => {
            let body = slice_bytes(reply, i);
            utf8_text(body.as_slice())
        },
    }
}

fn slice_bytes(reply: &[u8], from: usize) -> (r: Vec<u8>)
    requires
        from <= reply@.len(),
    ensures
        r@ == reply@.skip(from as int),
{
    let mut r: Vec<u8> = Vec::new();
    let mut i: usize = from;
    while i < reply.len()
        invariant
            from <= i <= reply@.len(),
            r@ == reply@.subrange(from as int, i as int),
        decreases reply@.len() - i,
    {
        r.push(reply[i]);
        assert(r@ =~= reply@.subrange(from as int, i + 1));
        i = i + 1;
    }
    assert(r@ =~= reply@.skip(from as int));
    r
}

/// The version in a `runnerVersion` member that was read: `None` for an
/// absent, non-string or empty one.
pub fn version_from(member: Option<Option<String>>) -> (r: Option<String>)
    ensures
        match r {
            Some(v) => version_from_member(match member {
                Some(Some(s)) => Some(Some(s@)),
                Some(None) => Some(None),
                None => None,
            }) == Some(v@),
            None => version_from_member(match member {
                Some(Some(s)) => Some(Some(s@)),
                Some(None) => Some(None),
                None => None,
            }) is None,
        },
{
    match member {
        Some(Some(v)) => {
            if v.as_str().unicode_len() == 0 {
                None
            } else {
                Some(v)
            }
        },
        _ => None,
    }
}

/// The runner version a `/health` reply reports. `None` is "it did not
/// say" (an older runner, or an unreadable reply), never a mismatch.
pub fn runner_version_of(reply: &[u8]) -> (r: Option<String>)
    ensures
        match r {
            Some(v) => reported_version(reply@) == Some(v@),
            None => reported_version(reply@) is None,
        },
{
    match body_text(reply) {
        None => None,
        Some(body) => version_from(read_json_string_member(body.as_str(), "runnerVersion")),
    }
}

/// The `u32`s of a `wireSchema.supports` member that was read, in order;
/// nothing for an absent one.
pub fn schemas_from(member: Option<Option<Vec<Option<u64>>>>) -> (r: Vec<u32>)
    ensures
        r@ == schemas_from_member(match member {
            Some(Some(xs)) => Some(Some(xs@)),
            Some(None) => Some(None),
            None => None,
        }),
{
    let xs = match member {
        Some(Some(xs)) => xs,
        _ => {
            return Vec::new();
        },
    };
    let mut r: Vec<u32> = Vec::new();
    let mut i: usize = 0;
    assert(xs@.take(0) =~= Seq::<Option<u64>>::empty());
    while i < xs.len()
        invariant
            i <= xs@.len(),
            r@ == u32s(xs@.take(i as int)),
        decreases xs@.len() - i,
    {
        assert(xs@.take(i + 1).drop_last() =~= xs@.take(i as int));
        assert(xs@.take(i + 1).last() == xs@[i as int]);
        match xs[i] {
            Some(n) => {
                if n <= 0xFFFF_FFFF {
                    r.push(n as u32);
                }
            },
            None => {},
        }
        i = i + 1;
    }
    assert(xs@.take(i as int) =~= xs@);
    r
}

/// The wire schemas a `/health` reply says the runner speaks. Empty
/// means it did not say, which is not the same as speaking none.
pub fn wire_schemas_of(reply: &[u8]) -> (r: Vec<u32>)
    ensures
        r@ == reported_schemas(reply@),
{
    match body_text(reply) {
        None => Vec::new(),
        Some(body) => schemas_from(read_json_nested_u64s(body.as_str(), "wireSchema", "supports")),
    }
}

} // verus!
