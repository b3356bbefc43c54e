//! The act/sense verbs' argument vocabulary: selector shorthand, key
//! names, swipe directions, the tree outline, and what can go wrong
//! talking to a runner.

use vstd::prelude::*;
use crate::text::{
    chars_eq, chars_of, debug_quoted, debug_str, decimal, owned, push_chars, push_decimal, split_once,
    split_once_chars, str_eq, string_of,
};

verus! {

broadcast use vstd::string::group_string_axioms;

/// Why an act verb failed.
#[derive(Debug, Clone, PartialEq, Eq)]
pub enum ActError {
    /// A selector that did not parse: the text and the reason.
    BadSelector(String, String),
    /// The runner could not be reached or refused the call.
    Transport(String),
    /// `wait-for` gave up.
    Timeout { selector: String, timeout_ms: u64 },
}

/// A hardware or keyboard key the runner can press.
#[derive(Debug, Clone, Copy, PartialEq, Eq, Structural)]
pub enum KeyName {
    Return,
    Delete,
    Tab,
    Space,
    Escape,
    ArrowUp,
    ArrowDown,
    ArrowLeft,
    ArrowRight,
    Home,
    Lock,
    VolumeUp,
    VolumeDown,
}

/// The key a shorthand names: the wire's camelCase form, plus a few
/// shell-friendly aliases.
pub open spec fn key_named(s: Seq<char>) -> Option<KeyName> {
    if s == "return"@ || s == "enter"@ {
        Some(KeyName::Return)
    } else if s == "delete"@ || s == "backspace"@ {
        Some(KeyName::Delete)
    } else if s == "tab"@ {
        Some(KeyName::Tab)
    } else if s == "space"@ {
        Some(KeyName::Space)
    } else if s == "escape"@ || s == "esc"@ {
        Some(KeyName::Escape)
    } else if s == "arrowUp"@ || s == "up"@ {
        Some(KeyName::ArrowUp)
    } else if s == "arrowDown"@ || s == "down"@ {
        Some(KeyName::ArrowDown)
    } else if s == "arrowLeft"@ || s == "left"@ {
        Some(KeyName::ArrowLeft)
    } else if s == "arrowRight"@ || s == "right"@ {
        Some(KeyName::ArrowRight)
    } else if s == "home"@ {
        Some(KeyName::Home)
    } else if s == "lock"@ {
        Some(KeyName::Lock)
    } else if s == "volumeUp"@ || s == "volume-up"@ {
        Some(KeyName::VolumeUp)
    } else if s == "volumeDown"@ || s == "volume-down"@ {
        Some(KeyName::VolumeDown)
    } else {
        None
    }
}

/// Parse a key-name shorthand.
pub fn parse_key_name(s: &str) -> (k: Option<KeyName>)
    ensures
        k == key_named(s@),
{
    if str_eq(s, "return") || str_eq(s, "enter") {
        Some(KeyName::Return)
    } else if str_eq(s, "delete") || str_eq(s, "backspace") {
        Some(KeyName::Delete)
    } else if str_eq(s, "tab") {
        Some(KeyName::Tab)
    } else if str_eq(s, "space") {
        Some(KeyName::Space)
    } else if str_eq(s, "escape") || str_eq(s, "esc") {
        Some(KeyName::Escape)
    } else if str_eq(s, "arrowUp") || str_eq(s, "up") {
        Some(KeyName::ArrowUp)
    } else if str_eq(s, "arrowDown") || str_eq(s, "down") {
        Some(KeyName::ArrowDown)
    } else if str_eq(s, "arrowLeft") || str_eq(s, "left") {
        Some(KeyName::ArrowLeft)
    } else if str_eq(s, "arrowRight") || str_eq(s, "right") {
        Some(KeyName::ArrowRight)
    } else if str_eq(s, "home") {
        Some(KeyName::Home)
    } else if str_eq(s, "lock") {
        Some(KeyName::Lock)
    } else if str_eq(s, "volumeUp") || str_eq(s, "volume-up") {
        Some(KeyName::VolumeUp)
    } else if str_eq(s, "volumeDown") || str_eq(s, "volume-down") {
        Some(KeyName::VolumeDown)
    } else {
        None
    }
}

/// A swipe or scroll direction.
#[derive(Debug, Clone, Copy, PartialEq, Eq, Structural)]
pub enum SwipeDirection {
    Up,
    Down,
    Left,
    Right,
}

/// The direction a word names.
pub open spec fn direction_named(s: Seq<char>) -> Option<SwipeDirection> {
    if s == "up"@ {
        Some(SwipeDirection::Up)
    } else if s == "down"@ {
        Some(SwipeDirection::Down)
    } else if s == "left"@ {
        Some(SwipeDirection::Left)
    } else if s == "right"@ {
        Some(SwipeDirection::Right)
    } else {
        None
    }
}

/// Parse a swipe / scroll direction.
pub fn parse_direction(s: &str) -> (d: Option<SwipeDirection>)
    ensures
        d == direction_named(s@),
{
    if str_eq(s, "up") {
        Some(SwipeDirection::Up)
    } else if str_eq(s, "down") {
        Some(SwipeDirection::Down)
    } else if str_eq(s, "left") {
        Some(SwipeDirection::Left)
    } else if str_eq(s, "right") {
        Some(SwipeDirection::Right)
    } else {
        None
    }
}


impl ActError {
    /// The sentence an act verb fails with.
    pub open spec fn message_spec(&self) -> Seq<char> {
        match self {
            ActError::BadSelector(sel, why) => "invalid selector `"@ + sel@ + "`: "@ + why@,
            ActError::Transport(e) => "runner transport: "@ + e@,
            ActError::Timeout { selector, timeout_ms } => "wait_for timeout after "@ + decimal(*timeout_ms as nat)
                + "ms: "@ + selector@,
        }
    }

    pub fn message(&self) -> (s: String)
        ensures
            s@ == self.message_spec(),
    {
        match self {
            ActError::BadSelector(sel, why) => {
                let mut s = owned("invalid selector `");
                s.append(sel.as_str());
                s.append("`: ");
                s.append(why.as_str());
                s
            },
            ActError::Transport(e) => {
                let mut s = owned("runner transport: ");
                s.append(e.as_str());
                s
            },
            ActError::Timeout { selector, timeout_ms } => {
                let mut s = owned("wait_for timeout after ");
                push_u64_decimal(&mut s, *timeout_ms);
                s.append("ms: ");
                s.append(selector.as_str());
                s
            },
        }
    }
}

fn push_u64_decimal(s: &mut String, n: u64)
    ensures
        final(s)@ == old(s)@ + decimal(n as nat),
    decreases n,
{
    if n >= 10 {
        push_u64_decimal(s, n / 10);
    }
    let d = (n % 10) as usize;
    let mut digit = String::new();
    push_decimal(&mut digit, d);
    s.append(digit.as_str());
    proof {
        if n >= 10 {
            assert(decimal(n as nat) == decimal((n / 10) as nat).push(crate::text::digit_char((n % 10) as nat)));
        }
    }
    assert(final(s)@ =~= old(s)@ + decimal(n as nat));
}

// ---- selector shorthand ------------------------------------------------------------

/// The kinds `<kind>:<value>` shorthand names.
#[derive(Debug, Clone, Copy, PartialEq, Eq, Structural)]
pub enum SelectorKind {
    Id,
    Text,
    Label,
    Role,
    OcrText,
    Point,
}

/// How shorthand reads: the kind before the first `:` and the rest as
/// its value; no `:`, or a kind not on offer, is named back.
pub open spec fn selector_token(s: Seq<char>) -> Result<(SelectorKind, Seq<char>), Seq<char>> {
    match split_once(s, ':') {
        None => Err("`"@ + s + "` has no kind — write `<kind>:<value>`, one of id / text / label / role / ocrText / point"@),
        Some((kind, value)) => if kind == "id"@ {
            Ok((SelectorKind::Id, value))
        } else if kind == "text"@ {
            Ok((SelectorKind::Text, value))
        } else if kind == "label"@ {
            Ok((SelectorKind::Label, value))
        } else if kind == "role"@ {
            Ok((SelectorKind::Role, value))
        } else if kind == "ocrText"@ {
            Ok((SelectorKind::OcrText, value))
        } else if kind == "point"@ {
            Ok((SelectorKind::Point, value))
        } else {
            Err("unknown selector kind `"@ + kind + "` — one of id / text / label / role / ocrText / point"@)
        },
    }
}

fn kind_is(kind: &Vec<char>, name: &str) -> (r: bool)
    ensures
        r == (kind@ == name@),
{
    chars_eq(kind.as_slice(), chars_of(name).as_slice())
}

/// Split selector shorthand into its kind and value. Reading a role's
/// name and a point's fractions is the selector vocabulary's.
pub fn parse_selector_token(s: &str) -> (r: Result<(SelectorKind, String), String>)
    ensures
        match r {
            Ok((k, v)) => selector_token(s@) == Ok::<_, Seq<char>>((k, v@)),
            Err(m) => selector_token(s@) == Err::<(SelectorKind, Seq<char>), _>(m@),
        },
{
    let (kind, value) = match split_once_chars(chars_of(s).as_slice(), ':') {
        None => {
            let mut m = owned("`");
            m.append(s);
            m.append("` has no kind — write `<kind>:<value>`, one of id / text / label / role / ocrText / point");
            return Err(m);
        },
        Some(p) => p,
    };
    let v = string_of(value.as_slice());
    if kind_is(&kind, "id") {
        Ok((SelectorKind::Id, v))
    } else if kind_is(&kind, "text") {
        Ok((SelectorKind::Text, v))
    } else if kind_is(&kind, "label") {
        Ok((SelectorKind::Label, v))
    } else if kind_is(&kind, "role") {
        Ok((SelectorKind::Role, v))
    } else if kind_is(&kind, "ocrText") {
        Ok((SelectorKind::OcrText, v))
    } else if kind_is(&kind, "point") {
        Ok((SelectorKind::Point, v))
    } else {
        let mut m = owned("unknown selector kind `");
        push_chars(&mut m, kind.as_slice());
        m.append("` — one of id / text / label / role / ocrText / point");
        Err(m)
    }
}

// ---- the tree outline --------------------------------------------------------------

/// Two spaces per level.
pub open spec fn indent(depth: nat) -> Seq<char>
    decreases depth,
{
    if depth == 0 {
        seq![]
    } else {
        indent((depth - 1) as nat) + "  "@
    }
}

/// One line of `smix tree`: indented by depth, a tick for a visible node
/// (a dot otherwise), its id and label quoted, its text only when it has
/// some, and a note on a keyboard whose keys were left out.
pub open spec fn outline(depth: nat, id: Seq<char>, label: Seq<char>, text: Seq<char>, visible: bool, keys_collapsed: bool) -> Seq<char> {
    indent(depth) + (if visible {
        "✓"@
    } else {
        "·"@
    }) + " id="@ + debug_quoted(id) + " label="@ + debug_quoted(label) + (if text.len() == 0 {
        seq![]
    } else {
        " text="@ + debug_quoted(text)
    }) + if keys_collapsed {
        "  (keys collapsed — --keyboard to include them)"@
    } else {
        seq![]
    }
}

pub open spec fn or_empty(o: Option<&str>) -> Seq<char> {
    match o {
        Some(s) => s@,
        None => seq![],
    }
}

pub fn outline_line(depth: usize, id: Option<&str>, label: Option<&str>, text: Option<&str>, visible: bool, keys_collapsed: bool) -> (s: String)
    ensures
        s@ == outline(depth as nat, or_empty(id), or_empty(label), or_empty(text), visible, keys_collapsed),
{
    let mut s = String::new();
    let mut d: usize = 0;
    while d < depth
        invariant
            d <= depth,
            s@ == indent(d as nat),
        decreases depth - d,
    {
        s.append("  ");
        d = d + 1;
    }
    if visible {
        s.append("✓");
    } else {
        s.append("·");
    }
    proof {
        reveal_strlit("");
    }
    let ids = match id {
        Some(x) => x,
        None => "",
    };
    assert(ids@ == or_empty(id));
    let labels = match label {
        Some(x) => x,
        None => "",
    };
    assert(labels@ == or_empty(label));
    s.append(" id=");
    s.append(debug_str(ids).as_str());
    s.append(" label=");
    s.append(debug_str(labels).as_str());
    let ghost head = s@;
    match text {
        Some(t) => {
            if t.unicode_len() > 0 {
                s.append(" text=");
                s.append(debug_str(t).as_str());
            }
        },
        None => {},
    }
    assert(s@ == head + (if or_empty(text).len() == 0 {
        Seq::<char>::empty()
    } else {
        " text="@ + debug_quoted(or_empty(text))
    }));
    if keys_collapsed {
        s.append("  (keys collapsed — --keyboard to include them)");
    }
    s
}


/// The act verbs that take a selector.
#[derive(Debug, Clone, Copy, PartialEq, Eq, Structural)]
pub enum ActVerb {
    Tap,
    TapThenScreenshot,
    Find,
    Fill,
    Scroll,
    WaitFor,
}

/// Why a verb refuses a selector kind; nothing when it takes it. A
/// point is a place, not an element: only `tap` takes one. An OCR hit
/// is a text frame, not a resolved element: `fill`, `scroll` and
/// `tap --then-screenshot` need the element itself.
pub open spec fn selector_refusal(verb: ActVerb, kind: SelectorKind) -> Option<Seq<char>> {
    match verb {
        ActVerb::Tap => None,
        ActVerb::TapThenScreenshot => if kind == SelectorKind::OcrText {
            Some(
                "--then-screenshot needs a selector the tree can resolve. An ocrText hit is a text frame rather than a resolved element, so there would be nothing to say about where the touch landed — which is why this command takes no --ocr-locale"@,
            )
        } else {
            None
        },
        ActVerb::Find => if kind == SelectorKind::Point {
            Some("a point names a place, not an element, so there is nothing here to find. Only `smix tap` takes one"@)
        } else {
            None
        },
        ActVerb::Fill => if kind == SelectorKind::OcrText {
            Some(
                "an OCR hit is a text frame on the screen, not a field with a value — find it with `smix find ocrText:…` or tap it, then act on what the tap put on screen"@,
            )
        } else if kind == SelectorKind::Point {
            Some("a point names a place, not an element, so there is nothing here to fill. Only `smix tap` takes one"@)
        } else {
            None
        },
        ActVerb::Scroll => if kind == SelectorKind::OcrText {
            Some(
                "scrolling needs an element the tree can follow; an OCR frame is where text was one look ago — find it with `smix find ocrText:…` or tap it, then act on what the tap put on screen"@,
            )
        } else if kind == SelectorKind::Point {
            Some(
                "a point names a place, not an element, so there is nothing here to scroll to. Only `smix tap` takes one"@,
            )
        } else {
            None
        },
        ActVerb::WaitFor => if kind == SelectorKind::Point {
            Some(
                "a point names a place, not an element, so there is nothing here to wait for. Only `smix tap` takes one"@,
            )
        } else {
            None
        },
    }
}

/// Hold a parsed selector to what `verb` can act on: the selector text
/// and the reason when it cannot.
pub fn admit_selector(verb: ActVerb, kind: SelectorKind, selector: &str) -> (r: Result<(), ActError>)
    ensures
        match selector_refusal(verb, kind) {
            None => r is Ok,
            Some(why) => r matches Err(ActError::BadSelector(s, w)) && s@ == selector@ && w@ == why,
        },
{
    let why: Option<&str> = match verb {
        ActVerb::Tap => None,
        ActVerb::TapThenScreenshot => {
            if kind == SelectorKind::OcrText {
                Some(
                    "--then-screenshot needs a selector the tree can resolve. An ocrText hit is a text frame rather than a resolved element, so there would be nothing to say about where the touch landed — which is why this command takes no --ocr-locale",
                )
            } else {
                None
            }
        },
        ActVerb::Find => {
            if kind == SelectorKind::Point {
                Some("a point names a place, not an element, so there is nothing here to find. Only `smix tap` takes one")
            } else {
                None
            }
        },
        ActVerb::Fill => {
            if kind == SelectorKind::OcrText {
                Some(
                    "an OCR hit is a text frame on the screen, not a field with a value — find it with `smix find ocrText:…` or tap it, then act on what the tap put on screen",
                )
            } else if kind == SelectorKind::Point {
                Some("a point names a place, not an element, so there is nothing here to fill. Only `smix tap` takes one")
            } else {
                None
            }
        },
        ActVerb::Scroll => {
            if kind == SelectorKind::OcrText {
                Some(
                    "scrolling needs an element the tree can follow; an OCR frame is where text was one look ago — find it with `smix find ocrText:…` or tap it, then act on what the tap put on screen",
                )
            } else if kind == SelectorKind::Point {
                Some(
                    "a point names a place, not an element, so there is nothing here to scroll to. Only `smix tap` takes one",
                )
            } else {
                None
            }
        },
        ActVerb::WaitFor => {
            if kind == SelectorKind::Point {
                Some(
                    "a point names a place, not an element, so there is nothing here to wait for. Only `smix tap` takes one",
                )
            } else {
                None
            }
        },
    };
    match why {
        None => Ok(()),
        Some(w) => Err(ActError::BadSelector(owned(selector), owned(w))),
    }
}

/// The refusal of a key name `press-key` does not know.
pub fn unknown_key(key: &str) -> (e: ActError)
    ensures
        e matches ActError::BadSelector(s, w) && s@ == "key:"@ + key@ && w@ == "unknown key name"@,
{
    let mut s = owned("key:");
    s.append(key);
    ActError::BadSelector(s, owned("unknown key name"))
}

/// The refusal of a direction `scroll` and `swipe` do not know.
pub fn unknown_direction(direction: &str) -> (e: ActError)
    ensures
        e matches ActError::BadSelector(s, w) && s@ == "direction:"@ + direction@ && w@
            == "expected up / down / left / right"@,
{
    let mut s = owned("direction:");
    s.append(direction);
    ActError::BadSelector(s, owned("expected up / down / left / right"))
}

/// One look of `wait-for` on the vision path: done, with the line to
/// print, once what was seen is what was waited for (text visible, or
/// gone with `--absent`); a timeout once the deadline has passed; else
/// look again.
pub fn ocr_wait_step(seen: bool, absent: bool, past_deadline: bool, selector: &str, timeout_ms: u64) -> (r: Option<Result<String, ActError>>)
    ensures
        seen != absent ==> (r matches Some(Ok(line)) && line@ == (if absent {
            "gone "@
        } else {
            "visible "@
        }) + selector@),
        seen == absent && past_deadline ==> (r matches Some(Err(ActError::Timeout { selector: s, timeout_ms: t }))
            && s@ == selector@ && t == timeout_ms),
        seen == absent && !past_deadline ==> r is None,
{
    if seen != absent {
        let mut line = if absent {
            owned("gone ")
        } else {
            owned("visible ")
        };
        line.append(selector);
        return Some(Ok(line));
    }
    if past_deadline {
        return Some(Err(ActError::Timeout { selector: owned(selector), timeout_ms }));
    }
    None
}

/// What `system-popup-action` says: the button pressed, or that no such
/// popup had such a button.
pub fn popup_action_outcome(popup_id: &str, button_id: &str, pressed: bool) -> (r: Result<String, ActError>)
    ensures
        pressed ==> (r matches Ok(line) && line@ == "pressed: "@ + button_id@ + " on "@ + popup_id@),
        !pressed ==> (r matches Err(ActError::Transport(m)) && m@ == "no popup "@ + debug_quoted(popup_id@)
            + " with button "@ + debug_quoted(button_id@) + " — list current popups via `smix system-popups`"@),
{
    if pressed {
        let mut line = owned("pressed: ");
        line.append(button_id);
        line.append(" on ");
        line.append(popup_id);
        Ok(line)
    } else {
        let mut m = owned("no popup ");
        m.append(debug_str(popup_id).as_str());
        m.append(" with button ");
        m.append(debug_str(button_id).as_str());
        m.append(" — list current popups via `smix system-popups`");
        Err(ActError::Transport(m))
    }
}

} // verus!
