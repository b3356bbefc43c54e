//! `smix annotate`: the annotation mini-language, read into what to
//! draw. A spec is `kind,key:value,key:value,...`; positions are `X_Y`
//! (or `X|Y`) because the comma already separates the pairs. Decoding
//! the screenshot, parsing a colour name and drawing are the renderer's.

use vstd::prelude::*;
use crate::text::{
    chars_eq, chars_of, lemma_split_on_nonempty, owned, parse_i32, parse_i32_chars, push_chars,
    slice_chars, split_on, split_on_chars, split_once, split_once_chars, string_of, trim,
    trim_chars, views, lowercase, to_lowercase,
};

verus! {

broadcast use vstd::string::group_string_axioms;

/// A point on the screenshot, in pixels.
#[derive(Debug, Clone, Copy, PartialEq, Eq, Structural)]
pub struct Position {
    pub x: i32,
    pub y: i32,
}

/// The colour each kind draws in when the spec names none.
#[derive(Debug, Clone, Copy, PartialEq, Eq, Structural)]
pub enum NamedColor {
    Red,
    Blue,
    White,
    Yellow,
    Cyan,
}

/// The colour of one annotation: the kind's own, or the text of its
/// `color:` pair, which the renderer reads as a colour.
#[derive(Debug, Clone, PartialEq, Eq)]
pub enum ColorChoice {
    Default(NamedColor),
    Given(String),
}

/// One annotation, read.
#[derive(Debug, Clone, PartialEq, Eq)]
pub enum Annotation {
    Circle { at: Position, color: ColorChoice, radius: i32, stroke: i32 },
    Arrow { from: Position, to: Position, color: ColorChoice, stroke: i32 },
    /// `size` is the text of the `size:` pair; the renderer reads it as
    /// a point size, 24 when absent or unreadable.
    Text { at: Position, content: String, color: ColorChoice, size: Option<String> },
    Rectangle { at: Position, width: i32, height: i32, color: ColorChoice, stroke: i32 },
    Line { from: Position, to: Position, color: ColorChoice, stroke: i32 },
}

/// A colour choice by its characters.
pub enum ColorModel {
    Default(NamedColor),
    Given(Seq<char>),
}

/// An annotation by its characters and integers.
pub enum AnnotationModel {
    Circle { at: (int, int), color: ColorModel, radius: int, stroke: int },
    Arrow { from: (int, int), to: (int, int), color: ColorModel, stroke: int },
    Text { at: (int, int), content: Seq<char>, color: ColorModel, size: Option<Seq<char>> },
    Rectangle { at: (int, int), width: int, height: int, color: ColorModel, stroke: int },
    Line { from: (int, int), to: (int, int), color: ColorModel, stroke: int },
}

pub open spec fn point(p: Position) -> (int, int) {
    (p.x as int, p.y as int)
}

pub open spec fn color_model(c: ColorChoice) -> ColorModel {
    match c {
        ColorChoice::Default(n) => ColorModel::Default(n),
        ColorChoice::Given(s) => ColorModel::Given(s@),
    }
}

pub open spec fn annotation_model(a: Annotation) -> AnnotationModel {
    match a {
        Annotation::Circle { at, color, radius, stroke } => AnnotationModel::Circle {
            at: point(at),
            color: color_model(color),
            radius: radius as int,
            stroke: stroke as int,
        },
        Annotation::Arrow { from, to, color, stroke } => AnnotationModel::Arrow {
            from: point(from),
            to: point(to),
            color: color_model(color),
            stroke: stroke as int,
        },
        Annotation::Text { at, content, color, size } => AnnotationModel::Text {
            at: point(at),
            content: content@,
            color: color_model(color),
            size: match size {
                Some(s) => Some(s@),
                None => None,
            },
        },
        Annotation::Rectangle { at, width, height, color, stroke } => AnnotationModel::Rectangle {
            at: point(at),
            width: width as int,
            height: height as int,
            color: color_model(color),
            stroke: stroke as int,
        },
        Annotation::Line { from, to, color, stroke } => AnnotationModel::Line {
            from: point(from),
            to: point(to),
            color: color_model(color),
            stroke: stroke as int,
        },
    }
}

/// The `key:value` pairs after the kind, each side trimmed; the first
/// part without a `:` is refused, untrimmed.
pub open spec fn kv_entries(parts: Seq<Seq<char>>) -> Result<Seq<(Seq<char>, Seq<char>)>, Seq<char>>
    decreases parts.len(),
{
    if parts.len() == 0 {
        Ok(seq![])
    } else {
        match split_once(parts[0], ':') {
            None => Err("expected key:value, got `"@ + parts[0] + "`"@),
            Some((k, v)) => match kv_entries(parts.drop_first()) {
                Ok(rest) => Ok(seq![(trim(k), trim(v))] + rest),
                Err(m) => Err(m),
            },
        }
    }
}

/// The value of `key`: a key given twice keeps its last value.
pub open spec fn kv_get(kv: Seq<(Seq<char>, Seq<char>)>, key: Seq<char>) -> Option<Seq<char>>
    decreases kv.len(),
{
    if kv.len() == 0 {
        None
    } else if kv.last().0 == key {
        Some(kv.last().1)
    } else {
        kv_get(kv.drop_last(), key)
    }
}

/// The position under `key`: `X_Y` or `X|Y`, each an `i32`.
pub open spec fn position_in(kv: Seq<(Seq<char>, Seq<char>)>, key: Seq<char>) -> Result<(int, int), Seq<char>> {
    match kv_get(kv, key) {
        None => Err("missing `"@ + key + "`"@),
        Some(v) => {
            let ps = split_on(v, seq!['_', '|']);
            if ps.len() != 2 {
                Err("position `"@ + v + "` — expected `X_Y` (underscore or pipe separator)"@)
            } else {
                match parse_i32(ps[0]) {
                    None => Err("bad x `"@ + ps[0] + "`"@),
                    Some(x) => match parse_i32(ps[1]) {
                        None => Err("bad y `"@ + ps[1] + "`"@),
                        Some(y) => Ok((x, y)),
                    },
                }
            }
        },
    }
}

/// An optional integer: its value when present and readable, else `default`.
pub open spec fn int_or(kv: Seq<(Seq<char>, Seq<char>)>, key: Seq<char>, default: int) -> int {
    match kv_get(kv, key) {
        Some(s) => match parse_i32(s) {
            Some(v) => v,
            None => default,
        },
        None => default,
    }
}

/// A required integer: absent and unreadable are both `missing`.
pub open spec fn required_int(kv: Seq<(Seq<char>, Seq<char>)>, key: Seq<char>) -> Result<int, Seq<char>> {
    match kv_get(kv, key) {
        Some(s) => match parse_i32(s) {
            Some(v) => Ok(v),
            None => Err("missing `"@ + key + "`"@),
        },
        None => Err("missing `"@ + key + "`"@),
    }
}

pub open spec fn color_in(kv: Seq<(Seq<char>, Seq<char>)>, default: NamedColor) -> ColorModel {
    match kv_get(kv, "color"@) {
        Some(s) => ColorModel::Given(s),
        None => ColorModel::Default(default),
    }
}

/// What an annotation of `kind` is, over its pairs.
pub open spec fn annotation_of_kind(kind: Seq<char>, kv: Seq<(Seq<char>, Seq<char>)>) -> Result<AnnotationModel, Seq<char>> {
    if kind == "circle"@ {
        match position_in(kv, "at"@) {
            Err(m) => Err(m),
            Ok(at) => Ok(
                AnnotationModel::Circle {
                    at,
                    color: color_in(kv, NamedColor::Red),
                    radius: int_or(kv, "radius"@, 30),
                    stroke: int_or(kv, "stroke"@, 3),
                },
            ),
        }
    } else if kind == "arrow"@ {
        match position_in(kv, "from"@) {
            Err(m) => Err(m),
            Ok(from) => match position_in(kv, "to"@) {
                Err(m) => Err(m),
                Ok(to) => Ok(
                    AnnotationModel::Arrow {
                        from,
                        to,
                        color: color_in(kv, NamedColor::Blue),
                        stroke: int_or(kv, "stroke"@, 4),
                    },
                ),
            },
        }
    } else if kind == "text"@ {
        match position_in(kv, "at"@) {
            Err(m) => Err(m),
            Ok(at) => match kv_get(kv, "content"@) {
                None => Err("missing `content`"@),
                Some(content) => Ok(
                    AnnotationModel::Text {
                        at,
                        content,
                        color: color_in(kv, NamedColor::White),
                        size: kv_get(kv, "size"@),
                    },
                ),
            },
        }
    } else if kind == "box"@ {
        match position_in(kv, "at"@) {
            Err(m) => Err(m),
            Ok(at) => match required_int(kv, "width"@) {
                Err(m) => Err(m),
                Ok(width) => match required_int(kv, "height"@) {
                    Err(m) => Err(m),
                    Ok(height) => Ok(
                        AnnotationModel::Rectangle {
                            at,
                            width,
                            height,
                            color: color_in(kv, NamedColor::Yellow),
                            stroke: int_or(kv, "stroke"@, 2),
                        },
                    ),
                },
            },
        }
    } else if kind == "line"@ {
        match position_in(kv, "from"@) {
            Err(m) => Err(m),
            Ok(from) => match position_in(kv, "to"@) {
                Err(m) => Err(m),
                Ok(to) => Ok(
                    AnnotationModel::Line {
                        from,
                        to,
                        color: color_in(kv, NamedColor::Cyan),
                        stroke: int_or(kv, "stroke"@, 2),
                    },
                ),
            },
        }
    } else {
        Err("unknown annotation kind `"@ + kind + "` (expected circle/arrow/text/box/line)"@)
    }
}

/// What a whole spec reads as: the trimmed first part is the kind, the
/// rest are its pairs.
pub open spec fn annotation_spec(spec: Seq<char>) -> Result<AnnotationModel, Seq<char>> {
    let parts = split_on(spec, seq![',']);
    match kv_entries(parts.drop_first()) {
        Err(m) => Err(m),
        Ok(kv) => annotation_of_kind(trim(parts[0]), kv),
    }
}

/// Pairs by their characters.
pub open spec fn pair_views(v: Seq<(Vec<char>, Vec<char>)>) -> Seq<(Seq<char>, Seq<char>)> {
    v.map_values(|p: (Vec<char>, Vec<char>)| (p.0@, p.1@))
}

fn message(a: &str, mid: &[char], b: &str) -> (s: String)
    ensures
        s@ == a@ + mid@ + b@,
{
    let mut s = owned(a);
    push_chars(&mut s, mid);
    s.append(b);
    s
}

fn read_pairs(parts: &Vec<Vec<char>>) -> (r: Result<Vec<(Vec<char>, Vec<char>)>, String>)
    requires
        parts@.len() >= 1,
    ensures
        match r {
            Ok(kv) => kv_entries(views(parts@).drop_first()) == Ok::<_, Seq<char>>(pair_views(kv@)),
            Err(m) => kv_entries(views(parts@).drop_first()) == Err::<Seq<(Seq<char>, Seq<char>)>, _>(m@),
        },
{
    let ghost ps = views(parts@).drop_first();
    let mut kv: Vec<(Vec<char>, Vec<char>)> = Vec::new();
    let mut i: usize = 1;
    assert(ps.skip(0) =~= ps);
    while i < parts.len()
        invariant
            1 <= i <= parts@.len(),
            ps == views(parts@).drop_first(),
            kv_entries(ps) == match kv_entries(ps.skip(i - 1)) {
                Ok(rest) => Ok(pair_views(kv@) + rest),
                Err(m) => Err(m),
            },
        decreases parts@.len() - i,
    {
        let ghost tail = ps.skip(i - 1);
        assert(tail[0] == parts@[i as int]@);
        assert(tail.drop_first() =~= ps.skip(i as int));
        match split_once_chars(parts[i].as_slice(), ':') {
            None => {
                return Err(message("expected key:value, got `", parts[i].as_slice(), "`"));
            },
            Some((k, v)) => {
                let ghost old_kv = kv@;
                kv.push((trim_chars(k.as_slice()), trim_chars(v.as_slice())));
                assert(pair_views(kv@) =~= pair_views(old_kv).push((trim(k@), trim(v@))));
                proof {
                    match kv_entries(ps.skip(i as int)) {
                        Ok(rest) => {
                            assert(pair_views(kv@) + rest =~= pair_views(old_kv) + (seq![(trim(k@), trim(v@))] + rest));
                        },
                        Err(_) => {},
                    }
                }
            },
        }
        i = i + 1;
    }
    assert(ps.skip(i - 1).len() == 0);
    assert(pair_views(kv@) + Seq::<(Seq<char>, Seq<char>)>::empty() =~= pair_views(kv@));
    Ok(kv)
}

fn lookup(kv: &Vec<(Vec<char>, Vec<char>)>, key: &str) -> (r: Option<Vec<char>>)
    ensures
        match r {
            Some(v) => kv_get(pair_views(kv@), key@) == Some(v@),
            None => kv_get(pair_views(kv@), key@) is None,
        },
{
    let k = chars_of(key);
    let mut i: usize = kv.len();
    assert(pair_views(kv@).take(i as int) =~= pair_views(kv@));
    while i > 0
        invariant
            i <= kv@.len(),
            k@ == key@,
            kv_get(pair_views(kv@), key@) == kv_get(pair_views(kv@).take(i as int), key@),
        decreases i,
    {
        let ghost pre = pair_views(kv@).take(i as int);
        assert(pre.last() == (kv@[i - 1].0@, kv@[i - 1].1@));
        assert(pre.drop_last() =~= pair_views(kv@).take(i - 1));
        if chars_eq(kv[i - 1].0.as_slice(), k.as_slice()) {
            let v = slice_chars(kv[i - 1].1.as_slice(), 0, kv[i - 1].1.len());
            assert(v@ =~= kv@[i - 1].1@);
            return Some(v);
        }
        i = i - 1;
    }
    None
}

fn position_of(kv: &Vec<(Vec<char>, Vec<char>)>, key: &str) -> (r: Result<Position, String>)
    ensures
        match r {
            Ok(p) => position_in(pair_views(kv@), key@) == Ok::<_, Seq<char>>(point(p)),
            Err(m) => position_in(pair_views(kv@), key@) == Err::<(int, int), _>(m@),
        },
{
    let v = match lookup(kv, key) {
        None => {
            let k = chars_of(key);
            return Err(message("missing `", k.as_slice(), "`"));
        },
        Some(v) => v,
    };
    let mut seps: Vec<char> = Vec::new();
    seps.push('_');
    seps.push('|');
    assert(seps@ =~= seq!['_', '|']);
    let ps = split_on_chars(v.as_slice(), seps.as_slice());
    if ps.len() != 2 {
        return Err(
            message("position `", v.as_slice(), "` — expected `X_Y` (underscore or pipe separator)"),
        );
    }
    assert(ps@[0]@ == views(ps@)[0] && ps@[1]@ == views(ps@)[1]);
    let x = match parse_i32_chars(ps[0].as_slice()) {
        None => {
            return Err(message("bad x `", ps[0].as_slice(), "`"));
        },
        Some(x) => x,
    };
    let y = match parse_i32_chars(ps[1].as_slice()) {
        None => {
            return Err(message("bad y `", ps[1].as_slice(), "`"));
        },
        Some(y) => y,
    };
    Ok(Position { x, y })
}

fn int_or_default(kv: &Vec<(Vec<char>, Vec<char>)>, key: &str, default: i32) -> (r: i32)
    ensures
        r as int == int_or(pair_views(kv@), key@, default as int),
{
    match lookup(kv, key) {
        Some(s) => match parse_i32_chars(s.as_slice()) {
            Some(v) => v,
            None => default,
        },
        None => default,
    }
}

fn required(kv: &Vec<(Vec<char>, Vec<char>)>, key: &str) -> (r: Result<i32, String>)
    ensures
        match r {
            Ok(v) => required_int(pair_views(kv@), key@) == Ok::<int, Seq<char>>(v as int),
            Err(m) => required_int(pair_views(kv@), key@) == Err::<int, _>(m@),
        },
{
    let parsed = match lookup(kv, key) {
        Some(s) => parse_i32_chars(s.as_slice()),
        None => None,
    };
    match parsed {
        Some(v) => Ok(v),
        None => {
            let k = chars_of(key);
            Err(message("missing `", k.as_slice(), "`"))
        },
    }
}

fn color_of(kv: &Vec<(Vec<char>, Vec<char>)>, default: NamedColor) -> (c: ColorChoice)
    ensures
        color_model(c) == color_in(pair_views(kv@), default),
{
    match lookup(kv, "color") {
        Some(s) => ColorChoice::Given(string_of(s.as_slice())),
        None => ColorChoice::Default(default),
    }
}

fn is_kind(kind: &Vec<char>, name: &str) -> (r: bool)
    ensures
        r == (kind@ == name@),
{
    let n = chars_of(name);
    chars_eq(kind.as_slice(), n.as_slice())
}

/// Read one annotation spec. The first error met, in the order the
/// pairs are needed, is the answer; an unknown kind is named back with
/// the kinds on offer.
pub fn parse_annotation_spec(spec: &str) -> (r: Result<Annotation, String>)
    ensures
        match r {
            Ok(a) => annotation_spec(spec@) == Ok::<_, Seq<char>>(annotation_model(a)),
            Err(m) => annotation_spec(spec@) == Err::<AnnotationModel, _>(m@),
        },
{
    let cs = chars_of(spec);
    let mut commas: Vec<char> = Vec::new();
    commas.push(',');
    assert(commas@ =~= seq![',']);
    let parts = split_on_chars(cs.as_slice(), commas.as_slice());
    proof {
        lemma_split_on_nonempty(spec@, seq![',']);
    }
    let kv = match read_pairs(&parts) {
        Ok(v) => v,
        Err(m) => {
            return Err(m);
        },
    };
    let kind = trim_chars(parts[0].as_slice());
    assert(kind@ == trim(views(parts@)[0]));
    let ghost kvv = pair_views(kv@);
    if is_kind(&kind, "circle") {
        let at = match position_of(&kv, "at") {
        Ok(v) => v,
        Err(m) => {
            return Err(m);
        },
    };
        let color = color_of(&kv, NamedColor::Red);
        let radius = int_or_default(&kv, "radius", 30);
        let stroke = int_or_default(&kv, "stroke", 3);
        Ok(Annotation::Circle { at, color, radius, stroke })
    } else if is_kind(&kind, "arrow") {
        let from = match position_of(&kv, "from") {
        Ok(v) => v,
        Err(m) => {
            return Err(m);
        },
    };
        let to = match position_of(&kv, "to") {
        Ok(v) => v,
        Err(m) => {
            return Err(m);
        },
    };
        let color = color_of(&kv, NamedColor::Blue);
        let stroke = int_or_default(&kv, "stroke", 4);
        Ok(Annotation::Arrow { from, to, color, stroke })
    } else if is_kind(&kind, "text") {
        let at = match position_of(&kv, "at") {
        Ok(v) => v,
        Err(m) => {
            return Err(m);
        },
    };
        let content = match lookup(&kv, "content") {
            None => {
                return Err(owned("missing `content`"));
            },
            Some(c) => string_of(c.as_slice()),
        };
        let color = color_of(&kv, NamedColor::White);
        let size = match lookup(&kv, "size") {
            Some(s) => Some(string_of(s.as_slice())),
            None => None,
        };
        Ok(Annotation::Text { at, content, color, size })
    } else if is_kind(&kind, "box") {
        let at = match position_of(&kv, "at") {
        Ok(v) => v,
        Err(m) => {
            return Err(m);
        },
    };
        let width = match required(&kv, "width") {
        Ok(v) => v,
        Err(m) => {
            return Err(m);
        },
    };
        let height = match required(&kv, "height") {
        Ok(v) => v,
        Err(m) => {
            return Err(m);
        },
    };
        let color = color_of(&kv, NamedColor::Yellow);
        let stroke = int_or_default(&kv, "stroke", 2);
        Ok(Annotation::Rectangle { at, width, height, color, stroke })
    } else if is_kind(&kind, "line") {
        let from = match position_of(&kv, "from") {
        Ok(v) => v,
        Err(m) => {
            return Err(m);
        },
    };
        let to = match position_of(&kv, "to") {
        Ok(v) => v,
        Err(m) => {
            return Err(m);
        },
    };
        let color = color_of(&kv, NamedColor::Cyan);
        let stroke = int_or_default(&kv, "stroke", 2);
        Ok(Annotation::Line { from, to, color, stroke })
    } else {
        Err(message("unknown annotation kind `", kind.as_slice(), "` (expected circle/arrow/text/box/line)"))
    }
}

/// How hard the renderer compresses the PNG it writes.
#[derive(Debug, Clone, Copy, PartialEq, Eq, Structural)]
pub enum Compression {
    Fast,
    Balanced,
    Aggressive,
}

/// The preset a lowercased `--compression` value names.
pub open spec fn preset_named(l: Seq<char>) -> Result<Compression, Seq<char>> {
    if l == "fast"@ {
        Ok(Compression::Fast)
    } else if l == "balanced"@ {
        Ok(Compression::Balanced)
    } else if l == "aggressive"@ {
        Ok(Compression::Aggressive)
    } else {
        Err("unknown compression preset `"@ + l + "`"@)
    }
}

/// What `--compression` names, read without regard to case.
pub open spec fn compression_named(s: Seq<char>) -> Result<Compression, Seq<char>> {
    preset_named(lowercase(s))
}

/// The preset named by an already lowercased value: `fast`, `balanced`
/// or `aggressive`; anything else is named back.
pub fn preset_from_lowercase(l: &str) -> (r: Result<Compression, String>)
    ensures
        match r {
            Ok(c) => preset_named(l@) == Ok::<_, Seq<char>>(c),
            Err(m) => preset_named(l@) == Err::<Compression, _>(m@),
        },
{
    let lc = chars_of(l);
    if is_kind(&lc, "fast") {
        Ok(Compression::Fast)
    } else if is_kind(&lc, "balanced") {
        Ok(Compression::Balanced)
    } else if is_kind(&lc, "aggressive") {
        Ok(Compression::Aggressive)
    } else {
        Err(message("unknown compression preset `", lc.as_slice(), "`"))
    }
}

/// Read a `--compression` preset in any case; anything else is named
/// back, lowercased.
pub fn parse_compression(s: &str) -> (r: Result<Compression, String>)
    ensures
        match r {
            Ok(c) => compression_named(s@) == Ok::<_, Seq<char>>(c),
            Err(m) => compression_named(s@) == Err::<Compression, _>(m@),
        },
{
    let l = to_lowercase(s);
    preset_from_lowercase(l.as_str())
}

} // verus!
