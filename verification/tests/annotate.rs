use smix_cli::annotate::{
    parse_annotation_spec, parse_compression, preset_from_lowercase, Annotation, ColorChoice,
    Compression, NamedColor, Position,
};

fn at(x: i32, y: i32) -> Position {
    Position { x, y }
}

#[test]
fn a_circle_takes_its_defaults() {
    assert_eq!(
        parse_annotation_spec("circle,at:120_340").unwrap(),
        Annotation::Circle {
            at: at(120, 340),
            color: ColorChoice::Default(NamedColor::Red),
            radius: 30,
            stroke: 3
        }
    );
}

#[test]
fn a_circle_reads_every_pair_trimmed() {
    assert_eq!(
        parse_annotation_spec(" circle , at: -5|7 , color: #00ff00 , radius: 12 , stroke: 9").unwrap(),
        Annotation::Circle {
            at: at(-5, 7),
            color: ColorChoice::Given("#00ff00".to_string()),
            radius: 12,
            stroke: 9
        }
    );
}

#[test]
fn an_unreadable_optional_number_falls_back_to_the_default() {
    assert_eq!(
        parse_annotation_spec("circle,at:1_2,radius:big").unwrap(),
        Annotation::Circle {
            at: at(1, 2),
            color: ColorChoice::Default(NamedColor::Red),
            radius: 30,
            stroke: 3
        }
    );
}

#[test]
fn a_key_given_twice_keeps_its_last_value() {
    assert_eq!(
        parse_annotation_spec("line,from:0_0,to:1_1,to:5_6").unwrap(),
        Annotation::Line {
            from: at(0, 0),
            to: at(5, 6),
            color: ColorChoice::Default(NamedColor::Cyan),
            stroke: 2
        }
    );
}

#[test]
fn an_arrow_a_text_and_a_box() {
    assert_eq!(
        parse_annotation_spec("arrow,from:10_20,to:30_40,stroke:6").unwrap(),
        Annotation::Arrow {
            from: at(10, 20),
            to: at(30, 40),
            color: ColorChoice::Default(NamedColor::Blue),
            stroke: 6
        }
    );
    assert_eq!(
        parse_annotation_spec("text,at:5_5,content:Tap here,size:18").unwrap(),
        Annotation::Text {
            at: at(5, 5),
            content: "Tap here".to_string(),
            color: ColorChoice::Default(NamedColor::White),
            size: Some("18".to_string())
        }
    );
    assert_eq!(
        parse_annotation_spec("box,at:0_0,width:100,height:50").unwrap(),
        Annotation::Rectangle {
            at: at(0, 0),
            width: 100,
            height: 50,
            color: ColorChoice::Default(NamedColor::Yellow),
            stroke: 2
        }
    );
}

#[test]
fn every_refusal_says_what_was_wrong() {
    assert_eq!(
        parse_annotation_spec("circle,at").unwrap_err(),
        "expected key:value, got `at`"
    );
    assert_eq!(parse_annotation_spec("circle").unwrap_err(), "missing `at`");
    assert_eq!(
        parse_annotation_spec("circle,at:1,2").unwrap_err(),
        "expected key:value, got `2`"
    );
    assert_eq!(
        parse_annotation_spec("circle,at:1_2_3").unwrap_err(),
        "position `1_2_3` — expected `X_Y` (underscore or pipe separator)"
    );
    assert_eq!(parse_annotation_spec("circle,at:a_2").unwrap_err(), "bad x `a`");
    assert_eq!(parse_annotation_spec("circle,at:1_").unwrap_err(), "bad y ``");
    assert_eq!(
        parse_annotation_spec("circle,at:2147483648_0").unwrap_err(),
        "bad x `2147483648`"
    );
    assert_eq!(parse_annotation_spec("text,at:1_1").unwrap_err(), "missing `content`");
    assert_eq!(
        parse_annotation_spec("box,at:1_1,width:9").unwrap_err(),
        "missing `height`"
    );
    assert_eq!(
        parse_annotation_spec("box,at:1_1,width:x,height:2").unwrap_err(),
        "missing `width`"
    );
    assert_eq!(
        parse_annotation_spec("star,at:1_1").unwrap_err(),
        "unknown annotation kind `star` (expected circle/arrow/text/box/line)"
    );
    assert_eq!(
        parse_annotation_spec("").unwrap_err(),
        "unknown annotation kind `` (expected circle/arrow/text/box/line)"
    );
}

#[test]
fn the_extreme_coordinates_read_as_i32() {
    assert_eq!(
        parse_annotation_spec("circle,at:-2147483648_+2147483647").unwrap(),
        Annotation::Circle {
            at: at(i32::MIN, i32::MAX),
            color: ColorChoice::Default(NamedColor::Red),
            radius: 30,
            stroke: 3
        }
    );
}

#[test]
fn compression_presets_read_in_any_case() {
    assert_eq!(parse_compression("fast"), Ok(Compression::Fast));
    assert_eq!(parse_compression("Balanced"), Ok(Compression::Balanced));
    assert_eq!(parse_compression("AGGRESSIVE"), Ok(Compression::Aggressive));
    assert_eq!(
        parse_compression("Turbo"),
        Err("unknown compression preset `turbo`".to_string())
    );
    assert_eq!(preset_from_lowercase("fast"), Ok(Compression::Fast));
    assert_eq!(
        preset_from_lowercase("Fast"),
        Err("unknown compression preset `Fast`".to_string())
    );
}
