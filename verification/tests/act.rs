use smix_cli::act::{parse_direction, parse_key_name, KeyName, SwipeDirection};

#[test]
fn parse_key_name_canonical_and_aliases() {
    assert_eq!(parse_key_name("return"), Some(KeyName::Return));
    assert_eq!(parse_key_name("enter"), Some(KeyName::Return));
    assert_eq!(parse_key_name("delete"), Some(KeyName::Delete));
    assert_eq!(parse_key_name("backspace"), Some(KeyName::Delete));
    assert_eq!(parse_key_name("arrowUp"), Some(KeyName::ArrowUp));
    assert_eq!(parse_key_name("up"), Some(KeyName::ArrowUp));
    assert_eq!(parse_key_name("escape"), Some(KeyName::Escape));
    assert_eq!(parse_key_name("esc"), Some(KeyName::Escape));
    assert_eq!(parse_key_name("volumeUp"), Some(KeyName::VolumeUp));
    assert_eq!(parse_key_name("volume-up"), Some(KeyName::VolumeUp));
    assert_eq!(parse_key_name("nope"), None);
}

#[test]
fn parse_direction_four_compass_dirs() {
    assert_eq!(parse_direction("up"), Some(SwipeDirection::Up));
    assert_eq!(parse_direction("down"), Some(SwipeDirection::Down));
    assert_eq!(parse_direction("left"), Some(SwipeDirection::Left));
    assert_eq!(parse_direction("right"), Some(SwipeDirection::Right));
    assert_eq!(parse_direction("nope"), None);
    assert_eq!(parse_direction("UP"), None);
}

#[test]
fn the_remaining_keys_parse_by_name() {
    assert_eq!(parse_key_name("tab"), Some(KeyName::Tab));
    assert_eq!(parse_key_name("space"), Some(KeyName::Space));
    assert_eq!(parse_key_name("home"), Some(KeyName::Home));
    assert_eq!(parse_key_name("lock"), Some(KeyName::Lock));
    assert_eq!(parse_key_name("volume-down"), Some(KeyName::VolumeDown));
    assert_eq!(parse_key_name("Return"), None);
}

use smix_cli::act::{
    admit_selector, ocr_wait_step, outline_line, parse_selector_token, popup_action_outcome, unknown_direction,
    unknown_key, ActError, ActVerb, SelectorKind,
};

#[test]
fn outline_line_shows_text_in_its_own_position() {
    let line = outline_line(0, Some("fixture_submit"), None, Some("SUBMIT"), true, false);
    assert!(line.contains(r#"id="fixture_submit""#), "id in its place: {line}");
    assert!(line.contains(r#"text="SUBMIT""#), "text in its place: {line}");
    assert!(line.contains(r#"label="""#), "label still printed: {line}");
    assert!(!line.contains(r#"id="SUBMIT""#), "text must not bleed into id: {line}");
    let bare = outline_line(0, Some("statusBarBackground"), None, None, true, false);
    assert!(!bare.contains("text="), "empty text prints nothing: {bare}");
}

#[test]
fn the_outline_indents_and_marks() {
    assert_eq!(
        outline_line(2, None, Some("Close \"x\""), Some(""), false, true),
        "    · id=\"\" label=\"Close \\\"x\\\"\"  (keys collapsed — --keyboard to include them)"
    );
}

#[test]
fn parse_selector_id() {
    assert_eq!(
        parse_selector_token("id:btn-take-photo"),
        Ok((SelectorKind::Id, "btn-take-photo".to_string()))
    );
}

#[test]
fn parse_selector_text_plain() {
    assert_eq!(
        parse_selector_token("text:Welcome to smix"),
        Ok((SelectorKind::Text, "Welcome to smix".to_string()))
    );
}

#[test]
fn parse_selector_label() {
    assert_eq!(
        parse_selector_token("label:Settings"),
        Ok((SelectorKind::Label, "Settings".to_string()))
    );
}

#[test]
fn parse_selector_unknown_kind_says_why() {
    assert_eq!(
        parse_selector_token("xpath://*[1]"),
        Err("unknown selector kind `xpath` — one of id / text / label / role / ocrText / point".to_string())
    );
    assert_eq!(
        parse_selector_token("nope"),
        Err("`nope` has no kind — write `<kind>:<value>`, one of id / text / label / role / ocrText / point".to_string())
    );
    assert_eq!(
        parse_selector_token("point:50%,25%"),
        Ok((SelectorKind::Point, "50%,25%".to_string()))
    );
}

#[test]
fn act_errors_read_as_sentences() {
    assert_eq!(
        ActError::BadSelector("key:x".into(), "unknown key name".into()).message(),
        "invalid selector `key:x`: unknown key name"
    );
    assert_eq!(ActError::Transport("refused".into()).message(), "runner transport: refused");
    assert_eq!(
        ActError::Timeout { selector: "id:a".into(), timeout_ms: 1500 }.message(),
        "wait_for timeout after 1500ms: id:a"
    );
}

#[test]
fn an_unknown_kind_and_a_missing_colon_each_say_so() {
    assert!(parse_selector_token("xpath://div").unwrap_err().contains("unknown selector kind"));
    assert!(parse_selector_token("btn-submit").unwrap_err().contains("no kind"));
}

#[test]
fn the_existing_kinds_still_parse() {
    for s in ["id:btn", "text:Save", "label:Close", "role:button"] {
        assert!(parse_selector_token(s).is_ok(), "{s}");
    }
}

#[test]
fn only_tap_takes_a_point() {
    assert_eq!(admit_selector(ActVerb::Tap, SelectorKind::Point, "point:0.5,0.5"), Ok(()));
    for (verb, what) in [
        (ActVerb::Find, "find"),
        (ActVerb::Fill, "fill"),
        (ActVerb::Scroll, "scroll to"),
        (ActVerb::WaitFor, "wait for"),
    ] {
        assert_eq!(
            admit_selector(verb, SelectorKind::Point, "point:0.5,0.5"),
            Err(ActError::BadSelector(
                "point:0.5,0.5".to_string(),
                format!("a point names a place, not an element, so there is nothing here to {what}. Only `smix tap` takes one"),
            ))
        );
    }
}

#[test]
fn an_ocr_hit_is_not_an_element_to_fill_scroll_or_screenshot() {
    assert_eq!(admit_selector(ActVerb::Tap, SelectorKind::OcrText, "ocrText:Save"), Ok(()));
    assert_eq!(admit_selector(ActVerb::Find, SelectorKind::OcrText, "ocrText:Save"), Ok(()));
    assert_eq!(admit_selector(ActVerb::WaitFor, SelectorKind::OcrText, "ocrText:Save"), Ok(()));
    match admit_selector(ActVerb::Fill, SelectorKind::OcrText, "ocrText:Save") {
        Err(ActError::BadSelector(s, why)) => {
            assert_eq!(s, "ocrText:Save");
            assert!(why.starts_with("an OCR hit is a text frame on the screen, not a field with a value"));
        }
        other => panic!("unexpected {other:?}"),
    }
    match admit_selector(ActVerb::Scroll, SelectorKind::OcrText, "ocrText:Save") {
        Err(ActError::BadSelector(_, why)) => assert!(why.starts_with("scrolling needs an element the tree can follow")),
        other => panic!("unexpected {other:?}"),
    }
    match admit_selector(ActVerb::TapThenScreenshot, SelectorKind::OcrText, "ocrText:Save") {
        Err(ActError::BadSelector(_, why)) => assert!(why.ends_with("which is why this command takes no --ocr-locale")),
        other => panic!("unexpected {other:?}"),
    }
    assert_eq!(admit_selector(ActVerb::Fill, SelectorKind::Id, "id:name"), Ok(()));
}

#[test]
fn unknown_keys_and_directions_are_named_back() {
    assert_eq!(
        unknown_key("hyper"),
        ActError::BadSelector("key:hyper".to_string(), "unknown key name".to_string())
    );
    assert_eq!(
        unknown_direction("sideways"),
        ActError::BadSelector("direction:sideways".to_string(), "expected up / down / left / right".to_string())
    );
}

#[test]
fn the_vision_wait_ends_on_what_was_asked_for_or_the_deadline() {
    assert_eq!(ocr_wait_step(true, false, false, "ocrText:Done", 5000), Some(Ok("visible ocrText:Done".to_string())));
    assert_eq!(ocr_wait_step(false, true, true, "ocrText:Done", 5000), Some(Ok("gone ocrText:Done".to_string())));
    assert_eq!(ocr_wait_step(false, false, false, "ocrText:Done", 5000), None);
    assert_eq!(
        ocr_wait_step(true, true, true, "ocrText:Done", 5000),
        Some(Err(ActError::Timeout { selector: "ocrText:Done".to_string(), timeout_ms: 5000 }))
    );
}

#[test]
fn a_popup_action_says_what_it_pressed_or_what_was_missing() {
    assert_eq!(popup_action_outcome("alert-1", "Allow", true), Ok("pressed: Allow on alert-1".to_string()));
    assert_eq!(
        popup_action_outcome("alert-1", "Allow", false),
        Err(ActError::Transport(
            "no popup \"alert-1\" with button \"Allow\" — list current popups via `smix system-popups`".to_string()
        ))
    );
}
