use statsforge::error::AppError;
use statsforge::params::{validate_hex_color, CardParams, RawParams, SortBy, Theme};

fn raw(username: &str) -> RawParams {
    RawParams {
        username: Some(username.into()),
        theme: None,
        primary_color: None,
        accent_color: None,
        bar_animation_speed: None,
        number_of_languages: None,
        bar_height: None,
        card_width: None,
        show_percentages: None,
        text_size: None,
        sort_by: None,
        border_radius: None,
        exclude_languages: None,
    }
}

fn invalid_param(r: RawParams) -> &'static str {
    match CardParams::from_raw(r) {
        Err(AppError::InvalidParam { param, .. }) => param,
        other => panic!("expected an invalid parameter, got {:?}", other),
    }
}

#[test]
fn valid_username_accepted() {
    assert!(CardParams::from_raw(raw("botond")).is_ok());
    assert!(CardParams::from_raw(raw("my-user-123")).is_ok());
}

#[test]
fn empty_username_rejected() {
    assert!(CardParams::from_raw(raw("")).is_err());
    assert!(CardParams::from_raw(raw("   ")).is_err());
    let mut r = raw("x");
    r.username = None;
    assert!(CardParams::from_raw(r).is_err());
}

#[test]
fn username_with_invalid_chars_rejected() {
    assert!(CardParams::from_raw(raw("hello world")).is_err());
    assert!(CardParams::from_raw(raw("user@example")).is_err());
    assert!(CardParams::from_raw(raw("user/path")).is_err());
}

#[test]
fn username_too_long_rejected() {
    let long = "a".repeat(40);
    assert!(CardParams::from_raw(raw(&long)).is_err());
}

#[test]
fn valid_hex_colors_accepted() {
    let mut r = raw("user");
    r.primary_color = Some("#1a2b3c".into());
    r.accent_color = Some("abc".into()); // shorthand without #
    assert!(CardParams::from_raw(r).is_ok());
}

#[test]
fn invalid_hex_colors_rejected() {
    let mut r = raw("user");
    r.primary_color = Some("gggggg".into());
    assert!(CardParams::from_raw(r).is_err());

    let mut r2 = raw("user");
    r2.accent_color = Some("#12345".into()); // 5-digit is invalid
    assert!(CardParams::from_raw(r2).is_err());
}

#[test]
fn language_count_bounds_enforced() {
    let mut r = raw("user");
    r.number_of_languages = Some(0);
    assert!(CardParams::from_raw(r).is_err());

    let mut r2 = raw("user");
    r2.number_of_languages = Some(11);
    assert!(CardParams::from_raw(r2).is_err());

    let mut r3 = raw("user");
    r3.number_of_languages = Some(10);
    assert!(CardParams::from_raw(r3).is_ok());
}

#[test]
fn defaults_are_sensible() {
    let p = CardParams::from_raw(raw("user")).unwrap();
    assert_eq!(p.number_of_languages, 5);
    assert_eq!(p.card_width, 400);
    assert!(p.show_percentages);
    assert_eq!(p.border_radius, 12);
    assert!((f32::from_bits(p.text_size) - 1.0).abs() < f32::EPSILON);
    assert!(p.exclude_languages.is_empty());
}

#[test]
fn exclude_languages_parsed_and_lowercased() {
    let mut r = raw("user");
    r.exclude_languages = Some("HTML,CSS, Markdown , dockerfile".into());
    let p = CardParams::from_raw(r).unwrap();
    assert_eq!(p.exclude_languages, vec!["html", "css", "markdown", "dockerfile"]);
}

#[test]
fn exclude_languages_empty_string_gives_empty_vec() {
    let mut r = raw("user");
    r.exclude_languages = Some("".into());
    let p = CardParams::from_raw(r).unwrap();
    assert!(p.exclude_languages.is_empty());
}

#[test]
fn exclude_languages_none_gives_empty_vec() {
    let p = CardParams::from_raw(raw("user")).unwrap();
    assert!(p.exclude_languages.is_empty());
}

// ── Further cases ────────────────────────────────────────────────────────────

#[test]
fn all_defaults_filled_in() {
    let p = CardParams::from_raw(raw("botond")).unwrap();
    assert_eq!(p.username, "botond");
    assert_eq!(p.theme, Theme::Dark);
    assert_eq!(p.primary_color, None);
    assert_eq!(p.accent_color, None);
    assert_eq!(p.bar_animation_speed, 1000);
    assert_eq!(p.bar_height, 10);
    assert_eq!(p.sort_by, SortBy::Bytes);
    assert_eq!(p.text_size, 1.0f32.to_bits());
}

#[test]
fn given_values_are_kept() {
    let mut r = raw("a-b");
    r.theme = Some(Theme::Light);
    r.bar_animation_speed = Some(100);
    r.number_of_languages = Some(1);
    r.bar_height = Some(40);
    r.card_width = Some(800);
    r.show_percentages = Some(false);
    r.text_size = Some(2.0f32.to_bits());
    r.sort_by = Some(SortBy::Repos);
    r.border_radius = Some(0);
    let p = CardParams::from_raw(r).unwrap();
    assert_eq!(p.theme, Theme::Light);
    assert_eq!(p.bar_animation_speed, 100);
    assert_eq!(p.number_of_languages, 1);
    assert_eq!(p.bar_height, 40);
    assert_eq!(p.card_width, 800);
    assert!(!p.show_percentages);
    assert_eq!(p.text_size, 2.0f32.to_bits());
    assert_eq!(p.sort_by, SortBy::Repos);
    assert_eq!(p.border_radius, 0);
}

#[test]
fn each_bound_names_its_parameter() {
    let mut r = raw("u");
    r.bar_animation_speed = Some(99);
    assert_eq!(invalid_param(r), "barAnimationSpeed");
    let mut r = raw("u");
    r.bar_animation_speed = Some(5001);
    assert_eq!(invalid_param(r), "barAnimationSpeed");
    let mut r = raw("u");
    r.bar_height = Some(3);
    assert_eq!(invalid_param(r), "barHeight");
    let mut r = raw("u");
    r.bar_height = Some(41);
    assert_eq!(invalid_param(r), "barHeight");
    let mut r = raw("u");
    r.card_width = Some(199);
    assert_eq!(invalid_param(r), "cardWidth");
    let mut r = raw("u");
    r.card_width = Some(801);
    assert_eq!(invalid_param(r), "cardWidth");
    let mut r = raw("u");
    r.border_radius = Some(41);
    assert_eq!(invalid_param(r), "borderRadius");
    let mut r = raw("u");
    r.number_of_languages = Some(0);
    assert_eq!(invalid_param(r), "numberOfLanguages");
    assert_eq!(invalid_param(raw("a b")), "username");
}

#[test]
fn text_size_bounds_follow_the_float_range() {
    for (v, ok) in [
        (0.5f32, true),
        (2.0, true),
        (1.25, true),
        (0.49999997, false),
        (2.0000002, false),
        (-1.0, false),
        (-0.0, false),
        (f32::NAN, false),
        (f32::INFINITY, false),
    ] {
        let mut r = raw("u");
        r.text_size = Some(v.to_bits());
        assert_eq!(CardParams::from_raw(r).is_ok(), ok, "text size {}", v);
        assert_eq!((0.5..=2.0).contains(&v), ok);
    }
    let mut r = raw("u");
    r.text_size = Some(3.0f32.to_bits());
    assert_eq!(invalid_param(r), "textSize");
}

#[test]
fn first_failing_check_decides_the_error() {
    let mut r = raw("bad name");
    r.card_width = Some(1);
    assert_eq!(invalid_param(r), "username");
    let mut r = raw("u");
    r.primary_color = Some("xyz".into());
    r.accent_color = Some("12".into());
    assert_eq!(invalid_param(r), "primaryColor");
}

#[test]
fn missing_username_error_text() {
    let e = CardParams::from_raw(raw(" \t")).unwrap_err();
    assert_eq!(e.message(), "Missing required parameter: username");
    assert_eq!(e.status(), 400);
}

#[test]
fn username_of_39_accepted_40_bytes_rejected() {
    assert!(CardParams::from_raw(raw(&"b".repeat(39))).is_ok());
    assert!(CardParams::from_raw(raw(&"b".repeat(40))).is_err());
    // A non-ASCII letter is refused whatever the length.
    assert!(CardParams::from_raw(raw("\u{e9}")).is_err());
}

#[test]
fn hex_colors_are_normalised() {
    assert_eq!(validate_hex_color("#ABC".into(), "p").unwrap(), "#aabbcc");
    assert_eq!(validate_hex_color("1A2b3C".into(), "p").unwrap(), "#1a2b3c");
    assert_eq!(validate_hex_color("##fff".into(), "p").unwrap(), "#ffffff");
    let again = validate_hex_color("#1a2b3c".into(), "p").unwrap();
    assert_eq!(again, "#1a2b3c");
}

#[test]
fn hex_color_errors() {
    match validate_hex_color("#12345".into(), "accentColor") {
        Err(e) => assert_eq!(
            e.message(),
            "Invalid parameter 'accentColor': must be a valid 3- or 6-digit hex colour (e.g. #1a2b3c)"
        ),
        Ok(c) => panic!("accepted {}", c),
    }
    match validate_hex_color("ggg".into(), "primaryColor") {
        Err(e) => assert_eq!(
            e.message(),
            "Invalid parameter 'primaryColor': contains invalid hex characters"
        ),
        Ok(c) => panic!("accepted {}", c),
    }
    // Three bytes, but not three hex digits: the digit check refuses it.
    match validate_hex_color("\u{e9}a".into(), "p") {
        Err(e) => assert_eq!(e.message(), "Invalid parameter 'p': contains invalid hex characters"),
        Ok(c) => panic!("accepted {}", c),
    }
}

#[test]
fn exclusions_split_on_every_comma() {
    let mut r = raw("user");
    r.exclude_languages = Some(",, Jupyter Notebook ,\u{a0}C++\u{3000},".into());
    let p = CardParams::from_raw(r).unwrap();
    assert_eq!(p.exclude_languages, vec!["jupyter notebook", "c++"]);
}

#[test]
fn hex_color_ignores_ascii_case() {
    for c in ["#AbC", "aBcDeF", "#12x", "#1234567", "GgGgGg", "##fA0"] {
        let s = c.to_string();
        let a = validate_hex_color(s.clone(), "p").map_err(|e| e.message());
        let b = validate_hex_color(s.to_ascii_uppercase(), "p").map_err(|e| e.message());
        let l = validate_hex_color(s.to_ascii_lowercase(), "p").map_err(|e| e.message());
        assert_eq!(a, b, "{}", c);
        assert_eq!(a, l, "{}", c);
    }
}

#[test]
fn exclusions_lowercase_beyond_ascii() {
    let mut r = raw("user");
    r.exclude_languages = Some("\u{c4}GYPTISCH, Go".into());
    let p = CardParams::from_raw(r).unwrap();
    assert_eq!(p.exclude_languages, vec!["\u{e4}gyptisch", "go"]);
}
