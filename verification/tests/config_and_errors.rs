use statsforge::config::{parse_port, Config};
use statsforge::error::AppError;

#[test]
fn token_required() {
    let e = Config::from_vars(None, None).unwrap_err();
    assert_eq!(e, "GITHUB_TOKEN environment variable is required");
    let e = Config::from_vars(Some("  \n".into()), None).unwrap_err();
    assert_eq!(e, "GITHUB_TOKEN must not be empty");
}

#[test]
fn port_defaults_to_3000() {
    let c = Config::from_vars(Some("tok".into()), None).unwrap();
    assert_eq!(c.port, 3000);
    assert_eq!(c.github_token, "tok");
}

#[test]
fn port_parsed_like_std() {
    let c = Config::from_vars(Some("tok".into()), Some("8080".into())).unwrap();
    assert_eq!(c.port, 8080);
    let e = Config::from_vars(Some("tok".into()), Some("65536".into())).unwrap_err();
    assert_eq!(e, "PORT must be a valid port number (0–65535)");
    for s in [
        "", "+", "-", "0", "+0", "-0", "65535", "65536", "0065535", "99999999999", "12a", " 1",
        "1 ", "+12", "++1", "٣",
    ] {
        assert_eq!(parse_port(s), s.parse::<u16>().ok(), "{:?}", s);
    }
    for n in (0..=65535u32).step_by(7) {
        assert_eq!(parse_port(&n.to_string()), Some(n as u16));
    }
}

#[test]
fn error_texts_and_statuses() {
    let cases = [
        (AppError::MissingParam("username".into()), "Missing required parameter: username", 400),
        (
            AppError::InvalidParam { param: "cardWidth", reason: "must be between 200 and 800 px".into() },
            "Invalid parameter 'cardWidth': must be between 200 and 800 px",
            400,
        ),
        (AppError::GitHub("boom".into()), "GitHub API error: boom", 502),
        (AppError::Http("timed out".into()), "HTTP error: timed out", 502),
    ];
    for (e, text, status) in cases {
        assert_eq!(e.message(), text);
        assert_eq!(e.status(), status);
    }
}
