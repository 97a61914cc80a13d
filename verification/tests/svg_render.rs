//! Integration tests for the SVG renderer — no network calls required.
use statsforge::{
    github::LanguageStat,
    params::{CardParams, RawParams, Theme},
    svg,
    svg::{BarMetrics, Typography},
};

fn sample_stats() -> Vec<LanguageStat> {
    vec![
        LanguageStat { name: "Rust".into(), color: "#dea584".into(), bytes: 60000, repo_count: 8 },
        LanguageStat {
            name: "Python".into(),
            color: "#3572A5".into(),
            bytes: 25000,
            repo_count: 5,
        },
        LanguageStat {
            name: "TypeScript".into(),
            color: "#3178c6".into(),
            bytes: 15000,
            repo_count: 3,
        },
    ]
}

fn sample_percentages() -> Vec<f64> {
    vec![60.0, 25.0, 15.0]
}

fn default_params() -> CardParams {
    CardParams::from_raw(RawParams {
        username: Some("testuser".into()),
        theme: None,
        primary_color: None,
        accent_color: None,
        bar_animation_speed: None,
        number_of_languages: None,
        bar_height: None,
        card_width: None,
        show_percentages: None,
        text_size: None,
        sort_by: None,
        border_radius: None,
        exclude_languages: None,
    })
    .unwrap()
}

/// The float-derived metrics, computed as the service computes them.
fn typography(p: &CardParams) -> Typography {
    let scale = f32::from_bits(p.text_size);
    let title_font = 15.0 * scale;
    let label_font = 12.0 * scale;
    let pct_font = 11.0 * scale;
    Typography {
        title_font: format!("{}", title_font),
        label_font: format!("{}", label_font),
        pct_font: format!("{}", pct_font),
        title_line: (title_font * 1.4) as u32,
        title_ascent: (title_font * 1.0) as u32,
        label_line: (label_font * 1.4) as u32,
        label_ascent: (label_font * 1.0) as u32,
        dot_lift: (label_font * 0.35) as u32,
        duration: format!("{}", p.bar_animation_speed as f32 / 1000.0),
    }
}

fn bars(p: &CardParams, percentages: &[f64]) -> Vec<BarMetrics> {
    let inner_w = p.card_width - 48;
    percentages
        .iter()
        .enumerate()
        .map(|(i, pct)| BarMetrics {
            percent: format!("{:.1}", pct),
            width: (inner_w as f64 * pct / 100.0) as u32,
            delay: format!("{}", i as f32 * 0.08),
        })
        .collect()
}

fn render(p: &CardParams, stats: &[LanguageStat], percentages: &[f64]) -> String {
    let t = typography(p);
    let b = bars(p, percentages);
    assert!(svg::layout_fits_for(p, &t, stats.len()));
    svg::render(p, stats, &t, &b)
}

/// The card written out directly with `format!` and floating-point
/// arithmetic, to hold the renderer to.
fn expected_card(p: &CardParams, stats: &[LanguageStat], percentages: &[f64]) -> String {
    let (bg0, border, title_c, label_c, track, gs, ge0) = match p.theme {
        Theme::Dark => {
            ("#1c1f26", "#2d3140", "#e6edf3", "#8b949e", "#2d3140", "#4a80d4", "#2dc9a8")
        }
        Theme::Light => {
            ("#f6f8fa", "#d0d7de", "#24292f", "#57606a", "#e1e4e8", "#3b6fba", "#1fa88e")
        }
    };
    let bg = p.primary_color.as_deref().unwrap_or(bg0);
    let ge = p.accent_color.as_deref().unwrap_or(ge0);
    let scale = f32::from_bits(p.text_size);
    let title_font = 15.0 * scale;
    let label_font = 12.0 * scale;
    let pct_font = 11.0 * scale;
    let bar_h = p.bar_height;
    let inner_w = p.card_width - 48;
    let title_area = (title_font * 1.4) as u32 + 16;
    let row_h = (label_font * 1.4) as u32 + 6 + bar_h + 14;
    let card_h = 24 + title_area + row_h * stats.len() as u32 - 14 + 24;
    let speed_s = p.bar_animation_speed as f32 / 1000.0;
    let esc = |s: &str| {
        s.replace('&', "&amp;")
            .replace('<', "&lt;")
            .replace('>', "&gt;")
            .replace('"', "&quot;")
            .replace('\'', "&#39;")
    };
    let w = p.card_width;
    let r = p.border_radius;
    let mut out = format!(
        "<svg xmlns=\"http://www.w3.org/2000/svg\" width=\"{w}\" height=\"{card_h}\" viewBox=\"0 0 {w} {card_h}\">"
    );
    out.push_str(&format!("<defs>\n  <linearGradient id=\"barGrad\" x1=\"0%\" y1=\"0%\" x2=\"100%\" y2=\"0%\">\n    <stop offset=\"0%\" stop-color=\"{gs}\"/>\n    <stop offset=\"100%\" stop-color=\"{ge}\"/>\n  </linearGradient>\n  <clipPath id=\"cardClip\">\n    <rect width=\"{w}\" height=\"{card_h}\" rx=\"{r}\" ry=\"{r}\"/>\n  </clipPath>\n</defs>"));
    out.push_str(&format!("<rect width=\"{w}\" height=\"{card_h}\" rx=\"{r}\" ry=\"{r}\" fill=\"{bg}\" stroke=\"{border}\" stroke-width=\"1\"/>\n"));
    out.push_str(&format!("<text x=\"24\" y=\"{}\" font-family=\"'Segoe UI',system-ui,sans-serif\" font-size=\"{}\" font-weight=\"600\" fill=\"{}\">{}'s Top Languages</text>\n", 24 + (title_font * 1.0) as u32, title_font, title_c, esc(&p.username)));
    let mut y = 24 + title_area;
    for (i, stat) in stats.iter().enumerate() {
        let label_y = y + (label_font * 1.0) as u32;
        let bar_y = label_y + 6;
        let bar_w = ((inner_w as f64 * percentages[i] / 100.0) as u32).max(2);
        let delay = i as f32 * 0.08;
        out.push_str(&format!("<text x=\"24\" y=\"{label_y}\" font-family=\"'Segoe UI',system-ui,sans-serif\" font-size=\"{label_font}\" fill=\"{label_c}\">{}</text>\n", esc(&stat.name)));
        if p.show_percentages {
            out.push_str(&format!("<text x=\"{}\" y=\"{label_y}\" font-family=\"'Segoe UI',system-ui,sans-serif\" font-size=\"{pct_font}\" fill=\"{label_c}\" text-anchor=\"end\">{:.1}%</text>\n", 24 + inner_w, percentages[i]));
        }
        out.push_str(&format!("<rect x=\"24\" y=\"{bar_y}\" width=\"{inner_w}\" height=\"{bar_h}\" rx=\"{}\" ry=\"{}\" fill=\"{track}\"/>\n", bar_h / 2, bar_h / 2));
        out.push_str(&format!("<circle cx=\"28\" cy=\"{}\" r=\"5\" fill=\"{}\"/>\n", label_y - (label_font * 0.35) as u32, stat.color));
        out.push_str(&format!("<rect id=\"a{i}\" x=\"24\" y=\"{bar_y}\" width=\"0\" height=\"{bar_h}\" rx=\"{}\" ry=\"{}\" fill=\"url(#barGrad)\">\n  <animate attributeName=\"width\" from=\"0\" to=\"{bar_w}\" dur=\"{speed_s}s\" begin=\"{delay}s\" fill=\"freeze\" calcMode=\"spline\" keyTimes=\"0;1\" keySplines=\"0.4 0 0.2 1\"/>\n</rect>\n", bar_h / 2, bar_h / 2));
        y += row_h;
    }
    out.push_str("</svg>");
    out
}

#[test]
fn svg_contains_svg_root() {
    let out = render(&default_params(), &sample_stats(), &sample_percentages());
    assert!(out.starts_with("<svg"), "output must start with <svg");
    assert!(out.ends_with("</svg>"), "output must end with </svg>");
}

#[test]
fn svg_contains_language_names() {
    let out = render(&default_params(), &sample_stats(), &sample_percentages());
    assert!(out.contains("Rust"), "Rust must appear in output");
    assert!(out.contains("Python"), "Python must appear in output");
    assert!(out.contains("TypeScript"), "TypeScript must appear in output");
}

#[test]
fn svg_contains_username() {
    let out = render(&default_params(), &sample_stats(), &sample_percentages());
    assert!(out.contains("testuser"), "username must appear in title");
}

#[test]
fn svg_contains_percentages_when_enabled() {
    let params = default_params();
    assert!(params.show_percentages);
    let out = render(&params, &sample_stats(), &sample_percentages());
    assert!(out.contains("60.0%"), "top language percentage must appear");
}

#[test]
fn svg_hides_percentages_when_disabled() {
    let mut params = default_params();
    params.show_percentages = false;
    let out = render(&params, &sample_stats(), &sample_percentages());
    assert!(!out.contains("60.0%"), "percentages must be absent");
}

#[test]
fn svg_light_theme_uses_light_background() {
    let mut params = default_params();
    params.theme = Theme::Light;
    let out = render(&params, &sample_stats(), &sample_percentages());
    assert!(out.contains("#f6f8fa"), "light background colour must appear");
}

#[test]
fn svg_dark_theme_uses_dark_background() {
    let params = default_params();
    assert_eq!(params.theme, Theme::Dark);
    let out = render(&params, &sample_stats(), &sample_percentages());
    assert!(out.contains("#1c1f26"), "dark background colour must appear");
}

#[test]
fn svg_custom_accent_color_applied() {
    let mut params = default_params();
    params.accent_color = Some("#ff0055".into());
    let out = render(&params, &sample_stats(), &sample_percentages());
    assert!(out.contains("#ff0055"), "custom accent colour must appear in gradient");
}

#[test]
fn svg_escapes_xml_in_username() {
    let mut params = default_params();
    params.username = "user&<>".into();
    let out = render(&params, &sample_stats(), &sample_percentages());
    assert!(out.contains("user&amp;&lt;&gt;"), "XML special chars must be escaped");
    assert!(!out.contains("user&<>"), "raw XML special chars must not appear");
}

#[test]
fn svg_empty_stats_produces_valid_svg() {
    let out = render(&default_params(), &[], &[]);
    assert!(out.starts_with("<svg"));
    assert!(out.ends_with("</svg>"));
}

// ── Further cases ────────────────────────────────────────────────────────────

#[test]
fn card_matches_direct_formatting() {
    let mut cases: Vec<CardParams> = Vec::new();
    cases.push(default_params());
    let mut p = default_params();
    p.theme = Theme::Light;
    p.show_percentages = false;
    p.primary_color = Some("#000000".into());
    p.accent_color = Some("#ffffff".into());
    p.text_size = 1.37f32.to_bits();
    p.bar_height = 7;
    p.card_width = 777;
    p.border_radius = 0;
    p.bar_animation_speed = 333;
    p.username = "O'Brien \"quoted\"".into();
    cases.push(p);
    let mut p = default_params();
    p.text_size = 0.5f32.to_bits();
    p.bar_animation_speed = 5000;
    cases.push(p);
    let mut p = default_params();
    p.text_size = 2.0f32.to_bits();
    p.card_width = 200;
    cases.push(p);
    let mut stats = sample_stats();
    stats.push(LanguageStat {
        name: "C++ & <Objective-C>".into(),
        color: "#f34b7d".into(),
        bytes: 1,
        repo_count: 1,
    });
    let pcts = vec![59.999, 24.94, 15.05, 0.01];
    for p in &cases {
        assert_eq!(render(p, &stats, &pcts), expected_card(p, &stats, &pcts));
        assert_eq!(render(p, &[], &[]), expected_card(p, &[], &[]));
    }
}

#[test]
fn many_rows_keep_their_order_and_delays() {
    let p = default_params();
    let stats: Vec<LanguageStat> = (0..12)
        .map(|i| LanguageStat {
            name: format!("L{}", i),
            color: "#123456".into(),
            bytes: 12 - i as u64,
            repo_count: 1,
        })
        .collect();
    let pcts: Vec<f64> = (0..12).map(|i| 12.0 - i as f64).collect();
    let out = render(&p, &stats, &pcts);
    assert_eq!(out, expected_card(&p, &stats, &pcts));
    assert!(out.contains("id=\"a11\""));
}

#[test]
fn narrow_bars_show_a_sliver() {
    let p = default_params();
    let out = render(&p, &sample_stats()[..1], &[0.0]);
    assert!(out.contains("to=\"2\""));
}

#[test]
fn escape_xml_replaces_all_five() {
    assert_eq!(svg::escape_xml("a&b<c>d\"e'f"), "a&amp;b&lt;c&gt;d&quot;e&#39;f");
    assert_eq!(svg::escape_xml("&amp;"), "&amp;amp;");
    assert_eq!(svg::escape_xml("plain text"), "plain text");
}

#[test]
fn layout_check_refuses_narrow_cards() {
    let mut p = default_params();
    let t = typography(&p);
    assert!(svg::layout_fits_for(&p, &t, 10));
    p.card_width = 47;
    assert!(!svg::layout_fits_for(&p, &t, 0));
    p.card_width = 48;
    assert!(svg::layout_fits_for(&p, &t, 0));
    let p = default_params();
    assert!(!svg::layout_fits_for(&p, &t, 1 << 30));
}

#[test]
fn palette_of_each_theme() {
    assert_eq!(svg::palette(Theme::Dark).background, "#1c1f26");
    assert_eq!(svg::palette(Theme::Light).background, "#f6f8fa");
    assert_eq!(svg::palette(Theme::Light).gradient_end, "#1fa88e");
}

#[test]
fn escaping_concatenates_and_reads_back() {
    let samples = ["", "a&b", "<x y='1'>", "\"q\" & 'a'", "&amp;&lt;", "plain"];
    for a in samples {
        for b in samples {
            let joined = format!("{a}{b}");
            assert_eq!(svg::escape_xml(&joined), svg::escape_xml(a) + &svg::escape_xml(b));
        }
        let decoded = svg::escape_xml(a)
            .replace("&lt;", "<")
            .replace("&gt;", ">")
            .replace("&quot;", "\"")
            .replace("&#39;", "'")
            .replace("&amp;", "&");
        assert_eq!(decoded, a);
    }
}
