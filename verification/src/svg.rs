//! The SVG card: a title, then for each language its name, its share, a
//! track and an animated bar filled to the share.
use vstd::prelude::*;

use crate::github::{LanguageStat, LanguageTally};
use crate::params::{CardParams, CardParamsView, Theme};
use crate::text::{chars_of, decimal, push_decimal, push_str};

verus! {

// ── XML escaping ─────────────────────────────────────────────────────────────

/// One character as it is written inside XML text or an attribute.
pub open spec fn xml_escape_char(c: char) -> Seq<char> {
    if c == '&' {
        seq!['&', 'a', 'm', 'p', ';']
    } else if c == '<' {
        seq!['&', 'l', 't', ';']
    } else if c == '>' {
        seq!['&', 'g', 't', ';']
    } else if c == '"' {
        seq!['&', 'q', 'u', 'o', 't', ';']
    } else if c == '\'' {
        seq!['&', '#', '3', '9', ';']
    } else {
        seq![c]
    }
}

/// `s` with the five XML special characters written as entities.
pub open spec fn xml_escape(s: Seq<char>) -> Seq<char>
    decreases s.len(),
{
    if s.len() == 0 {
        Seq::empty()
    } else {
        xml_escape(s.drop_last()) + xml_escape_char(s.last())
    }
}

/// Escapes `&`, `<`, `>`, `"` and `'` for use in XML.
pub fn escape_xml(s: &str) -> (out: String)
    ensures
        out@ == xml_escape(s@),
{
    let cs = chars_of(s);
    let mut out = String::new();
    let mut i: usize = 0;
    while i < cs.len()
        invariant
            i <= cs@.len(),
            cs@ == s@,
            out@ == xml_escape(cs@.take(i as int)),
        decreases cs.len() - i,
    {
        let c = cs[i];
        assert(cs@.take(i + 1).drop_last() == cs@.take(i as int));
        let ghost before = out@;
        if c == '&' {
            push_str(&mut out, "&amp;");
            proof { reveal_strlit("&amp;"); }
        } else if c == '<' {
            push_str(&mut out, "&lt;");
            proof { reveal_strlit("&lt;"); }
        } else if c == '>' {
            push_str(&mut out, "&gt;");
            proof { reveal_strlit("&gt;"); }
        } else if c == '"' {
            push_str(&mut out, "&quot;");
            proof { reveal_strlit("&quot;"); }
        } else if c == '\'' {
            push_str(&mut out, "&#39;");
            proof { reveal_strlit("&#39;"); }
        } else {
            crate::text::push_char(&mut out, c);
        }
        assert(out@ == before + xml_escape_char(c));
        i = i + 1;
    }
    assert(cs@.take(i as int) == s@);
    out
}

// ── Palette ──────────────────────────────────────────────────────────────────

/// The colours of a theme.
pub struct Palette {
    pub background: &'static str,
    pub border: &'static str,
    pub title_text: &'static str,
    pub label_text: &'static str,
    pub track: &'static str,
    pub gradient_start: &'static str,
    pub gradient_end: &'static str,
}

/// `Palette` with its colours taken as character sequences.
pub struct PaletteView {
    pub background: Seq<char>,
    pub border: Seq<char>,
    pub title_text: Seq<char>,
    pub label_text: Seq<char>,
    pub track: Seq<char>,
    pub gradient_start: Seq<char>,
    pub gradient_end: Seq<char>,
}

impl View for Palette {
    type V = PaletteView;

    open spec fn view(&self) -> PaletteView {
        PaletteView {
            background: self.background@,
            border: self.border@,
            title_text: self.title_text@,
            label_text: self.label_text@,
            track: self.track@,
            gradient_start: self.gradient_start@,
            gradient_end: self.gradient_end@,
        }
    }
}

/// The colours of each theme.
pub open spec fn palette_of(theme: Theme) -> PaletteView {
    match theme {
        Theme::Dark => PaletteView {
            background: "#1c1f26"@,
            border: "#2d3140"@,
            title_text: "#e6edf3"@,
            label_text: "#8b949e"@,
            track: "#2d3140"@,
            gradient_start: "#4a80d4"@,
            gradient_end: "#2dc9a8"@,
        },
        Theme::Light => PaletteView {
            background: "#f6f8fa"@,
            border: "#d0d7de"@,
            title_text: "#24292f"@,
            label_text: "#57606a"@,
            track: "#e1e4e8"@,
            gradient_start: "#3b6fba"@,
            gradient_end: "#1fa88e"@,
        },
    }
}

/// The palette of a theme.
pub fn palette(theme: Theme) -> (p: Palette)
    ensures
        p@ == palette_of(theme),
{
    match theme {
        Theme::Dark => Palette {
            background: "#1c1f26",
            border: "#2d3140",
            title_text: "#e6edf3",
            label_text: "#8b949e",
            track: "#2d3140",
            gradient_start: "#4a80d4",
            gradient_end: "#2dc9a8",
        },
        Theme::Light => Palette {
            background: "#f6f8fa",
            border: "#d0d7de",
            title_text: "#24292f",
            label_text: "#57606a",
            track: "#e1e4e8",
            gradient_start: "#3b6fba",
            gradient_end: "#1fa88e",
        },
    }
}

// ── Layout ───────────────────────────────────────────────────────────────────

/// Space around the card content, in pixels.
pub const PADDING: u32 = 24;

/// Gap between the bottom of a bar and the next label.
pub const ROW_SPACING: u32 = 14;

/// Gap from a label's baseline to the top of its bar.
pub const LABEL_TO_BAR: u32 = 6;

/// Horizontal position of a language's dot: the padding plus four pixels
/// (the dot's offset scales with the label font by a factor of zero).
pub const DOT_X: u32 = 28;

/// What the card takes from floating-point arithmetic on the font scale and
/// on the animation speed: font sizes written as the card shows them (`f32`
/// `Display`), and the whole pixels that scaled sizes are cut down to.
#[derive(Debug)]
pub struct Typography {
    /// The title font size: 15 times the scale.
    pub title_font: String,
    /// The label font size: 12 times the scale.
    pub label_font: String,
    /// The percentage font size: 11 times the scale.
    pub pct_font: String,
    /// The title font size times 1.4, in whole pixels.
    pub title_line: u32,
    /// The title font size in whole pixels.
    pub title_ascent: u32,
    /// The label font size times 1.4, in whole pixels.
    pub label_line: u32,
    /// The label font size in whole pixels.
    pub label_ascent: u32,
    /// The label font size times 0.35, in whole pixels: how far a dot sits
    /// above the label baseline.
    pub dot_lift: u32,
    /// The animation length in seconds (milliseconds over 1000).
    pub duration: String,
}

/// What a bar takes from floating-point arithmetic on its language's share.
#[derive(Debug)]
pub struct BarMetrics {
    /// The share in percent, with one decimal.
    pub percent: String,
    /// The bar's full width in whole pixels: the track width times the share.
    pub width: u32,
    /// When the bar's animation starts, in seconds: 0.08 per preceding bar.
    pub delay: String,
}

pub struct TypographyView {
    pub title_font: Seq<char>,
    pub label_font: Seq<char>,
    pub pct_font: Seq<char>,
    pub title_line: u32,
    pub title_ascent: u32,
    pub label_line: u32,
    pub label_ascent: u32,
    pub dot_lift: u32,
    pub duration: Seq<char>,
}

pub struct BarView {
    pub percent: Seq<char>,
    pub width: u32,
    pub delay: Seq<char>,
}

impl View for Typography {
    type V = TypographyView;

    open spec fn view(&self) -> TypographyView {
        TypographyView {
            title_font: self.title_font@,
            label_font: self.label_font@,
            pct_font: self.pct_font@,
            title_line: self.title_line,
            title_ascent: self.title_ascent,
            label_line: self.label_line,
            label_ascent: self.label_ascent,
            dot_lift: self.dot_lift,
            duration: self.duration@,
        }
    }
}

impl View for BarMetrics {
    type V = BarView;

    open spec fn view(&self) -> BarView {
        BarView { percent: self.percent@, width: self.width, delay: self.delay@ }
    }
}

/// Width of the bars: the card less the padding on both sides.
pub open spec fn inner_width(p: CardParamsView) -> int {
    p.card_width - 2 * PADDING
}

/// Height of the title block.
pub open spec fn title_area(t: TypographyView) -> nat {
    (t.title_line + 16) as nat
}

/// Height of one language row: label, gap, bar, spacing.
pub open spec fn row_height(p: CardParamsView, t: TypographyView) -> nat {
    (t.label_line + LABEL_TO_BAR + p.bar_height + ROW_SPACING) as nat
}

/// Height of the card with `n` rows: the last row's spacing is left out.
pub open spec fn card_height(p: CardParamsView, t: TypographyView, n: nat) -> int {
    PADDING + title_area(t) + row_height(p, t) * n - ROW_SPACING + PADDING
}

/// Top of row `i`.
pub open spec fn row_top(p: CardParamsView, t: TypographyView, i: nat) -> nat {
    (PADDING + title_area(t) + i * row_height(p, t)) as nat
}

/// The card is wide enough for its padding and every position on it fits a
/// `u32` (otherwise the layout arithmetic overflows).
pub open spec fn layout_fits(p: CardParamsView, t: TypographyView, n: nat) -> bool {
    &&& p.card_width >= 2 * PADDING
    &&& row_height(p, t) <= u32::MAX
    &&& PADDING + title_area(t) + row_height(p, t) * n + PADDING - ROW_SPACING <= u32::MAX
    &&& PADDING + t.title_ascent <= u32::MAX
    &&& n > 0 ==> {
        &&& row_top(p, t, (n - 1) as nat) + t.label_ascent + LABEL_TO_BAR <= u32::MAX
        &&& t.dot_lift <= PADDING + title_area(t) + t.label_ascent
    }
}

/// Row `i`: the language name, its share when shown, the track, the dot and
/// the bar, which is never narrower than 2 pixels.
pub open spec fn row_text(
    p: CardParamsView,
    pal: PaletteView,
    t: TypographyView,
    stat: LanguageTally,
    bar: BarView,
    i: nat,
) -> Seq<char> {
    let ly = (row_top(p, t, i) + t.label_ascent) as nat;
    let by = (ly + LABEL_TO_BAR) as nat;
    let radius = p.bar_height / 2;
    let target = if bar.width < 2 {
        2
    } else {
        bar.width
    };
    label_text(PADDING as nat, ly, t.label_font, pal.label_text, xml_escape(stat.name)) + (
    if p.show_percentages {
        percentage_text(
            (PADDING + inner_width(p)) as nat,
            ly,
            t.pct_font,
            pal.label_text,
            bar.percent,
        )
    } else {
        Seq::empty()
    }) + track_text(PADDING as nat, by, inner_width(p) as nat, p.bar_height as nat, radius as nat, pal.track)
        + dot_text(DOT_X as nat, (ly - t.dot_lift) as nat, stat.color) + bar_text(
        i,
        PADDING as nat,
        by,
        p.bar_height as nat,
        radius as nat,
        target as nat,
        t.duration,
        bar.delay,
    )
}

/// The first `k` rows.
pub open spec fn rows_text(
    p: CardParamsView,
    pal: PaletteView,
    t: TypographyView,
    stats: Seq<LanguageTally>,
    bars: Seq<BarView>,
    k: nat,
) -> Seq<char>
    decreases k,
{
    if k == 0 {
        Seq::empty()
    } else {
        rows_text(p, pal, t, stats, bars, (k - 1) as nat) + row_text(
            p,
            pal,
            t,
            stats[k - 1],
            bars[k - 1],
            (k - 1) as nat,
        )
    }
}

/// The background: the custom colour if one was given, else the theme's.
pub open spec fn background_of(p: CardParamsView) -> Seq<char> {
    match p.primary_color {
        Some(c) => c,
        None => palette_of(p.theme).background,
    }
}

/// The end colour of the bar gradient: the custom accent if one was given,
/// else the theme's.
pub open spec fn gradient_end_of(p: CardParamsView) -> Seq<char> {
    match p.accent_color {
        Some(c) => c,
        None => palette_of(p.theme).gradient_end,
    }
}

/// The whole card.
pub open spec fn card_text(
    p: CardParamsView,
    stats: Seq<LanguageTally>,
    t: TypographyView,
    bars: Seq<BarView>,
) -> Seq<char> {
    let pal = palette_of(p.theme);
    let w = p.card_width as nat;
    let h = card_height(p, t, stats.len()) as nat;
    let r = p.border_radius as nat;
    head_text(w, h) + defs_text(pal.gradient_start, gradient_end_of(p), w, h, r) + background_text(
        w,
        h,
        r,
        background_of(p),
        pal.border,
    ) + title_text(
        PADDING as nat,
        (PADDING + t.title_ascent) as nat,
        t.title_font,
        pal.title_text,
        xml_escape(p.username),
    ) + rows_text(p, pal, t, stats, bars, stats.len()) + "</svg>"@
}

// ── Pieces of the card ───────────────────────────────────────────────────────

/// The opening tag, with the card size.
pub open spec fn head_text(width: nat, height: nat) -> Seq<char> {
    "<svg xmlns=\"http://www.w3.org/2000/svg\" width=\""@
        + decimal(width)
        + "\" height=\""@
        + decimal(height)
        + "\" viewBox=\"0 0 "@
        + decimal(width)
        + " "@
        + decimal(height)
        + "\">"@
}

/// The bar gradient and the card clip path.
pub open spec fn defs_text(gradient_start: Seq<char>, gradient_end: Seq<char>, width: nat, height: nat, radius: nat) -> Seq<char> {
    "<defs>\n  <linearGradient id=\"barGrad\" x1=\"0%\" y1=\"0%\" x2=\"100%\" y2=\"0%\">\n    <stop offset=\"0%\" stop-color=\""@
        + gradient_start
        + "\"/>\n    <stop offset=\"100%\" stop-color=\""@
        + gradient_end
        + "\"/>\n  </linearGradient>\n  <clipPath id=\"cardClip\">\n    <rect width=\""@
        + decimal(width)
        + "\" height=\""@
        + decimal(height)
        + "\" rx=\""@
        + decimal(radius)
        + "\" ry=\""@
        + decimal(radius)
        + "\"/>\n  </clipPath>\n</defs>"@
}

/// The card background and border.
pub open spec fn background_text(width: nat, height: nat, radius: nat, fill: Seq<char>, border: Seq<char>) -> Seq<char> {
    "<rect width=\""@
        + decimal(width)
        + "\" height=\""@
        + decimal(height)
        + "\" rx=\""@
        + decimal(radius)
        + "\" ry=\""@
        + decimal(radius)
        + "\" fill=\""@
        + fill
        + "\" stroke=\""@
        + border
        + "\" stroke-width=\"1\"/>\n"@
}

/// The title line; `username` is already escaped.
pub open spec fn title_text(x: nat, y: nat, font_size: Seq<char>, color: Seq<char>, username: Seq<char>) -> Seq<char> {
    "<text x=\""@
        + decimal(x)
        + "\" y=\""@
        + decimal(y)
        + "\" font-family=\"'Segoe UI',system-ui,sans-serif\" font-size=\""@
        + font_size
        + "\" font-weight=\"600\" fill=\""@
        + color
        + "\">"@
        + username
        + "'s Top Languages</text>\n"@
}

/// A language name; `name` is already escaped.
pub open spec fn label_text(x: nat, y: nat, font_size: Seq<char>, color: Seq<char>, name: Seq<char>) -> Seq<char> {
    "<text x=\""@
        + decimal(x)
        + "\" y=\""@
        + decimal(y)
        + "\" font-family=\"'Segoe UI',system-ui,sans-serif\" font-size=\""@
        + font_size
        + "\" fill=\""@
        + color
        + "\">"@
        + name
        + "</text>\n"@
}

/// A language share, right-aligned.
pub open spec fn percentage_text(x: nat, y: nat, font_size: Seq<char>, color: Seq<char>, percent: Seq<char>) -> Seq<char> {
    "<text x=\""@
        + decimal(x)
        + "\" y=\""@
        + decimal(y)
        + "\" font-family=\"'Segoe UI',system-ui,sans-serif\" font-size=\""@
        + font_size
        + "\" fill=\""@
        + color
        + "\" text-anchor=\"end\">"@
        + percent
        + "%</text>\n"@
}

/// The background of a bar.
pub open spec fn track_text(x: nat, y: nat, width: nat, height: nat, radius: nat, fill: Seq<char>) -> Seq<char> {
    "<rect x=\""@
        + decimal(x)
        + "\" y=\""@
        + decimal(y)
        + "\" width=\""@
        + decimal(width)
        + "\" height=\""@
        + decimal(height)
        + "\" rx=\""@
        + decimal(radius)
        + "\" ry=\""@
        + decimal(radius)
        + "\" fill=\""@
        + fill
        + "\"/>\n"@
}

/// The coloured dot of a language.
pub open spec fn dot_text(cx: nat, cy: nat, fill: Seq<char>) -> Seq<char> {
    "<circle cx=\""@
        + decimal(cx)
        + "\" cy=\""@
        + decimal(cy)
        + "\" r=\"5\" fill=\""@
        + fill
        + "\"/>\n"@
}

/// The animated bar of a language.
pub open spec fn bar_text(index: nat, x: nat, y: nat, height: nat, radius: nat, target: nat, duration: Seq<char>, delay: Seq<char>) -> Seq<char> {
    "<rect id=\""@
        + "a"@
        + decimal(index)
        + "\" x=\""@
        + decimal(x)
        + "\" y=\""@
        + decimal(y)
        + "\" width=\"0\" height=\""@
        + decimal(height)
        + "\" rx=\""@
        + decimal(radius)
        + "\" ry=\""@
        + decimal(radius)
        + "\" fill=\"url(#barGrad)\">\n  <animate attributeName=\"width\" from=\"0\" to=\""@
        + decimal(target)
        + "\" dur=\""@
        + duration
        + "s\" begin=\""@
        + delay
        + "s\" fill=\"freeze\" calcMode=\"spline\" keyTimes=\"0;1\" keySplines=\"0.4 0 0.2 1\"/>\n</rect>\n"@
}

fn push_head(out: &mut String, width: u32, height: u32)
    ensures
        final(out)@ == old(out)@ + head_text(width as nat, height as nat),
{
    push_str(out, "<svg xmlns=\"http://www.w3.org/2000/svg\" width=\"");
    push_decimal(out, width as u64);
    push_str(out, "\" height=\"");
    push_decimal(out, height as u64);
    push_str(out, "\" viewBox=\"0 0 ");
    push_decimal(out, width as u64);
    push_str(out, " ");
    push_decimal(out, height as u64);
    push_str(out, "\">");
}

fn push_defs(out: &mut String, gradient_start: &str, gradient_end: &str, width: u32, height: u32, radius: u32)
    ensures
        final(out)@ == old(out)@ + defs_text(gradient_start@, gradient_end@, width as nat, height as nat, radius as nat),
{
    push_str(out, "<defs>\n  <linearGradient id=\"barGrad\" x1=\"0%\" y1=\"0%\" x2=\"100%\" y2=\"0%\">\n    <stop offset=\"0%\" stop-color=\"");
    push_str(out, gradient_start);
    push_str(out, "\"/>\n    <stop offset=\"100%\" stop-color=\"");
    push_str(out, gradient_end);
    push_str(out, "\"/>\n  </linearGradient>\n  <clipPath id=\"cardClip\">\n    <rect width=\"");
    push_decimal(out, width as u64);
    push_str(out, "\" height=\"");
    push_decimal(out, height as u64);
    push_str(out, "\" rx=\"");
    push_decimal(out, radius as u64);
    push_str(out, "\" ry=\"");
    push_decimal(out, radius as u64);
    push_str(out, "\"/>\n  </clipPath>\n</defs>");
}

fn push_background(out: &mut String, width: u32, height: u32, radius: u32, fill: &str, border: &str)
    ensures
        final(out)@ == old(out)@ + background_text(width as nat, height as nat, radius as nat, fill@, border@),
{
    push_str(out, "<rect width=\"");
    push_decimal(out, width as u64);
    push_str(out, "\" height=\"");
    push_decimal(out, height as u64);
    push_str(out, "\" rx=\"");
    push_decimal(out, radius as u64);
    push_str(out, "\" ry=\"");
    push_decimal(out, radius as u64);
    push_str(out, "\" fill=\"");
    push_str(out, fill);
    push_str(out, "\" stroke=\"");
    push_str(out, border);
    push_str(out, "\" stroke-width=\"1\"/>\n");
}

fn push_title(out: &mut String, x: u32, y: u32, font_size: &str, color: &str, username: &str)
    ensures
        final(out)@ == old(out)@ + title_text(x as nat, y as nat, font_size@, color@, username@),
{
    push_str(out, "<text x=\"");
    push_decimal(out, x as u64);
    push_str(out, "\" y=\"");
    push_decimal(out, y as u64);
    push_str(out, "\" font-family=\"'Segoe UI',system-ui,sans-serif\" font-size=\"");
    push_str(out, font_size);
    push_str(out, "\" font-weight=\"600\" fill=\"");
    push_str(out, color);
    push_str(out, "\">");
    push_str(out, username);
    push_str(out, "'s Top Languages</text>\n");
}

fn push_label(out: &mut String, x: u32, y: u32, font_size: &str, color: &str, name: &str)
    ensures
        final(out)@ == old(out)@ + label_text(x as nat, y as nat, font_size@, color@, name@),
{
    push_str(out, "<text x=\"");
    push_decimal(out, x as u64);
    push_str(out, "\" y=\"");
    push_decimal(out, y as u64);
    push_str(out, "\" font-family=\"'Segoe UI',system-ui,sans-serif\" font-size=\"");
    push_str(out, font_size);
    push_str(out, "\" fill=\"");
    push_str(out, color);
    push_str(out, "\">");
    push_str(out, name);
    push_str(out, "</text>\n");
}

fn push_percentage(out: &mut String, x: u32, y: u32, font_size: &str, color: &str, percent: &str)
    ensures
        final(out)@ == old(out)@ + percentage_text(x as nat, y as nat, font_size@, color@, percent@),
{
    push_str(out, "<text x=\"");
    push_decimal(out, x as u64);
    push_str(out, "\" y=\"");
    push_decimal(out, y as u64);
    push_str(out, "\" font-family=\"'Segoe UI',system-ui,sans-serif\" font-size=\"");
    push_str(out, font_size);
    push_str(out, "\" fill=\"");
    push_str(out, color);
    push_str(out, "\" text-anchor=\"end\">");
    push_str(out, percent);
    push_str(out, "%</text>\n");
}

fn push_track(out: &mut String, x: u32, y: u32, width: u32, height: u32, radius: u32, fill: &str)
    ensures
        final(out)@ == old(out)@ + track_text(x as nat, y as nat, width as nat, height as nat, radius as nat, fill@),
{
    push_str(out, "<rect x=\"");
    push_decimal(out, x as u64);
    push_str(out, "\" y=\"");
    push_decimal(out, y as u64);
    push_str(out, "\" width=\"");
    push_decimal(out, width as u64);
    push_str(out, "\" height=\"");
    push_decimal(out, height as u64);
    push_str(out, "\" rx=\"");
    push_decimal(out, radius as u64);
    push_str(out, "\" ry=\"");
    push_decimal(out, radius as u64);
    push_str(out, "\" fill=\"");
    push_str(out, fill);
    push_str(out, "\"/>\n");
}

fn push_dot(out: &mut String, cx: u32, cy: u32, fill: &str)
    ensures
        final(out)@ == old(out)@ + dot_text(cx as nat, cy as nat, fill@),
{
    push_str(out, "<circle cx=\"");
    push_decimal(out, cx as u64);
    push_str(out, "\" cy=\"");
    push_decimal(out, cy as u64);
    push_str(out, "\" r=\"5\" fill=\"");
    push_str(out, fill);
    push_str(out, "\"/>\n");
}

fn push_bar(out: &mut String, index: usize, x: u32, y: u32, height: u32, radius: u32, target: u32, duration: &str, delay: &str)
    ensures
        final(out)@ == old(out)@ + bar_text(index as nat, x as nat, y as nat, height as nat, radius as nat, target as nat, duration@, delay@),
{
    push_str(out, "<rect id=\"");
    push_str(out, "a");
    push_decimal(out, index as u64);
    push_str(out, "\" x=\"");
    push_decimal(out, x as u64);
    push_str(out, "\" y=\"");
    push_decimal(out, y as u64);
    push_str(out, "\" width=\"0\" height=\"");
    push_decimal(out, height as u64);
    push_str(out, "\" rx=\"");
    push_decimal(out, radius as u64);
    push_str(out, "\" ry=\"");
    push_decimal(out, radius as u64);
    push_str(out, "\" fill=\"url(#barGrad)\">\n  <animate attributeName=\"width\" from=\"0\" to=\"");
    push_decimal(out, target as u64);
    push_str(out, "\" dur=\"");
    push_str(out, duration);
    push_str(out, "s\" begin=\"");
    push_str(out, delay);
    push_str(out, "s\" fill=\"freeze\" calcMode=\"spline\" keyTimes=\"0;1\" keySplines=\"0.4 0 0.2 1\"/>\n</rect>\n");
}


// ── Rendering ────────────────────────────────────────────────────────────────

proof fn lemma_rows_step(rh: nat, i: nat, n: nat)
    requires
        i < n,
    ensures
        i * rh + rh == (i + 1) * rh,
        (i + 1) * rh <= n * rh,
        i * rh <= ((n - 1) as nat) * rh,
        i * rh >= 0,
{
    assert(i * rh + rh == (i + 1) * rh) by (nonlinear_arith);
    assert((i + 1) * rh <= n * rh) by (nonlinear_arith)
        requires
            i + 1 <= n,
    ;
    assert(i * rh <= ((n - 1) as nat) * rh) by (nonlinear_arith)
        requires
            i <= n - 1,
    ;
}

/// Appends row `i`, whose top is `y`, of a card with `n` rows.
fn push_row(
    out: &mut String,
    params: &CardParams,
    pal: &Palette,
    typography: &Typography,
    stat: &LanguageStat,
    bar: &BarMetrics,
    i: usize,
    y: u32,
    inner_w: u32,
    n: usize,
)
    requires
        i < n,
        layout_fits(params@, typography@, n as nat),
        pal@ == palette_of(params@.theme),
        y == row_top(params@, typography@, i as nat),
        inner_w == inner_width(params@),
        i * row_height(params@, typography@) <= ((n - 1) as nat) * row_height(params@, typography@),
    ensures
        final(out)@ == old(out)@ + row_text(params@, pal@, typography@, stat@, bar@, i as nat),
{
    let bar_h = params.bar_height;
    let label_y = y + typography.label_ascent;
    let bar_y = label_y + LABEL_TO_BAR;
    let target = if bar.width < 2 {
        2
    } else {
        bar.width
    };
    let name = escape_xml(stat.name.as_str());
    push_label(out, PADDING, label_y, typography.label_font.as_str(), pal.label_text, name.as_str());
    if params.show_percentages {
        push_percentage(
            out,
            PADDING + inner_w,
            label_y,
            typography.pct_font.as_str(),
            pal.label_text,
            bar.percent.as_str(),
        );
    }
    push_track(out, PADDING, bar_y, inner_w, bar_h, bar_h / 2, pal.track);
    push_dot(out, DOT_X, label_y - typography.dot_lift, stat.color.as_str());
    push_bar(
        out,
        i,
        PADDING,
        bar_y,
        bar_h,
        bar_h / 2,
        target,
        typography.duration.as_str(),
        bar.delay.as_str(),
    );
}

/// Renders the card for `stats` (the languages in display order), with the
/// font metrics in `typography` and one entry of `bars` per language.
pub fn render(
    params: &CardParams,
    stats: &[LanguageStat],
    typography: &Typography,
    bars: &[BarMetrics],
) -> (svg: String)
    requires
        bars@.len() == stats@.len(),
        layout_fits(params@, typography@, stats@.len()),
    ensures
        svg@ == card_text(
            params@,
            stats@.map_values(|s: LanguageStat| s@),
            typography@,
            bars@.map_values(|b: BarMetrics| b@),
        ),
{
    let ghost p = params@;
    let ghost t = typography@;
    let ghost sv = stats@.map_values(|s: LanguageStat| s@);
    let ghost bv = bars@.map_values(|b: BarMetrics| b@);
    let pal = palette(params.theme);
    let bg: &str = match &params.primary_color {
        Some(c) => c.as_str(),
        None => pal.background,
    };
    let grad_end: &str = match &params.accent_color {
        Some(c) => c.as_str(),
        None => pal.gradient_end,
    };
    let bar_h = params.bar_height;
    let inner_w = params.card_width - PADDING * 2;
    let title_h: u32 = typography.title_line + 16;
    let row_h = typography.label_line + LABEL_TO_BAR + bar_h + ROW_SPACING;
    assert(stats@.len() <= u32::MAX) by (nonlinear_arith)
        requires
            row_h >= 20,
            row_h * stats@.len() <= u32::MAX,
    ;
    let n = stats.len() as u32;
    let card_h = PADDING + title_h + row_h * n - ROW_SPACING + PADDING;
    let mut svg = String::new();
    push_head(&mut svg, params.card_width, card_h);
    push_defs(
        &mut svg,
        pal.gradient_start,
        grad_end,
        params.card_width,
        card_h,
        params.border_radius,
    );
    push_background(&mut svg, params.card_width, card_h, params.border_radius, bg, pal.border);
    let user = escape_xml(params.username.as_str());
    push_title(
        &mut svg,
        PADDING,
        PADDING + typography.title_ascent,
        typography.title_font.as_str(),
        pal.title_text,
        user.as_str(),
    );
    let ghost start = svg@;
    let mut y = PADDING + title_h;
    let mut i: usize = 0;
    assert(y == row_top(p, t, 0)) by {
        assert(0 * row_height(p, t) == 0);
    }
    while i < stats.len()
        invariant
            i <= stats@.len() == bars@.len(),
            p == params@,
            t == typography@,
            sv == stats@.map_values(|s: LanguageStat| s@),
            bv == bars@.map_values(|b: BarMetrics| b@),
            pal@ == palette_of(p.theme),
            layout_fits(p, t, stats@.len()),
            inner_w == inner_width(p),
            bar_h == p.bar_height,
            row_h == row_height(p, t),
            title_h == title_area(t),
            y == row_top(p, t, i as nat),
            svg@ == start + rows_text(p, pal@, t, sv, bv, i as nat),
        decreases stats.len() - i,
    {
        proof {
            lemma_rows_step(row_h as nat, i as nat, stats@.len());
        }
        push_row(&mut svg, params, &pal, typography, &stats[i], &bars[i], i, y, inner_w, stats.len());
        y = y + row_h;
        i = i + 1;
    }
    push_str(&mut svg, "</svg>");
    svg
}


/// Whether `render` may be called for `n` languages: the card is wider than
/// its padding and no position overflows a `u32`.
pub fn layout_fits_for(params: &CardParams, typography: &Typography, n: usize) -> (b: bool)
    ensures
        b == layout_fits(params@, typography@, n as nat),
{
    let ghost p = params@;
    let ghost t = typography@;
    if params.card_width < 2 * PADDING {
        return false;
    }
    let max: u64 = 0xffff_ffff;
    let title_h: u64 = typography.title_line as u64 + 16;
    let row_h: u64 = typography.label_line as u64 + LABEL_TO_BAR as u64 + params.bar_height as u64
        + ROW_SPACING as u64;
    if row_h > max {
        return false;
    }
    let rows: u64 = match row_h.checked_mul(n as u64) {
        Some(v) => v,
        None => {
            assert(row_h * n > u64::MAX);
            return false;
        },
    };
    if rows > max {
        return false;
    }
    if PADDING as u64 + title_h + rows + PADDING as u64 - ROW_SPACING as u64 > max {
        return false;
    }
    if PADDING as u64 + typography.title_ascent as u64 > max {
        return false;
    }
    if n > 0 {
        assert(row_h * (n - 1) == row_h * n - row_h && row_h * n >= row_h) by (nonlinear_arith)
            requires
                n >= 1,
                row_h >= 0,
        ;
        assert(row_h * (n - 1) == ((n - 1) as nat) * row_h) by (nonlinear_arith)
            requires
                n >= 1,
        ;
        let last_top: u64 = PADDING as u64 + title_h + (rows - row_h);
        assert(last_top == row_top(p, t, (n - 1) as nat));
        if last_top + typography.label_ascent as u64 + LABEL_TO_BAR as u64 > max {
            return false;
        }
        if typography.dot_lift as u64 > PADDING as u64 + title_h + typography.label_ascent as u64 {
            return false;
        }
    }
    true
}

// ── Laws ─────────────────────────────────────────────────────────────────────

/// `needle` occurs in `hay`.
pub open spec fn contains_text(hay: Seq<char>, needle: Seq<char>) -> bool {
    exists|i: int|
        0 <= i <= hay.len() - needle.len() && #[trigger] hay.subrange(i, i + needle.len())
            == needle
}

pub proof fn lemma_contains_left(a: Seq<char>, b: Seq<char>, needle: Seq<char>)
    requires
        contains_text(a, needle),
    ensures
        contains_text(a + b, needle),
{
    let i = choose|i: int|
        0 <= i <= a.len() - needle.len() && #[trigger] a.subrange(i, i + needle.len()) == needle;
    assert((a + b).subrange(i, i + needle.len()) == a.subrange(i, i + needle.len()));
}

pub proof fn lemma_contains_right(a: Seq<char>, b: Seq<char>, needle: Seq<char>)
    requires
        contains_text(b, needle),
    ensures
        contains_text(a + b, needle),
{
    let i = choose|i: int|
        0 <= i <= b.len() - needle.len() && #[trigger] b.subrange(i, i + needle.len()) == needle;
    assert((a + b).subrange(a.len() + i, a.len() + i + needle.len()) == b.subrange(
        i,
        i + needle.len(),
    ));
}

pub proof fn lemma_contains_whole(s: Seq<char>)
    ensures
        contains_text(s, s),
{
    let i: int = 0;
    assert(s.subrange(i, i + s.len()) == s);
}

/// The text that follows the row labels when shares are shown.
proof fn lemma_row_contents(
    p: CardParamsView,
    pal: PaletteView,
    t: TypographyView,
    stat: LanguageTally,
    bar: BarView,
    i: nat,
)
    ensures
        contains_text(row_text(p, pal, t, stat, bar, i), xml_escape(stat.name)),
        p.show_percentages ==> contains_text(
            row_text(p, pal, t, stat, bar, i),
            bar.percent + "%"@,
        ),
{
    let ly = (row_top(p, t, i) + t.label_ascent) as nat;
    let by = (ly + LABEL_TO_BAR) as nat;
    let radius = p.bar_height / 2;
    let target = if bar.width < 2 {
        2
    } else {
        bar.width
    };
    let name = xml_escape(stat.name);
    let label = label_text(PADDING as nat, ly, t.label_font, pal.label_text, name);
    let pct = if p.show_percentages {
        percentage_text(
            (PADDING + inner_width(p)) as nat,
            ly,
            t.pct_font,
            pal.label_text,
            bar.percent,
        )
    } else {
        Seq::empty()
    };
    let rest = track_text(
        PADDING as nat,
        by,
        inner_width(p) as nat,
        p.bar_height as nat,
        radius as nat,
        pal.track,
    ) + dot_text(DOT_X as nat, (ly - t.dot_lift) as nat, stat.color) + bar_text(
        i,
        PADDING as nat,
        by,
        p.bar_height as nat,
        radius as nat,
        target as nat,
        t.duration,
        bar.delay,
    );
    assert(row_text(p, pal, t, stat, bar, i) == label + pct + rest);
    let label_head = "<text x=\""@ + decimal(PADDING as nat) + "\" y=\""@ + decimal(ly)
        + "\" font-family=\"'Segoe UI',system-ui,sans-serif\" font-size=\""@ + t.label_font
        + "\" fill=\""@ + pal.label_text + "\">"@;
    assert(label == label_head + name + "</text>\n"@);
    lemma_contains_whole(name);
    lemma_contains_right(label_head, name, name);
    lemma_contains_left(label_head + name, "</text>\n"@, name);
    lemma_contains_left(label, pct, name);
    lemma_contains_left(label + pct, rest, name);
    if p.show_percentages {
        let pct_head = "<text x=\""@ + decimal((PADDING + inner_width(p)) as nat) + "\" y=\""@
            + decimal(ly)
            + "\" font-family=\"'Segoe UI',system-ui,sans-serif\" font-size=\""@ + t.pct_font
            + "\" fill=\""@ + pal.label_text + "\" text-anchor=\"end\">"@;
        let shown = bar.percent + "%"@;
        reveal_strlit("%</text>\n");
        reveal_strlit("%");
        assert(pct == pct_head + shown + "</text>\n"@) by {
            reveal_strlit("</text>\n");
        }
        lemma_contains_whole(shown);
        lemma_contains_right(pct_head, shown, shown);
        lemma_contains_left(pct_head + shown, "</text>\n"@, shown);
        lemma_contains_right(label, pct, shown);
        lemma_contains_left(label + pct, rest, shown);
    }
}

proof fn lemma_rows_contents(
    p: CardParamsView,
    pal: PaletteView,
    t: TypographyView,
    stats: Seq<LanguageTally>,
    bars: Seq<BarView>,
    k: nat,
)
    ensures
        forall|j: int|
            0 <= j < k ==> contains_text(
                rows_text(p, pal, t, stats, bars, k),
                xml_escape(#[trigger] stats[j].name),
            ),
        p.show_percentages ==> forall|j: int|
            0 <= j < k ==> contains_text(
                rows_text(p, pal, t, stats, bars, k),
                (#[trigger] bars[j]).percent + "%"@,
            ),
    decreases k,
{
    if k > 0 {
        lemma_rows_contents(p, pal, t, stats, bars, (k - 1) as nat);
        let prev = rows_text(p, pal, t, stats, bars, (k - 1) as nat);
        let last = row_text(p, pal, t, stats[k - 1], bars[k - 1], (k - 1) as nat);
        lemma_row_contents(p, pal, t, stats[k - 1], bars[k - 1], (k - 1) as nat);
        assert forall|j: int| 0 <= j < k implies contains_text(
            rows_text(p, pal, t, stats, bars, k),
            xml_escape(#[trigger] stats[j].name),
        ) by {
            if j < k - 1 {
                lemma_contains_left(prev, last, xml_escape(stats[j].name));
            } else {
                lemma_contains_right(prev, last, xml_escape(stats[j].name));
            }
        }
        if p.show_percentages {
            assert forall|j: int| 0 <= j < k implies contains_text(
                rows_text(p, pal, t, stats, bars, k),
                (#[trigger] bars[j]).percent + "%"@,
            ) by {
                if j < k - 1 {
                    lemma_contains_left(prev, last, bars[j].percent + "%"@);
                } else {
                    lemma_contains_right(prev, last, bars[j].percent + "%"@);
                }
            }
        }
    }
}

/// The card is one SVG element: it begins with `<svg` and ends with `</svg>`,
/// whatever the parameters and however many languages it lists (none too).
pub proof fn lemma_card_is_svg_element(
    p: CardParamsView,
    stats: Seq<LanguageTally>,
    t: TypographyView,
    bars: Seq<BarView>,
)
    ensures
        card_text(p, stats, t, bars).take(4) == "<svg"@,
        card_text(p, stats, t, bars).skip(card_text(p, stats, t, bars).len() - 6) == "</svg>"@,
{
    let pal = palette_of(p.theme);
    let w = p.card_width as nat;
    let h = card_height(p, t, stats.len()) as nat;
    let card = card_text(p, stats, t, bars);
    let open = "<svg xmlns=\"http://www.w3.org/2000/svg\" width=\""@;
    reveal_strlit("<svg xmlns=\"http://www.w3.org/2000/svg\" width=\"");
    reveal_strlit("<svg");
    reveal_strlit("</svg>");
    let body = card.take(card.len() - 6);
    assert(card == body + "</svg>"@);
    assert(card.skip(card.len() - 6) == "</svg>"@);
    let rest = head_text(w, h).skip(open.len() as int);
    assert(head_text(w, h) == open + rest);
    assert(card.take(4) == open.take(4));
}

/// The card's title names the user, escaped for XML.
pub proof fn lemma_card_shows_username(
    p: CardParamsView,
    stats: Seq<LanguageTally>,
    t: TypographyView,
    bars: Seq<BarView>,
)
    ensures
        contains_text(card_text(p, stats, t, bars), xml_escape(p.username)),
{
    let pal = palette_of(p.theme);
    let w = p.card_width as nat;
    let h = card_height(p, t, stats.len()) as nat;
    let r = p.border_radius as nat;
    let u = xml_escape(p.username);
    let before = head_text(w, h) + defs_text(pal.gradient_start, gradient_end_of(p), w, h, r)
        + background_text(w, h, r, background_of(p), pal.border);
    let title = title_text(
        PADDING as nat,
        (PADDING + t.title_ascent) as nat,
        t.title_font,
        pal.title_text,
        u,
    );
    let after = rows_text(p, pal, t, stats, bars, stats.len()) + "</svg>"@;
    assert(card_text(p, stats, t, bars) == before + title + after);
    let title_head = "<text x=\""@ + decimal(PADDING as nat) + "\" y=\""@ + decimal(
        (PADDING + t.title_ascent) as nat,
    ) + "\" font-family=\"'Segoe UI',system-ui,sans-serif\" font-size=\""@ + t.title_font
        + "\" font-weight=\"600\" fill=\""@ + pal.title_text + "\">"@;
    assert(title == title_head + u + "'s Top Languages</text>\n"@);
    lemma_contains_whole(u);
    lemma_contains_right(title_head, u, u);
    lemma_contains_left(title_head + u, "'s Top Languages</text>\n"@, u);
    lemma_contains_right(before, title, u);
    lemma_contains_left(before + title, after, u);
}

/// Every listed language's name appears on the card, escaped for XML, and
/// so does its share followed by `%` when shares are shown.
pub proof fn lemma_card_shows_languages(
    p: CardParamsView,
    stats: Seq<LanguageTally>,
    t: TypographyView,
    bars: Seq<BarView>,
)
    ensures
        forall|j: int|
            0 <= j < stats.len() ==> contains_text(
                card_text(p, stats, t, bars),
                xml_escape(#[trigger] stats[j].name),
            ),
        p.show_percentages ==> forall|j: int|
            0 <= j < stats.len() ==> contains_text(
                card_text(p, stats, t, bars),
                (#[trigger] bars[j]).percent + "%"@,
            ),
{
    let pal = palette_of(p.theme);
    let w = p.card_width as nat;
    let h = card_height(p, t, stats.len()) as nat;
    let r = p.border_radius as nat;
    let before = head_text(w, h) + defs_text(pal.gradient_start, gradient_end_of(p), w, h, r)
        + background_text(w, h, r, background_of(p), pal.border) + title_text(
        PADDING as nat,
        (PADDING + t.title_ascent) as nat,
        t.title_font,
        pal.title_text,
        xml_escape(p.username),
    );
    let rows = rows_text(p, pal, t, stats, bars, stats.len());
    assert(card_text(p, stats, t, bars) == before + rows + "</svg>"@);
    lemma_rows_contents(p, pal, t, stats, bars, stats.len());
    assert forall|j: int| 0 <= j < stats.len() implies contains_text(
        card_text(p, stats, t, bars),
        xml_escape(#[trigger] stats[j].name),
    ) by {
        lemma_contains_right(before, rows, xml_escape(stats[j].name));
        lemma_contains_left(before + rows, "</svg>"@, xml_escape(stats[j].name));
    }
    if p.show_percentages {
        assert forall|j: int| 0 <= j < stats.len() implies contains_text(
            card_text(p, stats, t, bars),
            (#[trigger] bars[j]).percent + "%"@,
        ) by {
            lemma_contains_right(before, rows, bars[j].percent + "%"@);
            lemma_contains_left(before + rows, "</svg>"@, bars[j].percent + "%"@);
        }
    }
}

/// The card's background is the custom colour when one was given and the
/// theme's otherwise, and its bar gradient ends in the custom accent when one
/// was given and in the theme's colour otherwise; both appear on the card.
pub proof fn lemma_card_shows_colours(
    p: CardParamsView,
    stats: Seq<LanguageTally>,
    t: TypographyView,
    bars: Seq<BarView>,
)
    ensures
        contains_text(card_text(p, stats, t, bars), background_of(p)),
        contains_text(card_text(p, stats, t, bars), gradient_end_of(p)),
{
    let pal = palette_of(p.theme);
    let w = p.card_width as nat;
    let h = card_height(p, t, stats.len()) as nat;
    let r = p.border_radius as nat;
    let head = head_text(w, h);
    let defs = defs_text(pal.gradient_start, gradient_end_of(p), w, h, r);
    let bg = background_text(w, h, r, background_of(p), pal.border);
    let after = title_text(
        PADDING as nat,
        (PADDING + t.title_ascent) as nat,
        t.title_font,
        pal.title_text,
        xml_escape(p.username),
    ) + rows_text(p, pal, t, stats, bars, stats.len()) + "</svg>"@;
    assert(card_text(p, stats, t, bars) == head + defs + bg + after);
    let ge = gradient_end_of(p);
    let defs_head = "<defs>\n  <linearGradient id=\"barGrad\" x1=\"0%\" y1=\"0%\" x2=\"100%\" y2=\"0%\">\n    <stop offset=\"0%\" stop-color=\""@
        + pal.gradient_start + "\"/>\n    <stop offset=\"100%\" stop-color=\""@;
    let defs_tail = defs.skip((defs_head.len() + ge.len()) as int);
    assert(defs == defs_head + ge + defs_tail);
    lemma_contains_whole(ge);
    lemma_contains_right(defs_head, ge, ge);
    lemma_contains_left(defs_head + ge, defs_tail, ge);
    lemma_contains_right(head, defs, ge);
    lemma_contains_left(head + defs, bg, ge);
    lemma_contains_left(head + defs + bg, after, ge);
    let b = background_of(p);
    let bg_head = "<rect width=\""@ + decimal(w) + "\" height=\""@ + decimal(h) + "\" rx=\""@
        + decimal(r) + "\" ry=\""@ + decimal(r) + "\" fill=\""@;
    let bg_tail = bg.skip((bg_head.len() + b.len()) as int);
    assert(bg == bg_head + b + bg_tail);
    lemma_contains_whole(b);
    lemma_contains_right(bg_head, b, b);
    lemma_contains_left(bg_head + b, bg_tail, b);
    lemma_contains_right(head + defs, bg, b);
    lemma_contains_left(head + defs + bg, after, b);
}

proof fn lemma_background_has_fill(w: nat, h: nat, r: nat, fill: Seq<char>, border: Seq<char>)
    ensures
        contains_text(background_text(w, h, r, fill, border), "\" fill=\""@ + fill + "\" stroke=\""@),
{
    let needle = "\" fill=\""@ + fill + "\" stroke=\""@;
    let pre = "<rect width=\""@ + decimal(w) + "\" height=\""@ + decimal(h) + "\" rx=\""@ + decimal(
        r,
    ) + "\" ry=\""@ + decimal(r);
    let post = border + "\" stroke-width=\"1\"/>\n"@;
    assert(background_text(w, h, r, fill, border) == pre + needle + post);
    lemma_contains_whole(needle);
    lemma_contains_right(pre, needle, needle);
    lemma_contains_left(pre + needle, post, needle);
}

proof fn lemma_defs_has_stop(gs: Seq<char>, ge: Seq<char>, w: nat, h: nat, r: nat)
    ensures
        contains_text(
            defs_text(gs, ge, w, h, r),
            "\"/>\n    <stop offset=\"100%\" stop-color=\""@ + ge
                + "\"/>\n  </linearGradient>\n  <clipPath id=\"cardClip\">\n    <rect width=\""@,
        ),
{
    let needle = "\"/>\n    <stop offset=\"100%\" stop-color=\""@ + ge
        + "\"/>\n  </linearGradient>\n  <clipPath id=\"cardClip\">\n    <rect width=\""@;
    let pre = "<defs>\n  <linearGradient id=\"barGrad\" x1=\"0%\" y1=\"0%\" x2=\"100%\" y2=\"0%\">\n    <stop offset=\"0%\" stop-color=\""@
        + gs;
    let post = decimal(w) + "\" height=\""@ + decimal(h) + "\" rx=\""@ + decimal(r) + "\" ry=\""@
        + decimal(r) + "\"/>\n  </clipPath>\n</defs>"@;
    assert(defs_text(gs, ge, w, h, r) == pre + needle + post);
    lemma_contains_whole(needle);
    lemma_contains_right(pre, needle, needle);
    lemma_contains_left(pre + needle, post, needle);
}

/// The card's background rectangle is filled with the custom primary colour
/// when one was given and with the theme's background otherwise, whatever the
/// accent colour; the bar gradient ends in the custom accent colour when one
/// was given and in the theme's gradient end otherwise, whatever the primary
/// colour.
pub proof fn lemma_card_fill_colours(
    p: CardParamsView,
    stats: Seq<LanguageTally>,
    t: TypographyView,
    bars: Seq<BarView>,
)
    ensures
        contains_text(
            card_text(p, stats, t, bars),
            "\" fill=\""@ + (match p.primary_color {
                Some(c) => c,
                None => palette_of(p.theme).background,
            }) + "\" stroke=\""@,
        ),
        contains_text(
            card_text(p, stats, t, bars),
            "\"/>\n    <stop offset=\"100%\" stop-color=\""@ + (match p.accent_color {
                Some(c) => c,
                None => palette_of(p.theme).gradient_end,
            }) + "\"/>\n  </linearGradient>\n  <clipPath id=\"cardClip\">\n    <rect width=\""@,
        ),
{
    let pal = palette_of(p.theme);
    let w = p.card_width as nat;
    let h = card_height(p, t, stats.len()) as nat;
    let r = p.border_radius as nat;
    let head = head_text(w, h);
    let defs = defs_text(pal.gradient_start, gradient_end_of(p), w, h, r);
    let bg = background_text(w, h, r, background_of(p), pal.border);
    let after = title_text(
        PADDING as nat,
        (PADDING + t.title_ascent) as nat,
        t.title_font,
        pal.title_text,
        xml_escape(p.username),
    ) + rows_text(p, pal, t, stats, bars, stats.len()) + "</svg>"@;
    assert(card_text(p, stats, t, bars) == head + defs + bg + after);
    let fill = "\" fill=\""@ + background_of(p) + "\" stroke=\""@;
    lemma_background_has_fill(w, h, r, background_of(p), pal.border);
    lemma_contains_right(head + defs, bg, fill);
    lemma_contains_left(head + defs + bg, after, fill);
    let stop = "\"/>\n    <stop offset=\"100%\" stop-color=\""@ + gradient_end_of(p)
        + "\"/>\n  </linearGradient>\n  <clipPath id=\"cardClip\">\n    <rect width=\""@;
    lemma_defs_has_stop(pal.gradient_start, gradient_end_of(p), w, h, r);
    lemma_contains_right(head, defs, stop);
    lemma_contains_left(head + defs, bg, stop);
    lemma_contains_left(head + defs + bg, after, stop);
}

/// Escaping goes character by character: the escape of two strings one after
/// the other is the two escapes one after the other.
pub proof fn lemma_xml_escape_concat(a: Seq<char>, b: Seq<char>)
    ensures
        xml_escape(a + b) == xml_escape(a) + xml_escape(b),
    decreases b.len(),
{
    if b.len() == 0 {
        assert(a + b == a);
    } else {
        lemma_xml_escape_concat(a, b.drop_last());
        assert((a + b).drop_last() == a + b.drop_last());
        assert((a + b).last() == b.last());
    }
}

/// `s` begins with `e`.
pub open spec fn starts_with(s: Seq<char>, e: Seq<char>) -> bool {
    e.len() <= s.len() && s.subrange(0, e.len() as int) == e
}

/// Reads escaped text back, left to right: each of the five entities that
/// `xml_escape` writes stands for its character, anything else for itself.
pub open spec fn xml_unescape(s: Seq<char>) -> Seq<char>
    decreases s.len(),
{
    if s.len() == 0 {
        Seq::empty()
    } else if starts_with(s, xml_escape_char('&')) {
        seq!['&'] + xml_unescape(s.skip(5))
    } else if starts_with(s, xml_escape_char('<')) {
        seq!['<'] + xml_unescape(s.skip(4))
    } else if starts_with(s, xml_escape_char('>')) {
        seq!['>'] + xml_unescape(s.skip(4))
    } else if starts_with(s, xml_escape_char('"')) {
        seq!['"'] + xml_unescape(s.skip(6))
    } else if starts_with(s, xml_escape_char('\'')) {
        seq!['\''] + xml_unescape(s.skip(5))
    } else {
        seq![s[0]] + xml_unescape(s.drop_first())
    }
}

proof fn lemma_not_starts(s: Seq<char>, e: Seq<char>, k: int)
    requires
        0 <= k < e.len(),
        k < s.len(),
        s[k] != e[k],
    ensures
        !starts_with(s, e),
{
    if e.len() <= s.len() {
        assert(s.subrange(0, e.len() as int)[k] == s[k]);
    }
}

proof fn lemma_starts(s: Seq<char>, e: Seq<char>, rest: Seq<char>)
    requires
        s == e + rest,
    ensures
        starts_with(s, e),
        s.skip(e.len() as int) == rest,
{
    assert(s.subrange(0, e.len() as int) == e);
    assert(s.skip(e.len() as int) == rest);
}

proof fn lemma_unescape_step(c: char, rest: Seq<char>)
    ensures
        xml_unescape(xml_escape_char(c) + rest) == seq![c] + xml_unescape(rest),
{
    let e = xml_escape_char(c);
    let s = e + rest;
    lemma_starts(s, e, rest);
    let amp = xml_escape_char('&');
    let lt = xml_escape_char('<');
    let gt = xml_escape_char('>');
    let quot = xml_escape_char('"');
    let apos = xml_escape_char('\'');
    if c == '&' {
    } else if c == '<' {
        lemma_not_starts(s, amp, 1);
    } else if c == '>' {
        lemma_not_starts(s, amp, 1);
        lemma_not_starts(s, lt, 1);
    } else if c == '"' {
        lemma_not_starts(s, amp, 1);
        lemma_not_starts(s, lt, 1);
        lemma_not_starts(s, gt, 1);
    } else if c == '\'' {
        lemma_not_starts(s, amp, 1);
        lemma_not_starts(s, lt, 1);
        lemma_not_starts(s, gt, 1);
        lemma_not_starts(s, quot, 1);
    } else {
        assert(s[0] == c);
        lemma_not_starts(s, amp, 0);
        lemma_not_starts(s, lt, 0);
        lemma_not_starts(s, gt, 0);
        lemma_not_starts(s, quot, 0);
        lemma_not_starts(s, apos, 0);
        assert(s.drop_first() == rest);
    }
}

/// Escaped text reads back as the text it came from.
pub proof fn lemma_xml_unescape_escape(s: Seq<char>)
    ensures
        xml_unescape(xml_escape(s)) == s,
    decreases s.len(),
{
    if s.len() > 0 {
        let first = seq![s[0]];
        let rest = s.drop_first();
        assert(s == first + rest);
        lemma_xml_escape_concat(first, rest);
        assert(first.drop_last() == Seq::<char>::empty());
        assert(first.last() == s[0]);
        assert(xml_escape(Seq::<char>::empty()) == Seq::<char>::empty());
        assert(xml_escape(first) == Seq::<char>::empty() + xml_escape_char(s[0]));
        assert(xml_escape(first) == xml_escape_char(s[0]));
        lemma_unescape_step(s[0], xml_escape(rest));
        lemma_xml_unescape_escape(rest);
    }
}

/// Different texts escape differently.
pub proof fn lemma_xml_escape_injective(a: Seq<char>, b: Seq<char>)
    requires
        xml_escape(a) == xml_escape(b),
    ensures
        a == b,
{
    lemma_xml_unescape_escape(a);
    lemma_xml_unescape_escape(b);
}

/// Escaped text holds none of `<`, `>`, `"` and `'`; every `&` in it starts
/// an entity.
pub proof fn lemma_escaped_has_no_markup(s: Seq<char>)
    ensures
        forall|i: int|
            0 <= i < xml_escape(s).len() ==> {
                let c = #[trigger] xml_escape(s)[i];
                c != '<' && c != '>' && c != '"' && c != '\''
            },
    decreases s.len(),
{
    if s.len() > 0 {
        lemma_escaped_has_no_markup(s.drop_last());
        let init = xml_escape(s.drop_last());
        let e = xml_escape_char(s.last());
        assert forall|i: int| 0 <= i < xml_escape(s).len() implies {
            let c = #[trigger] xml_escape(s)[i];
            c != '<' && c != '>' && c != '"' && c != '\''
        } by {
            if i < init.len() {
                assert(xml_escape(s)[i] == init[i]);
            } else {
                assert(xml_escape(s)[i] == e[i - init.len()]);
            }
        }
    }
}

} // verus!
