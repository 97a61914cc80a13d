//! Query parameters of a card request: the raw values as they arrive and
//! their validated, defaulted form.
use vstd::prelude::*;

use crate::error::{AppError, AppErrorView};
use crate::text::{
    all_ascii, ascii_lower, chars_of, trim_end, trim_start, lowercase, push_char, string_of, to_lowercase, trim, trim_chars, utf8_len,
    utf8_len_up_to,
};

verus! {

/// Colour scheme of the card.
#[derive(Debug, Clone, Copy, PartialEq, Eq, Structural)]
pub enum Theme {
    Dark,
    Light,
}

impl Default for Theme {
    fn default() -> (t: Theme)
        ensures
            t == Theme::Dark,
    {
        Theme::Dark
    }
}

/// Which total decides the order of the languages on the card.
#[derive(Debug, Clone, Copy, PartialEq, Eq, Structural)]
pub enum SortBy {
    /// By the number of bytes of code.
    Bytes,
    /// By the number of repositories that use the language.
    Repos,
}

impl Default for SortBy {
    fn default() -> (s: SortBy)
        ensures
            s == SortBy::Bytes,
    {
        SortBy::Bytes
    }
}

/// The bit pattern of the `f32` value 0.5.
pub const TEXT_SIZE_MIN_BITS: u32 = 0x3f00_0000;

/// The bit pattern of the `f32` value 1.0.
pub const TEXT_SIZE_DEFAULT_BITS: u32 = 0x3f80_0000;

/// The bit pattern of the `f32` value 2.0.
pub const TEXT_SIZE_MAX_BITS: u32 = 0x4000_0000;

/// Raw query parameters as they arrive with the request URL.
///
/// `text_size` is the font scale as the bit pattern of an `f32`
/// (`f32::to_bits`); the library reads it only to check its range.
#[derive(Debug)]
pub struct RawParams {
    pub username: Option<String>,
    pub theme: Option<Theme>,
    pub primary_color: Option<String>,
    pub accent_color: Option<String>,
    pub bar_animation_speed: Option<u32>,
    pub number_of_languages: Option<u8>,
    pub bar_height: Option<u32>,
    pub card_width: Option<u32>,
    pub show_percentages: Option<bool>,
    pub text_size: Option<u32>,
    pub sort_by: Option<SortBy>,
    pub border_radius: Option<u32>,
    /// Comma-separated language names to exclude, e.g. `HTML,CSS,Markdown`.
    pub exclude_languages: Option<String>,
}

/// Validated, ready-to-use parameters.
///
/// `text_size` is the font scale as the bit pattern of an `f32`.
#[derive(Debug, Clone)]
pub struct CardParams {
    pub username: String,
    pub theme: Theme,
    pub primary_color: Option<String>,
    pub accent_color: Option<String>,
    pub bar_animation_speed: u32,
    pub number_of_languages: u8,
    pub bar_height: u32,
    pub card_width: u32,
    pub show_percentages: bool,
    pub text_size: u32,
    pub sort_by: SortBy,
    pub border_radius: u32,
    /// Language names (lowercased) that should be excluded from results.
    pub exclude_languages: Vec<String>,
}

/// `RawParams` with its strings taken as character sequences.
pub struct RawParamsView {
    pub username: Option<Seq<char>>,
    pub theme: Option<Theme>,
    pub primary_color: Option<Seq<char>>,
    pub accent_color: Option<Seq<char>>,
    pub bar_animation_speed: Option<u32>,
    pub number_of_languages: Option<u8>,
    pub bar_height: Option<u32>,
    pub card_width: Option<u32>,
    pub show_percentages: Option<bool>,
    pub text_size: Option<u32>,
    pub sort_by: Option<SortBy>,
    pub border_radius: Option<u32>,
    pub exclude_languages: Option<Seq<char>>,
}

/// `CardParams` with its strings taken as character sequences.
pub struct CardParamsView {
    pub username: Seq<char>,
    pub theme: Theme,
    pub primary_color: Option<Seq<char>>,
    pub accent_color: Option<Seq<char>>,
    pub bar_animation_speed: u32,
    pub number_of_languages: u8,
    pub bar_height: u32,
    pub card_width: u32,
    pub show_percentages: bool,
    pub text_size: u32,
    pub sort_by: SortBy,
    pub border_radius: u32,
    pub exclude_languages: Seq<Seq<char>>,
}

impl View for RawParams {
    type V = RawParamsView;

    open spec fn view(&self) -> RawParamsView {
        RawParamsView {
            username: self.username.deep_view(),
            theme: self.theme,
            primary_color: self.primary_color.deep_view(),
            accent_color: self.accent_color.deep_view(),
            bar_animation_speed: self.bar_animation_speed,
            number_of_languages: self.number_of_languages,
            bar_height: self.bar_height,
            card_width: self.card_width,
            show_percentages: self.show_percentages,
            text_size: self.text_size,
            sort_by: self.sort_by,
            border_radius: self.border_radius,
            exclude_languages: self.exclude_languages.deep_view(),
        }
    }
}

impl View for CardParams {
    type V = CardParamsView;

    open spec fn view(&self) -> CardParamsView {
        CardParamsView {
            username: self.username@,
            theme: self.theme,
            primary_color: self.primary_color.deep_view(),
            accent_color: self.accent_color.deep_view(),
            bar_animation_speed: self.bar_animation_speed,
            number_of_languages: self.number_of_languages,
            bar_height: self.bar_height,
            card_width: self.card_width,
            show_percentages: self.show_percentages,
            text_size: self.text_size,
            sort_by: self.sort_by,
            border_radius: self.border_radius,
            exclude_languages: self.exclude_languages.deep_view(),
        }
    }
}

// ── Hex colours ──────────────────────────────────────────────────────────────

/// `s` without any leading `#` (`str::trim_start_matches('#')`).
pub open spec fn strip_hashes(s: Seq<char>) -> Seq<char>
    decreases s.len(),
{
    if s.len() > 0 && s[0] == '#' {
        strip_hashes(s.drop_first())
    } else {
        s
    }
}

/// Every character of `s` written twice: `abc` becomes `aabbcc`.
pub open spec fn double_each(s: Seq<char>) -> Seq<char>
    decreases s.len(),
{
    if s.len() == 0 {
        Seq::empty()
    } else {
        double_each(s.drop_last()) + seq![s.last(), s.last()]
    }
}

/// An ASCII hexadecimal digit, either case.
pub open spec fn is_hex_digit(c: char) -> bool {
    ('0' <= c && c <= '9') || ('a' <= c && c <= 'f') || ('A' <= c && c <= 'F')
}

/// Every character of `s` is a hex digit.
pub open spec fn all_hex(s: Seq<char>) -> bool {
    forall|i: int| 0 <= i < s.len() ==> is_hex_digit(#[trigger] s[i])
}

/// An ASCII hexadecimal digit in lower case.
pub open spec fn is_lower_hex_digit(c: char) -> bool {
    ('0' <= c && c <= '9') || ('a' <= c && c <= 'f')
}

/// Reason given for a colour whose digits are neither three nor six bytes.
pub open spec fn colour_length_reason() -> Seq<char> {
    "must be a valid 3- or 6-digit hex colour (e.g. #1a2b3c)"@
}

/// Reason given for a colour with a character that is no hex digit.
pub open spec fn colour_digit_reason() -> Seq<char> {
    "contains invalid hex characters"@
}

/// What `validate_hex_color` answers for `color` as the value of `param`:
/// leading `#`s are dropped, a three-digit colour is expanded, and the result
/// is `#` and six lowercase hex digits.
pub open spec fn hex_color_result(color: Seq<char>, param: Seq<char>) -> Result<
    Seq<char>,
    AppErrorView,
> {
    let s = strip_hashes(color);
    let len = utf8_len(s);
    if len != 3 && len != 6 {
        Err(AppErrorView::InvalidParam { param, reason: colour_length_reason() })
    } else {
        let normalized = if len == 3 {
            double_each(s)
        } else {
            s
        };
        if !all_hex(normalized) {
            Err(AppErrorView::InvalidParam { param, reason: colour_digit_reason() })
        } else {
            Ok(seq!['#'] + normalized.map_values(|c: char| ascii_lower(c)))
        }
    }
}

/// Validates and normalises a hex colour string to `#rrggbb`.
pub fn validate_hex_color(color: String, param: &'static str) -> (r: Result<String, AppError>)
    ensures
        match r {
            Ok(s) => hex_color_result(color@, param@) == Ok::<Seq<char>, AppErrorView>(s@),
            Err(e) => hex_color_result(color@, param@) == Err::<Seq<char>, AppErrorView>(e@),
        },
{
    let cs = chars_of(color.as_str());
    let mut start: usize = 0;
    assert(cs@.skip(0) == cs@);
    while start < cs.len() && cs[start] == '#'
        invariant
            start <= cs@.len(),
            strip_hashes(cs@) == strip_hashes(cs@.skip(start as int)),
        decreases cs.len() - start,
    {
        assert(cs@.skip(start as int).drop_first() == cs@.skip(start + 1));
        start = start + 1;
    }
    let mut s: Vec<char> = Vec::new();
    let mut k: usize = start;
    while k < cs.len()
        invariant
            start <= k <= cs@.len(),
            s@ == cs@.subrange(start as int, k as int),
        decreases cs.len() - k,
    {
        s.push(cs[k]);
        assert(cs@.subrange(start as int, k + 1) == cs@.subrange(start as int, k as int).push(
            cs@[k as int],
        ));
        k = k + 1;
    }
    assert(s@ == cs@.skip(start as int));
    assert(s@ == strip_hashes(color@));
    let len = utf8_len_up_to(s.as_slice(), 6);
    if len != 3 && len != 6 {
        return Err(
            AppError::InvalidParam {
                param,
                reason: String::from_str("must be a valid 3- or 6-digit hex colour (e.g. #1a2b3c)"),
            },
        );
    }
    let normalized = if len == 3 {
        double_chars(s.as_slice())
    } else {
        s
    };
    let mut i: usize = 0;
    while i < normalized.len()
        invariant
            i <= normalized@.len(),
            forall|j: int| 0 <= j < i ==> is_hex_digit(#[trigger] normalized@[j]),
            utf8_len(strip_hashes(color@)) == len,
            len == 3 || len == 6,
            len == 3 ==> normalized@ == double_each(strip_hashes(color@)),
            len == 6 ==> normalized@ == strip_hashes(color@),
        decreases normalized.len() - i,
    {
        let c = normalized[i];
        if !(('0' <= c && c <= '9') || ('a' <= c && c <= 'f') || ('A' <= c && c <= 'F')) {
            assert(!is_hex_digit(normalized@[i as int]));
            return Err(
                AppError::InvalidParam {
                    param,
                    reason: String::from_str("contains invalid hex characters"),
                },
            );
        }
        i = i + 1;
    }
    let mut out = String::new();
    push_char(&mut out, '#');
    let mut k: usize = 0;
    while k < normalized.len()
        invariant
            k <= normalized@.len(),
            out@ == seq!['#'] + normalized@.take(k as int).map_values(|c: char| ascii_lower(c)),
        decreases normalized.len() - k,
    {
        let c = normalized[k];
        let l = if 'A' <= c && c <= 'Z' {
            ((c as u8) + 32) as char
        } else {
            c
        };
        push_char(&mut out, l);
        assert(normalized@.take(k + 1).map_values(|c: char| ascii_lower(c))
            == normalized@.take(k as int).map_values(|c: char| ascii_lower(c)).push(l));
        k = k + 1;
    }
    assert(normalized@.take(normalized@.len() as int) == normalized@);
    Ok(out)
}

/// Every character written twice.
fn double_chars(s: &[char]) -> (out: Vec<char>)
    ensures
        out@ == double_each(s@),
{
    let mut out: Vec<char> = Vec::new();
    let mut i: usize = 0;
    while i < s.len()
        invariant
            i <= s@.len(),
            out@ == double_each(s@.take(i as int)),
        decreases s.len() - i,
    {
        out.push(s[i]);
        out.push(s[i]);
        assert(s@.take(i + 1).drop_last() == s@.take(i as int));
        i = i + 1;
    }
    assert(s@.take(s@.len() as int) == s@);
    out
}


// ── Usernames ────────────────────────────────────────────────────────────────

/// A character GitHub allows in a login: an ASCII letter or digit, or `-`.
pub open spec fn is_username_char(c: char) -> bool {
    ('a' <= c && c <= 'z') || ('A' <= c && c <= 'Z') || ('0' <= c && c <= '9') || c == '-'
}

/// A login of at most 39 bytes made of letters, digits and hyphens.
pub open spec fn username_ok(u: Seq<char>) -> bool {
    &&& utf8_len(u) <= 39
    &&& forall|i: int| 0 <= i < u.len() ==> is_username_char(#[trigger] u[i])
}

/// Reason given for an unacceptable username.
pub open spec fn username_reason() -> Seq<char> {
    "must be 1–39 alphanumeric/hyphen characters"@
}

// ── Exclusion list ───────────────────────────────────────────────────────────

/// `s` cut at every comma (`str::split(',')`): one more piece than commas.
pub open spec fn split_commas(s: Seq<char>) -> Seq<Seq<char>>
    decreases s.len(),
{
    if s.len() == 0 {
        seq![Seq::empty()]
    } else {
        let init = split_commas(s.drop_last());
        if s.last() == ',' {
            init.push(Seq::empty())
        } else {
            init.update(init.len() - 1, init.last().push(s.last()))
        }
    }
}

/// The pieces trimmed and lowercased, with the empty ones left out.
pub open spec fn exclusion_list(pieces: Seq<Seq<char>>) -> Seq<Seq<char>>
    decreases pieces.len(),
{
    if pieces.len() == 0 {
        Seq::empty()
    } else {
        let init = exclusion_list(pieces.drop_last());
        let t = lowercase(trim(pieces.last()));
        if t.len() > 0 {
            init.push(t)
        } else {
            init
        }
    }
}

/// `exclusion_list` for ASCII text, where lowercasing is the ASCII mapping.
pub open spec fn ascii_exclusion_list(pieces: Seq<Seq<char>>) -> Seq<Seq<char>>
    decreases pieces.len(),
{
    if pieces.len() == 0 {
        Seq::empty()
    } else {
        let init = ascii_exclusion_list(pieces.drop_last());
        let t = trim(pieces.last()).map_values(|c: char| ascii_lower(c));
        if t.len() > 0 {
            init.push(t)
        } else {
            init
        }
    }
}

proof fn lemma_trim_start_ascii(s: Seq<char>)
    requires
        all_ascii(s),
    ensures
        all_ascii(trim_start(s)),
    decreases s.len(),
{
    if s.len() > 0 && crate::text::is_whitespace(s[0]) {
        assert forall|i: int| 0 <= i < s.drop_first().len() implies (#[trigger] s.drop_first()[i]
            as u32) < 0x80 by {
            assert(s.drop_first()[i] == s[i + 1]);
        }
        lemma_trim_start_ascii(s.drop_first());
    }
}

proof fn lemma_trim_end_ascii(s: Seq<char>)
    requires
        all_ascii(s),
    ensures
        all_ascii(trim_end(s)),
    decreases s.len(),
{
    if s.len() > 0 && crate::text::is_whitespace(s.last()) {
        assert forall|i: int| 0 <= i < s.drop_last().len() implies (#[trigger] s.drop_last()[i]
            as u32) < 0x80 by {
            assert(s.drop_last()[i] == s[i]);
        }
        lemma_trim_end_ascii(s.drop_last());
    }
}

/// Trimming ASCII text leaves ASCII text.
pub proof fn lemma_trim_ascii(s: Seq<char>)
    requires
        all_ascii(s),
    ensures
        all_ascii(trim(s)),
{
    lemma_trim_start_ascii(s);
    lemma_trim_end_ascii(trim_start(s));
}

/// The languages that a comma-separated exclusion parameter names.
pub open spec fn parse_exclusions(s: Seq<char>) -> Seq<Seq<char>> {
    exclusion_list(split_commas(s))
}

pub proof fn lemma_split_commas_nonempty(s: Seq<char>)
    ensures
        split_commas(s).len() >= 1,
    decreases s.len(),
{
    if s.len() > 0 {
        lemma_split_commas_nonempty(s.drop_last());
    }
}

/// Splits a comma-separated list, trims and lowercases each name and drops
/// the empty ones.
pub fn exclusions_of(s: &str) -> (out: Vec<String>)
    ensures
        out.deep_view() == parse_exclusions(s@),
        s@.len() == 0 ==> out@.len() == 0,
        all_ascii(s@) ==> out.deep_view() == ascii_exclusion_list(split_commas(s@)),
{
    let cs = chars_of(s);
    let mut out: Vec<String> = Vec::new();
    let mut cur: Vec<char> = Vec::new();
    let mut i: usize = 0;
    assert(cs@.take(0) == Seq::<char>::empty());
    assert(split_commas(Seq::<char>::empty()).drop_last() == Seq::<Seq<char>>::empty());
    while i < cs.len()
        invariant
            i <= cs@.len(),
            cs@ == s@,
            split_commas(cs@.take(i as int)).len() >= 1,
            out.deep_view() == exclusion_list(split_commas(cs@.take(i as int)).drop_last()),
            cur@ == split_commas(cs@.take(i as int)).last(),
            all_ascii(s@) ==> all_ascii(cur@) && out.deep_view() == ascii_exclusion_list(
                split_commas(cs@.take(i as int)).drop_last(),
            ),
        decreases cs.len() - i,
    {
        let ghost before = split_commas(cs@.take(i as int));
        assert(cs@.take(i + 1).drop_last() == cs@.take(i as int));
        assert(cs@.take(i + 1).last() == cs@[i as int]);
        if cs[i] == ',' {
            let trimmed = trim_chars(cur.as_slice());
            proof {
                if all_ascii(s@) {
                    lemma_trim_ascii(cur@);
                }
            }
            let t = to_lowercase(string_of(trimmed.as_slice()).as_str());
            let ghost prev = out.deep_view();
            if t.as_str().is_empty() {
            } else {
                out.push(t);
                assert(out.deep_view() == prev.push(t@));
            }
            assert(split_commas(cs@.take(i + 1)) == before.push(Seq::empty()));
            assert(before.push(Seq::empty()).drop_last() == before);
            assert(before.drop_last().push(before.last()) == before);
            cur = Vec::new();
        } else {
            let ghost old_cur = cur@;
            cur.push(cs[i]);
            assert(split_commas(cs@.take(i + 1)) == before.update(
                before.len() - 1,
                before.last().push(cs@[i as int]),
            ));
            assert(before.update(before.len() - 1, before.last().push(cs@[i as int])).drop_last()
                == before.drop_last());
            proof {
                if all_ascii(s@) {
                    assert forall|j: int| 0 <= j < cur@.len() implies (#[trigger] cur@[j] as u32)
                        < 0x80 by {
                        if j < old_cur.len() {
                            assert(cur@[j] == old_cur[j]);
                        } else {
                            assert(cur@[j] == s@[i as int]);
                        }
                    }
                }
            }
        }
        i = i + 1;
        proof {
            lemma_split_commas_nonempty(cs@.take(i as int));
        }
    }
    assert(cs@.take(i as int) == s@);
    let ghost pieces = split_commas(s@);
    assert(pieces.drop_last().push(pieces.last()) == pieces);
    let trimmed = trim_chars(cur.as_slice());
    proof {
        if all_ascii(s@) {
            lemma_trim_ascii(cur@);
        }
        if s@.len() == 0 {
            assert(cur@.len() == 0);
            assert(trim(cur@) == cur@);
        }
    }
    let t = to_lowercase(string_of(trimmed.as_slice()).as_str());
    let ghost prev = out.deep_view();
    if !t.as_str().is_empty() {
        out.push(t);
        assert(out.deep_view() == prev.push(t@));
    }
    out
}

// ── The whole request ────────────────────────────────────────────────────────

/// An optional colour parameter: absent stays absent, present is validated.
pub open spec fn optional_color(c: Option<Seq<char>>, param: Seq<char>) -> Result<
    Option<Seq<char>>,
    AppErrorView,
> {
    match c {
        None => Ok(None),
        Some(c) => match hex_color_result(c, param) {
            Ok(v) => Ok(Some(v)),
            Err(e) => Err(e),
        },
    }
}

pub open spec fn invalid(param: Seq<char>, reason: Seq<char>) -> AppErrorView {
    AppErrorView::InvalidParam { param, reason }
}

/// What `CardParams::from_raw` answers: the checks run in the order of the
/// parameter table, the first that fails decides the error, and absent
/// parameters take their defaults (dark theme, 1000 ms, five languages,
/// 10 px bars, 400 px width, percentages shown, scale 1.0, by bytes, 12 px
/// corners, nothing excluded).
pub open spec fn card_params_result(raw: RawParamsView) -> Result<CardParamsView, AppErrorView> {
    match raw.username {
        None => Err(AppErrorView::MissingParam("username"@)),
        Some(username) => if trim(username).len() == 0 {
            Err(AppErrorView::MissingParam("username"@))
        } else if !username_ok(username) {
            Err(invalid("username"@, username_reason()))
        } else {
            match optional_color(raw.primary_color, "primaryColor"@) {
                Err(e) => Err(e),
                Ok(primary_color) => match optional_color(raw.accent_color, "accentColor"@) {
                    Err(e) => Err(e),
                    Ok(accent_color) => {
                        let number_of_languages = match raw.number_of_languages {
                            Some(n) => n,
                            None => 5u8,
                        };
                        let bar_animation_speed = match raw.bar_animation_speed {
                            Some(n) => n,
                            None => 1000u32,
                        };
                        let bar_height = match raw.bar_height {
                            Some(n) => n,
                            None => 10u32,
                        };
                        let card_width = match raw.card_width {
                            Some(n) => n,
                            None => 400u32,
                        };
                        let text_size = match raw.text_size {
                            Some(n) => n,
                            None => TEXT_SIZE_DEFAULT_BITS,
                        };
                        let border_radius = match raw.border_radius {
                            Some(n) => n,
                            None => 12u32,
                        };
                        if !(1 <= number_of_languages <= 10) {
                            Err(invalid("numberOfLanguages"@, "must be between 1 and 10"@))
                        } else if !(100 <= bar_animation_speed <= 5000) {
                            Err(invalid("barAnimationSpeed"@, "must be between 100 and 5000 ms"@))
                        } else if !(4 <= bar_height <= 40) {
                            Err(invalid("barHeight"@, "must be between 4 and 40 px"@))
                        } else if !(200 <= card_width <= 800) {
                            Err(invalid("cardWidth"@, "must be between 200 and 800 px"@))
                        } else if !(TEXT_SIZE_MIN_BITS <= text_size <= TEXT_SIZE_MAX_BITS) {
                            Err(invalid("textSize"@, "must be between 0.5 and 2.0"@))
                        } else if border_radius > 40 {
                            Err(invalid("borderRadius"@, "must be between 0 and 40 px"@))
                        } else {
                            Ok(
                                CardParamsView {
                                    username,
                                    theme: match raw.theme {
                                        Some(t) => t,
                                        None => Theme::Dark,
                                    },
                                    primary_color,
                                    accent_color,
                                    bar_animation_speed,
                                    number_of_languages,
                                    bar_height,
                                    card_width,
                                    show_percentages: match raw.show_percentages {
                                        Some(b) => b,
                                        None => true,
                                    },
                                    text_size,
                                    sort_by: match raw.sort_by {
                                        Some(b) => b,
                                        None => SortBy::Bytes,
                                    },
                                    border_radius,
                                    exclude_languages: match raw.exclude_languages {
                                        Some(e) => parse_exclusions(e),
                                        None => parse_exclusions(Seq::empty()),
                                    },
                                },
                            )
                        }
                    },
                },
            }
        },
    }
}

/// Checks a username: letters, digits and hyphens, at most 39 bytes.
fn check_username(u: &[char]) -> (ok: bool)
    ensures
        ok == username_ok(u@),
{
    let mut i: usize = 0;
    while i < u.len()
        invariant
            i <= u@.len(),
            forall|j: int| 0 <= j < i ==> is_username_char(#[trigger] u@[j]),
        decreases u.len() - i,
    {
        let c = u[i];
        if !(('a' <= c && c <= 'z') || ('A' <= c && c <= 'Z') || ('0' <= c && c <= '9') || c
            == '-') {
            assert(!is_username_char(u@[i as int]));
            return false;
        }
        i = i + 1;
    }
    proof {
        assert forall|j: int| 0 <= j < u@.len() implies (u@[j] as u32) < 0x80 by {
            assert(is_username_char(u@[j]));
        }
        crate::text::lemma_utf8_len_ascii(u@);
    }
    u.len() <= 39
}

fn validate_optional_color(c: Option<String>, param: &'static str) -> (r: Result<
    Option<String>,
    AppError,
>)
    ensures
        match r {
            Ok(v) => optional_color(c.deep_view(), param@) == Ok::<
                Option<Seq<char>>,
                AppErrorView,
            >(v.deep_view()),
            Err(e) => optional_color(c.deep_view(), param@) == Err::<
                Option<Seq<char>>,
                AppErrorView,
            >(e@),
        },
{
    match c {
        None => Ok(None),
        Some(c) => match validate_hex_color(c, param) {
            Ok(v) => Ok(Some(v)),
            Err(e) => Err(e),
        },
    }
}

fn invalid_param(param: &'static str, reason: &str) -> (e: AppError)
    ensures
        e@ == invalid(param@, reason@),
{
    AppError::InvalidParam { param, reason: String::from_str(reason) }
}

impl CardParams {
    /// Validates the raw parameters and fills in the defaults.
    pub fn from_raw(raw: RawParams) -> (r: Result<Self, AppError>)
        ensures
            match r {
                Ok(p) => card_params_result(raw@) == Ok::<CardParamsView, AppErrorView>(p@),
                Err(e) => card_params_result(raw@) == Err::<CardParamsView, AppErrorView>(e@),
            },
            r matches Ok(p) ==> match raw@.exclude_languages {
                None => p.exclude_languages@.len() == 0,
                Some(e) => (e.len() == 0 ==> p.exclude_languages@.len() == 0) && (all_ascii(e)
                    ==> p@.exclude_languages == ascii_exclusion_list(split_commas(e))),
            },
    {
        let ghost raw_view = raw@;
        let username = match raw.username {
            None => {
                return Err(AppError::MissingParam(String::from_str("username")));
            },
            Some(u) => u,
        };
        let ucs = chars_of(username.as_str());
        let trimmed = trim_chars(ucs.as_slice());
        if trimmed.len() == 0 {
            return Err(AppError::MissingParam(String::from_str("username")));
        }
        if !check_username(ucs.as_slice()) {
            return Err(
                invalid_param("username", "must be 1–39 alphanumeric/hyphen characters"),
            );
        }
        let primary_color = match validate_optional_color(raw.primary_color, "primaryColor") {
            Ok(v) => v,
            Err(e) => {
                return Err(e);
            },
        };
        let accent_color = match validate_optional_color(raw.accent_color, "accentColor") {
            Ok(v) => v,
            Err(e) => {
                return Err(e);
            },
        };
        let number_of_languages = match raw.number_of_languages {
            Some(n) => n,
            None => 5,
        };
        if !(1 <= number_of_languages && number_of_languages <= 10) {
            return Err(invalid_param("numberOfLanguages", "must be between 1 and 10"));
        }
        let bar_animation_speed = match raw.bar_animation_speed {
            Some(n) => n,
            None => 1000,
        };
        if !(100 <= bar_animation_speed && bar_animation_speed <= 5000) {
            return Err(invalid_param("barAnimationSpeed", "must be between 100 and 5000 ms"));
        }
        let bar_height = match raw.bar_height {
            Some(n) => n,
            None => 10,
        };
        if !(4 <= bar_height && bar_height <= 40) {
            return Err(invalid_param("barHeight", "must be between 4 and 40 px"));
        }
        let card_width = match raw.card_width {
            Some(n) => n,
            None => 400,
        };
        if !(200 <= card_width && card_width <= 800) {
            return Err(invalid_param("cardWidth", "must be between 200 and 800 px"));
        }
        let text_size = match raw.text_size {
            Some(n) => n,
            None => TEXT_SIZE_DEFAULT_BITS,
        };
        if !(TEXT_SIZE_MIN_BITS <= text_size && text_size <= TEXT_SIZE_MAX_BITS) {
            return Err(invalid_param("textSize", "must be between 0.5 and 2.0"));
        }
        let border_radius = match raw.border_radius {
            Some(n) => n,
            None => 12,
        };
        if border_radius > 40 {
            return Err(invalid_param("borderRadius", "must be between 0 and 40 px"));
        }
        let exclude_languages = match &raw.exclude_languages {
            Some(e) => exclusions_of(e.as_str()),
            None => exclusions_of(""),
        };
        proof {
            assert(""@ == Seq::<char>::empty()) by {
                reveal_strlit("");
            }
        }
        assert(raw@.exclude_languages is None ==> exclude_languages@.len() == 0);
        Ok(
            CardParams {
                username,
                theme: match raw.theme {
                    Some(t) => t,
                    None => Theme::Dark,
                },
                primary_color,
                accent_color,
                bar_animation_speed,
                number_of_languages,
                bar_height,
                card_width,
                show_percentages: match raw.show_percentages {
                    Some(b) => b,
                    None => true,
                },
                text_size,
                sort_by: match raw.sort_by {
                    Some(b) => b,
                    None => SortBy::Bytes,
                },
                border_radius,
                exclude_languages,
            },
        )
    }
}


// ── Laws ─────────────────────────────────────────────────────────────────────

/// `#` followed by six lowercase hex digits.
pub open spec fn is_normal_hex_color(c: Seq<char>) -> bool {
    &&& c.len() == 7
    &&& c[0] == '#'
    &&& forall|i: int| 1 <= i < 7 ==> is_lower_hex_digit(#[trigger] c[i])
}

proof fn lemma_double_each(s: Seq<char>)
    ensures
        double_each(s).len() == 2 * s.len(),
        forall|k: int| 0 <= k < s.len() ==> #[trigger] double_each(s)[2 * k] == s[k],
    decreases s.len(),
{
    if s.len() > 0 {
        lemma_double_each(s.drop_last());
        let d = double_each(s.drop_last());
        assert forall|k: int| 0 <= k < s.len() implies #[trigger] double_each(s)[2 * k] == s[k] by {
            if k < s.len() - 1 {
                assert(double_each(s)[2 * k] == d[2 * k]);
                assert(s.drop_last()[k] == s[k]);
            }
        }
    }
}

proof fn lemma_hex_is_ascii(s: Seq<char>)
    requires
        all_hex(s),
    ensures
        utf8_len(s) == s.len(),
{
    assert forall|i: int| 0 <= i < s.len() implies (s[i] as u32) < 0x80 by {
        assert(is_hex_digit(s[i]));
    }
    crate::text::lemma_utf8_len_ascii(s);
}

proof fn lemma_strip_hashes_no_hash(s: Seq<char>)
    requires
        s.len() == 0 || s[0] != '#',
    ensures
        strip_hashes(s) == s,
{
}

/// A colour that passes validation comes out as `#` and six lowercase hex
/// digits (`#rrggbb`), whatever form it came in.
pub proof fn lemma_hex_color_normal_form(color: Seq<char>, param: Seq<char>)
    ensures
        hex_color_result(color, param) matches Ok(c) ==> is_normal_hex_color(c),
{
    let s = strip_hashes(color);
    let len = utf8_len(s);
    if len == 3 || len == 6 {
        let normalized = if len == 3 {
            double_each(s)
        } else {
            s
        };
        if all_hex(normalized) {
            crate::text::lemma_utf8_len_at_least_chars(s);
            if len == 3 {
                lemma_double_each(s);
                assert forall|k: int| 0 <= k < s.len() implies is_hex_digit(#[trigger] s[k]) by {
                    assert(double_each(s)[2 * k] == s[k]);
                    assert(is_hex_digit(normalized[2 * k]));
                }
                lemma_hex_is_ascii(s);
            } else {
                lemma_hex_is_ascii(s);
            }
            let c = seq!['#'] + normalized.map_values(|c: char| ascii_lower(c));
            assert(normalized.len() == 6);
            assert forall|i: int| 1 <= i < 7 implies is_lower_hex_digit(#[trigger] c[i]) by {
                assert(c[i] == ascii_lower(normalized[i - 1]));
                assert(is_hex_digit(normalized[i - 1]));
            }
        }
    }
}

/// Normalising a normalised colour gives it back unchanged.
pub proof fn lemma_hex_color_idempotent(c: Seq<char>, param: Seq<char>)
    requires
        is_normal_hex_color(c),
    ensures
        hex_color_result(c, param) == Ok::<Seq<char>, AppErrorView>(c),
{
    let d = c.drop_first();
    assert(strip_hashes(c) == strip_hashes(d));
    assert(d[0] == c[1]);
    lemma_strip_hashes_no_hash(d);
    assert forall|i: int| 0 <= i < d.len() implies is_hex_digit(#[trigger] d[i]) by {
        assert(d[i] == c[i + 1]);
        assert(is_lower_hex_digit(c[i + 1]));
    }
    lemma_hex_is_ascii(d);
    let out = seq!['#'] + d.map_values(|x: char| ascii_lower(x));
    assert forall|i: int| 0 <= i < c.len() implies out[i] == c[i] by {
        if i > 0 {
            assert(d[i - 1] == c[i]);
            assert(is_lower_hex_digit(c[i]));
        }
    }
    assert(out == c);
}


/// `c` with an ASCII small letter turned into its capital letter.
pub open spec fn ascii_upper(c: char) -> char {
    if 'a' <= c && c <= 'z' {
        ((c as u32) - 32) as char
    } else {
        c
    }
}

/// ASCII letters put in upper case (`upper`) or lower case.
pub open spec fn change_case(c: char, upper: bool) -> char {
    if upper {
        ascii_upper(c)
    } else {
        ascii_lower(c)
    }
}

/// `s` with its ASCII letters put in one case.
pub open spec fn with_case(s: Seq<char>, upper: bool) -> Seq<char> {
    s.map_values(|c: char| change_case(c, upper))
}

proof fn lemma_change_case_char(c: char, upper: bool)
    ensures
        (change_case(c, upper) == '#') == (c == '#'),
        crate::text::char_utf8_len(change_case(c, upper)) == crate::text::char_utf8_len(c),
        is_hex_digit(change_case(c, upper)) == is_hex_digit(c),
        ascii_lower(change_case(c, upper)) == ascii_lower(c),
{
}

proof fn lemma_strip_hashes_case(s: Seq<char>, upper: bool)
    ensures
        strip_hashes(with_case(s, upper)) == with_case(strip_hashes(s), upper),
    decreases s.len(),
{
    if s.len() > 0 {
        lemma_change_case_char(s[0], upper);
        assert(with_case(s, upper)[0] == change_case(s[0], upper));
        assert(with_case(s, upper).drop_first() == with_case(s.drop_first(), upper));
        lemma_strip_hashes_case(s.drop_first(), upper);
    }
}

proof fn lemma_utf8_len_case(s: Seq<char>, upper: bool)
    ensures
        utf8_len(with_case(s, upper)) == utf8_len(s),
    decreases s.len(),
{
    if s.len() > 0 {
        lemma_change_case_char(s.last(), upper);
        assert(with_case(s, upper).drop_last() == with_case(s.drop_last(), upper));
        assert(with_case(s, upper).last() == change_case(s.last(), upper));
        lemma_utf8_len_case(s.drop_last(), upper);
    }
}

proof fn lemma_double_each_case(s: Seq<char>, upper: bool)
    ensures
        double_each(with_case(s, upper)) == with_case(double_each(s), upper),
    decreases s.len(),
{
    if s.len() > 0 {
        assert(with_case(s, upper).drop_last() == with_case(s.drop_last(), upper));
        assert(with_case(s, upper).last() == change_case(s.last(), upper));
        lemma_double_each_case(s.drop_last(), upper);
        let c = s.last();
        assert(with_case(double_each(s.drop_last()) + seq![c, c], upper) == with_case(
            double_each(s.drop_last()),
            upper,
        ) + seq![change_case(c, upper), change_case(c, upper)]);
    }
}

/// Validating a colour does not depend on the case of its ASCII letters:
/// with all of them in upper case, or all in lower case, the answer (the
/// colour, or the error with its parameter and reason) is the same.
pub proof fn lemma_hex_color_ignores_case(color: Seq<char>, param: Seq<char>, upper: bool)
    ensures
        hex_color_result(with_case(color, upper), param) == hex_color_result(color, param),
{
    let s = strip_hashes(color);
    let cs = with_case(color, upper);
    lemma_strip_hashes_case(color, upper);
    lemma_utf8_len_case(s, upper);
    lemma_double_each_case(s, upper);
    let len = utf8_len(s);
    if len == 3 || len == 6 {
        let n = if len == 3 {
            double_each(s)
        } else {
            s
        };
        let nc = with_case(n, upper);
        assert(strip_hashes(cs) == with_case(s, upper));
        assert forall|i: int| 0 <= i < n.len() implies is_hex_digit(#[trigger] nc[i])
            == is_hex_digit(n[i]) by {
            lemma_change_case_char(n[i], upper);
        }
        if all_hex(n) {
            assert(all_hex(nc));
        } else {
            let k = choose|k: int| 0 <= k < n.len() && !is_hex_digit(#[trigger] n[k]);
            assert(!is_hex_digit(nc[k]));
        }
        let a = nc.map_values(|c: char| ascii_lower(c));
        let b = n.map_values(|c: char| ascii_lower(c));
        assert forall|i: int| 0 <= i < n.len() implies #[trigger] a[i] == b[i] by {
            lemma_change_case_char(n[i], upper);
        }
        assert(a == b);
    }
}

/// The ranges that the parameter table promises of validated parameters.
pub open spec fn params_in_range(p: CardParamsView) -> bool {
    &&& trim(p.username).len() > 0
    &&& username_ok(p.username)
    &&& (p.primary_color matches Some(c) ==> is_normal_hex_color(c))
    &&& (p.accent_color matches Some(c) ==> is_normal_hex_color(c))
    &&& 1 <= p.number_of_languages <= 10
    &&& 100 <= p.bar_animation_speed <= 5000
    &&& 4 <= p.bar_height <= 40
    &&& 200 <= p.card_width <= 800
    &&& TEXT_SIZE_MIN_BITS <= p.text_size <= TEXT_SIZE_MAX_BITS
    &&& p.border_radius <= 40
    &&& forall|i: int|
        0 <= i < p.exclude_languages.len() ==> (#[trigger] p.exclude_languages[i]).len() > 0
}

proof fn lemma_exclusion_list_nonempty(pieces: Seq<Seq<char>>)
    ensures
        forall|i: int|
            0 <= i < exclusion_list(pieces).len() ==> (#[trigger] exclusion_list(pieces)[i]).len()
                > 0,
    decreases pieces.len(),
{
    if pieces.len() > 0 {
        lemma_exclusion_list_nonempty(pieces.drop_last());
        let init = exclusion_list(pieces.drop_last());
        let r = exclusion_list(pieces);
        assert forall|i: int| 0 <= i < r.len() implies (#[trigger] r[i]).len() > 0 by {
            if i < init.len() {
                assert(r[i] == init[i]);
            }
        }
    }
}

/// Every request that is accepted yields parameters within the documented
/// ranges: a nonblank username of letters, digits and hyphens of at most 39
/// bytes, colours as `#rrggbb`, each number within its bounds, and no empty
/// name in the exclusion list.
pub proof fn lemma_accepted_params_in_range(raw: RawParamsView)
    ensures
        card_params_result(raw) matches Ok(p) ==> params_in_range(p),
{
    if let Some(c) = raw.primary_color {
        lemma_hex_color_normal_form(c, "primaryColor"@);
    }
    if let Some(c) = raw.accent_color {
        lemma_hex_color_normal_form(c, "accentColor"@);
    }
    match raw.exclude_languages {
        Some(e) => lemma_exclusion_list_nonempty(split_commas(e)),
        None => lemma_exclusion_list_nonempty(split_commas(Seq::empty())),
    }
}


// ── What the parameters mean ────────────────────────────────────────────────

/// Every accepted request keeps what it asked for: the username as given, a
/// given theme, sort order, switch and number as given and each absent one at
/// its documented default, a given colour in its validated form and an absent
/// one absent, and the exclusion list read from the parameter.
pub proof fn lemma_accepted_params_keep_given_values(raw: RawParamsView)
    ensures
        card_params_result(raw) matches Ok(p) ==> {
            &&& raw.username == Some(p.username)
            &&& p.theme == (match raw.theme {
                Some(t) => t,
                None => Theme::Dark,
            })
            &&& (match raw.primary_color {
                None => p.primary_color is None,
                Some(c) => p.primary_color is Some && hex_color_result(c, "primaryColor"@) == Ok::<
                    Seq<char>,
                    AppErrorView,
                >(p.primary_color.unwrap()),
            })
            &&& (match raw.accent_color {
                None => p.accent_color is None,
                Some(c) => p.accent_color is Some && hex_color_result(c, "accentColor"@) == Ok::<
                    Seq<char>,
                    AppErrorView,
                >(p.accent_color.unwrap()),
            })
            &&& p.bar_animation_speed == (match raw.bar_animation_speed {
                Some(n) => n,
                None => 1000,
            })
            &&& p.number_of_languages == (match raw.number_of_languages {
                Some(n) => n,
                None => 5,
            })
            &&& p.bar_height == (match raw.bar_height {
                Some(n) => n,
                None => 10,
            })
            &&& p.card_width == (match raw.card_width {
                Some(n) => n,
                None => 400,
            })
            &&& p.show_percentages == (match raw.show_percentages {
                Some(b) => b,
                None => true,
            })
            &&& p.text_size == (match raw.text_size {
                Some(n) => n,
                None => 0x3f80_0000u32,
            })
            &&& p.sort_by == (match raw.sort_by {
                Some(b) => b,
                None => SortBy::Bytes,
            })
            &&& p.border_radius == (match raw.border_radius {
                Some(n) => n,
                None => 12,
            })
            &&& p.exclude_languages == parse_exclusions(
                match raw.exclude_languages {
                    Some(e) => e,
                    None => Seq::empty(),
                },
            )
        },
{
}

/// The pieces joined again with a comma between each two.
pub open spec fn join_commas(pieces: Seq<Seq<char>>) -> Seq<char>
    decreases pieces.len(),
{
    if pieces.len() <= 1 {
        if pieces.len() == 1 {
            pieces[0]
        } else {
            Seq::empty()
        }
    } else {
        join_commas(pieces.drop_last()) + seq![','] + pieces.last()
    }
}

/// Cutting at the commas loses nothing: no piece holds a comma, and the pieces
/// joined with commas give back the text.
pub proof fn lemma_split_commas_rejoins(s: Seq<char>)
    ensures
        join_commas(split_commas(s)) == s,
        forall|k: int, j: int|
            0 <= k < split_commas(s).len() && 0 <= j < split_commas(s)[k].len() ==> #[trigger] split_commas(
                s,
            )[k][j] != ',',
    decreases s.len(),
{
    if s.len() > 0 {
        lemma_split_commas_rejoins(s.drop_last());
        lemma_split_commas_nonempty(s.drop_last());
        let init = split_commas(s.drop_last());
        let out = split_commas(s);
        if s.last() == ',' {
            assert(out.drop_last() == init);
            assert(out.last() == Seq::<char>::empty());
            assert(join_commas(out) == join_commas(init) + seq![','] + Seq::<char>::empty());
            assert(s.drop_last().push(s.last()) == s);
            assert forall|k: int, j: int|
                0 <= k < out.len() && 0 <= j < out[k].len() implies #[trigger] out[k][j] != ',' by {
                assert(k < init.len());
                assert(out[k] == init[k]);
            }
        } else {
            let n = init.len() - 1;
            assert(out == init.update(n, init[n].push(s.last())));
            if init.len() == 1 {
                assert(join_commas(init) == init[0]);
                assert(join_commas(out) == out[0]);
            } else {
                assert(out.drop_last() == init.drop_last());
                assert(join_commas(out) == join_commas(init.drop_last()) + seq![','] + out.last());
                assert(join_commas(init) == join_commas(init.drop_last()) + seq![','] + init.last());
            }
            assert(s.drop_last().push(s.last()) == s);
            assert forall|k: int, j: int|
                0 <= k < out.len() && 0 <= j < out[k].len() implies #[trigger] out[k][j] != ',' by {
                if k < n {
                    assert(out[k] == init[k]);
                } else if j < init[n].len() {
                    assert(out[k][j] == init[n][j]);
                }
            }
        }
    }
}

/// The exclusion list holds exactly the pieces, trimmed and lowercased, that
/// are not empty: none is dropped, however short.
pub proof fn lemma_exclusions_keep_every_name(pieces: Seq<Seq<char>>)
    ensures
        forall|x: Seq<char>|
            #[trigger] exclusion_list(pieces).contains(x) <==> (x.len() > 0 && exists|k: int|
                0 <= k < pieces.len() && x == lowercase(trim(#[trigger] pieces[k]))),
        forall|x: Seq<char>|
            #[trigger] ascii_exclusion_list(pieces).contains(x) <==> (x.len() > 0 && exists|k: int|
                0 <= k < pieces.len() && x == trim(#[trigger] pieces[k]).map_values(
                    |c: char| ascii_lower(c),
                )),
    decreases pieces.len(),
{
    if pieces.len() > 0 {
        let d = pieces.drop_last();
        lemma_exclusions_keep_every_name(d);
        let last = pieces.last();
        let init = exclusion_list(d);
        let out = exclusion_list(pieces);
        let t = lowercase(trim(last));
        assert forall|x: Seq<char>| #[trigger] out.contains(x) <==> (x.len() > 0 && exists|k: int|
            0 <= k < pieces.len() && x == lowercase(trim(#[trigger] pieces[k]))) by {
            if out.contains(x) {
                let m = choose|m: int| 0 <= m < out.len() && out[m] == x;
                if m < init.len() {
                    assert(init[m] == x);
                    assert(init.contains(x));
                    let k = choose|k: int| 0 <= k < d.len() && x == lowercase(trim(#[trigger] d[k]));
                    assert(pieces[k] == d[k]);
                } else {
                    assert(x == t);
                    assert(pieces[pieces.len() - 1] == last);
                }
            }
            if x.len() > 0 && exists|k: int|
                0 <= k < pieces.len() && x == lowercase(trim(#[trigger] pieces[k])) {
                let k = choose|k: int|
                    0 <= k < pieces.len() && x == lowercase(trim(#[trigger] pieces[k]));
                if k < d.len() {
                    assert(d[k] == pieces[k]);
                    assert(init.contains(x));
                    let m = choose|m: int| 0 <= m < init.len() && init[m] == x;
                    assert(out[m] == x);
                } else {
                    assert(out[out.len() - 1] == x);
                }
            }
        }
        let ainit = ascii_exclusion_list(d);
        let aout = ascii_exclusion_list(pieces);
        let at = trim(last).map_values(|c: char| ascii_lower(c));
        assert forall|x: Seq<char>| #[trigger] aout.contains(x) <==> (x.len() > 0 && exists|k: int|
            0 <= k < pieces.len() && x == trim(#[trigger] pieces[k]).map_values(
                |c: char| ascii_lower(c),
            )) by {
            if aout.contains(x) {
                let m = choose|m: int| 0 <= m < aout.len() && aout[m] == x;
                if m < ainit.len() {
                    assert(ainit[m] == x);
                    assert(ainit.contains(x));
                    let k = choose|k: int|
                        0 <= k < d.len() && x == trim(#[trigger] d[k]).map_values(
                            |c: char| ascii_lower(c),
                        );
                    assert(pieces[k] == d[k]);
                } else {
                    assert(x == at);
                    assert(pieces[pieces.len() - 1] == last);
                }
            }
            if x.len() > 0 && exists|k: int|
                0 <= k < pieces.len() && x == trim(#[trigger] pieces[k]).map_values(
                    |c: char| ascii_lower(c),
                ) {
                let k = choose|k: int|
                    0 <= k < pieces.len() && x == trim(#[trigger] pieces[k]).map_values(
                        |c: char| ascii_lower(c),
                    );
                if k < d.len() {
                    assert(d[k] == pieces[k]);
                    assert(ainit.contains(x));
                    let m = choose|m: int| 0 <= m < ainit.len() && ainit[m] == x;
                    assert(aout[m] == x);
                } else {
                    assert(aout[aout.len() - 1] == x);
                }
            }
        }
    }
}

/// A GitHub login as the parameter table describes it: 1 to 39 characters,
/// each an ASCII letter of either case, an ASCII digit or a hyphen.
pub open spec fn is_plain_login(u: Seq<char>) -> bool {
    &&& 1 <= u.len() <= 39
    &&& forall|i: int|
        0 <= i < u.len() ==> {
            let c = #[trigger] u[i];
            ('a' <= c && c <= 'z') || ('A' <= c && c <= 'Z') || ('0' <= c && c <= '9') || c == '-'
        }
}

/// A request that gives only a username.
pub open spec fn only_username(u: Seq<char>) -> RawParamsView {
    RawParamsView {
        username: Some(u),
        theme: None,
        primary_color: None,
        accent_color: None,
        bar_animation_speed: None,
        number_of_languages: None,
        bar_height: None,
        card_width: None,
        show_percentages: None,
        text_size: None,
        sort_by: None,
        border_radius: None,
        exclude_languages: None,
    }
}

/// Which usernames are accepted: every login of 1 to 39 ASCII letters (of
/// either case), digits and hyphens is, and kept as given; a username with
/// any other character, or longer than 39, is refused; a blank one counts as
/// missing.
pub proof fn lemma_username_rule(u: Seq<char>)
    ensures
        is_plain_login(u) ==> (card_params_result(only_username(u)) matches Ok(p) && p.username
            == u),
        (exists|i: int|
            0 <= i < u.len() && !({
                let c = #[trigger] u[i];
                ('a' <= c && c <= 'z') || ('A' <= c && c <= 'Z') || ('0' <= c && c <= '9') || c
                    == '-'
            })) ==> card_params_result(only_username(u)) is Err,
        u.len() > 39 ==> card_params_result(only_username(u)) is Err,
        trim(u).len() == 0 ==> card_params_result(only_username(u)) == Err::<
            CardParamsView,
            AppErrorView,
        >(AppErrorView::MissingParam("username"@)),
{
    crate::text::lemma_utf8_len_at_least_chars(u);
    if is_plain_login(u) {
        assert(!crate::text::is_whitespace(u[0]));
        assert(!crate::text::is_whitespace(u.last()));
        assert(trim_start(u) == u);
        assert(trim_end(u) == u);
        assert forall|i: int| 0 <= i < u.len() implies (#[trigger] u[i] as u32) < 0x80 by {
            let c = u[i];
            assert(('a' <= c && c <= 'z') || ('A' <= c && c <= 'Z') || ('0' <= c && c <= '9') || c
                == '-');
        }
        crate::text::lemma_utf8_len_ascii(u);
        assert forall|i: int| 0 <= i < u.len() implies is_username_char(#[trigger] u[i]) by {
            let c = u[i];
            assert(('a' <= c && c <= 'z') || ('A' <= c && c <= 'Z') || ('0' <= c && c <= '9') || c
                == '-');
        }
        assert(username_ok(u));
    }
    if exists|i: int|
        0 <= i < u.len() && !({
            let c = #[trigger] u[i];
            ('a' <= c && c <= 'z') || ('A' <= c && c <= 'Z') || ('0' <= c && c <= '9') || c == '-'
        }) {
        let i = choose|i: int|
            0 <= i < u.len() && !({
                let c = #[trigger] u[i];
                ('a' <= c && c <= 'z') || ('A' <= c && c <= 'Z') || ('0' <= c && c <= '9') || c
                    == '-'
            });
        assert(!is_username_char(u[i]));
        assert(!username_ok(u));
    }
}

} // verus!
