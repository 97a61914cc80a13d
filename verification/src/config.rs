//! Service configuration: the GitHub token and the port to listen on.
use vstd::prelude::*;

use crate::text::{chars_of, decimal, digit_char, trim, trim_chars};

verus! {

/// The settings the service runs with.
#[derive(Debug, Clone)]
pub struct Config {
    pub github_token: String,
    pub port: u16,
}

/// `Config` with the token taken as a character sequence.
pub struct ConfigView {
    pub github_token: Seq<char>,
    pub port: u16,
}

impl View for Config {
    type V = ConfigView;

    open spec fn view(&self) -> ConfigView {
        ConfigView { github_token: self.github_token@, port: self.port }
    }
}

pub open spec fn is_ascii_digit(c: char) -> bool {
    '0' <= c && c <= '9'
}

/// The number that a string of decimal digits denotes.
pub open spec fn digits_value(s: Seq<char>) -> nat
    decreases s.len(),
{
    if s.len() == 0 {
        0
    } else {
        digits_value(s.drop_last()) * 10 + ((s.last() as u32) - 48) as nat
    }
}

/// Every character is a decimal digit.
pub open spec fn all_digits(s: Seq<char>) -> bool {
    forall|i: int| 0 <= i < s.len() ==> is_ascii_digit(#[trigger] s[i])
}

/// `s` without one leading `+`, if it has one.
pub open spec fn without_plus(s: Seq<char>) -> Seq<char> {
    if s.len() > 0 && s[0] == '+' {
        s.drop_first()
    } else {
        s
    }
}

/// What `str::parse::<u16>` answers: an optional `+`, then one or more
/// decimal digits denoting at most 65535.
pub open spec fn parse_u16(s: Seq<char>) -> Option<u16> {
    let d = without_plus(s);
    if d.len() == 0 || !all_digits(d) {
        None
    } else if digits_value(d) > 65535 {
        None
    } else {
        Some(digits_value(d) as u16)
    }
}

pub proof fn lemma_digits_value_prefix(s: Seq<char>, k: int)
    requires
        0 <= k <= s.len(),
        forall|i: int| 0 <= i < s.len() ==> is_ascii_digit(#[trigger] s[i]),
    ensures
        digits_value(s.take(k)) <= digits_value(s),
    decreases s.len(),
{
    if k < s.len() {
        assert(s.drop_last().take(k) == s.take(k));
        assert forall|i: int| 0 <= i < s.drop_last().len() implies is_ascii_digit(
            #[trigger] s.drop_last()[i],
        ) by {
            assert(s.drop_last()[i] == s[i]);
        }
        lemma_digits_value_prefix(s.drop_last(), k);
        assert(is_ascii_digit(s.last()));
    } else {
        assert(s.take(k) == s);
    }
}

/// Parses a port number as `str::parse::<u16>` does.
pub fn parse_port(s: &str) -> (r: Option<u16>)
    ensures
        r == parse_u16(s@),
{
    let cs = chars_of(s);
    let start: usize = if cs.len() > 0 && cs[0] == '+' {
        1
    } else {
        0
    };
    let ghost d = without_plus(s@);
    assert(d == cs@.skip(start as int));
    if start == cs.len() {
        return None;
    }
    let mut value: u32 = 0;
    let mut i: usize = start;
    while i < cs.len()
        invariant
            start <= i <= cs@.len(),
            cs@ == s@,
            d == without_plus(s@),
            d == cs@.skip(start as int),
            value == digits_value(cs@.subrange(start as int, i as int)),
            value <= 65535,
            forall|j: int| start <= j < i ==> is_ascii_digit(#[trigger] cs@[j]),
        decreases cs.len() - i,
    {
        let c = cs[i];
        if !('0' <= c && c <= '9') {
            assert(d[i - start] == cs@[i as int]);
            assert(!is_ascii_digit(d[i - start]));
            return None;
        }
        assert(cs@.subrange(start as int, i + 1).drop_last() == cs@.subrange(
            start as int,
            i as int,
        ));
        value = value * 10 + (c as u32 - 48);
        i = i + 1;
        if value > 65535 {
            proof {
                let prefix = cs@.subrange(start as int, i as int);
                if all_digits(d) {
                    assert(d.take(i - start) == prefix);
                    lemma_digits_value_prefix(d, i - start);
                }
            }
            return None;
        }
    }
    assert(cs@.subrange(start as int, i as int) == d);
    Some(value as u16)
}

pub open spec fn token_missing_message() -> Seq<char> {
    "GITHUB_TOKEN environment variable is required"@
}

pub open spec fn token_empty_message() -> Seq<char> {
    "GITHUB_TOKEN must not be empty"@
}

pub open spec fn bad_port_message() -> Seq<char> {
    "PORT must be a valid port number (0–65535)"@
}

/// What `Config::from_vars` answers for the values of `GITHUB_TOKEN` and
/// `PORT` (`None` where a variable is unset or not Unicode): the token must
/// be present and not blank; the port defaults to 3000.
pub open spec fn config_result(token: Option<Seq<char>>, port: Option<Seq<char>>) -> Result<
    ConfigView,
    Seq<char>,
> {
    match token {
        None => Err(token_missing_message()),
        Some(t) => if trim(t).len() == 0 {
            Err(token_empty_message())
        } else {
            let p = match port {
                Some(p) => p,
                None => "3000"@,
            };
            match parse_u16(p) {
                None => Err(bad_port_message()),
                Some(n) => Ok(ConfigView { github_token: t, port: n }),
            }
        },
    }
}

impl Config {
    /// Builds the configuration from the values of the `GITHUB_TOKEN` and
    /// `PORT` environment variables.
    pub fn from_vars(github_token: Option<String>, port: Option<String>) -> (r: Result<
        Config,
        String,
    >)
        ensures
            match r {
                Ok(c) => config_result(github_token.deep_view(), port.deep_view()) == Ok::<
                    ConfigView,
                    Seq<char>,
                >(c@),
                Err(m) => config_result(github_token.deep_view(), port.deep_view()) == Err::<
                    ConfigView,
                    Seq<char>,
                >(m@),
            },
    {
        let github_token = match github_token {
            None => {
                return Err(String::from_str("GITHUB_TOKEN environment variable is required"));
            },
            Some(t) => t,
        };
        let tcs = chars_of(github_token.as_str());
        if trim_chars(tcs.as_slice()).len() == 0 {
            return Err(String::from_str("GITHUB_TOKEN must not be empty"));
        }
        let parsed = match &port {
            Some(p) => parse_port(p.as_str()),
            None => parse_port("3000"),
        };
        match parsed {
            None => Err(String::from_str("PORT must be a valid port number (0–65535)")),
            Some(port) => Ok(Config { github_token, port }),
        }
    }
}


// ── Laws ─────────────────────────────────────────────────────────────────────

proof fn lemma_decimal_digits(n: nat)
    ensures
        decimal(n).len() > 0,
        all_digits(decimal(n)),
        digits_value(decimal(n)) == n,
    decreases n,
{
    let d = n % 10;
    let c = digit_char(d);
    let s = decimal(n);
    assert(c == ((d + 48) as u8) as char);
    assert((c as u32) == d + 48);
    if n >= 10 {
        lemma_decimal_digits(n / 10);
        assert(s.drop_last() == decimal(n / 10));
        assert(s.last() == c);
        assert(digits_value(s) == digits_value(decimal(n / 10)) * 10 + d);
        assert((n / 10) * 10 + n % 10 == n) by (nonlinear_arith);
        assert(digits_value(s) == n);
        assert forall|i: int| 0 <= i < s.len() implies is_ascii_digit(#[trigger] s[i]) by {
            if i < s.len() - 1 {
                assert(s[i] == decimal(n / 10)[i]);
            }
        }
    } else {
        assert(s.drop_last() == Seq::<char>::empty());
        assert(s.last() == c);
        assert(digits_value(Seq::<char>::empty()) == 0);
        assert(digits_value(s) == n);
    }
}

/// Every port number written in decimal is read back as that number.
pub proof fn lemma_port_round_trip(n: u16)
    ensures
        parse_u16(decimal(n as nat)) == Some(n),
{
    lemma_decimal_digits(n as nat);
    let s = decimal(n as nat);
    assert(is_ascii_digit(s[0]));
    assert(without_plus(s) == s);
}

/// Without a `PORT` the service listens on port 3000, and a blank token is
/// refused.
pub proof fn lemma_config_defaults(token: Seq<char>)
    ensures
        trim(token).len() > 0 ==> config_result(Some(token), None) == Ok::<ConfigView, Seq<char>>(
            ConfigView { github_token: token, port: 3000 },
        ),
        trim(token).len() == 0 ==> config_result(Some(token), None) == Err::<ConfigView, Seq<char>>(
            token_empty_message(),
        ),
{
    reveal_strlit("3000");
    reveal_with_fuel(decimal, 4);
    assert(decimal(3000) == "3000"@);
    lemma_port_round_trip(3000);
}

} // verus!
