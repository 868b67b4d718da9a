//! Process configuration, from the values its environment holds.
use vstd::prelude::*;
use crate::errors::ApiError;

verus! {

/// Port the server listens on when none, or no valid one, is configured.
pub const DEFAULT_PORT: u16 = 8080;

pub struct Config {
    pub database_url: String,
    pub server_port: u16,
    pub workers: usize,
}

pub open spec fn is_digit(c: char) -> bool {
    '0' <= c && c <= '9'
}

/// The value of a string of decimal digits.
pub open spec fn digits_value(s: Seq<char>) -> int
    decreases s.len(),
{
    if s.len() == 0 {
        0
    } else {
        digits_value(s.drop_last()) * 10 + (s.last() as u32 - '0' as u32)
    }
}

/// A port number as text: an optional `+`, then one or more decimal digits, of value at
/// most 65535.
pub open spec fn port_value(s: Seq<char>) -> Option<u16> {
    port_of_digits(unsigned_part(s))
}

/// The text after an optional leading `+`.
pub open spec fn unsigned_part(s: Seq<char>) -> Seq<char> {
    if s.len() > 0 && s[0] == '+' {
        s.drop_first()
    } else {
        s
    }
}

pub open spec fn all_digits(d: Seq<char>) -> bool {
    forall|i: int| 0 <= i < d.len() ==> is_digit(#[trigger] d[i])
}

pub open spec fn port_of_digits(d: Seq<char>) -> Option<u16> {
    if d.len() > 0 && all_digits(d) && digits_value(d) <= 65535 {
        Some(digits_value(d) as u16)
    } else {
        None
    }
}

proof fn lemma_digits_value_nonneg(s: Seq<char>)
    requires
        forall|i: int| 0 <= i < s.len() ==> is_digit(#[trigger] s[i]),
    ensures
        digits_value(s) >= 0,
    decreases s.len(),
{
    if s.len() > 0 {
        let t = s.drop_last();
        assert forall|i: int| 0 <= i < t.len() implies is_digit(#[trigger] t[i]) by {
            assert(is_digit(s[i]));
        }
        lemma_digits_value_nonneg(t);
    }
}

/// Reads a port number.
pub fn parse_port(s: &str) -> (r: Option<u16>)
    ensures
        r == port_value(s@),
{
    let n = s.unicode_len();
    let mut start: usize = 0;
    if n > 0 && s.get_char(0) == '+' {
        start = 1;
    }
    let ghost d = unsigned_part(s@);
    assert(d =~= s@.subrange(start as int, n as int));
    if start == n {
        return None;
    }
    // value of the digits read so far, held at 65536 once it is larger
    let mut v: u32 = 0;
    let mut i: usize = start;
    while i < n
        invariant
            n == s@.len(),
            start <= i <= n,
            d == s@.subrange(start as int, n as int),
            d == unsigned_part(s@),
            forall|j: int| 0 <= j < i - start ==> is_digit(#[trigger] d[j]),
            v as int == (if digits_value(d.subrange(0, i - start)) <= 65536 {
                digits_value(d.subrange(0, i - start))
            } else {
                65536
            }),
        decreases n - i,
    {
        let c = s.get_char(i);
        if c < '0' || c > '9' {
            assert(!is_digit(d[i - start]));
            assert(!all_digits(d));
            return None;
        }
        let ghost prefix = d.subrange(0, i - start);
        let ghost next = d.subrange(0, i + 1 - start);
        assert(next.drop_last() =~= prefix);
        assert forall|j: int| 0 <= j < prefix.len() implies is_digit(#[trigger] prefix[j]) by {
            assert(is_digit(d[j]));
        }
        proof {
            lemma_digits_value_nonneg(prefix);
        }
        let w = v * 10 + (c as u32 - '0' as u32);
        v = if w > 65536 { 65536 } else { w };
        i = i + 1;
    }
    assert(d.subrange(0, n - start) =~= d);
    if v <= 65535 {
        Some(v as u16)
    } else {
        None
    }
}

impl Config {
    /// The configuration from the database location, the configured port, if any, and
    /// the number of workers. The database location is required; a missing or invalid
    /// port falls back to the default.
    pub fn from_values(database_url: Option<String>, app_port: Option<String>, workers: usize) -> (r:
        Result<Config, ApiError>)
        ensures
            database_url is None <==> r is Err,
            r is Err ==> r->Err_0 is ConfigError && r->Err_0.spec_detail()
                == "environment variable not found"@,
            r is Ok ==> {
                let c = r->Ok_0;
                &&& c.database_url@ == database_url->0@
                &&& c.workers == workers
                &&& c.server_port == match app_port {
                    Some(p) => match port_value(p@) {
                        Some(v) => v,
                        None => DEFAULT_PORT,
                    },
                    None => DEFAULT_PORT,
                }
            },
    {
        let database_url = match database_url {
            Some(u) => u,
            None => {
                return Err(ApiError::ConfigError(String::from_str("environment variable not found")));
            },
        };
        let server_port = match app_port {
            Some(p) => match parse_port(p.as_str()) {
                Some(v) => v,
                None => DEFAULT_PORT,
            },
            None => DEFAULT_PORT,
        };
        Ok(Config { database_url, server_port, workers })
    }
}

} // verus!
