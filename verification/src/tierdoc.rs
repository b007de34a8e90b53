//! The tier configuration document.
//!
//! The tier watcher receives a table-style text document with a top-level
//! `tiers` array; each element carries a `name`, a `max_connections` count
//! and a `rates` array of `{limit, interval}` pairs.  The grammar accepted
//! here is line-based: `[[tiers]]` opens a tier, `[[tiers.rates]]` opens a
//! rate under the current tier, `key = value` lines fill the open item,
//! blank lines and lines starting with `#` say nothing, and anything else
//! fails the document.  Intervals are `<integer><unit>` with units
//! `s|m|h|d`; other units are rejected, as are zero or overflowing
//! durations and zero rate limits (a token bucket cannot be built from
//! them).  A failed document leaves the previous snapshot standing; the
//! caller decides that.

use vstd::prelude::*;
use vstd::arithmetic::div_mod::lemma_fundamental_div_mod;

use crate::registry::{tier_ok, Tier, TierRate, TierV, MAX_INTERVAL_SECS};
use crate::sni::is_digit;

verus! {

// ---------------------------------------------------------------------
// Characters, runs and trimming
// ---------------------------------------------------------------------
pub open spec fn is_space(c: char) -> bool {
    c == ' ' || c == '\t' || c == '\r'
}

/// The first position at or after `i` holding `target`; `s.len()` if none.
pub open spec fn find_from(s: Seq<char>, i: int, target: char) -> int
    decreases s.len() - i,
{
    if i < 0 || i >= s.len() {
        s.len() as int
    } else if s[i] == target {
        i
    } else {
        find_from(s, i + 1, target)
    }
}

pub proof fn lemma_find_from_is(s: Seq<char>, i: int, j: int, target: char)
    requires
        0 <= i <= j <= s.len(),
        forall|m: int| i <= m < j ==> s[m] != target,
        j == s.len() || s[j] == target,
    ensures
        find_from(s, i, target) == j,
    decreases j - i,
{
    if i < j {
        lemma_find_from_is(s, i + 1, j, target);
    }
}

/// Scans for the first `target` at or after `from`.
pub fn find_char(s: &str, from: usize, target: char) -> (r: usize)
    requires
        from <= s@.len(),
    ensures
        r == find_from(s@, from as int, target),
        from <= r <= s@.len(),
        r < s@.len() ==> s@[r as int] == target,
        forall|m: int| from <= m < r ==> s@[m] != target,
    decreases s@.len() - from,
{
    let n = s.unicode_len();
    let mut e: usize = from;
    while e < n
        invariant
            from <= e <= n,
            n == s@.len(),
            forall|m: int| from <= m < e ==> s@[m] != target,
        decreases n - e,
    {
        if s.get_char(e) == target {
            proof {
                lemma_find_from_is(s@, from as int, e as int, target);
            }
            return e;
        }
        e = e + 1;
    }
    proof {
        lemma_find_from_is(s@, from as int, n as int, target);
    }
    n
}

/// The first non-space position at or after `i`.
pub open spec fn skip_space(s: Seq<char>, i: int) -> int
    decreases s.len() - i,
{
    if i < 0 || i >= s.len() || !is_space(s[i]) {
        i
    } else {
        skip_space(s, i + 1)
    }
}

pub proof fn lemma_skip_space_is(s: Seq<char>, i: int, j: int)
    requires
        0 <= i <= j <= s.len(),
        forall|m: int| i <= m < j ==> is_space(#[trigger] s[m]),
        j == s.len() || !is_space(s[j]),
    ensures
        skip_space(s, i) == j,
    decreases j - i,
{
    if i < j {
        lemma_skip_space_is(s, i + 1, j);
    }
}

/// One past the last non-space position strictly below `i`; `0` if none.
pub open spec fn rskip_space(s: Seq<char>, i: int) -> int
    decreases i,
{
    if i <= 0 || i > s.len() {
        0
    } else if is_space(s[i - 1]) {
        rskip_space(s, i - 1)
    } else {
        i
    }
}

pub proof fn lemma_rskip_space_is(s: Seq<char>, i: int, j: int)
    requires
        0 <= j <= i <= s.len(),
        forall|m: int| j <= m < i ==> is_space(#[trigger] s[m]),
        j == 0 || !is_space(s[j - 1]),
    ensures
        rskip_space(s, i) == j,
    decreases i - j,
{
    if j < i {
        lemma_rskip_space_is(s, i - 1, j);
    }
}

/// `s` with spaces, tabs and carriage returns removed from both ends.
pub open spec fn trimmed(s: Seq<char>) -> Seq<char> {
    let a = skip_space(s, 0);
    let b = rskip_space(s, s.len() as int);
    if a <= b {
        s.subrange(a, b)
    } else {
        Seq::empty()
    }
}

/// Whether the character is trimmed off a line's ends.
pub fn space_char(c: char) -> (r: bool)
    ensures
        r == is_space(c),
{
    c == ' ' || c == '\t' || c == '\r'
}

/// Trims whitespace off both ends.
pub fn trim_str<'a>(s: &'a str) -> (r: &'a str)
    ensures
        r@ == trimmed(s@),
{
    let n = s.unicode_len();
    let mut a: usize = 0;
    while a < n && space_char(s.get_char(a))
        invariant
            0 <= a <= n,
            n == s@.len(),
            forall|m: int| 0 <= m < a ==> is_space(#[trigger] s@[m]),
        decreases n - a,
    {
        a = a + 1;
    }
    proof {
        lemma_skip_space_is(s@, 0, a as int);
    }
    let mut b: usize = n;
    while b > a && space_char(s.get_char(b - 1))
        invariant
            a <= b <= n,
            n == s@.len(),
            a == skip_space(s@, 0),
            a == n || !is_space(s@[a as int]),
            forall|m: int| b <= m < n ==> is_space(#[trigger] s@[m]),
        decreases b,
    {
        b = b - 1;
    }
    if b == a {
        // Everything past `a` is whitespace, so the whole line is: the
        // trim is empty.
        proof {
            assert(a == n) by {
                if (a as int) < n as int {
                    assert(is_space(s@[a as int]));
                }
            }
            lemma_rskip_space_is(s@, n as int, 0);
        }
        let r = s.substring_char(a, a);
        assert(r@ =~= trimmed(s@));
        r
    } else {
        proof {
            lemma_rskip_space_is(s@, n as int, b as int);
        }
        let r = s.substring_char(a, b);
        assert(r@ =~= trimmed(s@));
        r
    }
}

// ---------------------------------------------------------------------
// Numbers, quoted strings and intervals
// ---------------------------------------------------------------------
/// The value of one decimal digit; a character outside `0..=9` counts 0.
pub open spec fn digit_of(c: char) -> nat {
    if is_digit(c) {
        (c as nat - '0' as nat) as nat
    } else {
        0
    }
}

/// The value of a digit string, most significant first.
pub open spec fn digits_val(s: Seq<char>) -> nat
    decreases s.len(),
{
    if s.len() == 0 {
        0
    } else {
        digits_val(s.drop_last()) * 10 + digit_of(s.last())
    }
}

pub open spec fn all_digits(s: Seq<char>) -> bool {
    forall|i: int| 0 <= i < s.len() ==> is_digit(#[trigger] s[i])
}

/// The value a `max_connections` or `limit` line carries: a non-empty
/// digit string whose value fits the machine.
pub open spec fn num_value(s: Seq<char>) -> Option<usize> {
    if s.len() >= 1 && all_digits(s) && digits_val(s) <= usize::MAX {
        Some(digits_val(s) as usize)
    } else {
        None
    }
}

/// Parses a counted value.
pub fn parse_num(s: &str) -> (r: Option<usize>)
    ensures
        match r {
            Some(v) => num_value(s@) == Some(v),
            None => num_value(s@) is None,
        },
{
    let n = s.unicode_len();
    if n == 0 {
        return None;
    }
    let mut i: usize = 0;
    let mut acc: usize = 0;
    let mut over: bool = false;
    while i < n
        invariant
            0 <= i <= n,
            n == s@.len(),
            forall|j: int| 0 <= j < i ==> is_digit(#[trigger] s@[j]),
            !over ==> acc == digits_val(s@.subrange(0, i as int)),
            over ==> digits_val(s@.subrange(0, i as int)) > usize::MAX,
        decreases n - i,
    {
        let c = s.get_char(i);
        if !(('0' <= c && c <= '9')) {
            assert(!all_digits(s@));
            return None;
        }
        let d: usize = ((c as u32) - ('0' as u32)) as usize;
        proof {
            assert(s@.subrange(0, i + 1 as int).drop_last() =~= s@.subrange(0, i as int));
        }
        if !over {
            if acc <= (usize::MAX - d) / 10 {
                proof {
                    lemma_fundamental_div_mod((usize::MAX - d) as int, 10);
                }
                acc = acc * 10 + d;
            } else {
                proof {
                    lemma_fundamental_div_mod((usize::MAX - d) as int, 10);
                }
                assert(acc * 10 + d > usize::MAX);
                over = true;
            }
        }
        i = i + 1;
    }
    assert(s@.subrange(0, n as int) =~= s@);
    if over {
        return None;
    }
    Some(acc)
}

/// The contents of a quoted value: a leading and a trailing quote with no
/// quote or backslash between them.
pub open spec fn quoted_contents(s: Seq<char>) -> Option<Seq<char>> {
    if s.len() >= 2 && s[0] == '"' && s[s.len() - 1] == '"' && (forall|i: int|
        0 < i < s.len() - 1 ==> s[i] != '"' && s[i] != '\\') {
        Some(s.subrange(1, s.len() - 1))
    } else {
        None
    }
}

/// Parses a quoted value.
pub fn parse_quoted(s: &str) -> (r: Option<String>)
    ensures
        match r {
            Some(v) => quoted_contents(s@) == Some(v@),
            None => quoted_contents(s@) is None,
        },
{
    let n = s.unicode_len();
    if n < 2 || s.get_char(0) != '"' || s.get_char(n - 1) != '"' {
        return None;
    }
    let mut i: usize = 1;
    while i < n - 1
        invariant
            1 <= i <= n - 1,
            n == s@.len(),
            forall|j: int| 0 < j < i ==> s@[j] != '"' && s@[j] != '\\',
        decreases n - i,
    {
        let c = s.get_char(i);
        if c == '"' || c == '\\' {
            return None;
        }
        i = i + 1;
    }
    Some(s.substring_char(1, n - 1).to_owned())
}

/// Seconds per interval unit; zero marks a rejected unit.
pub open spec fn unit_mult(c: char) -> nat {
    if c == 's' {
        1
    } else if c == 'm' {
        60
    } else if c == 'h' {
        3600
    } else if c == 'd' {
        86400
    } else {
        0
    }
}

/// The seconds an interval string stands for: a non-empty digit string and
/// one unit character, with the whole in `1..=MAX_INTERVAL_SECS`.
pub open spec fn interval_secs(s: Seq<char>) -> Option<u64> {
    if s.len() < 2 || !all_digits(s.subrange(0, s.len() - 1)) || unit_mult(s.last()) == 0 {
        None
    } else {
        let v = digits_val(s.subrange(0, s.len() - 1)) * unit_mult(s.last());
        if 1 <= v <= MAX_INTERVAL_SECS {
            Some(v as u64)
        } else {
            None
        }
    }
}

/// Parses an interval string into seconds.
pub fn parse_interval(s: &str) -> (r: Option<u64>)
    ensures
        match r {
            Some(v) => interval_secs(s@) == Some(v),
            None => interval_secs(s@) is None,
        },
{
    let n = s.unicode_len();
    if n < 2 {
        return None;
    }
    let ghost digits = s@.subrange(0, n - 1 as int);
    let mut i: usize = 0;
    let mut acc: u64 = 0;
    while i < n - 1
        invariant
            0 <= i <= n - 1,
            n == s@.len(),
            n >= 2,
            digits == s@.subrange(0, n - 1 as int),
            forall|j: int| 0 <= j < i ==> is_digit(#[trigger] s@[j]),
            acc <= MAX_INTERVAL_SECS + 1,
            digits_val(digits.subrange(0, i as int)) > MAX_INTERVAL_SECS ==> acc
                == MAX_INTERVAL_SECS + 1,
            digits_val(digits.subrange(0, i as int)) <= MAX_INTERVAL_SECS ==> acc == digits_val(
                digits.subrange(0, i as int),
            ),
        decreases n - i,
    {
        let c = s.get_char(i);
        if !(('0' <= c && c <= '9')) {
            assert(!all_digits(digits)) by {
                assert(digits[i as int] == s@[i as int]);
            }
            return None;
        }
        let d: u64 = ((c as u32) - ('0' as u32)) as u64;
        proof {
            assert(digits.subrange(0, i + 1 as int).drop_last() =~= digits.subrange(0, i as int));
        }
        let grown = acc * 10 + d;
        if grown > MAX_INTERVAL_SECS {
            acc = MAX_INTERVAL_SECS + 1;
        } else {
            acc = grown;
        }
        i = i + 1;
    }
    assert(digits.subrange(0, n - 1 as int) =~= digits);
    let unit = s.get_char(n - 1);
    let mult: u64 = if unit == 's' {
        1
    } else if unit == 'm' {
        60
    } else if unit == 'h' {
        3600
    } else if unit == 'd' {
        86400
    } else {
        return None;
    };
    assert(mult == unit_mult(s@.last()) && mult >= 1);
    let bound: u64 = MAX_INTERVAL_SECS / mult;
    if acc < 1 || acc > bound {
        proof {
            lemma_fundamental_div_mod(MAX_INTERVAL_SECS as int, mult as int);
            if acc > bound && acc <= MAX_INTERVAL_SECS {
                assert(digits_val(digits) == acc);
                assert(digits_val(digits) * mult > MAX_INTERVAL_SECS) by (nonlinear_arith)
                    requires
                        digits_val(digits) == acc,
                        acc > bound,
                        mult >= 1,
                        MAX_INTERVAL_SECS == bound * mult + (MAX_INTERVAL_SECS as int) % (mult as int),
                        (MAX_INTERVAL_SECS as int) % (mult as int) < mult,
                ;
            }
            if acc > MAX_INTERVAL_SECS {
                assert(digits_val(digits) > MAX_INTERVAL_SECS);
                assert(digits_val(digits) * mult > MAX_INTERVAL_SECS) by (nonlinear_arith)
                    requires
                        digits_val(digits) > MAX_INTERVAL_SECS,
                        mult >= 1,
                ;
            }
        }
        return None;
    }
    proof {
        lemma_fundamental_div_mod(MAX_INTERVAL_SECS as int, mult as int);
        assert(1 <= acc * mult <= MAX_INTERVAL_SECS && acc <= acc * mult) by (nonlinear_arith)
            requires
                1 <= acc <= bound,
                mult >= 1,
                MAX_INTERVAL_SECS == bound * mult + (MAX_INTERVAL_SECS as int) % (mult as int),
                0 <= (MAX_INTERVAL_SECS as int) % (mult as int),
        ;
        assert(acc <= MAX_INTERVAL_SECS);
        assert(digits_val(digits) == acc);
        assert(all_digits(digits)) by {
            assert(forall|j: int|
                0 <= j < digits.len() ==> digits[j] == s@[j] && is_digit(#[trigger] digits[j]));
        }
    }
    Some(acc * mult)
}

// ---------------------------------------------------------------------
// Lines
// ---------------------------------------------------------------------
/// What one line of the document says.
pub ghost enum LineV {
    /// Nothing: blank, or a comment.
    Blank,
    /// `[[tiers]]`: a new tier opens.
    TierHeader,
    /// `[[tiers.rates]]`: a new rate under the open tier.
    RateHeader,
    /// `name = "<x>"` for the open tier.
    Name(Seq<char>),
    /// `max_connections = <n>` for the open tier.
    MaxConnections(usize),
    /// `limit = <n>` for the open rate; never zero.
    Limit(usize),
    /// `interval = "<n><unit>"` for the open rate, in seconds.
    Interval(u64),
    /// Anything else: the document fails.
    Bad,
}

/// What one line of the document says, as the executable carries it.
pub enum Line {
    Blank,
    TierHeader,
    RateHeader,
    Name(String),
    MaxConnections(usize),
    Limit(usize),
    Interval(u64),
    Bad,
}

impl View for Line {
    type V = LineV;

    open spec fn view(&self) -> LineV {
        match self {
            Line::Blank => LineV::Blank,
            Line::TierHeader => LineV::TierHeader,
            Line::RateHeader => LineV::RateHeader,
            Line::Name(x) => LineV::Name(x@),
            Line::MaxConnections(v) => LineV::MaxConnections(*v),
            Line::Limit(v) => LineV::Limit(*v),
            Line::Interval(v) => LineV::Interval(*v),
            Line::Bad => LineV::Bad,
        }
    }
}

/// Classifies one line of the document.
pub open spec fn line_of(s: Seq<char>) -> LineV {
    let t = trimmed(s);
    if t.len() == 0 || t[0] == '#' {
        LineV::Blank
    } else if t == "[[tiers]]"@ {
        LineV::TierHeader
    } else if t == "[[tiers.rates]]"@ {
        LineV::RateHeader
    } else {
        let e = find_from(t, 0, '=');
        if e >= t.len() {
            LineV::Bad
        } else {
            let k = trimmed(t.subrange(0, e));
            let v = trimmed(t.subrange(e + 1, t.len() as int));
            if k == "name"@ {
                match quoted_contents(v) {
                    Some(x) => LineV::Name(x),
                    None => LineV::Bad,
                }
            } else if k == "max_connections"@ {
                match num_value(v) {
                    Some(nv) => LineV::MaxConnections(nv),
                    None => LineV::Bad,
                }
            } else if k == "limit"@ {
                match num_value(v) {
                    Some(nv) => if nv >= 1 {
                        LineV::Limit(nv)
                    } else {
                        LineV::Bad
                    },
                    None => LineV::Bad,
                }
            } else if k == "interval"@ {
                match quoted_contents(v) {
                    Some(x) => match interval_secs(x) {
                        Some(sec) => LineV::Interval(sec),
                        None => LineV::Bad,
                    },
                    None => LineV::Bad,
                }
            } else {
                LineV::Bad
            }
        }
    }
}

/// Parses one line of the document.
pub fn parse_line(s: &str) -> (r: Line)
    ensures
        r@ == line_of(s@),
{
    let t = trim_str(s);
    let tn = t.unicode_len();
    if tn == 0 {
        return Line::Blank;
    }
    if t.get_char(0) == '#' {
        return Line::Blank;
    }
    if str_eq_chars(t, "[[tiers]]") {
        return Line::TierHeader;
    }
    if str_eq_chars(t, "[[tiers.rates]]") {
        return Line::RateHeader;
    }
    let e = find_char(t, 0, '=');
    if e >= tn {
        return Line::Bad;
    }
    let k = trim_str(t.substring_char(0, e));
    let v = trim_str(t.substring_char(e + 1, tn));
    if str_eq_chars(k, "name") {
        match parse_quoted(v) {
            Some(x) => Line::Name(x),
            None => Line::Bad,
        }
    } else if str_eq_chars(k, "max_connections") {
        match parse_num(v) {
            Some(x) => Line::MaxConnections(x),
            None => Line::Bad,
        }
    } else if str_eq_chars(k, "limit") {
        match parse_num(v) {
            Some(x) => if x >= 1 {
                Line::Limit(x)
            } else {
                Line::Bad
            },
            None => Line::Bad,
        }
    } else if str_eq_chars(k, "interval") {
        match parse_quoted(v) {
            Some(x) => match parse_interval(x.as_str()) {
                Some(sec) => Line::Interval(sec),
                None => Line::Bad,
            },
            None => Line::Bad,
        }
    } else {
        Line::Bad
    }
}

// ---------------------------------------------------------------------
// The document fold
// ---------------------------------------------------------------------
/// A rate being filled in.
#[verifier::ext_equal]
pub ghost struct PRateV {
    pub limit: Option<usize>,
    pub secs: Option<u64>,
}

/// A tier being filled in.
#[verifier::ext_equal]
pub ghost struct PTierV {
    pub name: Option<Seq<char>>,
    pub max: Option<usize>,
    pub rates: Seq<PRateV>,
}

/// The fold's state: the tiers seen so far, whether the open context is a
/// rate, and whether the document has failed.
#[verifier::ext_equal]
pub ghost struct DocStV {
    pub failed: bool,
    pub in_rate: bool,
    pub tiers: Seq<PTierV>,
}

pub struct PRate {
    pub limit: Option<usize>,
    pub secs: Option<u64>,
}

pub struct PTier {
    pub name: Option<String>,
    pub max: Option<usize>,
    pub rates: Vec<PRate>,
}

pub struct DocSt {
    pub failed: bool,
    pub in_rate: bool,
    pub tiers: Vec<PTier>,
}

impl View for PRate {
    type V = PRateV;

    open spec fn view(&self) -> PRateV {
        PRateV { limit: self.limit, secs: self.secs }
    }
}

impl View for PTier {
    type V = PTierV;

    open spec fn view(&self) -> PTierV {
        PTierV {
            name: match self.name {
                Some(x) => Some(x@),
                None => None,
            },
            max: self.max,
            rates: self.rates@.map_values(|r: PRate| r@),
        }
    }
}

impl View for DocSt {
    type V = DocStV;

    open spec fn view(&self) -> DocStV {
        DocStV {
            failed: self.failed,
            in_rate: self.in_rate,
            tiers: self.tiers@.map_values(|t: PTier| t@),
        }
    }
}

pub open spec fn doc_failed(st: DocStV) -> DocStV {
    DocStV { failed: true, ..st }
}

/// How one line changes the fold's state: headers open items,
/// assignments fill the open item once, anything out of place fails.
pub open spec fn doc_step(st: DocStV, l: LineV) -> DocStV {
    if st.failed {
        st
    } else {
        match l {
            LineV::Blank => st,
            LineV::TierHeader => DocStV {
                in_rate: false,
                tiers: st.tiers.push(PTierV { name: None, max: None, rates: Seq::empty() }),
                ..st
            },
            LineV::RateHeader => {
                if st.tiers.len() == 0 {
                    doc_failed(st)
                } else {
                    let t = st.tiers.last();
                    DocStV {
                        in_rate: true,
                        tiers: st.tiers.update(
                            st.tiers.len() - 1,
                            PTierV { rates: t.rates.push(PRateV { limit: None, secs: None }), ..t },
                        ),
                        ..st
                    }
                }
            },
            LineV::Name(x) => {
                if st.in_rate || st.tiers.len() == 0 || st.tiers.last().name is Some {
                    doc_failed(st)
                } else {
                    let t = st.tiers.last();
                    DocStV {
                        tiers: st.tiers.update(st.tiers.len() - 1, PTierV { name: Some(x), ..t }),
                        ..st
                    }
                }
            },
            LineV::MaxConnections(v) => {
                if st.in_rate || st.tiers.len() == 0 || st.tiers.last().max is Some {
                    doc_failed(st)
                } else {
                    let t = st.tiers.last();
                    DocStV {
                        tiers: st.tiers.update(st.tiers.len() - 1, PTierV { max: Some(v), ..t }),
                        ..st
                    }
                }
            },
            LineV::Limit(v) => {
                if !st.in_rate || st.tiers.len() == 0 || st.tiers.last().rates.len() == 0
                    || st.tiers.last().rates.last().limit is Some {
                    doc_failed(st)
                } else {
                    let t = st.tiers.last();
                    let r = t.rates.last();
                    DocStV {
                        tiers: st.tiers.update(
                            st.tiers.len() - 1,
                            PTierV {
                                rates: t.rates.update(
                                    t.rates.len() - 1,
                                    PRateV { limit: Some(v), ..r },
                                ),
                                ..t
                            },
                        ),
                        ..st
                    }
                }
            },
            LineV::Interval(v) => {
                if !st.in_rate || st.tiers.len() == 0 || st.tiers.last().rates.len() == 0
                    || st.tiers.last().rates.last().secs is Some {
                    doc_failed(st)
                } else {
                    let t = st.tiers.last();
                    let r = t.rates.last();
                    DocStV {
                        tiers: st.tiers.update(
                            st.tiers.len() - 1,
                            PTierV {
                                rates: t.rates.update(
                                    t.rates.len() - 1,
                                    PRateV { secs: Some(v), ..r },
                                ),
                                ..t
                            },
                        ),
                        ..st
                    }
                }
            },
            LineV::Bad => doc_failed(st),
        }
    }
}

/// Whether no tier is open, or the open tier's name is already set.
fn name_blocked(st: &DocSt) -> (r: bool)
    ensures
        r == (st@.tiers.len() == 0 || st@.tiers.last().name is Some),
{
    let n = st.tiers.len();
    if n == 0 {
        true
    } else {
        st.tiers[n - 1].name.is_some()
    }
}

/// Whether no tier is open, or the open tier's cap is already set.
fn max_blocked(st: &DocSt) -> (r: bool)
    ensures
        r == (st@.tiers.len() == 0 || st@.tiers.last().max is Some),
{
    let n = st.tiers.len();
    if n == 0 {
        true
    } else {
        st.tiers[n - 1].max.is_some()
    }
}

/// Whether no rate is open, or the open rate's limit is already set.
fn limit_blocked(st: &DocSt) -> (r: bool)
    ensures
        r == (st@.tiers.len() == 0 || st@.tiers.last().rates.len() == 0
            || st@.tiers.last().rates.last().limit is Some),
{
    let n = st.tiers.len();
    if n == 0 {
        return true;
    }
    let m = st.tiers[n - 1].rates.len();
    if m == 0 {
        return true;
    }
    st.tiers[n - 1].rates[m - 1].limit.is_some()
}

/// Whether no rate is open, or the open rate's interval is already set.
fn secs_blocked(st: &DocSt) -> (r: bool)
    ensures
        r == (st@.tiers.len() == 0 || st@.tiers.last().rates.len() == 0
            || st@.tiers.last().rates.last().secs is Some),
{
    let n = st.tiers.len();
    if n == 0 {
        return true;
    }
    let m = st.tiers[n - 1].rates.len();
    if m == 0 {
        return true;
    }
    st.tiers[n - 1].rates[m - 1].secs.is_some()
}

/// Applies one line to the executable fold state.
pub fn apply_line(st: &mut DocSt, l: Line)
    ensures
        final(st)@ == doc_step(old(st)@, l@),
{
    if st.failed {
        return ;
    }
    match l {
        Line::Blank => {},
        Line::TierHeader => {
            st.in_rate = false;
            st.tiers.push(PTier { name: None, max: None, rates: Vec::new() });
            assert(st@ =~~= doc_step(old(st)@, l@)) by {
                assert(st@.tiers =~~= doc_step(old(st)@, l@).tiers);
            }
        },
        Line::RateHeader => {
            match st.tiers.pop() {
                Some(mut t) => {
                    t.rates.push(PRate { limit: None, secs: None });
                    st.tiers.push(t);
                    st.in_rate = true;
                    assert(st@.tiers =~~= doc_step(old(st)@, l@).tiers);
                    assert(st@ =~~= doc_step(old(st)@, l@));
                },
                None => {
                    st.failed = true;
                    assert(st@ =~~= doc_step(old(st)@, l@));
                },
            }
        },
        Line::Name(x) => {
            let bad = name_blocked(st);
            if st.in_rate || bad {
                st.failed = true;
                assert(st@ =~~= doc_step(old(st)@, l@));
            } else {
                let mut t = st.tiers.pop().unwrap();
                t.name = Some(x);
                st.tiers.push(t);
                assert(st@.tiers =~~= doc_step(old(st)@, l@).tiers);
                assert(st@ =~~= doc_step(old(st)@, l@));
            }
        },
        Line::MaxConnections(v) => {
            let bad = max_blocked(st);
            if st.in_rate || bad {
                st.failed = true;
                assert(st@ =~~= doc_step(old(st)@, l@));
            } else {
                let mut t = st.tiers.pop().unwrap();
                t.max = Some(v);
                st.tiers.push(t);
                assert(st@.tiers =~~= doc_step(old(st)@, l@).tiers);
                assert(st@ =~~= doc_step(old(st)@, l@));
            }
        },
        Line::Limit(v) => {
            let bad = limit_blocked(st);
            if !st.in_rate || bad {
                st.failed = true;
                assert(st@ =~~= doc_step(old(st)@, l@));
            } else {
                let mut t = st.tiers.pop().unwrap();
                let mut r = t.rates.pop().unwrap();
                r.limit = Some(v);
                t.rates.push(r);
                st.tiers.push(t);
                assert(st@.tiers.last().rates =~~= doc_step(old(st)@, l@).tiers.last().rates);
                assert(st@.tiers =~~= doc_step(old(st)@, l@).tiers);
                assert(st@ =~~= doc_step(old(st)@, l@));
            }
        },
        Line::Interval(v) => {
            let bad = secs_blocked(st);
            if !st.in_rate || bad {
                st.failed = true;
                assert(st@ =~~= doc_step(old(st)@, l@));
            } else {
                let mut t = st.tiers.pop().unwrap();
                let mut r = t.rates.pop().unwrap();
                r.secs = Some(v);
                t.rates.push(r);
                st.tiers.push(t);
                assert(st@.tiers.last().rates =~~= doc_step(old(st)@, l@).tiers.last().rates);
                assert(st@.tiers =~~= doc_step(old(st)@, l@).tiers);
                assert(st@ =~~= doc_step(old(st)@, l@));
            }
        },
        Line::Bad => {
            st.failed = true;
            assert(st@ =~~= doc_step(old(st)@, l@));
        },
    }
}

/// Compares the characters of two strings.
pub fn str_eq_chars(a: &str, b: &str) -> (r: bool)
    ensures
        r == (a@ == b@),
{
    let n = a.unicode_len();
    if n != b.unicode_len() {
        assert(a@ != b@) by {
            assert(a@.len() != b@.len());
        }
        return false;
    }
    let mut i: usize = 0;
    while i < n
        invariant
            0 <= i <= n,
            n == a@.len(),
            n == b@.len(),
            forall|j: int| 0 <= j < i ==> a@[j] == b@[j],
        decreases n - i,
    {
        if a.get_char(i) != b.get_char(i) {
            return false;
        }
        i = i + 1;
    }
    assert(a@ =~= b@);
    true
}

// ---------------------------------------------------------------------
// The whole document
// ---------------------------------------------------------------------
/// Folds the document character by character, applying each completed line
/// (the final line needs no terminator).
pub open spec fn doc_scan(s: Seq<char>, i: int, cur: Seq<char>, st: DocStV) -> DocStV
    decreases s.len() - i,
{
    if i < 0 || i >= s.len() {
        doc_step(st, line_of(cur))
    } else if s[i] == '\n' {
        doc_scan(s, i + 1, Seq::empty(), doc_step(st, line_of(cur)))
    } else {
        doc_scan(s, i + 1, cur.push(s[i]), st)
    }
}

/// Scanning up to the next line break applies exactly one line.
pub proof fn lemma_doc_scan_line(s: Seq<char>, i: int, e: int, cur: Seq<char>, st: DocStV)
    requires
        0 <= i <= e <= s.len(),
        forall|m: int| i <= m < e ==> s[m] != '\n',
        e == s.len() || s[e] == '\n',
    ensures
        doc_scan(s, i, cur, st) == if e == s.len() {
            doc_step(st, line_of(cur + s.subrange(i, e)))
        } else {
            doc_scan(s, e + 1, Seq::empty(), doc_step(st, line_of(cur + s.subrange(i, e))))
        },
    decreases e - i,
{
    if i == e {
        assert(cur + s.subrange(i, e) =~= cur);
    } else {
        lemma_doc_scan_line(s, i + 1, e, cur.push(s[i]), st);
        assert(cur.push(s[i]) + s.subrange(i + 1, e) =~= cur + s.subrange(i, e));
    }
}

/// A filled-in rate: both fields present and within what a bucket takes.
pub open spec fn prate_complete(r: PRateV) -> bool {
    &&& r.limit is Some
    &&& r.limit->Some_0 >= 1
    &&& r.secs is Some
    &&& 1 <= r.secs->Some_0 <= MAX_INTERVAL_SECS
}

/// A filled-in tier: named, capped, and at least one complete rate.
pub open spec fn ptier_complete(t: PTierV) -> bool {
    &&& t.name is Some
    &&& t.max is Some
    &&& t.rates.len() >= 1
    &&& forall|i: int| 0 <= i < t.rates.len() ==> prate_complete(#[trigger] t.rates[i])
}

pub open spec fn tier_of_ptier(t: PTierV) -> TierV {
    TierV {
        name: t.name->Some_0,
        max_connections: t.max->Some_0,
        rates: t.rates.map_values(
            |r: PRateV| TierRate { limit: r.limit->Some_0, interval_secs: r.secs->Some_0 },
        ),
    }
}

/// The tiers a finished fold stands for; `None` when the document failed,
/// named no tier at all, or left an item incomplete.  A failed document
/// keeps the previous snapshot standing, so a delivery without tiers
/// never empties the table.
pub open spec fn doc_final(st: DocStV) -> Option<Seq<TierV>> {
    if st.failed || st.tiers.len() == 0 || !(forall|i: int| 0 <= i < st.tiers.len() ==> ptier_complete(
        #[trigger] st.tiers[i],
    )) {
        None
    } else {
        Some(st.tiers.map_values(|t: PTierV| tier_of_ptier(t)))
    }
}

/// What a tier document parses to.
pub open spec fn doc_parse(s: Seq<char>) -> Option<Seq<TierV>> {
    doc_final(doc_scan(s, 0, Seq::empty(), DocStV { failed: false, in_rate: false, tiers: Seq::empty() }))
}

/// Turns a finished fold state into tiers.
fn finalize_doc(st: &DocSt) -> (r: Option<Vec<Tier>>)
    ensures
        match r {
            Some(v) => doc_final(st@) == Some(v@.map_values(|t: Tier| t@)) && forall|i: int|
                0 <= i < v@.len() ==> tier_ok(#[trigger] v@[i]@),
            None => doc_final(st@) is None,
        },
{
    if st.failed {
        return None;
    }
    let n = st.tiers.len();
    if n == 0 {
        return None;
    }
    let mut out: Vec<Tier> = Vec::new();
    let mut i: usize = 0;
    while i < n
        invariant
            0 <= i <= n,
            n == st@.tiers.len(),
            !st@.failed,
            out@.len() == i,
            forall|j: int| 0 <= j < i ==> ptier_complete(#[trigger] st@.tiers[j]),
            forall|j: int| 0 <= j < i ==> #[trigger] out@[j]@ == tier_of_ptier(st@.tiers[j]),
            forall|j: int| 0 <= j < i ==> tier_ok(#[trigger] out@[j]@),
        decreases n - i,
    {
        let pt = &st.tiers[i];
        let name = match &pt.name {
            Some(x) => x.clone(),
            None => {
                assert(!ptier_complete(st@.tiers[i as int]));
                return None;
            },
        };
        let max_connections = match pt.max {
            Some(v) => v,
            None => {
                assert(!ptier_complete(st@.tiers[i as int]));
                return None;
            },
        };
        let m = pt.rates.len();
        if m == 0 {
            assert(!ptier_complete(st@.tiers[i as int]));
            return None;
        }
        let mut rates: Vec<TierRate> = Vec::new();
        let mut j: usize = 0;
        while j < m
            invariant
                0 <= j <= m,
                m == pt@.rates.len(),
                pt@ == st@.tiers[i as int],
                0 <= i < st@.tiers.len(),
                rates@.len() == j,
                forall|k: int| 0 <= k < j ==> prate_complete(#[trigger] pt@.rates[k]),
                forall|k: int| 0 <= k < j ==> #[trigger] rates@[k] == (TierRate {
                    limit: pt@.rates[k].limit->Some_0,
                    interval_secs: pt@.rates[k].secs->Some_0,
                }),
            decreases m - j,
        {
            let pr = &pt.rates[j];
            let limit = match pr.limit {
                Some(v) => v,
                None => {
                    assert(!prate_complete(pt@.rates[j as int]));
                    assert(!ptier_complete(st@.tiers[i as int]));
                    return None;
                },
            };
            let secs = match pr.secs {
                Some(v) => v,
                None => {
                    assert(!prate_complete(pt@.rates[j as int]));
                    assert(!ptier_complete(st@.tiers[i as int]));
                    return None;
                },
            };
            if limit < 1 || secs < 1 || secs > MAX_INTERVAL_SECS {
                assert(!prate_complete(pt@.rates[j as int]));
                assert(!ptier_complete(st@.tiers[i as int]));
                return None;
            }
            rates.push(TierRate { limit, interval_secs: secs });
            j = j + 1;
        }
        let t = Tier { name, rates, max_connections };
        assert(t@ =~~= tier_of_ptier(st@.tiers[i as int]));
        assert(ptier_complete(st@.tiers[i as int]));
        assert(tier_ok(t@));
        out.push(t);
        i = i + 1;
    }
    assert(doc_final(st@) == Some(out@.map_values(|t: Tier| t@))) by {
        assert(doc_final(st@)->Some_0 =~~= out@.map_values(|t: Tier| t@));
    }
    Some(out)
}

/// Parses a tier configuration document.  The result is exactly what the
/// grammar gives: `Some` of the tiers, each one buildable into buckets, or
/// `None` for a failed document, in which case the caller keeps its
/// previous snapshot.
pub fn parse_tier_document(s: &str) -> (r: Option<Vec<Tier>>)
    ensures
        match r {
            Some(v) => doc_parse(s@) == Some(v@.map_values(|t: Tier| t@)) && forall|i: int|
                0 <= i < v@.len() ==> tier_ok(#[trigger] v@[i]@),
            None => doc_parse(s@) is None,
        },
{
    let n = s.unicode_len();
    let mut st = DocSt { failed: false, in_rate: false, tiers: Vec::new() };
    let ghost init = DocStV { failed: false, in_rate: false, tiers: Seq::empty() };
    assert(st@ =~~= init);
    let mut p: usize = 0;
    loop
        invariant_except_break
            0 <= p <= n,
            n == s@.len(),
            doc_scan(s@, 0, Seq::empty(), init) == doc_scan(s@, p as int, Seq::empty(), st@),
        ensures
            doc_scan(s@, 0, Seq::empty(), init) == st@,
        decreases n - p,
    {
        let e = find_char(s, p, '\n');
        let ghost before = st@;
        let kind = parse_line(s.substring_char(p, e));
        apply_line(&mut st, kind);
        proof {
            lemma_doc_scan_line(s@, p as int, e as int, Seq::empty(), before);
            assert(Seq::empty() + s@.subrange(p as int, e as int) =~= s@.subrange(
                p as int,
                e as int,
            ));
        }
        if e == n {
            break;
        }
        p = e + 1;
    }
    finalize_doc(&st)
}

} // verus!
