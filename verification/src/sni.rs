//! The SNI hostname grammar.
//!
//! A tenant's hostname has the shape
//! `<token>.<network>-<version>.<rest>` where the token starts with
//! `dmtr_` followed by letters, digits or `-`; the network is letters; the
//! version is letters or digits; and at least one character follows.  Each
//! part is the longest run its character class allows, and the character
//! after it is fixed by the shape, so the split is unique.

use vstd::prelude::*;


verus! {

/// The character classes of the hostname grammar.
#[derive(Clone, Copy, PartialEq, Eq, Structural, Debug)]
pub enum CharClass {
    /// Letters, digits and `-`: the token's body.
    Token,
    /// Letters: the network name.
    Letter,
    /// Letters and digits: the version.
    Alnum,
}

pub open spec fn is_letter(c: char) -> bool {
    ('a' <= c && c <= 'z') || ('A' <= c && c <= 'Z')
}

pub open spec fn is_digit(c: char) -> bool {
    '0' <= c && c <= '9'
}

pub open spec fn in_class(class: CharClass, c: char) -> bool {
    match class {
        CharClass::Token => is_letter(c) || is_digit(c) || c == '-',
        CharClass::Letter => is_letter(c),
        CharClass::Alnum => is_letter(c) || is_digit(c),
    }
}

/// The first position at or after `i` whose character leaves `class`;
/// the run `[i, run_end)` is maximal for the class.
pub open spec fn run_end(s: Seq<char>, i: int, class: CharClass) -> int
    decreases s.len() - i,
{
    if i < 0 || i >= s.len() || !in_class(class, s[i]) {
        i
    } else {
        run_end(s, i + 1, class)
    }
}

pub proof fn lemma_run_end_is(s: Seq<char>, i: int, j: int, class: CharClass)
    requires
        0 <= i <= j <= s.len(),
        forall|m: int| i <= m < j ==> in_class(class, #[trigger] s[m]),
        j == s.len() || !in_class(class, s[j]),
    ensures
        run_end(s, i, class) == j,
    decreases j - i,
{
    if i < j {
        lemma_run_end_is(s, i + 1, j, class);
    }
}

/// Scans the longest run of `class` characters starting at `from`.
pub fn run_scan(s: &str, from: usize, class: CharClass) -> (r: usize)
    requires
        from <= s@.len(),
    ensures
        r == run_end(s@, from as int, class),
        from <= r <= s@.len(),
{
    let n = s.unicode_len();
    let mut e: usize = from;
    while e < n
        invariant
            from <= e <= n,
            n == s@.len(),
            forall|m: int| from <= m < e ==> in_class(class, #[trigger] s@[m]),
        decreases n - e,
    {
        let c = s.get_char(e);
        let inside = match class {
            CharClass::Token => (('a' <= c && c <= 'z') || ('A' <= c && c <= 'Z') || ('0' <= c
                && c <= '9') || c == '-'),
            CharClass::Letter => (('a' <= c && c <= 'z') || ('A' <= c && c <= 'Z')),
            CharClass::Alnum => (('a' <= c && c <= 'z') || ('A' <= c && c <= 'Z') || ('0' <= c
                && c <= '9')),
        };
        if !inside {
            proof {
                lemma_run_end_is(s@, from as int, e as int, class);
            }
            return e;
        }
        e = e + 1;
    }
    proof {
        lemma_run_end_is(s@, from as int, n as int, class);
    }
    n
}

/// The characters of the token prefix.
pub open spec fn sni_prefix() -> Seq<char> {
    seq!['d', 'm', 't', 'r', '_']
}

/// The `(token, network, version)` triple of a parsed SNI hostname.
#[verifier::ext_equal]
pub ghost struct SniPartsV {
    pub token: Seq<char>,
    pub network: Seq<char>,
    pub version: Seq<char>,
}

/// A parsed SNI hostname: the leading token (prefix included), the network
/// and the version.
pub struct SniParts {
    pub token: String,
    pub network: String,
    pub version: String,
}

impl View for SniParts {
    type V = SniPartsV;

    open spec fn view(&self) -> SniPartsV {
        SniPartsV { token: self.token@, network: self.network@, version: self.version@ }
    }
}

/// What an SNI hostname parses to; `None` when it leaves the grammar.
/// The remainder after the version's dot must be non-empty and free of
/// line breaks.
pub open spec fn sni_parse(s: Seq<char>) -> Option<SniPartsV> {
    let te = run_end(s, 5, CharClass::Token);
    let ne = run_end(s, te + 1, CharClass::Letter);
    let ve = run_end(s, ne + 1, CharClass::Alnum);
    if s.len() < 5 || s.subrange(0, 5) != sni_prefix() {
        None
    } else if te == 5 || te >= s.len() || s[te] != '.' {
        None
    } else if ne == te + 1 || ne >= s.len() || s[ne] != '-' {
        None
    } else if ve == ne + 1 || ve >= s.len() || s[ve] != '.' {
        None
    } else if ve + 1 >= s.len() || (exists|m: int| ve < m < s.len() && s[m] == '\n') {
        None
    } else {
        Some(
            SniPartsV {
                token: s.subrange(0, te),
                network: s.subrange(te + 1, ne),
                version: s.subrange(ne + 1, ve),
            },
        )
    }
}

/// Parses an SNI hostname into its `(token, network, version)` triple.
pub fn parse_sni(s: &str) -> (r: Option<SniParts>)
    ensures
        match r {
            Some(p) => sni_parse(s@) == Some(p@),
            None => sni_parse(s@) is None,
        },
{
    let n = s.unicode_len();
    if n < 5 {
        return None;
    }
    if !(s.get_char(0) == 'd' && s.get_char(1) == 'm' && s.get_char(2) == 't' && s.get_char(3)
        == 'r' && s.get_char(4) == '_') {
        assert(s@.subrange(0, 5) != sni_prefix()) by {
            if s@.subrange(0, 5) == sni_prefix() {
                assert(s@[0] == sni_prefix()[0]);
                assert(s@[1] == sni_prefix()[1]);
                assert(s@[2] == sni_prefix()[2]);
                assert(s@[3] == sni_prefix()[3]);
                assert(s@[4] == sni_prefix()[4]);
            }
        }
        return None;
    }
    assert(s@.subrange(0, 5) =~= sni_prefix());
    let te = run_scan(s, 5, CharClass::Token);
    if te == 5 || te >= n || s.get_char(te) != '.' {
        return None;
    }
    let ne = run_scan(s, te + 1, CharClass::Letter);
    if ne == te + 1 || ne >= n || s.get_char(ne) != '-' {
        return None;
    }
    let ve = run_scan(s, ne + 1, CharClass::Alnum);
    if ve == ne + 1 || ve >= n || s.get_char(ve) != '.' {
        return None;
    }
    if ve + 1 >= n {
        return None;
    }
    let mut m: usize = ve + 1;
    while m < n
        invariant
            ve < m <= n,
            n == s@.len(),
            5 <= te < ne < ve < n,
            te as int == run_end(s@, 5, CharClass::Token),
            ne as int == run_end(s@, te as int + 1, CharClass::Letter),
            ve as int == run_end(s@, ne as int + 1, CharClass::Alnum),
            forall|j: int| ve < j < m ==> s@[j] != '\n',
        decreases n - m,
    {
        if s.get_char(m) == '\n' {
            return None;
        }
        m = m + 1;
    }
    let p = SniParts {
        token: s.substring_char(0, te).to_owned(),
        network: s.substring_char(te + 1, ne).to_owned(),
        version: s.substring_char(ne + 1, ve).to_owned(),
    };
    assert(sni_parse(s@) == Some(p@)) by {
        assert(sni_parse(s@)->Some_0 =~= p@);
    }
    Some(p)
}

} // verus!
