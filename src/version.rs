//! Interpreter version lines (`Python X.Y[.Z]`) and the minimum-version rule.

use vstd::prelude::*;
use crate::text::{
    before_first, find_char, first_word, is_ws, starts_with, trim, trim_end, trim_start,
    find_first, find_first_ws, has_prefix, lemma_find_char, lemma_find_ws, trim_start_index,
    trim_str,
};
use vstd::arithmetic::div_mod::lemma_fundamental_div_mod;

verus! {

/// Lowest major version accepted.
pub const PYTHON_MIN_MAJOR: u32 = 3;

/// Lowest minor version accepted when the major version is the lowest one.
pub const PYTHON_MIN_MINOR: u32 = 9;

/// The fixed text that starts a version line.
pub open spec fn version_prefix() -> Seq<char> {
    seq!['P', 'y', 't', 'h', 'o', 'n', ' ']
}

pub open spec fn is_digit(c: char) -> bool {
    '0' <= c && c <= '9'
}

/// Decimal value of a string of digits.
pub open spec fn digits_value(s: Seq<char>) -> nat
    decreases s.len(),
{
    if s.len() == 0 {
        0
    } else {
        digits_value(s.subrange(0, s.len() - 1)) * 10 + ((s[s.len() - 1] as u32) - ('0' as u32)) as nat
    }
}

/// `s` without one leading `+`.
pub open spec fn unsigned_digits(s: Seq<char>) -> Seq<char> {
    if s.len() > 0 && s[0] == '+' {
        s.subrange(1, s.len() as int)
    } else {
        s
    }
}

/// What `str::parse::<u32>` gives: an optional `+`, then one or more ASCII digits
/// whose value fits in `u32`.
pub open spec fn parse_u32(s: Seq<char>) -> Option<u32> {
    let d = unsigned_digits(s);
    if d.len() > 0 && (forall|i: int| 0 <= i < d.len() ==> is_digit(#[trigger] d[i]))
        && digits_value(d) <= u32::MAX {
        Some(digits_value(d) as u32)
    } else {
        None
    }
}

/// The patch number read from the text after the second dot, up to the next dot:
/// its first word, or 0 when it has none.
pub open spec fn parse_patch(chunk: Seq<char>) -> Option<u32> {
    match first_word(chunk) {
        None => Some(0),
        Some(w) => parse_u32(w),
    }
}

/// The `(major, minor, patch)` triple of a version line.
///
/// The trimmed line must start with `Python `; the rest is split at dots: the
/// first piece is the major number, the second the minor number, and the first
/// word of the third (0 when there is no third piece) the patch number.
pub open spec fn parse_version(line: Seq<char>) -> Option<(u32, u32, u32)> {
    let t = trim(line);
    if !starts_with(t, version_prefix()) {
        None
    } else {
        let p = t.subrange(version_prefix().len() as int, t.len() as int);
        let i1 = find_char(p, '.');
        if i1 == p.len() {
            None
        } else {
            let q = p.subrange(i1 + 1, p.len() as int);
            let i2 = find_char(q, '.');
            let patch = if i2 == q.len() {
                Some(0u32)
            } else {
                parse_patch(before_first(q.subrange(i2 + 1, q.len() as int), '.'))
            };
            match (parse_u32(p.subrange(0, i1)), parse_u32(q.subrange(0, i2)), patch) {
                (Some(a), Some(b), Some(c)) => Some((a, b, c)),
                _ => None,
            }
        }
    }
}

/// The minimum-version rule on a `(major, minor)` pair.
pub open spec fn version_supported(major: u32, minor: u32) -> bool {
    major > PYTHON_MIN_MAJOR || (major == PYTHON_MIN_MAJOR && minor >= PYTHON_MIN_MINOR)
}

/// A version line that parses and meets the minimum-version rule.
pub open spec fn line_supported(line: Seq<char>) -> bool {
    match parse_version(line) {
        Some((a, b, _)) => version_supported(a, b),
        None => false,
    }
}

proof fn lemma_digits_value_grows(s: Seq<char>, i: int)
    requires
        0 <= i < s.len(),
        forall|k: int| 0 <= k < s.len() ==> is_digit(#[trigger] s[k]),
    ensures
        digits_value(s.subrange(0, i)) <= digits_value(s.subrange(0, i + 1)),
{
    let t = s.subrange(0, i + 1);
    assert(t.subrange(0, t.len() - 1) =~= s.subrange(0, i));
}

proof fn lemma_digits_value_monotone(s: Seq<char>, i: int)
    requires
        0 <= i <= s.len(),
        forall|k: int| 0 <= k < s.len() ==> is_digit(#[trigger] s[k]),
    ensures
        digits_value(s.subrange(0, i)) <= digits_value(s),
    decreases s.len() - i,
{
    if i < s.len() {
        lemma_digits_value_grows(s, i);
        lemma_digits_value_monotone(s, i + 1);
    } else {
        assert(s.subrange(0, i) =~= s);
    }
}

/// Reads an unsigned 32-bit number as `str::parse::<u32>` does.
pub fn parse_u32_str(s: &str) -> (r: Option<u32>)
    ensures
        r == parse_u32(s@),
{
    let n = s.unicode_len();
    let start: usize = if n > 0 && s.get_char(0) == '+' {
        1
    } else {
        0
    };
    let ghost d = s@.subrange(start as int, n as int);
    assert(d =~= unsigned_digits(s@));
    if start == n {
        return None;
    }
    let mut value: u64 = 0;
    let mut overflow = false;
    let mut i: usize = start;
    while i < n
        invariant
            n == s@.len(),
            start <= i <= n,
            d == s@.subrange(start as int, n as int),
            d == unsigned_digits(s@),
            forall|k: int| 0 <= k < i - start ==> is_digit(#[trigger] d[k]),
            !overflow ==> value as nat == digits_value(d.subrange(0, i - start)),
            !overflow ==> value <= u32::MAX,
            overflow ==> digits_value(d.subrange(0, i - start)) > u32::MAX,
        decreases n - i,
    {
        let c = s.get_char(i);
        if !('0' <= c && c <= '9') {
            assert(d[i - start] == c);
            assert(!is_digit(d[i - start]));
            return None;
        }
        let ghost pre = d.subrange(0, i - start);
        let ghost next = d.subrange(0, i - start + 1);
        assert(next.subrange(0, next.len() - 1) =~= pre);
        assert(next[next.len() - 1] == c);
        if !overflow {
            let digit = (c as u32 - '0' as u32) as u64;
            value = value * 10 + digit;
            if value > u32::MAX as u64 {
                overflow = true;
            }
        } else {
            assert(digits_value(next) >= digits_value(pre)) by (nonlinear_arith)
                requires
                    digits_value(next) == digits_value(pre) * 10 + ((c as u32) - ('0' as u32)) as nat,
            ;
        }
        i = i + 1;
    }
    assert(d.subrange(0, n - start) =~= d);
    if overflow {
        None
    } else {
        Some(value as u32)
    }
}

/// Reads `(major, minor, patch)` from a line such as `Python 3.11.8`; `None` when
/// the line does not have that shape.
pub fn parse_python_version(line: &str) -> (r: Option<(u32, u32, u32)>)
    ensures
        r == parse_version(line@),
{
    let t = trim_str(line);
    let ts = t.as_str();
    let prefix = "Python ";
    proof {
        reveal_strlit("Python ");
        assert(prefix@ =~= version_prefix());
    }
    if !has_prefix(ts, prefix) {
        return None;
    }
    let n = ts.unicode_len();
    let m = prefix.unicode_len();
    let p = ts.substring_char(m, n);
    let plen = p.unicode_len();
    let i1 = find_first(p, '.');
    if i1 == plen {
        return None;
    }
    let q = p.substring_char(i1 + 1, plen);
    let qlen = q.unicode_len();
    let i2 = find_first(q, '.');
    let patch: Option<u32> = if i2 == qlen {
        Some(0)
    } else {
        let rest = q.substring_char(i2 + 1, qlen);
        let chunk = rest.substring_char(0, find_first(rest, '.'));
        let k = trim_start_index(chunk);
        let clen = chunk.unicode_len();
        if k == clen {
            Some(0)
        } else {
            let tail = chunk.substring_char(k, clen);
            let word = tail.substring_char(0, find_first_ws(tail));
            parse_u32_str(word)
        }
    };
    let major = parse_u32_str(p.substring_char(0, i1));
    let minor = parse_u32_str(q.substring_char(0, i2));
    match (major, minor, patch) {
        (Some(a), Some(b), Some(c)) => Some((a, b, c)),
        _ => None,
    }
}

/// Whether a version line parses and meets the minimum version (3.9).
pub fn is_supported_python_version(line: &str) -> (r: bool)
    ensures
        r == line_supported(line@),
{
    match parse_python_version(line) {
        Some((major, minor, _patch)) => major > PYTHON_MIN_MAJOR || (major == PYTHON_MIN_MAJOR
            && minor >= PYTHON_MIN_MINOR),
        None => false,
    }
}

/// The decimal digit for a value below 10.
pub open spec fn digit_char(d: int) -> char {
    seq!['0', '1', '2', '3', '4', '5', '6', '7', '8', '9'][d]
}

/// The decimal text of `n`, without leading zeros.
pub open spec fn decimal(n: nat) -> Seq<char>
    decreases n,
{
    if n < 10 {
        seq![digit_char(n as int)]
    } else {
        decimal(n / 10).push(digit_char((n % 10) as int))
    }
}

/// The line `Python X.Y` or `Python X.Y.Z`.
pub open spec fn version_text(major: u32, minor: u32, patch: Option<u32>) -> Seq<char> {
    version_prefix() + decimal(major as nat) + seq!['.'] + decimal(minor as nat) + match patch {
        Some(z) => seq!['.'] + decimal(z as nat),
        None => Seq::empty(),
    }
}

proof fn lemma_digit_char(d: int)
    requires
        0 <= d < 10,
    ensures
        is_digit(digit_char(d)),
        (digit_char(d) as u32) - ('0' as u32) == d,
{
    if d == 0 {
        assert(digit_char(d) == '0');
    } else if d == 1 {
        assert(digit_char(d) == '1');
    } else if d == 2 {
        assert(digit_char(d) == '2');
    } else if d == 3 {
        assert(digit_char(d) == '3');
    } else if d == 4 {
        assert(digit_char(d) == '4');
    } else if d == 5 {
        assert(digit_char(d) == '5');
    } else if d == 6 {
        assert(digit_char(d) == '6');
    } else if d == 7 {
        assert(digit_char(d) == '7');
    } else if d == 8 {
        assert(digit_char(d) == '8');
    } else {
        assert(digit_char(d) == '9');
    }
}

proof fn lemma_decimal(n: nat)
    ensures
        decimal(n).len() >= 1,
        forall|i: int| 0 <= i < decimal(n).len() ==> is_digit(#[trigger] decimal(n)[i]),
        digits_value(decimal(n)) == n,
    decreases n,
{
    if n < 10 {
        lemma_digit_char(n as int);
        let s = decimal(n);
        let e = s.subrange(0, 0);
        assert(e =~= Seq::<char>::empty());
        assert(digits_value(e) == 0);
        assert(s[0] == digit_char(n as int));
        assert(digits_value(s) == digits_value(e) * 10 + ((s[0] as u32) - ('0' as u32)) as nat);
    } else {
        lemma_decimal(n / 10);
        lemma_digit_char((n % 10) as int);
        let s = decimal(n);
        assert(s.subrange(0, s.len() - 1) =~= decimal(n / 10));
        assert(s[s.len() - 1] == digit_char((n % 10) as int));
        assert(digits_value(s) == digits_value(decimal(n / 10)) * 10 + (n % 10));
        lemma_fundamental_div_mod(n as int, 10);
        assert(digits_value(s) == (n / 10) * 10 + (n % 10));
        assert((n / 10) * 10 + (n % 10) == n) by (nonlinear_arith)
            requires
                n == 10 * (n / 10) + (n % 10),
        ;
    }
}

/// A string of digits reads as its decimal value.
proof fn lemma_parse_decimal(n: u32)
    ensures
        parse_u32(decimal(n as nat)) == Some(n),
        forall|i: int| 0 <= i < decimal(n as nat).len() ==> #[trigger] decimal(n as nat)[i] != '.'
            && !is_ws(decimal(n as nat)[i]),
{
    let d = decimal(n as nat);
    lemma_decimal(n as nat);
    assert(is_digit(d[0]));
    assert(unsigned_digits(d) == d);
    assert forall|i: int| 0 <= i < d.len() implies #[trigger] d[i] != '.' && !is_ws(d[i]) by {
        assert(is_digit(d[i]));
    }
}

/// Version lines are read as written: `Python X.Y.Z` gives `(X, Y, Z)`,
/// `Python X.Y` gives `(X, Y, 0)`, and a line that does not start with
/// `Python ` once trimmed gives no version.
pub proof fn lemma_parse_version_text(major: u32, minor: u32, patch: Option<u32>, other: Seq<char>)
    ensures
        parse_version(version_text(major, minor, patch)) == Some(
            (
                major,
                minor,
                match patch {
                    Some(z) => z,
                    None => 0u32,
                },
            ),
        ),
        !starts_with(trim(other), version_prefix()) ==> parse_version(other).is_none(),
{
    lemma_version_text_trimmed(major, minor, patch);
    let s = version_text(major, minor, patch);
    let dx = decimal(major as nat);
    let dy = decimal(minor as nat);
    let tail: Seq<char> = match patch {
        Some(z) => seq!['.'] + decimal(z as nat),
        None => Seq::empty(),
    };
    lemma_parse_decimal(major);
    lemma_parse_decimal(minor);
    assert(s.subrange(0, 7) =~= version_prefix());
    let p = s.subrange(7, s.len() as int);
    assert(p =~= dx + seq!['.'] + dy + tail);
    assert forall|k: int| 0 <= k < dx.len() implies p[k] != '.' by {
        assert(p[k] == dx[k]);
    }
    lemma_find_char(p, '.', dx.len() as int);
    assert(p.subrange(0, dx.len() as int) =~= dx);
    let q = p.subrange(dx.len() as int + 1, p.len() as int);
    assert(q =~= dy + tail);
    assert forall|k: int| 0 <= k < dy.len() implies q[k] != '.' by {
        assert(q[k] == dy[k]);
    }
    lemma_find_char(q, '.', dy.len() as int);
    assert(q.subrange(0, dy.len() as int) =~= dy);
    match patch {
        Some(z) => {
            let rest = q.subrange(dy.len() as int + 1, q.len() as int);
            assert(rest =~= decimal(z as nat));
            lemma_patch_text(z);
        },
        None => {},
    }
}

proof fn lemma_version_text_trimmed(major: u32, minor: u32, patch: Option<u32>)
    ensures
        trim(version_text(major, minor, patch)) == version_text(major, minor, patch),
{
    let s = version_text(major, minor, patch);
    let dy = decimal(minor as nat);
    lemma_parse_decimal(minor);
    assert(s[0] == 'P');
    assert(trim_start(s) == s);
    match patch {
        Some(z) => {
            let dz = decimal(z as nat);
            lemma_parse_decimal(z);
            assert(s[s.len() - 1] == dz[dz.len() - 1]);
        },
        None => {
            assert(s[s.len() - 1] == dy[dy.len() - 1]);
        },
    }
    assert(trim_end(s) == s);
}

proof fn lemma_patch_text(z: u32)
    ensures
        parse_patch(before_first(decimal(z as nat), '.')) == Some(z),
{
    let dz = decimal(z as nat);
    lemma_parse_decimal(z);
    lemma_find_char(dz, '.', dz.len() as int);
    assert(before_first(dz, '.') =~= dz);
    assert(trim_start(dz) == dz);
    lemma_find_ws(dz, dz.len() as int);
    assert(dz.subrange(0, dz.len() as int) =~= dz);
    assert(first_word(dz) == Some(dz));
}

/// The minimum-version rule on version lines: `Python 3.9` and later minor
/// versions are accepted, `Python 3.8` and earlier are refused, and any major
/// version above 3 is accepted, whatever the patch number.
pub proof fn lemma_minimum_version(major: u32, minor: u32, patch: Option<u32>)
    ensures
        line_supported(version_text(major, minor, patch)) == (major > 3 || (major == 3 && minor
            >= 9)),
{
    lemma_parse_version_text(major, minor, patch, Seq::empty());
}

} // verus!
