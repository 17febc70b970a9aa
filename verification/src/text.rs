//! Verified text utilities shared by the parsing and formatting code.
//!
//! Everything here works on `&str` and `String` values whose mathematical
//! model is a `Seq<char>`; each executable function is tied to a spec
//! function over that model.

use vstd::prelude::*;
use vstd::string::*;

verus! {

/// ASCII whitespace, as trimmed from registry fields and parsed documents.
pub open spec fn is_space_char(c: char) -> bool {
    c == ' ' || c == '\t' || c == '\n' || c == '\r'
}

pub open spec fn is_digit_char(c: char) -> bool {
    '0' <= c && c <= '9'
}

pub open spec fn is_upper_char(c: char) -> bool {
    'A' <= c && c <= 'Z'
}

pub open spec fn digit_char_val(c: char) -> int {
    c as int - '0' as int
}

pub open spec fn all_digits(s: Seq<char>) -> bool {
    forall|i: int| 0 <= i < s.len() ==> is_digit_char(#[trigger] s[i])
}

/// Numeric value of a digit string, most significant digit first.
pub open spec fn digits_value(s: Seq<char>) -> int
    decreases s.len(),
{
    if s.len() == 0 {
        0
    } else {
        digits_value(s.drop_last()) * 10 + digit_char_val(s.last())
    }
}

proof fn lemma_digits_value_push(p: Seq<char>, c: char)
    ensures
        digits_value(p.push(c)) == digits_value(p) * 10 + digit_char_val(c),
{
    assert(p.push(c).drop_last() =~= p);
    assert(p.push(c).last() == c);
}

proof fn lemma_digits_value_nonneg(s: Seq<char>)
    requires
        all_digits(s),
    ensures
        digits_value(s) >= 0,
    decreases s.len(),
{
    if s.len() > 0 {
        assert(all_digits(s.drop_last()));
        lemma_digits_value_nonneg(s.drop_last());
    }
}

/// Extending a digit string to the right can only grow its value.
proof fn lemma_digits_value_ge_prefix(s: Seq<char>, k: int)
    requires
        0 <= k <= s.len(),
        all_digits(s),
    ensures
        digits_value(s) >= digits_value(s.subrange(0, k)),
    decreases s.len() - k,
{
    if k == s.len() {
        assert(s.subrange(0, k) =~= s);
    } else {
        lemma_digits_value_ge_prefix(s, k + 1);
        assert(s.subrange(0, k + 1) =~= s.subrange(0, k).push(s[k]));
        lemma_digits_value_push(s.subrange(0, k), s[k]);
        assert(all_digits(s.subrange(0, k)));
        lemma_digits_value_nonneg(s.subrange(0, k));
    }
}

pub open spec fn pow10(n: nat) -> int
    decreases n,
{
    if n == 0 {
        1
    } else {
        10 * pow10((n - 1) as nat)
    }
}

/// A digit string of length `n` is worth less than ten to the `n`.
pub proof fn lemma_digits_value_upper(s: Seq<char>)
    requires
        all_digits(s),
    ensures
        0 <= digits_value(s) < pow10(s.len()),
    decreases s.len(),
{
    if s.len() > 0 {
        assert(all_digits(s.drop_last()));
        lemma_digits_value_upper(s.drop_last());
        assert(digit_char_val(s.last()) <= 9);
        assert(pow10(s.len()) == 10 * pow10((s.len() - 1) as nat));
    }
}

/// `c` occurs somewhere in `s`.
pub open spec fn has_char(s: Seq<char>, c: char) -> bool {
    exists|i: int| 0 <= i < s.len() && s[i] == c
}

pub fn contains_char(s: &str, c: char) -> (r: bool)
    ensures
        r == has_char(s@, c),
{
    let n = s.unicode_len();
    let mut i: usize = 0;
    while i < n
        invariant
            0 <= i <= n,
            n == s@.len(),
            forall|k: int| 0 <= k < i ==> s@[k] != c,
        decreases n - i,
    {
        if s.get_char(i) == c {
            return true;
        }
        i += 1;
    }
    false
}

/// What `parse_u32` returns: the value of a non-empty all-digit string,
/// if it fits in a `u32`.
pub open spec fn spec_parse_u32(s: Seq<char>) -> Option<u32> {
    if s.len() > 0 && all_digits(s) && digits_value(s) <= u32::MAX {
        Some(digits_value(s) as u32)
    } else {
        None
    }
}

/// Parses a base-ten unsigned integer; any non-digit, an empty string or an
/// overflow yields `None`.
pub fn parse_u32(s: &str) -> (r: Option<u32>)
    ensures
        r == spec_parse_u32(s@),
{
    let n = s.unicode_len();
    if n == 0 {
        return None;
    }
    let mut acc: u64 = 0;
    let mut i: usize = 0;
    while i < n
        invariant
            0 <= i <= n,
            n == s@.len(),
            all_digits(s@.subrange(0, i as int)),
            acc == digits_value(s@.subrange(0, i as int)),
            acc <= u32::MAX,
        decreases n - i,
    {
        let c = s.get_char(i);
        if !(c >= '0' && c <= '9') {
            assert(!all_digits(s@));
            return None;
        }
        let d: u64 = (c as u32 as u64) - 48;
        proof {
            assert(s@.subrange(0, i + 1) =~= s@.subrange(0, i as int).push(s@[i as int]));
            lemma_digits_value_push(s@.subrange(0, i as int), s@[i as int]);
        }
        let next: u64 = acc * 10 + d;
        if next > 0xFFFF_FFFF {
            proof {
                if all_digits(s@) {
                    lemma_digits_value_ge_prefix(s@, i + 1);
                }
            }
            return None;
        }
        acc = next;
        i += 1;
    }
    proof {
        assert(s@.subrange(0, n as int) =~= s@);
    }
    Some(acc as u32)
}

/// What `parse_i32` returns: an optional sign, then the digits, if the
/// value fits in an `i32`.
pub open spec fn spec_parse_i32(s: Seq<char>) -> Option<i32> {
    if s.len() == 0 {
        None
    } else if s[0] == '-' {
        let ds = s.skip(1);
        if ds.len() > 0 && all_digits(ds) && digits_value(ds) <= 0x8000_0000 {
            Some((-digits_value(ds)) as i32)
        } else {
            None
        }
    } else if s[0] == '+' {
        let ds = s.skip(1);
        if ds.len() > 0 && all_digits(ds) && digits_value(ds) <= 0x7FFF_FFFF {
            Some(digits_value(ds) as i32)
        } else {
            None
        }
    } else {
        if all_digits(s) && digits_value(s) <= 0x7FFF_FFFF {
            Some(digits_value(s) as i32)
        } else {
            None
        }
    }
}

/// Parses a base-ten signed integer, as `str::parse::<i32>` does.
pub fn parse_i32(s: &str) -> (r: Option<i32>)
    ensures
        r == spec_parse_i32(s@),
{
    let n = s.unicode_len();
    if n == 0 {
        return None;
    }
    let first = s.get_char(0);
    if first == '-' {
        let ds = s.substring_char(1, n);
        proof {
            assert(ds@ =~= s@.skip(1));
        }
        match parse_u32(ds) {
            Some(m) => {
                proof {
                    lemma_digits_value_nonneg(ds@);
                }
                if m > 0x8000_0000 {
                    None
                } else if m == 0x8000_0000 {
                    Some(i32::MIN)
                } else {
                    Some(-(m as i32))
                }
            },
            None => None,
        }
    } else if first == '+' {
        let ds = s.substring_char(1, n);
        proof {
            assert(ds@ =~= s@.skip(1));
        }
        match parse_u32(ds) {
            Some(m) => {
                proof {
                    lemma_digits_value_nonneg(ds@);
                }
                if m > 0x7FFF_FFFF {
                    None
                } else {
                    Some(m as i32)
                }
            },
            None => None,
        }
    } else {
        match parse_u32(s) {
            Some(m) => {
                proof {
                    lemma_digits_value_nonneg(s@);
                }
                if m > 0x7FFF_FFFF {
                    None
                } else {
                    Some(m as i32)
                }
            },
            None => None,
        }
    }
}

/// `pat` occurs in `s` at position `i`.
pub open spec fn match_at(s: Seq<char>, pat: Seq<char>, i: int) -> bool {
    0 <= i && i + pat.len() <= s.len() && s.subrange(i, i + pat.len()) == pat
}

/// Leftmost occurrence of `pat` in `s` at or after `from`.
pub open spec fn spec_find(s: Seq<char>, pat: Seq<char>, from: int) -> Option<int>
    decreases s.len() - from,
{
    if from < 0 || from + pat.len() > s.len() {
        None
    } else if pat.len() == 0 {
        Some(from)
    } else if match_at(s, pat, from) {
        Some(from)
    } else {
        spec_find(s, pat, from + 1)
    }
}

pub fn match_at_exec(s: &str, pat: &str, i: usize) -> (r: bool)
    ensures
        r == match_at(s@, pat@, i as int),
{
    let n = s.unicode_len();
    let m = pat.unicode_len();
    if m > n || i > n - m {
        return false;
    }
    let mut j: usize = 0;
    while j < m
        invariant
            0 <= j <= m,
            n == s@.len(),
            m == pat@.len(),
            i + m <= n,
            forall|k: int| 0 <= k < j ==> s@[i + k] == pat@[k],
        decreases m - j,
    {
        if s.get_char(i + j) != pat.get_char(j) {
            assert(s@.subrange(i as int, i + m) != pat@) by {
                if s@.subrange(i as int, i + m) == pat@ {
                    assert(s@.subrange(i as int, i + m)[j as int] == s@[i + j]);
                }
            }
            return false;
        }
        j += 1;
    }
    assert(s@.subrange(i as int, i + m) =~= pat@);
    true
}

pub fn find_at(s: &str, pat: &str, from: usize) -> (r: Option<usize>)
    ensures
        r matches Some(i) ==> spec_find(s@, pat@, from as int) == Some(i as int),
        r is None ==> spec_find(s@, pat@, from as int) is None,
{
    let n = s.unicode_len();
    let m = pat.unicode_len();
    if m == 0 {
        if from <= n {
            assert(s@.subrange(from as int, from as int) =~= pat@);
            return Some(from);
        } else {
            return None;
        }
    }
    if m > n || from > n - m {
        return None;
    }
    let mut i: usize = from;
    while i <= n - m
        invariant
            from <= i,
            n == s@.len(),
            m == pat@.len(),
            1 <= m <= n,
            spec_find(s@, pat@, from as int) == spec_find(s@, pat@, i as int),
        decreases n - i,
    {
        if match_at_exec(s, pat, i) {
            return Some(i);
        }
        i += 1;
    }
    None
}

/// `pat` occurs somewhere in `s`.
pub open spec fn spec_contains(s: Seq<char>, pat: Seq<char>) -> bool {
    spec_find(s, pat, 0) is Some
}

pub fn contains_str(s: &str, pat: &str) -> (r: bool)
    ensures
        r == spec_contains(s@, pat@),
{
    find_at(s, pat, 0).is_some()
}

pub open spec fn spec_starts_with(s: Seq<char>, pat: Seq<char>) -> bool {
    match_at(s, pat, 0)
}

pub fn starts_with_str(s: &str, pat: &str) -> (r: bool)
    ensures
        r == spec_starts_with(s@, pat@),
{
    match_at_exec(s, pat, 0)
}

pub fn str_eq(a: &str, b: &str) -> (r: bool)
    ensures
        r == (a@ == b@),
{
    let n = a.unicode_len();
    if n != b.unicode_len() {
        return false;
    }
    let mut i: usize = 0;
    while i < n
        invariant
            0 <= i <= n,
            n == a@.len(),
            n == b@.len(),
            forall|k: int| 0 <= k < i ==> a@[k] == b@[k],
        decreases n - i,
    {
        if a.get_char(i) != b.get_char(i) {
            return false;
        }
        i += 1;
    }
    assert(a@ =~= b@);
    true
}

proof fn lemma_match_at_shift(s: Seq<char>, pat: Seq<char>, off: int, i: int)
    requires
        0 <= off <= s.len(),
        0 <= i,
    ensures
        match_at(s.skip(off), pat, i) == match_at(s, pat, off + i),
{
    if i + pat.len() <= s.len() - off {
        assert(s.skip(off).subrange(i, i + pat.len()) =~= s.subrange(
            off + i,
            off + i + pat.len(),
        ));
    }
}

/// Replacement of every occurrence of `pat`, leftmost first, without
/// overlap: the model of `str::replace`.
pub open spec fn spec_replace(s: Seq<char>, pat: Seq<char>, rep: Seq<char>) -> Seq<char>
    decreases s.len(),
{
    if pat.len() == 0 || s.len() < pat.len() {
        s
    } else if match_at(s, pat, 0) {
        rep + spec_replace(s.skip(pat.len() as int), pat, rep)
    } else {
        s.take(1) + spec_replace(s.skip(1), pat, rep)
    }
}

pub fn replace_all(s: &str, pat: &str, rep: &str) -> (r: String)
    requires
        pat@.len() >= 1,
    ensures
        r@ == spec_replace(s@, pat@, rep@),
{
    let n = s.unicode_len();
    let m = pat.unicode_len();
    let mut out = String::new();
    let mut i: usize = 0;
    proof {
        assert(s@.skip(0) =~= s@);
        assert(out@ + spec_replace(s@, pat@, rep@) =~= spec_replace(s@, pat@, rep@));
    }
    while m <= n && i <= n - m
        invariant
            0 <= i <= n,
            n == s@.len(),
            m == pat@.len(),
            1 <= m,
            spec_replace(s@, pat@, rep@) == out@ + spec_replace(s@.skip(i as int), pat@, rep@),
        decreases n - i,
    {
        proof {
            lemma_match_at_shift(s@, pat@, i as int, 0);
        }
        if match_at_exec(s, pat, i) {
            proof {
                assert(s@.skip(i as int).skip(m as int) =~= s@.skip(i + m));
            }
            out.append(rep);
            i += m;
        } else {
            proof {
                assert(s@.skip(i as int).take(1) =~= s@.subrange(i as int, i + 1));
                assert(s@.skip(i as int).skip(1) =~= s@.skip(i + 1));
            }
            out.append(s.substring_char(i, i + 1));
            i += 1;
        }
    }
    proof {
        assert(spec_replace(s@.skip(i as int), pat@, rep@) == s@.skip(i as int));
    }
    out.append(s.substring_char(i, n));
    proof {
        assert(s@.subrange(i as int, n as int) =~= s@.skip(i as int));
    }
    out
}

/// Leading ASCII whitespace removed.
pub open spec fn spec_trim_start(s: Seq<char>) -> Seq<char>
    decreases s.len(),
{
    if s.len() > 0 && is_space_char(s[0]) {
        spec_trim_start(s.skip(1))
    } else {
        s
    }
}

/// Trailing ASCII whitespace removed.
pub open spec fn spec_trim_end(s: Seq<char>) -> Seq<char>
    decreases s.len(),
{
    if s.len() > 0 && is_space_char(s.last()) {
        spec_trim_end(s.drop_last())
    } else {
        s
    }
}

/// The model of `str::trim` on the ASCII text this library handles.
pub open spec fn spec_trim(s: Seq<char>) -> Seq<char> {
    spec_trim_end(spec_trim_start(s))
}

pub fn trim_spaces<'a>(s: &'a str) -> (r: &'a str)
    ensures
        r@ == spec_trim(s@),
{
    let n = s.unicode_len();
    let mut b: usize = 0;
    proof {
        assert(s@.skip(0) =~= s@);
    }
    while b < n && is_space(s.get_char(b))
        invariant
            0 <= b <= n,
            n == s@.len(),
            spec_trim_start(s@) == spec_trim_start(s@.skip(b as int)),
        decreases n - b,
    {
        proof {
            assert(s@.skip(b as int).skip(1) =~= s@.skip(b + 1));
        }
        b += 1;
    }
    proof {
        assert(spec_trim_start(s@) == s@.skip(b as int));
    }
    let mut e: usize = n;
    while e > b && is_space(s.get_char(e - 1))
        invariant
            b <= e <= n,
            n == s@.len(),
            spec_trim_start(s@) == s@.skip(b as int),
            spec_trim_end(s@.skip(b as int)) == spec_trim_end(s@.subrange(b as int, e as int)),
        decreases e,
    {
        proof {
            assert(s@.subrange(b as int, e as int).drop_last() =~= s@.subrange(b as int, e - 1));
            assert(s@.subrange(b as int, e as int).last() == s@[e - 1]);
        }
        e -= 1;
    }
    proof {
        if e == b {
            assert(s@.subrange(b as int, e as int).len() == 0);
        }
        assert(spec_trim_end(s@.subrange(b as int, e as int)) == s@.subrange(b as int, e as int));
    }
    s.substring_char(b, e)
}

pub fn trim_start_spaces<'a>(s: &'a str) -> (r: &'a str)
    ensures
        r@ == spec_trim_start(s@),
{
    let n = s.unicode_len();
    let mut b: usize = 0;
    proof {
        assert(s@.skip(0) =~= s@);
    }
    while b < n && is_space(s.get_char(b))
        invariant
            0 <= b <= n,
            n == s@.len(),
            spec_trim_start(s@) == spec_trim_start(s@.skip(b as int)),
        decreases n - b,
    {
        proof {
            assert(s@.skip(b as int).skip(1) =~= s@.skip(b + 1));
        }
        b += 1;
    }
    proof {
        assert(spec_trim_start(s@) == s@.skip(b as int));
    }
    let r = s.substring_char(b, n);
    proof {
        assert(r@ =~= s@.skip(b as int));
    }
    r
}

pub fn is_space(c: char) -> (r: bool)
    ensures
        r == is_space_char(c),
{
    c == ' ' || c == '\t' || c == '\n' || c == '\r'
}

/// The character for one decimal digit.
pub open spec fn digit_char(d: int) -> char {
    ((48 + d) as u8) as char
}

/// Decimal digits of a non-negative number, most significant first.
pub open spec fn dec_digits(n: int) -> Seq<char>
    decreases n,
{
    if n < 10 {
        seq![digit_char(if n < 0 { 0 } else { n })]
    } else {
        dec_digits(n / 10).push(digit_char(n % 10))
    }
}

/// Decimal rendering of a signed number, `-` first when negative.
pub open spec fn spec_i32_dec(n: int) -> Seq<char> {
    if n < 0 {
        seq!['-'] + dec_digits(-n)
    } else {
        dec_digits(n)
    }
}

pub fn u32_to_dec_string(n: u32) -> (r: String)
    ensures
        r@ == dec_digits(n as int),
    decreases n,
{
    if n < 10 {
        let mut s = String::new();
        push_char(&mut s, (48 + n as u8) as char);
        assert(s@ =~= dec_digits(n as int));
        s
    } else {
        let mut s = u32_to_dec_string(n / 10);
        push_char(&mut s, (48 + (n % 10) as u8) as char);
        assert(s@ =~= dec_digits(n as int));
        s
    }
}

pub fn i32_to_dec_string(n: i32) -> (r: String)
    ensures
        r@ == spec_i32_dec(n as int),
{
    if n >= 0 {
        u32_to_dec_string(n as u32)
    } else {
        let m: u32 = if n == i32::MIN {
            0x8000_0000
        } else {
            (-n) as u32
        };
        let mut s = String::new();
        push_char(&mut s, '-');
        let ds = u32_to_dec_string(m);
        s.append(ds.as_str());
        assert(s@ =~= spec_i32_dec(n as int));
        s
    }
}

/// `zerofill`'s model: the decimal form, left-padded with zeros up to `width`.
pub open spec fn spec_zerofill(n: int, width: int) -> Seq<char> {
    let ds = spec_i32_dec(n);
    if ds.len() >= width {
        ds
    } else {
        Seq::new((width - ds.len()) as nat, |i: int| '0') + ds
    }
}

/// A found occurrence lies within bounds, matches, and is leftmost.
pub proof fn lemma_find_bounds(s: Seq<char>, pat: Seq<char>, from: int)
    requires
        0 <= from,
        spec_find(s, pat, from) is Some,
    ensures
        spec_find(s, pat, from) matches Some(i) ==> from <= i && i + pat.len() <= s.len()
            && (pat.len() > 0 ==> match_at(s, pat, i)),
    decreases s.len() - from,
{
    if from + pat.len() > s.len() {
    } else if pat.len() == 0 {
    } else if match_at(s, pat, from) {
    } else {
        lemma_find_bounds(s, pat, from + 1);
    }
}

/// Searching a suffix finds the same occurrences, shifted.
proof fn lemma_find_skip(s: Seq<char>, pat: Seq<char>, off: int, from: int)
    requires
        0 <= off <= s.len(),
        0 <= from,
    ensures
        spec_find(s, pat, off + from) == (match spec_find(s.skip(off), pat, from) {
            Some(j) => Some(j + off),
            None => None::<int>,
        }),
    decreases s.len() - off - from,
{
    lemma_match_at_shift(s, pat, off, from);
    if from + pat.len() > s.len() - off {
    } else if pat.len() == 0 {
    } else if match_at(s.skip(off), pat, from) {
    } else {
        lemma_find_skip(s, pat, off, from + 1);
    }
}

/// The fields obtained by cutting `s` at every occurrence of `sep`: the
/// model of `str::split` on a string pattern.
pub open spec fn spec_split(s: Seq<char>, sep: Seq<char>) -> Seq<Seq<char>>
    decreases s.len(),
    via spec_split_decreases
{
    if sep.len() == 0 {
        seq![s]
    } else {
        match spec_find(s, sep, 0) {
            Some(i) => seq![s.take(i)] + spec_split(s.skip(i + sep.len()), sep),
            None => seq![s],
        }
    }
}

#[via_fn]
proof fn spec_split_decreases(s: Seq<char>, sep: Seq<char>) {
    if sep.len() > 0 && spec_find(s, sep, 0) is Some {
        lemma_find_bounds(s, sep, 0);
    }
}

pub fn split_str(s: &str, sep: &str) -> (r: Vec<String>)
    requires
        sep@.len() >= 1,
    ensures
        r.deep_view() == spec_split(s@, sep@),
{
    let n = s.unicode_len();
    let mut r: Vec<String> = Vec::new();
    let mut cur: usize = 0;
    proof {
        assert(s@.skip(0) =~= s@);
        assert(r.deep_view() + spec_split(s@, sep@) =~= spec_split(s@, sep@));
    }
    loop
        invariant_except_break
            cur <= n,
            n == s@.len(),
            1 <= sep@.len(),
            spec_split(s@, sep@) == r.deep_view() + spec_split(s@.skip(cur as int), sep@),
        ensures
            r.deep_view() == spec_split(s@, sep@),
        decreases n - cur,
    {
        proof {
            lemma_find_skip(s@, sep@, cur as int, 0);
        }
        match find_at(s, sep, cur) {
            Some(i) => {
                let m = sep.unicode_len();
                proof {
                    lemma_find_bounds(s@, sep@, cur as int);
                    assert(s@.skip(cur as int).take(i - cur) =~= s@.subrange(cur as int, i as int));
                    assert(s@.skip(cur as int).skip(i - cur + sep@.len()) =~= s@.skip(
                        i + sep@.len(),
                    ));
                }
                let piece = s.substring_char(cur, i).to_owned();
                let ghost old_rd = r.deep_view();
                let ghost old_cur = cur as int;
                r.push(piece);
                cur = i + m;
                proof {
                    assert(r.deep_view() =~= old_rd.push(s@.subrange(old_cur, i as int)));
                    assert(spec_find(s@.skip(old_cur), sep@, 0) == Some(i - old_cur));
                    assert(spec_split(s@.skip(old_cur), sep@) == seq![
                        s@.skip(old_cur).take(i - old_cur),
                    ] + spec_split(s@.skip(old_cur).skip(i - old_cur + sep@.len()), sep@));
                    assert(spec_split(s@, sep@) =~= r.deep_view() + spec_split(
                        s@.skip(cur as int),
                        sep@,
                    ));
                }
            },
            None => {
                let piece = s.substring_char(cur, n).to_owned();
                let ghost old_rd = r.deep_view();
                r.push(piece);
                proof {
                    assert(s@.subrange(cur as int, n as int) =~= s@.skip(cur as int));
                    assert(r.deep_view() =~= old_rd.push(s@.skip(cur as int)));
                    assert(spec_split(s@.skip(cur as int), sep@) =~= seq![s@.skip(cur as int)]);
                    assert(r.deep_view() =~= spec_split(s@, sep@));
                }
                break;
            },
        }
    }
    r
}

/// Splits at the first occurrence of `sep` only, as `str::splitn(2, ..)`.
pub fn split_once_str(s: &str, sep: &str) -> (r: Option<(String, String)>)
    requires
        sep@.len() >= 1,
    ensures
        (r is Some) == (spec_find(s@, sep@, 0) is Some),
        r matches Some(p) ==> spec_find(s@, sep@, 0) matches Some(i) && p.0@ == s@.take(i)
            && p.1@ == s@.skip(i + sep@.len()),
{
    let n = s.unicode_len();
    match find_at(s, sep, 0) {
        Some(i) => {
            proof {
                lemma_find_bounds(s@, sep@, 0);
            }
            let head = s.substring_char(0, i).to_owned();
            let tail = s.substring_char(i + sep.unicode_len(), n).to_owned();
            proof {
                assert(head@ =~= s@.take(i as int));
                assert(tail@ =~= s@.skip(i + sep@.len()));
            }
            Some((head, tail))
        },
        None => None,
    }
}

/// The fields glued back together with `sep` between them: the model of
/// `[..].join(sep)`.
pub open spec fn spec_join(parts: Seq<Seq<char>>, sep: Seq<char>) -> Seq<char>
    decreases parts.len(),
{
    if parts.len() == 0 {
        Seq::empty()
    } else if parts.len() == 1 {
        parts[0]
    } else {
        parts[0] + sep + spec_join(parts.skip(1), sep)
    }
}

proof fn lemma_join_push(parts: Seq<Seq<char>>, sep: Seq<char>, x: Seq<char>)
    ensures
        spec_join(parts.push(x), sep) == if parts.len() == 0 {
            x
        } else {
            spec_join(parts, sep) + sep + x
        },
    decreases parts.len(),
{
    if parts.len() == 0 {
        assert(parts.push(x)[0] == x);
        assert(spec_join(parts.push(x), sep) == parts.push(x)[0]);
    } else if parts.len() == 1 {
        assert(parts.push(x).skip(1) =~= seq![x]);
        assert(spec_join(seq![x], sep) == seq![x][0]);
        assert(parts.push(x)[0] == parts[0]);
    } else {
        assert(parts.push(x).skip(1) =~= parts.skip(1).push(x));
        lemma_join_push(parts.skip(1), sep, x);
        assert(parts.push(x)[0] == parts[0]);
        assert(parts.push(x)[0] + sep + (spec_join(parts.skip(1), sep) + sep + x) =~= (parts[0]
            + sep + spec_join(parts.skip(1), sep)) + sep + x);
    }
}

pub fn join_strings(parts: &Vec<String>, sep: &str) -> (r: String)
    ensures
        r@ == spec_join(parts.deep_view(), sep@),
{
    let mut out = String::new();
    let mut i: usize = 0;
    while i < parts.len()
        invariant
            0 <= i <= parts.len(),
            parts.deep_view().len() == parts@.len(),
            out@ == spec_join(parts.deep_view().take(i as int), sep@),
        decreases parts.len() - i,
    {
        let ghost prefix = parts.deep_view().take(i as int);
        if i > 0 {
            out.append(sep);
        }
        out.append(parts[i].as_str());
        proof {
            assert(parts.deep_view()[i as int] == parts@[i as int]@);
            lemma_join_push(prefix, sep@, parts.deep_view()[i as int]);
            assert(prefix.push(parts.deep_view()[i as int]) =~= parts.deep_view().take(i + 1));
            if i == 0 {
                assert(out@ =~= spec_join(parts.deep_view().take(1), sep@));
            } else {
                assert(out@ =~= spec_join(parts.deep_view().take(i + 1), sep@));
            }
        }
        i += 1;
    }
    proof {
        assert(parts.deep_view().take(parts@.len() as int) =~= parts.deep_view());
    }
    out
}

/// Lexicographic order on character sequences, by code point.
pub open spec fn spec_lex_le(a: Seq<char>, b: Seq<char>) -> bool
    decreases a.len(),
{
    if a.len() == 0 {
        true
    } else if b.len() == 0 {
        false
    } else if a[0] != b[0] {
        a[0] < b[0]
    } else {
        spec_lex_le(a.skip(1), b.skip(1))
    }
}

/// Any two strings compare one way or the other.
pub proof fn lemma_lex_le_total(a: Seq<char>, b: Seq<char>)
    ensures
        spec_lex_le(a, b) || spec_lex_le(b, a),
    decreases a.len(),
{
    if a.len() > 0 && b.len() > 0 && a[0] == b[0] {
        lemma_lex_le_total(a.skip(1), b.skip(1));
    }
}

/// Lexicographic order is transitive.
pub proof fn lemma_lex_le_trans(a: Seq<char>, b: Seq<char>, c: Seq<char>)
    requires
        spec_lex_le(a, b),
        spec_lex_le(b, c),
    ensures
        spec_lex_le(a, c),
    decreases a.len(),
{
    if a.len() > 0 && b.len() > 0 && c.len() > 0 && a[0] == b[0] && b[0] == c[0] {
        lemma_lex_le_trans(a.skip(1), b.skip(1), c.skip(1));
    }
}

pub fn str_le(a: &str, b: &str) -> (r: bool)
    ensures
        r == spec_lex_le(a@, b@),
{
    let na = a.unicode_len();
    let nb = b.unicode_len();
    let mut i: usize = 0;
    proof {
        assert(a@.skip(0) =~= a@);
        assert(b@.skip(0) =~= b@);
    }
    while i < na && i < nb
        invariant
            0 <= i <= na,
            i <= nb,
            na == a@.len(),
            nb == b@.len(),
            spec_lex_le(a@, b@) == spec_lex_le(a@.skip(i as int), b@.skip(i as int)),
        decreases na - i,
    {
        let ca = a.get_char(i);
        let cb = b.get_char(i);
        if ca != cb {
            return ca < cb;
        }
        proof {
            assert(a@.skip(i as int).skip(1) =~= a@.skip(i + 1));
            assert(b@.skip(i as int).skip(1) =~= b@.skip(i + 1));
        }
        i += 1;
    }
    i >= na
}

/// A line with its carriage return stripped, as `str::lines` yields it.
pub open spec fn spec_chomp_cr(l: Seq<char>) -> Seq<char> {
    if l.len() > 0 && l.last() == '\r' {
        l.drop_last()
    } else {
        l
    }
}

/// The lines of a text: cut at every newline, the final empty piece
/// dropped, one trailing carriage return stripped from each line — the
/// model of `str::lines`.
pub open spec fn spec_lines(s: Seq<char>) -> Seq<Seq<char>> {
    let parts = spec_split(s, "\n"@);
    let kept = if parts.len() > 0 && parts.last().len() == 0 {
        parts.drop_last()
    } else {
        parts
    };
    kept.map_values(|l: Seq<char>| spec_chomp_cr(l))
}

pub fn lines_of(s: &str) -> (r: Vec<String>)
    ensures
        r.deep_view() == spec_lines(s@),
{
    proof {
        reveal_strlit("\n");
    }
    let mut parts = split_str(s, "\n");
    if parts.len() > 0 && parts[parts.len() - 1].as_str().unicode_len() == 0 {
        let ghost before = parts.deep_view();
        parts.pop();
        proof {
            assert(parts.deep_view() =~= before.drop_last());
        }
    }
    let ghost kept = parts.deep_view();
    let mut out: Vec<String> = Vec::new();
    let mut i: usize = 0;
    while i < parts.len()
        invariant
            0 <= i <= parts@.len(),
            kept == parts.deep_view(),
            kept.len() == parts@.len(),
            out.deep_view().len() == i,
            forall|k: int| 0 <= k < i ==> out.deep_view()[k] == spec_chomp_cr(#[trigger] kept[k]),
        decreases parts@.len() - i,
    {
        proof {
            assert(kept[i as int] == parts@[i as int]@);
        }
        let n = parts[i].as_str().unicode_len();
        let line = if n > 0 && parts[i].as_str().get_char(n - 1) == '\r' {
            let chomped = parts[i].as_str().substring_char(0, n - 1).to_owned();
            proof {
                assert(chomped@ =~= parts@[i as int]@.drop_last());
            }
            chomped
        } else {
            parts[i].clone()
        };
        out.push(line);
        i += 1;
    }
    proof {
        assert(out.deep_view() =~= kept.map_values(|l: Seq<char>| spec_chomp_cr(l)));
    }
    out
}

/// Rightmost occurrence of `c` in `s`.
pub open spec fn spec_rfind(s: Seq<char>, c: char) -> Option<int>
    decreases s.len(),
{
    if s.len() == 0 {
        None
    } else if s.last() == c {
        Some(s.len() - 1)
    } else {
        spec_rfind(s.drop_last(), c)
    }
}

pub fn rfind_char(s: &str, c: char) -> (r: Option<usize>)
    ensures
        r matches Some(i) ==> spec_rfind(s@, c) == Some(i as int) && i < s@.len(),
        r is None ==> spec_rfind(s@, c) is None,
{
    let n = s.unicode_len();
    let mut i: usize = n;
    proof {
        assert(s@.take(n as int) =~= s@);
    }
    while i > 0
        invariant
            0 <= i <= n,
            n == s@.len(),
            spec_rfind(s@, c) == spec_rfind(s@.take(i as int), c),
        decreases i,
    {
        proof {
            assert(s@.take(i as int).last() == s@[i - 1]);
            assert(s@.take(i as int).drop_last() =~= s@.take(i - 1));
        }
        if s.get_char(i - 1) == c {
            return Some(i - 1);
        }
        i -= 1;
    }
    None
}

/// Relies on `String::push`: appends one character at the end.
#[verifier::external_body]
pub fn push_char(s: &mut String, c: char)
    ensures
        final(s)@ == old(s)@ + seq![c],
{
    s.push(c)
}

} // verus!
