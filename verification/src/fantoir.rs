//! FANTOIR records and codes.
//!
//! This module decodes one fixed-width registry line into a typed entry,
//! computes the Rivoli check letter of a partial code, and normalizes the
//! raw code spellings found in external sources into the canonical
//! eleven-character form.

use vstd::prelude::*;
use vstd::string::*;

use crate::calendar::CalendarDate;
use crate::calendar::spec_from_yo;
use crate::text::all_digits;
use crate::text::parse_i32;
use crate::text::spec_parse_i32;
use crate::text::spec_parse_u32;
use crate::text::spec_trim;
use crate::text::str_eq;
use crate::text::trim_spaces;
use crate::text::digit_char_val;
use crate::text::digits_value;
use crate::text::has_char;
use crate::text::is_digit_char;
use crate::text::is_upper_char;
use crate::text::lemma_digits_value_upper;
use crate::text::contains_char;
use crate::text::parse_u32;
use crate::text::pow10;
use crate::text::push_char;

verus! {

/// The 23 letters a Rivoli key can take: the alphabet without I, O and Q.
pub open spec fn rivoli_alphabet() -> Seq<char> {
    seq![
        'A',
        'B',
        'C',
        'D',
        'E',
        'F',
        'G',
        'H',
        'J',
        'K',
        'L',
        'M',
        'N',
        'P',
        'R',
        'S',
        'T',
        'U',
        'V',
        'W',
        'X',
        'Y',
        'Z',
    ]
}

/// The inputs the Rivoli formula is stated for: six digits of department and
/// commune, one way-type character (digit or capital letter), three digits
/// of local sequence number.
pub open spec fn rivoli_domain(s: Seq<char>) -> bool {
    &&& s.len() == 10
    &&& all_digits(s.subrange(0, 6))
    &&& is_digit_char(s[6]) || is_upper_char(s[6])
    &&& all_digits(s.subrange(7, 10))
}

/// A code opening on one of the two Corsican department spellings, which
/// the Rivoli formula does not cover.
pub open spec fn corsican_prefix(s: Seq<char>) -> bool {
    s.len() >= 2 && s[0] == '2' && (s[1] == 'A' || s[1] == 'B')
}

/// Way-type value: the digit itself, or the documented letter mapping
/// (`'A'` is 10, up to `'Z'` as 35).
pub open spec fn spec_rivoli_type_value(c: char) -> int {
    if is_digit_char(c) {
        digit_char_val(c)
    } else {
        c as int - 55
    }
}

pub open spec fn spec_rivoli_index(s: Seq<char>) -> int {
    (digits_value(s.subrange(0, 6)) * 19 + spec_rivoli_type_value(s[6]) * 11 + digits_value(
        s.subrange(7, 10),
    )) % 23
}

/// The Rivoli check letter of a ten-character partial code.
pub open spec fn spec_rivoli_key(s: Seq<char>) -> char {
    rivoli_alphabet()[spec_rivoli_index(s)]
}

proof fn lemma_rivoli_index_in_range(s: Seq<char>)
    requires
        rivoli_domain(s),
    ensures
        0 <= spec_rivoli_index(s) < 23,
{
    crate::text::lemma_digits_value_upper(s.subrange(0, 6));
    crate::text::lemma_digits_value_upper(s.subrange(7, 10));
    assert(spec_rivoli_type_value(s[6]) >= 0);
}

/// Every letter of the Rivoli alphabet is a capital letter other than I, O
/// and Q.
pub proof fn lemma_rivoli_alphabet_letters(k: int)
    requires
        0 <= k < 23,
    ensures
        is_upper_char(rivoli_alphabet()[k]),
        rivoli_alphabet()[k] != 'I',
        rivoli_alphabet()[k] != 'O',
        rivoli_alphabet()[k] != 'Q',
{
}

/// The check letter always lies in the Rivoli alphabet and is never I, O
/// or Q.
pub proof fn lemma_rivoli_key_in_alphabet(s: Seq<char>)
    requires
        rivoli_domain(s),
    ensures
        rivoli_alphabet().contains(spec_rivoli_key(s)),
        is_upper_char(spec_rivoli_key(s)),
        spec_rivoli_key(s) != 'I',
        spec_rivoli_key(s) != 'O',
        spec_rivoli_key(s) != 'Q',
{
    lemma_rivoli_index_in_range(s);
    lemma_rivoli_alphabet_letters(spec_rivoli_index(s));
    assert(rivoli_alphabet().contains(rivoli_alphabet()[spec_rivoli_index(s)]));
}

fn rivoli_letter(index: u32) -> (r: char)
    requires
        0 <= index < 23,
    ensures
        r == rivoli_alphabet()[index as int],
{
    if index == 0 {
        'A'
    } else if index == 1 {
        'B'
    } else if index == 2 {
        'C'
    } else if index == 3 {
        'D'
    } else if index == 4 {
        'E'
    } else if index == 5 {
        'F'
    } else if index == 6 {
        'G'
    } else if index == 7 {
        'H'
    } else if index == 8 {
        'J'
    } else if index == 9 {
        'K'
    } else if index == 10 {
        'L'
    } else if index == 11 {
        'M'
    } else if index == 12 {
        'N'
    } else if index == 13 {
        'P'
    } else if index == 14 {
        'R'
    } else if index == 15 {
        'S'
    } else if index == 16 {
        'T'
    } else if index == 17 {
        'U'
    } else if index == 18 {
        'V'
    } else if index == 19 {
        'W'
    } else if index == 20 {
        'X'
    } else if index == 21 {
        'Y'
    } else {
        'Z'
    }
}

/// Rivoli check letter of a ten-character partial FANTOIR code whose
/// department and commune block is numeric.
pub fn compute_rivoli_key(code: &str) -> (r: char)
    requires
        rivoli_domain(code@),
    ensures
        r == spec_rivoli_key(code@),
        is_upper_char(r) && r != 'I' && r != 'O' && r != 'Q',
{
    let part_str = code.substring_char(0, 6);
    proof {
        assert(part_str@ =~= code@.subrange(0, 6));
        lemma_digits_value_upper(code@.subrange(0, 6));
        assert(pow10(6) == 1000000) by {
            reveal_with_fuel(pow10, 7);
        }
    }
    let part = parse_u32(part_str).unwrap();
    let type_char = code.get_char(6);
    let type_value: u32 = if type_char >= '0' && type_char <= '9' {
        type_char as u32 - 48
    } else {
        type_char as u32 - 55
    };
    let seq_str = code.substring_char(7, 10);
    proof {
        assert(seq_str@ =~= code@.subrange(7, 10));
        lemma_digits_value_upper(code@.subrange(7, 10));
        assert(pow10(3) == 1000) by {
            reveal_with_fuel(pow10, 4);
        }
    }
    let seq_value = parse_u32(seq_str).unwrap();
    let index = (part * 19 + type_value * 11 + seq_value) % 23;
    proof {
        lemma_rivoli_index_in_range(code@);
        lemma_rivoli_key_in_alphabet(code@);
    }
    rivoli_letter(index)
}

/// Why no Rivoli key could be computed for a code.
#[derive(Clone, Copy, Debug, PartialEq, Eq, Structural)]
pub enum RivoliKeyError {
    /// The code opens on a Corsican department spelling, which the
    /// published formula does not support.
    UnsupportedDepartmentEncoding,
    /// The code does not have the ten-character digits-and-type shape the
    /// formula is stated for.
    MalformedCode,
}

/// Total form of the Rivoli computation: checks its input and says why it
/// refuses one instead of requiring the caller to know.
pub fn rivoli_key_checked(code: &str) -> (r: Result<char, RivoliKeyError>)
    ensures
        (r is Ok) == rivoli_domain(code@),
        r matches Ok(k) ==> k == spec_rivoli_key(code@),
        r == Err::<char, RivoliKeyError>(RivoliKeyError::UnsupportedDepartmentEncoding) <==> (
        !rivoli_domain(code@) && corsican_prefix(code@)),
        r == Err::<char, RivoliKeyError>(RivoliKeyError::MalformedCode) <==> (!rivoli_domain(
            code@,
        ) && !corsican_prefix(code@)),
{
    let n = code.unicode_len();
    let corsican = n >= 2 && code.get_char(0) == '2' && (code.get_char(1) == 'A' || code.get_char(
        1,
    ) == 'B');
    if corsican {
        assert(!is_digit_char(code@[1]));
        assert(!rivoli_domain(code@)) by {
            if rivoli_domain(code@) {
                assert(code@.subrange(0, 6)[1] == code@[1]);
            }
        }
        return Err(RivoliKeyError::UnsupportedDepartmentEncoding);
    }
    if n != 10 {
        return Err(RivoliKeyError::MalformedCode);
    }
    let mut i: usize = 0;
    while i < 6
        invariant
            0 <= i <= 6,
            code@.len() == 10,
            !corsican_prefix(code@),
            forall|k: int| 0 <= k < i ==> is_digit_char(#[trigger] code@[k]),
        decreases 6 - i,
    {
        let c = code.get_char(i);
        if !(c >= '0' && c <= '9') {
            assert(code@.subrange(0, 6)[i as int] == code@[i as int]);
            return Err(RivoliKeyError::MalformedCode);
        }
        i += 1;
    }
    let type_char = code.get_char(6);
    if !((type_char >= '0' && type_char <= '9') || (type_char >= 'A' && type_char <= 'Z')) {
        return Err(RivoliKeyError::MalformedCode);
    }
    let mut j: usize = 7;
    while j < 10
        invariant
            7 <= j <= 10,
            code@.len() == 10,
            !corsican_prefix(code@),
            forall|k: int| 7 <= k < j ==> is_digit_char(#[trigger] code@[k]),
        decreases 10 - j,
    {
        let c = code.get_char(j);
        if !(c >= '0' && c <= '9') {
            assert(code@.subrange(7, 10)[j - 7] == code@[j as int]);
            return Err(RivoliKeyError::MalformedCode);
        }
        j += 1;
    }
    assert(rivoli_domain(code@)) by {
        assert(forall|k: int| 0 <= k < 6 ==> code@.subrange(0, 6)[k] == code@[k]);
        assert(forall|k: int| 0 <= k < 3 ==> code@.subrange(7, 10)[k] == code@[k + 7]);
    }
    Ok(compute_rivoli_key(code))
}

/// Departments whose code direction digit is not always zero, so that it
/// cannot be synthesized: 13, 59, 75, 92 and the overseas prefix 97.
pub open spec fn spec_specific_direction(s: Seq<char>) -> bool {
    s.len() >= 2 && ((s[0] == '1' && s[1] == '3') || (s[0] == '5' && s[1] == '9') || (s[0] == '7'
        && s[1] == '5') || (s[0] == '9' && s[1] == '2') || (s[0] == '9' && s[1] == '7'))
}

/// Tells whether a code belongs to a department using specific code
/// directions, which the canonicalization cannot compute.
pub fn uses_specific_code_direction(code: &str) -> (r: bool)
    ensures
        r == spec_specific_direction(code@),
{
    if code.unicode_len() < 2 {
        return false;
    }
    let c0 = code.get_char(0);
    let c1 = code.get_char(1);
    (c0 == '1' && c1 == '3') || (c0 == '5' && c1 == '9') || (c0 == '7' && c1 == '5') || (c0 == '9'
        && c1 == '2') || (c0 == '9' && c1 == '7')
}

/// A fixed FANTOIR code: either fully computed, or the lookup key to search
/// when the code direction cannot be derived.
#[derive(Debug, Eq, PartialEq)]
pub enum FixedFantoirCode {
    /// The code has been fully computed.
    Computed(String),
    /// Information needed to query the code has been extracted, but the
    /// code direction is unknown and must come from a lookup.
    ToSearch { code_insee: String, identifiant_communal_voie: String },
}

/// The mathematical model of a fixed code.
pub enum SpecFixedCode {
    Computed(Seq<char>),
    ToSearch { code_insee: Seq<char>, identifiant_communal_voie: Seq<char> },
}

impl View for FixedFantoirCode {
    type V = SpecFixedCode;

    open spec fn view(&self) -> SpecFixedCode {
        match self {
            FixedFantoirCode::Computed(code) => SpecFixedCode::Computed(code@),
            FixedFantoirCode::ToSearch { code_insee, identifiant_communal_voie } =>
                SpecFixedCode::ToSearch {
                    code_insee: code_insee@,
                    identifiant_communal_voie: identifiant_communal_voie@,
                },
        }
    }
}

pub open spec fn digit_or_upper(c: char) -> bool {
    is_digit_char(c) || is_upper_char(c)
}

/// Second canonicalization step: a ten-character code gets its Rivoli key
/// when it ends in a digit, or its zero direction digit when it ends in a
/// way-type letter; other lengths pass through unchanged.
pub open spec fn spec_complete_code(t: Seq<char>) -> SpecFixedCode {
    if t.len() == 10 {
        if is_digit_char(t[9]) {
            SpecFixedCode::Computed(t + seq![spec_rivoli_key(t)])
        } else if is_upper_char(t[9]) {
            if spec_specific_direction(t) {
                SpecFixedCode::ToSearch {
                    code_insee: t.take(5),
                    identifiant_communal_voie: t.subrange(5, 9),
                }
            } else {
                SpecFixedCode::Computed(t.take(2) + seq!['0'] + t.skip(2))
            }
        } else {
            SpecFixedCode::Computed(t)
        }
    } else {
        SpecFixedCode::Computed(t)
    }
}

/// The whole canonicalization: a separator form is first rebuilt into ten
/// characters (three-digit department for the overseas prefix, zero
/// direction digit otherwise), or handed to the lookup for departments
/// with specific code directions.
pub open spec fn spec_fix_fantoir_code(s: Seq<char>) -> SpecFixedCode {
    if has_char(s, '_') {
        if s.len() >= 2 && s[0] == '9' && s[1] == '7' {
            spec_complete_code(s.take(3) + s.subrange(2, 5) + s.subrange(6, 10))
        } else if spec_specific_direction(s) {
            SpecFixedCode::ToSearch {
                code_insee: s.take(5),
                identifiant_communal_voie: s.subrange(6, 10),
            }
        } else {
            spec_complete_code(s.take(2) + seq!['0'] + s.subrange(2, 5) + s.subrange(6, 10))
        }
    } else {
        spec_complete_code(s)
    }
}

/// The raw code spellings canonicalization is defined for: a five-character
/// numeric zone identifier and a four-character local identifier around one
/// separator, or a plain code whose ten-character form is digits and
/// capital letters where the formula reads them.
pub open spec fn raw_code_ok(s: Seq<char>) -> bool {
    if has_char(s, '_') {
        &&& s.len() == 10
        &&& s[5] == '_'
        &&& (forall|i: int| 0 <= i < s.len() && s[i] == '_' ==> i == 5)
        &&& all_digits(s.take(5))
        &&& digit_or_upper(s[6])
        &&& digit_or_upper(s[9])
        &&& (is_digit_char(s[9]) ==> is_digit_char(s[7]) && is_digit_char(s[8]))
    } else if s.len() == 10 {
        &&& digit_or_upper(s[9])
        &&& (is_digit_char(s[9]) ==> rivoli_domain(s))
    } else {
        true
    }
}

/// What the first step hands to `spec_complete_code`.
pub open spec fn complete_pre(t: Seq<char>) -> bool {
    t.len() == 10 ==> {
        &&& digit_or_upper(t[9])
        &&& (is_digit_char(t[9]) ==> rivoli_domain(t))
        &&& !has_char(t, '_')
    }
}

fn complete_code(work: String) -> (r: FixedFantoirCode)
    requires
        complete_pre(work@),
    ensures
        r@ == spec_complete_code(work@),
{
    let n = work.as_str().unicode_len();
    if n != 10 {
        return FixedFantoirCode::Computed(work);
    }
    let last = work.as_str().get_char(9);
    if last >= '0' && last <= '9' {
        let key = compute_rivoli_key(work.as_str());
        let mut out = work;
        push_char(&mut out, key);
        FixedFantoirCode::Computed(out)
    } else if last >= 'A' && last <= 'Z' {
        if uses_specific_code_direction(work.as_str()) {
            let r = FixedFantoirCode::ToSearch {
                code_insee: work.as_str().substring_char(0, 5).to_owned(),
                identifiant_communal_voie: work.as_str().substring_char(5, 9).to_owned(),
            };
            proof {
                assert(work@.subrange(0, 5) =~= work@.take(5));
            }
            r
        } else {
            let mut out = work.as_str().substring_char(0, 2).to_owned();
            out.append("0");
            out.append(work.as_str().substring_char(2, 10));
            proof {
                reveal_strlit("0");
                assert("0"@ =~= seq!['0']);
                assert(out@ =~= work@.take(2) + seq!['0'] + work@.skip(2));
            }
            FixedFantoirCode::Computed(out)
        }
    } else {
        FixedFantoirCode::Computed(work)
    }
}

/// Transforms raw FANTOIR code spellings into regular FANTOIR codes.
/// External sources sometimes write `<zone identifier>_<local identifier>`
/// without a Rivoli key.
pub fn fix_fantoir_code(code: &str) -> (r: FixedFantoirCode)
    requires
        raw_code_ok(code@),
    ensures
        r@ == spec_fix_fantoir_code(code@),
{
    let ghost s = code@;
    if contains_char(code, '_') {
        if code.get_char(0) == '9' && code.get_char(1) == '7' {
            let mut work = code.substring_char(0, 3).to_owned();
            work.append(code.substring_char(2, 5));
            work.append(code.substring_char(6, 10));
            let ghost t = s.take(3) + s.subrange(2, 5) + s.subrange(6, 10);
            proof {
                assert(work@ =~= t);
                lemma_sep_rebuild_ok(s, t);
            }
            complete_code(work)
        } else if uses_specific_code_direction(code) {
            let r = FixedFantoirCode::ToSearch {
                code_insee: code.substring_char(0, 5).to_owned(),
                identifiant_communal_voie: code.substring_char(6, 10).to_owned(),
            };
            proof {
                assert(s.subrange(0, 5) =~= s.take(5));
            }
            r
        } else {
            let mut work = code.substring_char(0, 2).to_owned();
            work.append("0");
            work.append(code.substring_char(2, 5));
            work.append(code.substring_char(6, 10));
            let ghost t = s.take(2) + seq!['0'] + s.subrange(2, 5) + s.subrange(6, 10);
            proof {
                reveal_strlit("0");
                assert("0"@ =~= seq!['0']);
                assert(work@ =~= t);
                lemma_sep_rebuild_ok(s, t);
            }
            complete_code(work)
        }
    } else {
        complete_code(code.to_owned())
    }
}

/// Both separator rebuilds yield ten characters that satisfy the second
/// step's precondition.
proof fn lemma_sep_rebuild_ok(s: Seq<char>, t: Seq<char>)
    requires
        raw_code_ok(s),
        has_char(s, '_'),
        t == s.take(3) + s.subrange(2, 5) + s.subrange(6, 10) || t == s.take(2) + seq!['0']
            + s.subrange(2, 5) + s.subrange(6, 10),
    ensures
        complete_pre(t),
        t.len() == 10,
        t[9] == s[9],
        t[0] == s[0] && t[1] == s[1],
        !has_char(t, '_'),
{
    let zone = s.take(5);
    assert(forall|k: int| 0 <= k < 5 ==> zone[k] == s[k]);
    if t == s.take(3) + s.subrange(2, 5) + s.subrange(6, 10) {
        assert(t =~= seq![s[0], s[1], s[2], s[2], s[3], s[4], s[6], s[7], s[8], s[9]]);
    } else {
        assert(t =~= seq![s[0], s[1], '0', s[2], s[3], s[4], s[6], s[7], s[8], s[9]]);
    }
    assert forall|i: int| 0 <= i < 10 implies t[i] != '_' by {
        assert(is_digit_char('0'));
    }
    if is_digit_char(t[9]) {
        assert(all_digits(t.subrange(0, 6))) by {
            assert(forall|k: int| 0 <= k < 6 ==> t.subrange(0, 6)[k] == t[k]);
        }
        assert(all_digits(t.subrange(7, 10))) by {
            assert(forall|k: int| 0 <= k < 3 ==> t.subrange(7, 10)[k] == t[k + 7]);
        }
        assert(rivoli_domain(t));
    }
}

/// Canonicalization is deterministic: the outcome is a function of the raw
/// code's characters alone, with no other state.
pub proof fn lemma_fix_fantoir_code_deterministic(a: Seq<char>, b: Seq<char>)
    requires
        a == b,
    ensures
        spec_fix_fantoir_code(a) == spec_fix_fantoir_code(b),
{
}

/// A computed code is never ten characters long and never holds a
/// separator, so canonicalizing it again leaves it unchanged.
pub proof fn lemma_fix_code_computed_shape(s: Seq<char>)
    requires
        raw_code_ok(s),
    ensures
        spec_fix_fantoir_code(s) matches SpecFixedCode::Computed(c) ==> !has_char(c, '_')
            && c.len() != 10,
{
    match spec_fix_fantoir_code(s) {
        SpecFixedCode::Computed(c) => {
            if has_char(s, '_') {
                let t = if s[0] == '9' && s[1] == '7' {
                    s.take(3) + s.subrange(2, 5) + s.subrange(6, 10)
                } else {
                    s.take(2) + seq!['0'] + s.subrange(2, 5) + s.subrange(6, 10)
                };
                lemma_sep_rebuild_ok(s, t);
                lemma_complete_code_computed_shape(t);
            } else {
                if s.len() == 10 {
                    assert(!has_char(s, '_'));
                    lemma_complete_code_computed_shape(s);
                } else {
                    assert(c == s);
                }
            }
        },
        SpecFixedCode::ToSearch { .. } => {},
    }
}

/// Shape of the codes `spec_complete_code` computes from a ten-character
/// input: eleven characters, none of them a separator.
proof fn lemma_complete_code_computed_shape(t: Seq<char>)
    requires
        t.len() == 10,
        complete_pre(t),
        !has_char(t, '_'),
    ensures
        spec_complete_code(t) matches SpecFixedCode::Computed(c) ==> !has_char(c, '_') && c.len()
            == 11,
{
    if is_digit_char(t[9]) {
        lemma_rivoli_key_in_alphabet(t);
        let c = t + seq![spec_rivoli_key(t)];
        assert forall|i: int| 0 <= i < c.len() implies c[i] != '_' by {
            if i < 10 {
                assert(c[i] == t[i]);
            } else {
                assert(c[i] == spec_rivoli_key(t));
            }
        }
    } else if is_upper_char(t[9]) && !spec_specific_direction(t) {
        let c = t.take(2) + seq!['0'] + t.skip(2);
        assert forall|i: int| 0 <= i < c.len() implies c[i] != '_' by {
            if i < 2 {
                assert(c[i] == t[i]);
            } else if i == 2 {
                assert(c[i] == '0');
            } else {
                assert(c[i] == t[i - 1]);
            }
        }
        assert(c.len() == 11);
    }
}

/// Canonicalization is idempotent on computed results: a code it fully
/// computed comes back unchanged when canonicalized again.
pub proof fn lemma_fix_fantoir_code_idempotent(s: Seq<char>)
    requires
        raw_code_ok(s),
    ensures
        spec_fix_fantoir_code(s) matches SpecFixedCode::Computed(c) ==> raw_code_ok(c)
            && spec_fix_fantoir_code(c) == SpecFixedCode::Computed(c),
{
    lemma_fix_code_computed_shape(s);
}

/// The shape of a canonical eleven-character code: digits and capital
/// letters only.
pub open spec fn spec_canonical_shape(s: Seq<char>) -> bool {
    s.len() == 11 && (forall|i: int| 0 <= i < s.len() ==> digit_or_upper(#[trigger] s[i]))
}

/// Tells whether an expression already has the shape of a canonical
/// FANTOIR code.
pub fn looks_like_canonical_fantoir_code(code: &str) -> (r: bool)
    ensures
        r == spec_canonical_shape(code@),
{
    let n = code.unicode_len();
    if n != 11 {
        return false;
    }
    let mut i: usize = 0;
    while i < 11
        invariant
            0 <= i <= 11,
            code@.len() == 11,
            forall|k: int| 0 <= k < i ==> digit_or_upper(#[trigger] code@[k]),
        decreases 11 - i,
    {
        let c = code.get_char(i);
        if !((c >= '0' && c <= '9') || (c >= 'A' && c <= 'Z')) {
            return false;
        }
        i += 1;
    }
    true
}

/// The view of an optional string.
pub open spec fn spec_opt_str(o: Option<String>) -> Option<Seq<char>> {
    match o {
        Some(s) => Some(s@),
        None => None,
    }
}

/// What `parse_optional_string` returns: the trimmed expression, absent
/// when nothing is left.
pub open spec fn spec_optional_trimmed(s: Seq<char>) -> Option<Seq<char>> {
    if spec_trim(s).len() > 0 {
        Some(spec_trim(s))
    } else {
        None
    }
}

/// Trims an expression; an empty or all-blank one is absent, not an empty
/// string.
pub fn parse_optional_string(expression: &str) -> (r: Option<String>)
    ensures
        spec_opt_str(r) == spec_optional_trimmed(expression@),
{
    let trimmed = trim_spaces(expression);
    if trimmed.unicode_len() > 0 {
        Some(trimmed.to_owned())
    } else {
        None
    }
}

/// Why a seven-character date field was refused.
#[derive(Clone, Copy, Debug, PartialEq, Eq, Structural)]
pub enum DateParseError {
    /// The year or ordinal part is not numeric.
    NotNumeric,
    /// The day-of-year is out of range for that year.
    InvalidOrdinalDate,
}

/// All-zero date fields mean "no date".
pub open spec fn spec_zero_date(s: Seq<char>) -> bool {
    forall|i: int| 0 <= i < s.len() ==> s[i] == '0'
}

/// What `parse_fantoir_date` returns for a seven-character field.
pub open spec fn spec_parse_fantoir_date(s: Seq<char>) -> Result<
    Option<CalendarDate>,
    DateParseError,
> {
    if spec_zero_date(s) {
        Ok(None)
    } else {
        match (spec_parse_u32(s.subrange(0, 4)), spec_parse_u32(s.subrange(4, 7))) {
            (Some(y), Some(o)) => match spec_from_yo(y as i32, o as int) {
                Some(d) => Ok(Some(d)),
                None => Err(DateParseError::InvalidOrdinalDate),
            },
            _ => Err(DateParseError::NotNumeric),
        }
    }
}

/// Decodes a date field: four digits of year, three of day-of-year, with
/// the all-zero sentinel meaning "no date".
pub fn parse_fantoir_date(date: &str) -> (r: Result<Option<CalendarDate>, DateParseError>)
    requires
        date@.len() == 7,
    ensures
        r == spec_parse_fantoir_date(date@),
{
    proof {
        reveal_strlit("0000000");
    }
    if str_eq(date, "0000000") {
        assert(spec_zero_date(date@));
        return Ok(None);
    }
    assert(!spec_zero_date(date@)) by {
        if spec_zero_date(date@) {
            assert(date@ =~= "0000000"@);
        }
    }
    let year_str = date.substring_char(0, 4);
    let ord_str = date.substring_char(4, 7);
    proof {
        assert(year_str@ =~= date@.subrange(0, 4));
        assert(ord_str@ =~= date@.subrange(4, 7));
    }
    let y = match parse_u32(year_str) {
        Some(y) => y,
        None => {
            return Err(DateParseError::NotNumeric);
        },
    };
    let o = match parse_u32(ord_str) {
        Some(o) => o,
        None => {
            return Err(DateParseError::NotNumeric);
        },
    };
    proof {
        lemma_digits_value_upper(date@.subrange(0, 4));
        assert(pow10(4) == 10000) by {
            reveal_with_fuel(pow10, 5);
        }
    }
    match CalendarDate::from_yo_opt(y as i32, o) {
        Some(d) => Ok(Some(d)),
        None => Err(DateParseError::InvalidOrdinalDate),
    }
}

/// A decode failure for one registry line; the line is rejected as a whole.
#[derive(Clone, Debug, PartialEq, Eq)]
pub enum FantoirDecodeError {
    /// A numeric sub-field does not parse; carries the field's name.
    FieldParse { field: String },
    /// A date sub-field has a day-of-year out of range for its year.
    InvalidOrdinalDate,
}

/// The mathematical model of a decode failure.
pub enum SpecDecodeError {
    FieldParse(Seq<char>),
    InvalidOrdinalDate,
}

impl View for FantoirDecodeError {
    type V = SpecDecodeError;

    open spec fn view(&self) -> SpecDecodeError {
        match self {
            FantoirDecodeError::FieldParse { field } => SpecDecodeError::FieldParse(field@),
            FantoirDecodeError::InvalidOrdinalDate => SpecDecodeError::InvalidOrdinalDate,
        }
    }
}

/// The department identifier: two characters, three for the overseas
/// prefix.
pub open spec fn spec_departement(s: Seq<char>) -> Seq<char> {
    if s[0] == '9' && s[1] == '7' {
        s.take(3)
    } else {
        s.take(2)
    }
}

/// The first decode failure of a line, in the order the fields are read,
/// or `None` when every sub-field parses.
pub open spec fn spec_line_decode_error(s: Seq<char>) -> Option<SpecDecodeError> {
    if spec_parse_i32(s.subrange(3, 6)) is None {
        Some(SpecDecodeError::FieldParse("code_commune"@))
    } else if spec_parse_i32(s.subrange(108, 109)) is None {
        Some(SpecDecodeError::FieldParse("type_voie"@))
    } else if spec_parse_i32(s.subrange(59, 66)) is None {
        Some(SpecDecodeError::FieldParse("population_a_part"@))
    } else if spec_parse_i32(s.subrange(66, 73)) is None {
        Some(SpecDecodeError::FieldParse("population_fictive"@))
    } else if spec_parse_fantoir_date(s.subrange(74, 81)) == Err::<
        Option<CalendarDate>,
        DateParseError,
    >(DateParseError::NotNumeric) {
        Some(SpecDecodeError::FieldParse("cancel_date"@))
    } else if spec_parse_fantoir_date(s.subrange(74, 81)) == Err::<
        Option<CalendarDate>,
        DateParseError,
    >(DateParseError::InvalidOrdinalDate) {
        Some(SpecDecodeError::InvalidOrdinalDate)
    } else if spec_parse_fantoir_date(s.subrange(81, 88)) == Err::<
        Option<CalendarDate>,
        DateParseError,
    >(DateParseError::NotNumeric) {
        Some(SpecDecodeError::FieldParse("creation_date"@))
    } else if spec_parse_fantoir_date(s.subrange(81, 88)) == Err::<
        Option<CalendarDate>,
        DateParseError,
    >(DateParseError::InvalidOrdinalDate) {
        Some(SpecDecodeError::InvalidOrdinalDate)
    } else if spec_parse_i32(s.subrange(103, 108)) is None {
        Some(SpecDecodeError::FieldParse("code_majic"@))
    } else {
        None
    }
}

/// A voie in the FANTOIR registry, decoded from one fixed-width line.
#[derive(Clone, Debug, PartialEq)]
pub struct FantoirEntry {
    /* Identifiers */
    pub code_fantoir: String,
    /* Part 1 - commune */
    pub departement: String,
    pub code_commune: i32,
    pub code_insee: String,
    pub type_commune: Option<String>,
    pub is_pseudo_recensee: bool,
    /* Part 2 - voie */
    pub identifiant_communal_voie: String,
    pub cle_rivoli: String,
    pub code_nature_voie: Option<String>,
    pub libelle_voie: String,
    pub type_voie: i32,
    pub is_public: bool,
    /* Part 3 - population */
    pub is_large: bool,
    pub population_a_part: i32,
    pub population_fictive: i32,
    /* Part 4 - metadata */
    pub is_cancelled: bool,
    pub cancel_date: Option<CalendarDate>,
    pub creation_date: Option<CalendarDate>,
    pub code_majic: i32,
    pub last_alpha_word: String,
}

impl FantoirEntry {
    /// Decodes one registry line; every sub-field comes from a fixed byte
    /// range, and a line whose numeric or date sub-fields do not parse is
    /// rejected as a whole.
    pub fn parse_line(line: &str) -> (r: Result<FantoirEntry, FantoirDecodeError>)
        requires
            line@.len() >= 113,
        ensures
            (r is Ok) == (spec_line_decode_error(line@) is None),
            r matches Err(e) ==> Some(e@) == spec_line_decode_error(line@),
            r matches Ok(e) ==> {
                &&& e.code_fantoir@ == line@.subrange(0, 11)
                &&& e.departement@ == spec_departement(line@)
                &&& Some(e.code_commune) == spec_parse_i32(line@.subrange(3, 6))
                &&& e.code_insee@ == line@.take(2) + line@.subrange(3, 6)
                &&& spec_opt_str(e.type_commune) == spec_optional_trimmed(line@.subrange(43, 44))
                &&& e.is_pseudo_recensee == (line@[45] == '3')
                &&& e.identifiant_communal_voie@ == line@.subrange(6, 10)
                &&& e.cle_rivoli@ == line@.subrange(10, 11)
                &&& spec_opt_str(e.code_nature_voie) == spec_optional_trimmed(
                    line@.subrange(11, 15),
                )
                &&& e.libelle_voie@ == spec_trim(line@.subrange(15, 41))
                &&& Some(e.type_voie) == spec_parse_i32(line@.subrange(108, 109))
                &&& e.is_public == (line@[48] == '0')
                &&& e.is_large == (line@[49] == '*')
                &&& Some(e.population_a_part) == spec_parse_i32(line@.subrange(59, 66))
                &&& Some(e.population_fictive) == spec_parse_i32(line@.subrange(66, 73))
                &&& e.is_cancelled == (line@[73] != ' ')
                &&& Ok::<Option<CalendarDate>, DateParseError>(e.cancel_date)
                    == spec_parse_fantoir_date(line@.subrange(74, 81))
                &&& Ok::<Option<CalendarDate>, DateParseError>(e.creation_date)
                    == spec_parse_fantoir_date(line@.subrange(81, 88))
                &&& Some(e.code_majic) == spec_parse_i32(line@.subrange(103, 108))
                &&& e.last_alpha_word@ == line@.skip(112)
            },
    {
        let len = line.unicode_len();
        let departement = if line.get_char(0) == '9' && line.get_char(1) == '7' {
            line.substring_char(0, 3).to_owned()
        } else {
            line.substring_char(0, 2).to_owned()
        };
        proof {
            assert(line@.subrange(0, 3) =~= line@.take(3));
            assert(line@.subrange(0, 2) =~= line@.take(2));
        }
        let code_commune = match parse_i32(line.substring_char(3, 6)) {
            Some(v) => v,
            None => {
                return Err(FantoirDecodeError::FieldParse { field: "code_commune".to_owned() });
            },
        };
        let type_voie = match parse_i32(line.substring_char(108, 109)) {
            Some(v) => v,
            None => {
                return Err(FantoirDecodeError::FieldParse { field: "type_voie".to_owned() });
            },
        };
        let population_a_part = match parse_i32(line.substring_char(59, 66)) {
            Some(v) => v,
            None => {
                return Err(
                    FantoirDecodeError::FieldParse { field: "population_a_part".to_owned() },
                );
            },
        };
        let population_fictive = match parse_i32(line.substring_char(66, 73)) {
            Some(v) => v,
            None => {
                return Err(
                    FantoirDecodeError::FieldParse { field: "population_fictive".to_owned() },
                );
            },
        };
        let cancel_date = match parse_fantoir_date(line.substring_char(74, 81)) {
            Ok(d) => d,
            Err(DateParseError::NotNumeric) => {
                return Err(FantoirDecodeError::FieldParse { field: "cancel_date".to_owned() });
            },
            Err(DateParseError::InvalidOrdinalDate) => {
                return Err(FantoirDecodeError::InvalidOrdinalDate);
            },
        };
        let creation_date = match parse_fantoir_date(line.substring_char(81, 88)) {
            Ok(d) => d,
            Err(DateParseError::NotNumeric) => {
                return Err(FantoirDecodeError::FieldParse { field: "creation_date".to_owned() });
            },
            Err(DateParseError::InvalidOrdinalDate) => {
                return Err(FantoirDecodeError::InvalidOrdinalDate);
            },
        };
        let code_majic = match parse_i32(line.substring_char(103, 108)) {
            Some(v) => v,
            None => {
                return Err(FantoirDecodeError::FieldParse { field: "code_majic".to_owned() });
            },
        };
        let mut code_insee = line.substring_char(0, 2).to_owned();
        code_insee.append(line.substring_char(3, 6));
        proof {
            assert(code_insee@ =~= line@.take(2) + line@.subrange(3, 6));
        }
        Ok(
            FantoirEntry {
                code_fantoir: line.substring_char(0, 11).to_owned(),
                departement,
                code_commune,
                code_insee,
                type_commune: parse_optional_string(line.substring_char(43, 44)),
                is_pseudo_recensee: line.get_char(45) == '3',
                identifiant_communal_voie: line.substring_char(6, 10).to_owned(),
                cle_rivoli: line.substring_char(10, 11).to_owned(),
                code_nature_voie: parse_optional_string(line.substring_char(11, 15)),
                libelle_voie: trim_spaces(line.substring_char(15, 41)).to_owned(),
                type_voie,
                is_public: line.get_char(48) == '0',
                is_large: line.get_char(49) == '*',
                population_a_part,
                population_fictive,
                is_cancelled: line.get_char(73) != ' ',
                cancel_date,
                creation_date,
                code_majic,
                last_alpha_word: line.substring_char(112, len).to_owned(),
            },
        )
    }
}

} // verus!
