//! Reference data for ISO 639 language tags: English names and autonyms,
//! default scripts, Windows locale identifiers, and a reversible
//! "pseudo-LCID" encoding for (language, region) pairs.
use vstd::prelude::*;
use crate::numeral::{
    alphabet, decimal, digits_value, in_run, lemma_value_of_word, lemma_word_round_trip,
    letters_numeral, letters_value, decimal_numeral, numeral, pad_left, pad_left_chars, value,
};
use crate::text::{
    ascii_lower, ascii_upper, chars_of, is_ascii_digit, is_ascii_letter, lower, opt_view,
    string_from_chars, upper,
};

pub mod alias;
pub mod autonym;
pub mod lcid;
pub mod numeral;
pub mod script;
pub mod table;
pub mod text;

verus! {

/// Why a pseudo-LCID cannot be made.
#[derive(Debug, Clone, Copy, PartialEq, Eq, Structural)]
pub enum Error {
    /// The tag is not in the autonym registry.
    InvalidTag,
    /// The region is neither two ASCII letters nor three ASCII digits.
    InvalidRegion,
}

/// Why a value cannot be read as a pseudo-LCID.
#[derive(Debug, Clone, Copy, PartialEq, Eq, Structural)]
pub enum LcidError {
    /// Bit 31 is clear.
    NotPseudoLcid,
}

/// Two ASCII letters, in either case.
pub open spec fn is_alpha_region(r: Seq<char>) -> bool {
    r.len() == 2 && forall|i: int| 0 <= i < 2 ==> is_ascii_letter(#[trigger] r[i])
}

/// Three ASCII digits.
pub open spec fn is_numeric_region(r: Seq<char>) -> bool {
    r.len() == 3 && forall|i: int| 0 <= i < 3 ==> is_ascii_digit(#[trigger] r[i])
}

/// The region number and M.49 flag that a region argument stands for, or
/// `None` where the region is not acceptable.
pub open spec fn region_code(region: Option<Seq<char>>) -> Option<(u32, bool)> {
    match region {
        None => Some((0, false)),
        Some(r) => if is_numeric_region(r) {
            Some((value(decimal(), r) as u32, true))
        } else if is_alpha_region(r) {
            Some(((value(alphabet(), lower(r)) + 1) as u32, false))
        } else {
            None
        },
    }
}

/// The bit layout: bit 31 set, the region number in bits 30..21, the M.49
/// flag in bit 15, the tag number in bits 14..0.
pub open spec fn pack(tag_nr: u32, m49: bool, region_nr: u32) -> u32 {
    0x8000_0000u32 | (region_nr << 21u32) | ((if m49 { 1u32 } else { 0u32 }) << 15u32) | tag_nr
}

/// The pseudo-LCID of a language tag and an optional region.
pub open spec fn pseudo_lcid(tag: Seq<char>, region: Option<Seq<char>>) -> Result<u32, Error> {
    match autonym::lookup(tag) {
        None => Err(Error::InvalidTag),
        Some(a) => match region_code(region) {
            None => Err(Error::InvalidRegion),
            Some((n, m)) => Ok(pack(value(alphabet(), a.tag3@) as u32, m, n)),
        },
    }
}

/// The tag text of a tag number: base-26, padded with `a` to three letters.
pub open spec fn tag_text(tag_nr: u32) -> Seq<char> {
    pad_left(numeral(alphabet(), tag_nr as nat), 'a', 3)
}

/// The region text of a region number: none for zero; three decimal digits
/// under the M.49 flag; else two uppercase letters for the number minus one.
pub open spec fn region_text(region_nr: u32, m49: bool) -> Option<Seq<char>> {
    if region_nr == 0 {
        None
    } else if m49 {
        Some(pad_left(numeral(decimal(), region_nr as nat), '0', 3))
    } else {
        Some(pad_left(upper(numeral(alphabet(), (region_nr - 1) as nat)), 'A', 2))
    }
}

/// What a value reads as: an error where bit 31 is clear, else the tag text
/// and region text of its fields.
pub open spec fn parsed(lcid: u32) -> Result<(Seq<char>, Option<Seq<char>>), LcidError> {
    if lcid & 0x8000_0000u32 == 0 {
        Err(LcidError::NotPseudoLcid)
    } else {
        Ok(
            (
                tag_text(lcid & 0x7fffu32),
                region_text((lcid >> 21u32) & 0x3ffu32, (lcid >> 15u32) & 1u32 == 1),
            ),
        )
    }
}

pub open spec fn string_opt_view(s: Option<String>) -> Option<Seq<char>> {
    match s {
        Some(x) => Some(x@),
        None => None,
    }
}

/// The view of a decoding result.
pub open spec fn parsed_view(r: Result<(String, Option<String>), LcidError>) -> Result<
    (Seq<char>, Option<Seq<char>>),
    LcidError,
> {
    match r {
        Ok((t, reg)) => Ok((t@, string_opt_view(reg))),
        Err(e) => Err(e),
    }
}

proof fn lemma_pack_fields(t: u32, m: u32, n: u32)
    requires
        t < 0x8000,
        m <= 1,
        n < 0x400,
    ensures
        (0x8000_0000u32 | (n << 21u32) | (m << 15u32) | t) & 0x8000_0000u32 != 0,
        (0x8000_0000u32 | (n << 21u32) | (m << 15u32) | t) & 0x7fffu32 == t,
        ((0x8000_0000u32 | (n << 21u32) | (m << 15u32) | t) >> 15u32) & 1u32 == m,
        ((0x8000_0000u32 | (n << 21u32) | (m << 15u32) | t) >> 21u32) & 0x3ffu32 == n,
{
    assert((0x8000_0000u32 | (n << 21u32) | (m << 15u32) | t) & 0x8000_0000u32 != 0) by (bit_vector);
    assert((0x8000_0000u32 | (n << 21u32) | (m << 15u32) | t) & 0x7fffu32 == t) by (bit_vector)
        requires
            t < 0x8000,
            m <= 1,
    ;
    assert(((0x8000_0000u32 | (n << 21u32) | (m << 15u32) | t) >> 15u32) & 1u32 == m) by (bit_vector)
        requires
            t < 0x8000,
            m <= 1,
    ;
    assert(((0x8000_0000u32 | (n << 21u32) | (m << 15u32) | t) >> 21u32) & 0x3ffu32 == n) by (bit_vector)
        requires
            t < 0x8000,
            m <= 1,
            n < 0x400,
    ;
}

/// The region number and M.49 flag of a region argument.
fn region_number(region: &str) -> (r: Option<(u32, bool)>)
    ensures
        r == region_code(Some(region@)),
{
    let c = chars_of(region);
    if c.len() == 3 && '0' <= c[0] && c[0] <= '9' && '0' <= c[1] && c[1] <= '9' && '0' <= c[2]
        && c[2] <= '9' {
        proof {
            assert(is_numeric_region(region@));
        }
        let n = digits_value(region);
        proof {
            lemma_value_of_word('0', 10, region@);
        }
        return Some((n as u32, true));
    }
    proof {
        assert(!is_numeric_region(region@));
    }
    if c.len() == 2 && is_letter(c[0]) && is_letter(c[1]) {
        let mut l: Vec<char> = Vec::new();
        l.push(ascii_lower(c[0]));
        l.push(ascii_lower(c[1]));
        let low = string_from_chars(&l);
        proof {
            assert(low@ =~= lower(region@));
            assert(is_alpha_region(region@));
        }
        let n = letters_value(low.as_str());
        proof {
            lemma_value_of_word('a', 26, low@);
        }
        return Some(((n + 1) as u32, false));
    }
    proof {
        assert(!is_alpha_region(region@));
    }
    None
}

fn is_letter(c: char) -> (r: bool)
    ensures
        r == is_ascii_letter(c),
{
    ('a' <= c && c <= 'z') || ('A' <= c && c <= 'Z')
}

/// Generates a pseudo-LCID for a language, given by ISO 639-3 tag or
/// ISO 639-1 alias, and an optional region (two ASCII letters or three
/// ASCII digits).  The value is not a valid LCID: bit 31, which no genuine
/// LCID sets, is always on.  Scripts are not carried.
pub fn make_pseudo_lcid(tag: &str, region: Option<&str>) -> (r: Result<u32, Error>)
    ensures
        r == pseudo_lcid(tag@, opt_view(region)),
        r matches Ok(v) ==> v & 0x8000_0000u32 != 0,
{
    let tag3 = match autonym::get(tag) {
        Some(a) => a.tag3,
        None => return Err(Error::InvalidTag),
    };
    proof {
        autonym::lemma_lookup_tag3(tag@);
    }
    let tag_nr = letters_value(tag3) as u32;
    let (region_nr, m49) = match region {
        None => (0u32, false),
        Some(x) => match region_number(x) {
            Some(p) => p,
            None => return Err(Error::InvalidRegion),
        },
    };
    proof {
        lemma_value_of_word('a', 26, tag3@);
        assert(region_nr < 0x400) by {
            if let Some(x) = region {
                if m49 {
                    lemma_value_of_word('0', 10, x@);
                } else {
                    lemma_value_of_word('a', 26, lower(x@));
                }
            }
        }
        let m: u32 = if m49 { 1 } else { 0 };
        lemma_pack_fields(tag_nr, m, region_nr);
    }
    let flag: u32 = if m49 { 1 } else { 0 };
    Ok(0x8000_0000u32 | (region_nr << 21u32) | (flag << 15u32) | tag_nr)
}

/// Reads a pseudo-LCID back into its three-letter tag and its region, if
/// it has one.  Alphabetic regions come back in uppercase, numeric ones as
/// three digits.
pub fn parse_pseudo_lcid(lcid: u32) -> (r: Result<(String, Option<String>), LcidError>)
    ensures
        parsed_view(r) == parsed(lcid),
        r is Err <==> lcid & 0x8000_0000u32 == 0,
{
    if lcid & 0x8000_0000u32 == 0 {
        return Err(LcidError::NotPseudoLcid);
    }
    let tag_nr = lcid & 0x7fffu32;
    let is_m49 = (lcid >> 15u32) & 1u32 == 1;
    let region_nr = (lcid >> 21u32) & 0x3ffu32;
    proof {
        assert(lcid & 0x7fffu32 < 0x8000) by (bit_vector);
        assert((lcid >> 21u32) & 0x3ffu32 < 0x400) by (bit_vector);
    }
    let digits = chars_of(letters_numeral(tag_nr as u16).as_str());
    let tag = string_from_chars(&pad_left_chars(&digits, 'a', 3));
    let region = if region_nr == 0 {
        None
    } else if is_m49 {
        let digits = chars_of(decimal_numeral(region_nr as u16).as_str());
        Some(string_from_chars(&pad_left_chars(&digits, '0', 3)))
    } else {
        let digits = chars_of(letters_numeral((region_nr - 1) as u16).as_str());
        let mut up: Vec<char> = Vec::new();
        let mut i: usize = 0;
        while i < digits.len()
            invariant
                i <= digits.len(),
                up@ == upper(digits@.subrange(0, i as int)),
            decreases digits.len() - i,
        {
            up.push(ascii_upper(digits[i]));
            i = i + 1;
            proof {
                assert(up@ =~= upper(digits@.subrange(0, i as int)));
            }
        }
        proof {
            assert(digits@.subrange(0, i as int) =~= digits@);
        }
        Some(string_from_chars(&pad_left_chars(&up, 'A', 2)))
    };
    Ok((tag, region))
}

proof fn lemma_upper_pad(x: Seq<char>)
    ensures
        upper(pad_left(x, 'a', 2)) == pad_left(upper(x), 'A', 2),
{
    assert(upper(pad_left(x, 'a', 2)) =~= pad_left(upper(x), 'A', 2));
}

proof fn lemma_known_tag(tag: Seq<char>)
    requires
        autonym::lookup(tag) is Some,
    ensures
        ({
            let t3 = autonym::lookup(tag)->0.tag3@;
            &&& tag_text(value(alphabet(), t3) as u32) == t3
            &&& value(alphabet(), t3) < 0x8000
        }),
{
    autonym::lemma_lookup_tag3(tag);
    let t3 = autonym::lookup(tag)->0.tag3@;
    assert(forall|i: int| 0 <= i < t3.len() ==> in_run(#[trigger] t3[i], 'a', 26));
    lemma_value_of_word('a', 26, t3);
    lemma_word_round_trip('a', 26, t3);
}

/// Round trip through an alphabetic region: for a known tag and a region of
/// two ASCII letters, in either case, the pseudo-LCID reads back as the
/// canonical three-letter tag and the region in uppercase.
pub proof fn lemma_round_trip_alpha(tag: Seq<char>, region: Seq<char>)
    requires
        autonym::lookup(tag) is Some,
        is_alpha_region(region),
    ensures
        pseudo_lcid(tag, Some(region)) is Ok,
        parsed(pseudo_lcid(tag, Some(region))->Ok_0) == Ok::<_, LcidError>(
            (autonym::lookup(tag)->0.tag3@, Some(upper(region))),
        ),
{
    let t3 = autonym::lookup(tag)->0.tag3@;
    lemma_known_tag(tag);
    let t = value(alphabet(), t3) as u32;
    let lw = lower(region);
    assert(forall|i: int| 0 <= i < lw.len() ==> in_run(#[trigger] lw[i], 'a', 26)) by {
        assert(is_ascii_letter(region[0]));
        assert(is_ascii_letter(region[1]));
    }
    lemma_value_of_word('a', 26, lw);
    lemma_word_round_trip('a', 26, lw);
    let n = (value(alphabet(), lw) + 1) as u32;
    lemma_pack_fields(t, 0, n);
    let v = pack(t, false, n);
    assert(v == 0x8000_0000u32 | (n << 21u32) | (0u32 << 15u32) | t);
    lemma_upper_pad(numeral(alphabet(), value(alphabet(), lw)));
    assert(upper(lw) =~= upper(region)) by {
        assert(is_ascii_letter(region[0]));
        assert(is_ascii_letter(region[1]));
    }
}

/// Round trip through a numeric region: for a known tag and a region of
/// three ASCII digits other than `000` (whose number means "no region"),
/// the pseudo-LCID reads back as the canonical three-letter tag and the
/// region.
pub proof fn lemma_round_trip_numeric(tag: Seq<char>, region: Seq<char>)
    requires
        autonym::lookup(tag) is Some,
        is_numeric_region(region),
        region != seq!['0', '0', '0'],
    ensures
        pseudo_lcid(tag, Some(region)) is Ok,
        parsed(pseudo_lcid(tag, Some(region))->Ok_0) == Ok::<_, LcidError>(
            (autonym::lookup(tag)->0.tag3@, Some(region)),
        ),
{
    lemma_known_tag(tag);
    let t3 = autonym::lookup(tag)->0.tag3@;
    let t = value(alphabet(), t3) as u32;
    lemma_value_of_word('0', 10, region);
    lemma_word_round_trip('0', 10, region);
    let n = value(decimal(), region) as u32;
    if n == 0 {
        assert(region =~= seq!['0', '0', '0']);
    }
    lemma_pack_fields(t, 1, n);
    let v = pack(t, true, n);
    assert(v == 0x8000_0000u32 | (n << 21u32) | (1u32 << 15u32) | t);
}

/// Every pseudo-LCID has bit 31 set, which no identifier in the LCID
/// registry has; so no pseudo-LCID is a registry identifier.
pub proof fn lemma_pseudo_not_genuine(tag: Seq<char>, region: Option<Seq<char>>, i: int)
    requires
        0 <= i < lcid::lcids().len(),
    ensures
        pseudo_lcid(tag, region) matches Ok(v) ==> v & 0x8000_0000u32 != 0,
        pseudo_lcid(tag, region) matches Ok(v) ==> v != lcid::lcids()[i].lcid,
{
    let g = lcid::lcids()[i].lcid;
    assert(g < 0x8000_0000u32);
    assert(g & 0x8000_0000u32 == 0) by (bit_vector)
        requires
            g < 0x8000_0000u32,
    ;
    if let Ok(v) = pseudo_lcid(tag, region) {
        let a = autonym::lookup(tag)->0;
        let (n, m) = region_code(region)->0;
        let t = value(alphabet(), a.tag3@) as u32;
        let f: u32 = if m { 1 } else { 0 };
        assert(v == 0x8000_0000u32 | (n << 21u32) | (f << 15u32) | t);
        assert((0x8000_0000u32 | (n << 21u32) | (f << 15u32) | t) & 0x8000_0000u32 != 0) by (bit_vector);
    }
}

} // verus!
