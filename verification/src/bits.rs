//! The bit-field mask engine: parsing a "hi:lo" bit-range specification
//! into mask, shift, and width.

use vstd::prelude::*;
use crate::errors::RegError;
use crate::text::{
    count_char, count_occurrences, find_first, index_of_first, lemma_count_char_zero,
    lemma_index_of_first, parse_u32, parse_u32_spec, trim, trim_spec,
};

verus! {

/// The 32-bit mask whose bits `lo` through `hi` (inclusive) are set.
pub open spec fn mask_of(lo: u32, hi: u32) -> u32
    recommends
        lo <= hi < 32,
{
    if hi + 1 - lo == 32 {
        0xFFFF_FFFFu32
    } else {
        (((1u32 << ((hi + 1 - lo) as u32)) - 1) as u32) << lo
    }
}

/// A contiguous bit run within a 32-bit register word.
#[derive(Clone, Copy, Debug, PartialEq, Eq, Structural)]
pub struct BitField {
    /// Mask selecting the field's bits within the word.
    pub mask: u32,
    /// How far the field is shifted from bit zero.
    pub shift: u32,
    /// Number of bits in the field.
    pub width: u32,
}

/// What parsing a "hi:lo" bit-range specification yields: two
/// whitespace-trimmed decimal integers separated by a single ':', both
/// below 32, high bit not below low bit.
pub open spec fn parse_bitfield_spec(s: Seq<char>) -> Result<BitField, RegError> {
    if count_char(s, ':') != 1 {
        Err(RegError::InvalidFormat)
    } else {
        let i: int = index_of_first(s, ':');
        let hi_s = trim_spec(s.subrange(0, i));
        let lo_s = trim_spec(s.subrange(i + 1, s.len() as int));
        match parse_u32_spec(hi_s) {
            None => Err(RegError::InvalidDigit),
            Some(hi) => match parse_u32_spec(lo_s) {
                None => Err(RegError::InvalidDigit),
                Some(lo) => if hi >= 32 || lo >= 32 {
                    Err(RegError::OutOfRange)
                } else if hi < lo {
                    Err(RegError::Inverted)
                } else {
                    Ok(
                        BitField {
                            mask: mask_of(lo, hi),
                            shift: lo,
                            width: (hi - lo + 1) as u32,
                        },
                    )
                },
            },
        }
    }
}

impl BitField {
    /// Parse a bit-range specification "hi:lo".
    ///
    /// Either every check passes and a complete `BitField` comes back, or
    /// an error does and no field is constructed at all.
    pub fn parse(s: &str) -> (r: Result<BitField, RegError>)
        ensures
            r == parse_bitfield_spec(s@),
    {
        let cnt = count_occurrences(s, ':');
        if cnt != 1 {
            return Err(RegError::InvalidFormat);
        }
        let i = match find_first(s, ':') {
            Some(i) => i,
            None => {
                proof {
                    lemma_count_char_zero(s@, ':');
                    lemma_index_of_first(s@, ':');
                }
                return Err(RegError::InvalidFormat);
            },
        };
        let len = s.unicode_len();
        proof {
            lemma_index_of_first(s@, ':');
        }
        let hi_t = trim(s.substring_char(0, i));
        let lo_t = trim(s.substring_char(i + 1, len));
        let hi = match parse_u32(hi_t) {
            Some(h) => h,
            None => {
                return Err(RegError::InvalidDigit);
            },
        };
        let lo = match parse_u32(lo_t) {
            Some(l) => l,
            None => {
                return Err(RegError::InvalidDigit);
            },
        };
        if hi >= 32 || lo >= 32 {
            return Err(RegError::OutOfRange);
        }
        if hi < lo {
            return Err(RegError::Inverted);
        }
        let width = hi - lo + 1;
        let mask: u32 = if width == 32 {
            0xFFFF_FFFF
        } else {
            proof {
                assert(1u32 << width >= 1) by (bit_vector)
                    requires
                        width < 32,
                ;
            }
            ((1u32 << width) - 1) << lo
        };
        Ok(BitField { mask, shift: lo, width })
    }
}

/// The shape every successful parse has: the shift is a bit position,
/// the width fills out the word at most, and the mask covers exactly the
/// bits from `shift` up to `shift + width - 1`.
pub proof fn lemma_parse_bitfield_shape(s: Seq<char>)
    ensures
        parse_bitfield_spec(s) is Ok ==> ({
            let bf = parse_bitfield_spec(s)->Ok_0;
            &&& bf.shift < 32
            &&& 1 <= bf.width <= 32
            &&& bf.shift + bf.width <= 32
            &&& bf.mask == mask_of(bf.shift, (bf.shift + bf.width - 1) as u32)
        }),
{
}

/// Law: for every valid range `0 <= lo <= hi < 32`, the mask has exactly
/// `hi - lo + 1` contiguous set bits starting at `lo`, and the full range
/// `31:0` yields the all-ones mask.
pub proof fn lemma_mask_contiguous(lo: u32, hi: u32)
    requires
        lo <= hi < 32,
    ensures
        forall|i: u32|
            i < 32 ==> (((#[trigger] (mask_of(lo, hi) >> i)) & 1u32 == 1u32) <==> (lo <= i
                <= hi)),
        mask_of(0, 31) == 0xFFFF_FFFFu32,
{
    assert forall|i: u32|
        i < 32 implies (((mask_of(lo, hi) >> i) & 1u32 == 1u32) <==> (lo <= i <= hi)) by {
        assert(((mask_of(lo, hi) >> i) & 1u32 == 1u32) <==> (lo <= i <= hi)) by (bit_vector)
            requires
                lo <= hi,
                hi < 32,
                i < 32,
        ;
    }
}

/// Law: a successful parse carries exactly the advertised shape: for the
/// high and low bits it read, the width is `hi - lo + 1`, the shift is
/// `lo`, and the mask covers bits `lo` through `hi` and no others.
pub proof fn lemma_parse_bitfield_ok(s: Seq<char>, lo: u32, hi: u32)
    requires
        count_char(s, ':') == 1,
        parse_u32_spec(trim_spec(s.subrange(0, index_of_first(s, ':')))) == Some(hi),
        parse_u32_spec(
            trim_spec(s.subrange(index_of_first(s, ':') + 1, s.len() as int)),
        ) == Some(lo),
        lo <= hi < 32,
    ensures
        parse_bitfield_spec(s) is Ok,
        (parse_bitfield_spec(s)->Ok_0).width == hi - lo + 1,
        (parse_bitfield_spec(s)->Ok_0).shift == lo,
        forall|i: u32|
            i < 32 ==> ((((#[trigger] ((parse_bitfield_spec(s)->Ok_0).mask >> i))) & 1u32
                == 1u32) <==> (lo <= i <= hi)),
{
    lemma_mask_contiguous(lo, hi);
}

/// Law: a pair with `hi < lo` or either bound at 32 or above never yields
/// a bit field; parsing fails outright.
pub proof fn lemma_parse_bitfield_rejects(s: Seq<char>, lo: u32, hi: u32)
    requires
        count_char(s, ':') == 1,
        parse_u32_spec(trim_spec(s.subrange(0, index_of_first(s, ':')))) == Some(hi),
        parse_u32_spec(
            trim_spec(s.subrange(index_of_first(s, ':') + 1, s.len() as int)),
        ) == Some(lo),
        hi < lo || hi >= 32 || lo >= 32,
    ensures
        parse_bitfield_spec(s) is Err,
{
}

} // verus!
