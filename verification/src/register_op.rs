//! One register operation: a path bound to an offset, mask, shift,
//! access kind, optional shadow redirect, and optional value.
//!
//! Construction is a validation state machine: every rule of the access
//! model is checked before an operation exists at all, so an operation in
//! hand is legal by construction.  Applying one is a plain word access
//! plus bit arithmetic over a memory target.

use vstd::prelude::*;
use crate::bits::{lemma_parse_bitfield_shape, mask_of, parse_bitfield_spec, BitField};
use crate::errors::RegError;
use crate::memory::{word_offset_error, word_offset_ok, MemoryTarget};
use crate::resolver::{resolve_field, ConfigDoc, ConfigNode, FieldValue};
use crate::text::str_eq;

verus! {

/// How a register may be accessed.
#[derive(Clone, Copy, Debug, PartialEq, Eq, Structural)]
pub enum RegisterAccess {
    ReadOnly,
    ReadWrite,
    WriteOnly,
    Write1Clear,
    Unspecified,
}

/// Which access kind a "read-write" field value names, if any.
pub open spec fn access_of(s: Seq<char>) -> Option<RegisterAccess> {
    if s == "ro"@ {
        Some(RegisterAccess::ReadOnly)
    } else if s == "wo"@ {
        Some(RegisterAccess::WriteOnly)
    } else if s == "w1c"@ {
        Some(RegisterAccess::Write1Clear)
    } else if s == "rw"@ || s == "wr"@ {
        Some(RegisterAccess::ReadWrite)
    } else {
        None
    }
}

/// Map a "read-write" field value to an access kind.
fn access_kind(s: &str) -> (r: Option<RegisterAccess>)
    ensures
        r == access_of(s@),
{
    if str_eq(s, "ro") {
        Some(RegisterAccess::ReadOnly)
    } else if str_eq(s, "wo") {
        Some(RegisterAccess::WriteOnly)
    } else if str_eq(s, "w1c") {
        Some(RegisterAccess::Write1Clear)
    } else if str_eq(s, "rw") || str_eq(s, "wr") {
        Some(RegisterAccess::ReadWrite)
    } else {
        None
    }
}

/// What `parse_bits` yields: the mask and shift of a "hi:lo" range.
pub open spec fn parse_bits_spec(s: Seq<char>) -> Result<(u32, u32), RegError> {
    match parse_bitfield_spec(s) {
        Ok(bf) => Ok((bf.mask, bf.shift)),
        Err(e) => Err(e),
    }
}

/// Parse a bit-range specification "hi:lo" into (mask, shift).
pub fn parse_bits(bitsstr: &str) -> (r: Result<(u32, u32), RegError>)
    ensures
        r == parse_bits_spec(bitsstr@),
{
    match BitField::parse(bitsstr) {
        Ok(bf) => Ok((bf.mask, bf.shift)),
        Err(e) => Err(e),
    }
}

/// One validated register operation.
#[derive(Clone, Copy, Debug, PartialEq, Eq, Structural)]
pub struct RegisterOp {
    /// Byte offset of the register word from the device base.
    pub offset: u64,
    /// Bits preserved on a write: the complement of the field mask.
    pub set_mask: u32,
    /// Bits selected on a read: the field mask.
    pub read_mask: u32,
    /// How far the field is shifted from bit zero.
    pub shift: u32,
    /// The value to write; absent means read intent.
    pub value: Option<u32>,
    /// Alternate read address for write-only registers backed by a
    /// readable mirror.
    pub shadow_offset: Option<u64>,
    /// How the register may be accessed.
    pub access_type: RegisterAccess,
}

/// What constructing a register operation yields, step by step: offset,
/// bits (defaulting to the full word), access kind, read-only and
/// write-only rules, shadow resolution, and the value bound.
///
/// The value bound is `v > (1 << shift)` — checked against the shift,
/// not the field width.  That looks unintended but is load-bearing:
/// callers and fixtures rely on this exact bound, so it is kept as is.
pub open spec fn new_op_spec(
    nodes: Seq<ConfigNode>,
    root: Seq<char>,
    path: Seq<char>,
    value: Option<u32>,
) -> Result<RegisterOp, RegError> {
    match resolve_field(nodes, root, path, "offset"@) {
        Some(FieldValue::Int(off)) => {
            let bits = match resolve_field(nodes, root, path, "bits"@) {
                Some(FieldValue::Str(b)) => parse_bitfield_spec(b@),
                _ => Ok(BitField { mask: 0xFFFF_FFFFu32, shift: 0u32, width: 32u32 }),
            };
            match bits {
                Err(e) => Err(e),
                Ok(bf) => {
                    let access = match resolve_field(nodes, root, path, "read-write"@) {
                        Some(FieldValue::Str(a)) => access_of(a@),
                        _ => Some(RegisterAccess::Unspecified),
                    };
                    match access {
                        None => Err(RegError::InvalidAccessKind),
                        Some(acc) => if acc == RegisterAccess::ReadOnly && value is Some {
                            Err(RegError::ReadOnlyViolation)
                        } else {
                            let shadow = match resolve_field(nodes, root, path, "shadow"@) {
                                Some(FieldValue::Str(sp)) => match resolve_field(
                                    nodes,
                                    root,
                                    sp@,
                                    "offset"@,
                                ) {
                                    Some(FieldValue::Int(so)) => Ok(Some(so as u64)),
                                    _ => Err(RegError::InvalidShadowOffset),
                                },
                                _ => Ok(None::<u64>),
                            };
                            match shadow {
                                Err(e) => Err(e),
                                Ok(sh) => if acc == RegisterAccess::WriteOnly && value is None
                                    && sh is None {
                                    Err(RegError::WriteOnlyUnreadable)
                                } else {
                                    let exceeded = match value {
                                        Some(v) => v > (1u32 << bf.shift),
                                        None => false,
                                    };
                                    if exceeded {
                                        Err(RegError::ValueOutOfRange)
                                    } else {
                                        Ok(
                                            RegisterOp {
                                                offset: off as u64,
                                                set_mask: !bf.mask,
                                                read_mask: bf.mask,
                                                shift: bf.shift,
                                                value,
                                                shadow_offset: sh,
                                                access_type: acc,
                                            },
                                        )
                                    }
                                },
                            }
                        },
                    }
                },
            }
        },
        _ => Err(RegError::InvalidOffset),
    }
}

/// Where a read of this operation goes: the shadow, when there is one.
pub open spec fn read_offset_spec(op: RegisterOp) -> u64 {
    match op.shadow_offset {
        Some(o) => o,
        None => op.offset,
    }
}

/// The field value held in `word`.
pub open spec fn extract_spec(op: RegisterOp, word: u32) -> u32 {
    (word & op.read_mask) >> op.shift
}

/// `cur` with the field bits replaced by `v` shifted into place.
pub open spec fn merge_spec(op: RegisterOp, cur: u32, v: u32) -> u32 {
    (cur & op.set_mask) | (v << op.shift)
}

/// What a read of this operation yields over the words of a target.
pub open spec fn get_outcome(op: RegisterOp, words: Seq<u32>) -> Result<u32, RegError> {
    let ro = read_offset_spec(op);
    if word_offset_ok(words, ro) {
        Ok(extract_spec(op, words[(ro as int) / 4]))
    } else {
        Err(word_offset_error(words, ro))
    }
}

/// What a write of this operation yields: the result handed back and the
/// words of the target afterwards.
pub open spec fn set_outcome(op: RegisterOp, words: Seq<u32>) -> (Result<u32, RegError>, Seq<
    u32,
>) {
    match op.value {
        None => (Err(RegError::InternalInvariant), words),
        Some(v) => {
            let ro = read_offset_spec(op);
            if !word_offset_ok(words, ro) {
                (Err(word_offset_error(words, ro)), words)
            } else if !word_offset_ok(words, op.offset) {
                (Err(word_offset_error(words, op.offset)), words)
            } else {
                (
                    Ok(v),
                    words.update((op.offset as int) / 4, merge_spec(op, words[(ro as int) / 4], v)),
                )
            }
        },
    }
}

impl RegisterOp {
    /// The shift names a bit position, so shifting never overflows.
    pub open spec fn wf(&self) -> bool {
        self.shift < 32
    }

    /// Build one register operation from the register map.
    ///
    /// A present `value` means set intent.  Every rule of the access
    /// model is checked here; no memory is touched.
    pub fn new(doc: &ConfigDoc, value: Option<u32>, path: &str) -> (r: Result<
        RegisterOp,
        RegError,
    >)
        ensures
            r == new_op_spec(doc.nodes@, doc.root@, path@, value),
            r is Ok ==> r->Ok_0.wf(),
    {
        let off = match doc.get_int_field_or_parent(path, "offset") {
            Ok(o) => o,
            Err(_) => {
                return Err(RegError::InvalidOffset);
            },
        };
        let bf = match doc.get_string_field_or_parent(path, "bits") {
            Ok(b) => {
                proof {
                    lemma_parse_bitfield_shape(b@);
                }
                match BitField::parse(b.as_str()) {
                    Ok(bf) => bf,
                    Err(e) => {
                        return Err(e);
                    },
                }
            },
            Err(_) => BitField { mask: 0xFFFF_FFFF, shift: 0, width: 32 },
        };
        let acc = match doc.get_string_field_or_parent(path, "read-write") {
            Ok(a) => match access_kind(a.as_str()) {
                Some(k) => k,
                None => {
                    return Err(RegError::InvalidAccessKind);
                },
            },
            Err(_) => RegisterAccess::Unspecified,
        };
        if acc == RegisterAccess::ReadOnly && value.is_some() {
            return Err(RegError::ReadOnlyViolation);
        }
        let shadow = match doc.get_string_field_or_parent(path, "shadow") {
            Ok(sp) => match doc.get_int_field_or_parent(sp.as_str(), "offset") {
                Ok(so) => Some(so as u64),
                Err(_) => {
                    return Err(RegError::InvalidShadowOffset);
                },
            },
            Err(_) => None,
        };
        if acc == RegisterAccess::WriteOnly && value.is_none() && shadow.is_none() {
            return Err(RegError::WriteOnlyUnreadable);
        }
        if let Some(v) = value {
            if v > (1u32 << bf.shift) {
                return Err(RegError::ValueOutOfRange);
            }
        }
        Ok(
            RegisterOp {
                offset: off as u64,
                set_mask: !bf.mask,
                read_mask: bf.mask,
                shift: bf.shift,
                value,
                shadow_offset: shadow,
                access_type: acc,
            },
        )
    }

    /// Read the register: fetch the word at the shadow offset when one is
    /// present, else at the offset, select the field bits, and shift them
    /// down.  No side effects.
    pub fn get(&self, target: &MemoryTarget) -> (r: Result<u32, RegError>)
        requires
            self.wf(),
        ensures
            r == get_outcome(*self, target@),
    {
        let ro = match self.shadow_offset {
            Some(o) => o,
            None => self.offset,
        };
        let w = match target.read_word32(ro) {
            Ok(w) => w,
            Err(e) => {
                return Err(e);
            },
        };
        Ok((w & self.read_mask) >> self.shift)
    }

    /// Write the register: read the current word (through the shadow when
    /// one is present), merge the value into the field bits, and write
    /// the word back at the offset itself.  Returns the value written.
    /// An operation without a value is rejected without touching memory.
    pub fn set(&self, target: &mut MemoryTarget) -> (r: Result<u32, RegError>)
        requires
            self.wf(),
        ensures
            r == set_outcome(*self, old(target)@).0,
            final(target)@ == set_outcome(*self, old(target)@).1,
    {
        let v = match self.value {
            Some(v) => v,
            None => {
                return Err(RegError::InternalInvariant);
            },
        };
        let ro = match self.shadow_offset {
            Some(o) => o,
            None => self.offset,
        };
        let cur = match target.read_word32(ro) {
            Ok(w) => w,
            Err(e) => {
                return Err(e);
            },
        };
        let merged = (cur & self.set_mask) | (v << self.shift);
        match target.write_word32(self.offset, merged) {
            Ok(_) => Ok(v),
            Err(e) => Err(e),
        }
    }
}

/// Law: a register whose "read-write" field resolves to "ro" rejects
/// every specification that supplies a value; no operation is ever
/// constructed for it, so no memory target can be touched on its behalf.
pub proof fn lemma_read_only_rejects_set(
    nodes: Seq<ConfigNode>,
    root: Seq<char>,
    path: Seq<char>,
    a: String,
    value: Option<u32>,
)
    requires
        resolve_field(nodes, root, path, "read-write"@) == Some(FieldValue::Str(a)),
        a@ == "ro"@,
        value is Some,
    ensures
        new_op_spec(nodes, root, path, value) is Err,
{
}

/// Law: a register whose "read-write" field resolves to "wo" and that
/// has no shadow field rejects every bare (valueless) specification; no
/// operation is ever constructed for it.
pub proof fn lemma_write_only_rejects_bare_get(
    nodes: Seq<ConfigNode>,
    root: Seq<char>,
    path: Seq<char>,
    a: String,
)
    requires
        resolve_field(nodes, root, path, "read-write"@) == Some(FieldValue::Str(a)),
        a@ == "wo"@,
        resolve_field(nodes, root, path, "shadow"@) is None,
    ensures
        new_op_spec(nodes, root, path, None::<u32>) is Err,
{
    reveal_strlit("ro");
    reveal_strlit("wo");
    assert("wo"@[0] == 'w');
    assert("ro"@[0] == 'r');
    assert("wo"@ != "ro"@);
}

/// Law: the value written round-trips.  For a field covering bits `lo`
/// through `hi` with no shadow redirect, merging a value that fits the
/// field into any current word and reading the field back yields that
/// value again.
pub proof fn lemma_set_then_get(op: RegisterOp, lo: u32, hi: u32, cur: u32, v: u32)
    requires
        lo <= hi < 32,
        op.read_mask == mask_of(lo, hi),
        op.set_mask == !op.read_mask,
        op.shift == lo,
        v <= mask_of(lo, hi) >> lo,
    ensures
        extract_spec(op, merge_spec(op, cur, v)) == v,
{
    assert(((((cur & !mask_of(lo, hi)) | (v << lo)) & mask_of(lo, hi)) >> lo) == v)
        by (bit_vector)
        requires
            lo <= hi,
            hi < 32,
            v <= mask_of(lo, hi) >> lo,
    ;
}

/// Law: over a memory target, setting and then getting the same
/// shadowless register returns the value just written, for every value
/// within the field's range.
pub proof fn lemma_set_get_round_trip(
    op: RegisterOp,
    words: Seq<u32>,
    lo: u32,
    hi: u32,
    v: u32,
)
    requires
        op.shadow_offset is None,
        op.value == Some(v),
        lo <= hi < 32,
        op.read_mask == mask_of(lo, hi),
        op.set_mask == !op.read_mask,
        op.shift == lo,
        v <= mask_of(lo, hi) >> lo,
        word_offset_ok(words, op.offset),
    ensures
        set_outcome(op, words).0 == Ok::<u32, RegError>(v),
        get_outcome(op, set_outcome(op, words).1) == Ok::<u32, RegError>(v),
{
    lemma_set_then_get(op, lo, hi, cur_word(op, words), v);
}

/// The word a read of `op` lands on.
pub open spec fn cur_word(op: RegisterOp, words: Seq<u32>) -> u32 {
    words[(read_offset_spec(op) as int) / 4]
}

} // verus!
