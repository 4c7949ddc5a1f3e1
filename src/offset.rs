use vstd::arithmetic::power2::{lemma2_to64_rest, lemma_pow2_pos, lemma_pow2_strictly_increases, pow2};
use vstd::bits::lemma_u64_shl_is_mul;
use vstd::prelude::*;

verus! {

/// Exclusive bound of the byte offsets that the packed encoding can hold.
pub const MAX_OFFSET: u64 = 0x1_0000_0000_0000;

const ALIGN_MASK: u64 = 0xff_ffff_ffff_ffff;

const ALIGN_SHIFT: u64 = 56;

const MULT_MASK: u64 = 0xffff_ffff_ffff;

const MULT_SHIFT: u64 = 48;

/// What a packed offset stands for: the storage origin of an object,
/// `multiplier * 2^log2_align`, and the byte offset of the active view.
pub struct OffsetModel {
    pub log2_align: nat,
    pub multiplier: nat,
    pub offset: nat,
}

impl OffsetModel {
    pub open spec fn base_offset(self) -> nat {
        self.multiplier * pow2(self.log2_align)
    }
}

/// Three numbers in one word: the high 8 bits hold log2 of an alignment,
/// the next 8 a multiplier of it, and the low 48 bits the active offset.
#[derive(Clone, Copy, Debug)]
pub struct VOffset {
    bundled_offset: u64,
}

impl View for VOffset {
    type V = OffsetModel;

    closed spec fn view(&self) -> OffsetModel {
        OffsetModel {
            log2_align: (self.bundled_offset >> ALIGN_SHIFT) as nat,
            multiplier: ((self.bundled_offset & ALIGN_MASK) >> MULT_SHIFT) as nat,
            offset: (self.bundled_offset & MULT_MASK) as nat,
        }
    }
}

proof fn lemma_pack(l: u64, m: u64, o: u64)
    by (bit_vector)
    requires
        l < 256,
        m < 256,
        o < 0x1_0000_0000_0000,
    ensures
        (l << 56u64) + (m << 48u64) + o <= 0xffff_ffff_ffff_ffff,
        (((l << 56u64) + (m << 48u64)) as u64 + o) as u64 >> 56u64 == l,
        ((((l << 56u64) + (m << 48u64)) as u64 + o) as u64 & 0xff_ffff_ffff_ffffu64) >> 48u64 == m,
        (((l << 56u64) + (m << 48u64)) as u64 + o) as u64 & 0xffff_ffff_ffffu64 == o,
{
}

impl VOffset {
    #[verifier::type_invariant]
    spec fn inv(self) -> bool {
        &&& self@.base_offset() <= self@.offset
        &&& self@.offset <= isize::MAX
    }

    /// Packs an alignment class, a multiplier and an offset; the origin that
    /// the first two describe may not lie beyond the offset.
    pub fn new(log2_align: u8, multiplier: u8, offset: isize) -> (r: VOffset)
        requires
            0 <= offset < MAX_OFFSET,
            multiplier * pow2(log2_align as nat) <= offset,
        ensures
            r@ == (OffsetModel {
                log2_align: log2_align as nat,
                multiplier: multiplier as nat,
                offset: offset as nat,
            }),
    {
        let l = log2_align as u64;
        let m = multiplier as u64;
        let o = offset as u64;
        proof {
            lemma_pack(l, m, o);
        }
        let bundled = (l << ALIGN_SHIFT) + (m << MULT_SHIFT) + o;
        VOffset { bundled_offset: bundled }
    }

    /// The same origin, with another active offset.
    pub fn new_offset(&self, offset: isize) -> (r: VOffset)
        requires
            self@.base_offset() <= offset < MAX_OFFSET,
        ensures
            r@ == (OffsetModel { offset: offset as nat, ..self@ }),
    {
        let l = self.log2_align();
        let m = self.multiplier();
        proof {
            let b = self.bundled_offset;
            assert(b >> 56u64 < 256) by (bit_vector);
            let b = self.bundled_offset;
            assert((b & 0xff_ffff_ffff_ffffu64) >> 48u64 < 256) by (bit_vector);
        }
        VOffset::new(l as u8, m as u8, offset)
    }

    /// The object's storage origin, `multiplier * 2^log2_align`.
    pub fn base_offset(&self) -> (r: isize)
        ensures
            r == self@.base_offset(),
            r <= self@.offset,
    {
        proof {
            use_type_invariant(self);
            let b = self.bundled_offset;
            assert(b & 0xffff_ffff_ffffu64 < 0x1_0000_0000_0000u64) by (bit_vector);
        }
        let l = self.log2_align();
        let m = self.multiplier();
        if m == 0 {
            assert(0 * pow2(l as nat) == 0);
            0
        } else {
            proof {
                let lg = l as nat;
                lemma_pow2_pos(lg);
                assert(pow2(lg) <= m * pow2(lg)) by (nonlinear_arith)
                    requires
                        m >= 1,
                        pow2(lg) > 0,
                ;
                lemma2_to64_rest();
                if lg >= 48 {
                    if lg > 48 {
                        lemma_pow2_strictly_increases(48, lg);
                    }
                    assert(false);
                }
                assert(m * pow2(lg) <= u64::MAX);
                lemma_u64_shl_is_mul(m, l);
            }
            (m << l) as isize
        }
    }

    /// The active byte offset.
    pub fn offset(&self) -> (r: isize)
        ensures
            r == self@.offset,
            0 <= r < MAX_OFFSET,
    {
        proof {
            use_type_invariant(self);
            let b = self.bundled_offset;
            assert(b & 0xffff_ffff_ffffu64 < 0x1_0000_0000_0000u64) by (bit_vector);
        }
        (self.bundled_offset & MULT_MASK) as isize
    }

    fn log2_align(&self) -> (r: u64)
        ensures
            r == self@.log2_align,
            r < 256,
    {
        proof {
            let b = self.bundled_offset;
            assert(b >> 56u64 < 256) by (bit_vector);
        }
        self.bundled_offset >> ALIGN_SHIFT
    }

    fn multiplier(&self) -> (r: u64)
        ensures
            r == self@.multiplier,
            r < 256,
    {
        proof {
            let b = self.bundled_offset;
            assert((b & 0xff_ffff_ffff_ffffu64) >> 48u64 < 256) by (bit_vector);
        }
        (self.bundled_offset & ALIGN_MASK) >> MULT_SHIFT
    }
}

} // verus!
