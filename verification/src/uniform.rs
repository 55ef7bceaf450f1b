//! Uniform data layout: the 4x4 matrices the shaders consume, their
//! little-endian byte images in the camera and per-object uniform buffers,
//! and the device-aligned stride at which per-object entries are addressed.

use crate::bytes::{le_byte, word_from_le};
use crate::memory::spec_round_up;
use vstd::prelude::*;

verus! {

/// Bit pattern of the 32-bit float `1.0`.
pub const F32_ONE_BITS: u32 = 0x3F800000;

/// Byte size of one 4x4 float matrix.
pub const MAT4_BYTES: u64 = 64;

/// A 4x4 matrix in column-major order, each element held as the raw bit
/// pattern of a 32-bit IEEE-754 float. The renderer moves these words into
/// uniform buffers without interpreting them.
#[derive(Clone, Copy, Debug, PartialEq)]
pub struct Mat4 {
    pub m: [u32; 16],
}

impl Mat4 {
    /// The identity matrix: float `1.0` on the diagonal, zero elsewhere.
    pub fn identity() -> (r: Mat4)
        ensures
            forall|i: int|
                0 <= i < 16 ==> r.m@[i] == (if i % 5 == 0 {
                    F32_ONE_BITS
                } else {
                    0u32
                }),
    {
        let r = Mat4 {
            m: [
                F32_ONE_BITS,
                0,
                0,
                0,
                0,
                F32_ONE_BITS,
                0,
                0,
                0,
                0,
                F32_ONE_BITS,
                0,
                0,
                0,
                0,
                F32_ONE_BITS,
            ],
        };
        r
    }
}

/// The little-endian byte image of a matrix: byte `t` is byte `t % 4` of
/// word `t / 4`.
pub open spec fn mat_bytes(m: Mat4) -> Seq<u8> {
    Seq::new(64, |t: int| le_byte(m.m@[t / 4], t % 4))
}

/// Byte `t` of a dynamically indexed uniform buffer holding one matrix per
/// slot at `stride` bytes each: matrix data in the first 64 bytes of a slot,
/// zero padding up to the stride.
pub open spec fn dyn_byte(mats: Seq<Mat4>, stride: int, t: int) -> u8
    recommends
        stride >= 64,
{
    let j = t / stride;
    let r = t % stride;
    if r < 64 {
        le_byte(mats[j].m@[r / 4], r % 4)
    } else {
        0u8
    }
}

/// The byte image of a dynamically indexed uniform buffer: slot `j` starts
/// at byte `j * stride`.
pub open spec fn dyn_bytes(mats: Seq<Mat4>, stride: int) -> Seq<u8>
    recommends
        stride >= 64,
{
    Seq::new((mats.len() * stride) as nat, |t: int| dyn_byte(mats, stride, t))
}

/// The byte image of the camera uniform buffer: the view matrix followed by
/// the projection matrix, 128 bytes in all.
pub open spec fn camera_bytes(view: Mat4, proj: Mat4) -> Seq<u8> {
    mat_bytes(view) + mat_bytes(proj)
}

/// The word read back from little-endian `bytes` at byte offset `off + 4 * w`.
pub open spec fn decoded_word(bytes: Seq<u8>, off: int, w: int) -> u32 {
    word_from_le(bytes[off + 4 * w], bytes[off + 4 * w + 1], bytes[off + 4 * w + 2], bytes[off + 4
        * w + 3])
}

/// The per-object uniform stride: the matrix size rounded up to the device's
/// minimum dynamic-uniform-buffer alignment.
pub open spec fn spec_padded_stride(align: u64) -> int {
    spec_round_up(MAT4_BYTES, align)
}

/// Computes the padded per-object uniform stride for a device whose minimum
/// dynamic-offset alignment is `min_align`.
pub fn padded_uniform_stride(min_align: u64) -> (s: u64)
    requires
        1 <= min_align,
        MAT4_BYTES + min_align - 1 <= u64::MAX,
    ensures
        s == spec_padded_stride(min_align),
        s >= MAT4_BYTES,
        s % min_align == 0,
        s < MAT4_BYTES + min_align,
{
    crate::memory::round_up_to_align(MAT4_BYTES, min_align)
}

/// The padded stride always covers one model matrix and is a multiple of the
/// device's minimum dynamic-uniform alignment.
pub proof fn lemma_padded_stride_props(align: u64)
    requires
        align >= 1,
    ensures
        spec_padded_stride(align) >= MAT4_BYTES,
        spec_padded_stride(align) % (align as int) == 0,
    decreases 0int,
{
    let a = align as int;
    let s = MAT4_BYTES + a - 1;
    vstd::arithmetic::div_mod::lemma_fundamental_div_mod(s, a);
    vstd::arithmetic::div_mod::lemma_mod_bound(s, a);
    assert((s / a) * a == s - s % a);
    vstd::arithmetic::div_mod::lemma_mod_multiples_basic(s / a, a);
}

/// Serializes one matrix per slot into a fresh uniform byte buffer, each
/// slot padded to `stride` bytes.
pub fn build_dynamic_uniform_bytes(mats: &Vec<Mat4>, stride: usize) -> (out: Vec<u8>)
    requires
        stride >= 64,
        mats@.len() * stride <= usize::MAX,
    ensures
        out@ == dyn_bytes(mats@, stride as int),
{
    let mut out: Vec<u8> = Vec::new();
    let mut j: usize = 0;
    while j < mats.len()
        invariant
            stride >= 64,
            mats@.len() * stride <= usize::MAX,
            j <= mats@.len(),
            out@.len() == j * stride,
            forall|t: int| 0 <= t < out@.len() ==> out@[t] == dyn_byte(mats@, stride as int, t),
        decreases mats@.len() - j,
    {
        proof {
            assert((j + 1) * stride <= mats@.len() * stride) by (nonlinear_arith)
                requires
                    j < mats@.len(),
                    stride >= 0,
            ;
            assert(j * stride + stride == (j + 1) * stride) by (nonlinear_arith);
        }
        let m = mats[j];
        let mut c: usize = 0;
        while c < stride
            invariant
                stride >= 64,
                j < mats@.len(),
                m == mats@[j as int],
                c <= stride,
                j * stride + stride <= mats@.len() * stride,
                mats@.len() * stride <= usize::MAX,
                out@.len() == j * stride + c,
                forall|t: int| 0 <= t < out@.len() ==> out@[t] == dyn_byte(mats@, stride as int, t),
            decreases stride - c,
        {
            proof {
                vstd::arithmetic::div_mod::lemma_fundamental_div_mod_converse(
                    j * stride + c,
                    stride as int,
                    j as int,
                    c as int,
                );
            }
            let b: u8 = if c < 64 {
                proof {
                    vstd::arithmetic::div_mod::lemma_fundamental_div_mod_converse(
                        c as int,
                        4,
                        c as int / 4,
                        c as int % 4,
                    );
                    assert(c / 4 < 16);
                }
                let w: u32 = m.m[c / 4];
                let r = c % 4;
                if r == 0 {
                    (w % 0x100) as u8
                } else if r == 1 {
                    ((w / 0x100) % 0x100) as u8
                } else if r == 2 {
                    ((w / 0x10000) % 0x100) as u8
                } else {
                    ((w / 0x1000000) % 0x100) as u8
                }
            } else {
                0u8
            };
            out.push(b);
            c = c + 1;
        }
        j = j + 1;
    }
    proof {
        assert(out@ =~= dyn_bytes(mats@, stride as int));
    }
    out
}

/// Serializes the camera's view and projection matrices into a fresh
/// 128-byte uniform image.
pub fn build_camera_bytes(view: &Mat4, proj: &Mat4) -> (out: Vec<u8>)
    ensures
        out@ == camera_bytes(*view, *proj),
{
    let mats: Vec<Mat4> = vec![*view, *proj];
    let out = build_dynamic_uniform_bytes(&mats, 64);
    proof {
        assert forall|t: int| 0 <= t < 128 implies dyn_bytes(mats@, 64)[t] == camera_bytes(
            *view,
            *proj,
        )[t] by {
            if t < 64 {
                vstd::arithmetic::div_mod::lemma_fundamental_div_mod_converse(t, 64, 0, t);
            } else {
                vstd::arithmetic::div_mod::lemma_fundamental_div_mod_converse(t, 64, 1, t - 64);
            }
        }
        assert(out@ =~= camera_bytes(*view, *proj));
    }
    out
}

/// Reads a matrix back from `bytes` at byte offset `off`.
pub fn read_mat_le(bytes: &Vec<u8>, off: usize) -> (m: Mat4)
    requires
        off + 64 <= bytes@.len(),
    ensures
        forall|w: int| 0 <= w < 16 ==> m.m@[w] == decoded_word(bytes@, off as int, w),
{
    let n = bytes.len();
    assert(off + 64 <= n);
    let m = Mat4 {
        m: [
            crate::bytes::read_word_le(bytes, off),
            crate::bytes::read_word_le(bytes, off + 4),
            crate::bytes::read_word_le(bytes, off + 8),
            crate::bytes::read_word_le(bytes, off + 12),
            crate::bytes::read_word_le(bytes, off + 16),
            crate::bytes::read_word_le(bytes, off + 20),
            crate::bytes::read_word_le(bytes, off + 24),
            crate::bytes::read_word_le(bytes, off + 28),
            crate::bytes::read_word_le(bytes, off + 32),
            crate::bytes::read_word_le(bytes, off + 36),
            crate::bytes::read_word_le(bytes, off + 40),
            crate::bytes::read_word_le(bytes, off + 44),
            crate::bytes::read_word_le(bytes, off + 48),
            crate::bytes::read_word_le(bytes, off + 52),
            crate::bytes::read_word_le(bytes, off + 56),
            crate::bytes::read_word_le(bytes, off + 60),
        ],
    };
    m
}

/// Decoding a matrix's byte image yields the original words back.
pub proof fn lemma_mat_bytes_decode(m: Mat4, w: int)
    requires
        0 <= w < 16,
    ensures
        decoded_word(mat_bytes(m), 0, w) == m.m@[w],
{
    vstd::arithmetic::div_mod::lemma_fundamental_div_mod_converse(4 * w, 4, w, 0);
    vstd::arithmetic::div_mod::lemma_fundamental_div_mod_converse(4 * w + 1, 4, w, 1);
    vstd::arithmetic::div_mod::lemma_fundamental_div_mod_converse(4 * w + 2, 4, w, 2);
    vstd::arithmetic::div_mod::lemma_fundamental_div_mod_converse(4 * w + 3, 4, w, 3);
    crate::bytes::lemma_word_le_round_trip(m.m@[w]);
}

/// Reading the camera uniform image back reproduces both matrices exactly:
/// the round trip through the byte buffer loses nothing.
pub proof fn lemma_camera_round_trip(view: Mat4, proj: Mat4, w: int)
    requires
        0 <= w < 16,
    ensures
        decoded_word(camera_bytes(view, proj), 0, w) == view.m@[w],
        decoded_word(camera_bytes(view, proj), 64, w) == proj.m@[w],
{
    lemma_mat_bytes_decode(view, w);
    lemma_mat_bytes_decode(proj, w);
    assert(decoded_word(camera_bytes(view, proj), 0, w) == decoded_word(mat_bytes(view), 0, w));
    assert(camera_bytes(view, proj)[64 + 4 * w] == mat_bytes(proj)[4 * w]);
    assert(camera_bytes(view, proj)[64 + 4 * w + 1] == mat_bytes(proj)[4 * w + 1]);
    assert(camera_bytes(view, proj)[64 + 4 * w + 2] == mat_bytes(proj)[4 * w + 2]);
    assert(camera_bytes(view, proj)[64 + 4 * w + 3] == mat_bytes(proj)[4 * w + 3]);
    assert(decoded_word(camera_bytes(view, proj), 64, w) == decoded_word(mat_bytes(proj), 0, w));
}

} // verus!
