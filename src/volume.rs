//! Packing of a cubic lattice of 32-bit samples into the flat byte buffer
//! of a 3D texture. Samples are taken `x` fastest, then `y`, then `z`; each
//! is written as four little-endian bytes, once per channel of the texel
//! format (a single-channel format stores it once, an RGBA format repeats
//! it in all four channels).

use vstd::arithmetic::div_mod::{lemma_fundamental_div_mod, lemma_fundamental_div_mod_converse};
use vstd::bytes::{
    lemma_auto_spec_u32_to_from_le_bytes,
    spec_u32_from_le_bytes,
    spec_u32_to_le_bytes,
    u32_from_le_bytes,
    u32_to_le_bytes,
};
use vstd::prelude::*;
use vstd::slice::slice_subrange;

verus! {

/// Layout of one texel.
#[derive(Clone, Copy, Debug, PartialEq, Eq, Structural)]
pub enum TexelFormat {
    /// One 32-bit channel.
    R32Float,
    /// Four 32-bit channels, each holding the same sample.
    Rgba32Float,
}

impl TexelFormat {
    pub open spec fn channels_spec(self) -> nat {
        match self {
            TexelFormat::R32Float => 1,
            TexelFormat::Rgba32Float => 4,
        }
    }

    /// Number of 32-bit channels in a texel.
    pub fn channels(&self) -> (r: usize)
        ensures
            r as nat == self.channels_spec(),
    {
        match self {
            TexelFormat::R32Float => 1,
            TexelFormat::Rgba32Float => 4,
        }
    }
}

/// Position of lattice point `(i, j, k)` in sampling order: `i + j*s + k*s*s`.
pub open spec fn cell_index(s: nat, i: nat, j: nat, k: nat) -> nat {
    i + j * s + k * s * s
}

/// Byte offset of channel `ch` of lattice point `(i, j, k)` in a buffer of
/// side `s` with `c` channels per texel: `4 * (c * cell + ch)`. With one
/// channel this is `4 * (i + j*s + k*s*s)`.
pub open spec fn byte_offset(s: nat, c: nat, i: nat, j: nat, k: nat, ch: nat) -> nat {
    4 * (c * cell_index(s, i, j, k) + ch)
}

/// Byte `b` of the packed buffer: byte `b % 4` of sample `b / (4 * c)`.
pub open spec fn packed_byte(samples: Seq<u32>, c: nat, b: int) -> u8 {
    spec_u32_to_le_bytes(samples[b / (4 * c) as int])[b % 4]
}

/// The packed bytes of `samples` with `c` channels per texel.
pub open spec fn packed_bytes(samples: Seq<u32>, c: nat) -> Seq<u8> {
    Seq::new(samples.len() * c * 4, |b: int| packed_byte(samples, c, b))
}

/// Whether a lattice of side `s` with `c` channels per texel can be
/// addressed by `usize`.
pub open spec fn volume_fits(s: nat, c: nat) -> bool {
    s * s * s * c * 4 <= usize::MAX
}

/// The byte payload of a 3D texture of side `side`.
pub struct VolumeBuffer {
    pub bytes: Vec<u8>,
    pub side: u32,
    pub format: TexelFormat,
}

impl VolumeBuffer {
    pub open spec fn wf(&self) -> bool {
        let s = self.side as nat;
        let c = self.format.channels_spec();
        &&& volume_fits(s, c)
        &&& self.bytes@.len() == s * s * s * c * 4
    }
}

/// Byte `4 * (c * n + ch) + t` of the packed buffer is byte `t` of sample `n`.
proof fn lemma_packed_byte_at(samples: Seq<u32>, c: nat, n: nat, ch: nat, t: nat)
    requires
        ch < c,
        t < 4,
    ensures
        packed_byte(samples, c, (4 * (c * n + ch) + t) as int) == spec_u32_to_le_bytes(samples[n as int])[t as int],
{
    let b = 4 * (c * n + ch) + t;
    assert(b == n * (4 * c) + (4 * ch + t)) by (nonlinear_arith)
        requires
            b == 4 * (c * n + ch) + t,
    ;
    lemma_fundamental_div_mod_converse(b as int, (4 * c) as int, n as int, (4 * ch + t) as int);
    lemma_fundamental_div_mod_converse(b as int, 4, (c * n + ch) as int, t as int);
}

/// Packs `samples`, taken `x` fastest on a lattice of side `side`, into the
/// byte payload of a 3D texture of the given format.
pub fn pack_volume(side: u32, format: TexelFormat, samples: &Vec<u32>) -> (r: VolumeBuffer)
    requires
        samples@.len() == side * side * side,
        volume_fits(side as nat, format.channels_spec()),
    ensures
        r.side == side,
        r.format == format,
        r.bytes@ == packed_bytes(samples@, format.channels_spec()),
        r.wf(),
{
    let c = format.channels();
    let ghost cn = c as nat;
    let mut bytes: Vec<u8> = Vec::new();
    let mut n: usize = 0;
    while n < samples.len()
        invariant
            cn == c,
            1 <= c <= 4,
            samples@.len() * c * 4 <= usize::MAX,
            0 <= n <= samples@.len(),
            bytes@.len() == 4 * (c * n),
            forall|b: int| 0 <= b < bytes@.len() ==> #[trigger] bytes@[b] == packed_byte(samples@, cn, b),
        decreases samples@.len() - n,
    {
        let word = u32_to_le_bytes(samples[n]);
        let mut ch: usize = 0;
        while ch < c
            invariant
                cn == c,
                1 <= c <= 4,
                samples@.len() * c * 4 <= usize::MAX,
                0 <= n < samples@.len(),
                0 <= ch <= c,
                word@ == spec_u32_to_le_bytes(samples@[n as int]),
                word@.len() == 4,
                bytes@.len() == 4 * (c * n + ch),
                forall|b: int| 0 <= b < bytes@.len() ==> #[trigger] bytes@[b] == packed_byte(samples@, cn, b),
            decreases c - ch,
        {
            assert(4 * (c * n + ch) + 4 <= samples@.len() * c * 4) by (nonlinear_arith)
                requires
                    n < samples@.len(),
                    ch < c,
            ;
            let ghost start: int = bytes@.len() as int;
            bytes.push(word[0]);
            bytes.push(word[1]);
            bytes.push(word[2]);
            bytes.push(word[3]);
            proof {
                assert forall|b: int| 0 <= b < bytes@.len() implies #[trigger] bytes@[b] == packed_byte(
                    samples@,
                    cn,
                    b,
                ) by {
                    if b >= start {
                        lemma_packed_byte_at(samples@, cn, n as nat, ch as nat, (b - start) as nat);
                    }
                }
            }
            ch = ch + 1;
        }
        assert(bytes@.len() == 4 * (c * (n + 1))) by (nonlinear_arith)
            requires
                bytes@.len() == 4 * (c * n + c),
        ;
        n = n + 1;
    }
    proof {
        let s = side as nat;
        assert(bytes@.len() == s * s * s * cn * 4) by (nonlinear_arith)
            requires
                bytes@.len() == 4 * (cn * samples@.len()),
                samples@.len() == s * s * s,
        ;
        assert(bytes@ =~= packed_bytes(samples@, cn));
    }
    VolumeBuffer { bytes, side, format }
}

/// Every lattice point of a cube of side `s` has a sampling position below `s³`.
pub proof fn lemma_cell_index_bound(s: nat, i: nat, j: nat, k: nat)
    requires
        i < s,
        j < s,
        k < s,
    ensures
        cell_index(s, i, j, k) < s * s * s,
{
    assert(i + j * s < s * s) by (nonlinear_arith)
        requires
            i < s,
            j < s,
    ;
    assert(i + j * s + k * s * s < s * s * s) by (nonlinear_arith)
        requires
            i + j * s < s * s,
            k < s,
    ;
}

/// The lattice point `(i, j, k)` sampled at position `cell` of the
/// sampling order, `x` fastest: `cell == i + j*s + k*s*s`.
pub fn lattice_point(side: u32, cell: usize) -> (r: (u32, u32, u32))
    requires
        cell < side * side * side,
    ensures
        r.0 < side,
        r.1 < side,
        r.2 < side,
        cell_index(side as nat, r.0 as nat, r.1 as nat, r.2 as nat) == cell,
{
    let ghost s = side as int;
    assert(side > 0) by (nonlinear_arith)
        requires
            cell < side * side * side,
    ;
    let sz = side as usize;
    let i = cell % sz;
    let q = cell / sz;
    let j = q % sz;
    let k = q / sz;
    proof {
        lemma_fundamental_div_mod(cell as int, s);
        lemma_fundamental_div_mod(q as int, s);
        assert(k < s) by (nonlinear_arith)
            requires
                cell < s * s * s,
                cell == s * q + i,
                q == s * k + j,
                0 <= i,
                0 <= j,
                s > 0,
        ;
        assert(cell == i + j * s + k * s * s) by (nonlinear_arith)
            requires
                cell == s * q + i,
                q == s * k + j,
        ;
    }
    (i as u32, j as u32, k as u32)
}

/// Reads back the sample stored in channel `ch` of lattice point
/// `(i, j, k)`: the four bytes at `byte_offset`, little-endian.
pub fn read_texel(v: &VolumeBuffer, i: u32, j: u32, k: u32, ch: usize) -> (r: u32)
    requires
        v.wf(),
        i < v.side,
        j < v.side,
        k < v.side,
        ch < v.format.channels_spec(),
    ensures
        ({
            let off = byte_offset(v.side as nat, v.format.channels_spec(), i as nat, j as nat, k as nat, ch as nat) as int;
            r == spec_u32_from_le_bytes(v.bytes@.subrange(off, off + 4))
        }),
{
    let ghost s = v.side as nat;
    let c = v.format.channels();
    proof {
        lemma_cell_index_bound(s, i as nat, j as nat, k as nat);
        let cell = cell_index(s, i as nat, j as nat, k as nat);
        assert(4 * (c * cell + ch) + 4 <= s * s * s * c * 4) by (nonlinear_arith)
            requires
                cell < s * s * s,
                ch < c,
        ;
        assert(s * s * s <= s * s * s * c * 4) by (nonlinear_arith)
            requires
                c >= 1,
        ;
        assert(k * s <= s * s && s * s <= s * s * s && j * s <= s * s) by (nonlinear_arith)
            requires
                k < s,
                j < s,
        ;
    }
    let sz = v.side as usize;
    let ks = (k as usize) * sz;
    assert(ks * s <= s * s * s) by (nonlinear_arith)
        requires
            ks == k * s,
            k < s,
    ;
    let kss = ks * sz;
    let cell = (i as usize) + (j as usize) * sz + kss;
    let off = 4 * (c * cell + ch);
    u32_from_le_bytes(slice_subrange(v.bytes.as_slice(), off, off + 4))
}

/// Decoding a packed buffer at the offset of any lattice point and channel
/// gives back exactly the sample written for that point.
pub proof fn lemma_read_after_pack(samples: Seq<u32>, s: nat, c: nat, i: nat, j: nat, k: nat, ch: nat)
    requires
        samples.len() == s * s * s,
        i < s,
        j < s,
        k < s,
        ch < c,
    ensures
        ({
            let off = byte_offset(s, c, i, j, k, ch) as int;
            spec_u32_from_le_bytes(packed_bytes(samples, c).subrange(off, off + 4))
                == samples[cell_index(s, i, j, k) as int]
        }),
{
    let cell = cell_index(s, i, j, k);
    lemma_cell_index_bound(s, i, j, k);
    let off = byte_offset(s, c, i, j, k, ch) as int;
    assert(off + 4 <= samples.len() * c * 4) by (nonlinear_arith)
        requires
            cell < samples.len(),
            ch < c,
            off == 4 * (c * cell + ch),
    ;
    let word = spec_u32_to_le_bytes(samples[cell as int]);
    lemma_auto_spec_u32_to_from_le_bytes();
    assert forall|t: int| 0 <= t < 4 implies #[trigger] packed_bytes(samples, c).subrange(off, off + 4)[t]
        == word[t] by {
        lemma_packed_byte_at(samples, c, cell, ch, t as nat);
    }
    assert(packed_bytes(samples, c).subrange(off, off + 4) =~= word);
}

} // verus!
