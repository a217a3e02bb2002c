//! Packaging a raw firmware binary as UF2.
//!
//! Every 256-byte chunk of the binary becomes one 512-byte block: a header of
//! eight little-endian words, the chunk zero-padded to 476 bytes, and a
//! closing magic word. The header's last word is a family id.

use vstd::bytes::{spec_u32_from_le_bytes, spec_u32_to_le_bytes};
use vstd::prelude::*;

verus! {

pub const MAGIC_START0: u32 = 0x0A32_4655;

pub const MAGIC_START1: u32 = 0x9E5D_5157;

pub const MAGIC_END: u32 = 0x0AB1_6F30;

/// The last header word is a family id.
pub const FLAG_FAMILY_ID: u32 = 0x2000;

/// Binary bytes carried by one block.
pub const PAYLOAD: usize = 256;

/// Room for data in one block.
pub const DATA: usize = 476;

/// Bytes in one block: 32 of header, `DATA`, 4 of closing magic.
pub const BLOCK: usize = 512;

/// Blocks needed for a binary of `len` bytes.
pub open spec fn block_count(len: nat) -> nat {
    ((len + 255) / 256) as nat
}

/// The bytes of the binary that block `i` carries.
pub open spec fn chunk(data: Seq<u8>, i: int) -> Seq<u8> {
    let start = i * 256;
    let end = if (i + 1) * 256 <= data.len() { (i + 1) * 256 } else { data.len() as int };
    data.subrange(start, end)
}

/// The header of block `i` of `blocks`, for a binary linked at `base`.
pub open spec fn block_header(base: u32, family: u32, i: int, blocks: int) -> Seq<u8> {
    spec_u32_to_le_bytes(MAGIC_START0)
        + spec_u32_to_le_bytes(MAGIC_START1)
        + spec_u32_to_le_bytes(FLAG_FAMILY_ID)
        + spec_u32_to_le_bytes((base + i * 256) as u32)
        + spec_u32_to_le_bytes(256)
        + spec_u32_to_le_bytes(i as u32)
        + spec_u32_to_le_bytes(blocks as u32)
        + spec_u32_to_le_bytes(family)
}

/// `n` zero bytes.
pub open spec fn zeros(n: int) -> Seq<u8> {
    Seq::new(n as nat, |k: int| 0u8)
}

/// Block `i` of the image of `data`. A short tail is zero-padded.
pub open spec fn uf2_block(data: Seq<u8>, base: u32, family: u32, i: int) -> Seq<u8> {
    let c = chunk(data, i);
    block_header(base, family, i, block_count(data.len()) as int) + c + zeros(476 - c.len())
        + spec_u32_to_le_bytes(MAGIC_END)
}

/// The first `n` blocks of the image of `data`.
pub open spec fn image_prefix(data: Seq<u8>, base: u32, family: u32, n: nat) -> Seq<u8>
    decreases n,
{
    if n == 0 {
        Seq::empty()
    } else {
        image_prefix(data, base, family, (n - 1) as nat) + uf2_block(data, base, family, n - 1)
    }
}

/// The UF2 image of `data`.
pub open spec fn uf2_image(data: Seq<u8>, base: u32, family: u32) -> Seq<u8> {
    image_prefix(data, base, family, block_count(data.len()))
}

/// Whether every block address of a binary of `len` bytes linked at `base`
/// fits in 32 bits, and the image fits in memory.
pub open spec fn fits(len: nat, base: u32) -> bool {
    &&& len == 0 || base + (block_count(len) - 1) * 256 <= u32::MAX
    &&& block_count(len) * 512 <= usize::MAX
}

/// Blocks needed for a binary of `len` bytes.
pub fn blocks_for(len: usize) -> (n: usize)
    ensures
        n == block_count(len as nat),
        n * 256 >= len,
        n * 256 < len + 256,
{
    proof {
        lemma_block_count_is_ceil(len as nat);
    }
    len / 256 + if len % 256 == 0 { 0 } else { 1 }
}

/// Whether `base` is a valid start address: a multiple of the payload size.
pub fn base_is_aligned(base: u32) -> (b: bool)
    ensures
        b == (base % 256 == 0),
{
    base % 256 == 0
}

/// The block count is the binary's length in 256-byte chunks, rounded up:
/// the blocks hold every byte, and none of them is wholly past the end.
pub proof fn lemma_block_count_is_ceil(len: nat)
    ensures
        block_count(len) * 256 >= len,
        block_count(len) * 256 < len + 256,
{
    let q = (len + 255) / 256;
    vstd::arithmetic::div_mod::lemma_fundamental_div_mod((len + 255) as int, 256);
    assert(block_count(len) == q);
}

fn push_word(out: &mut Vec<u8>, w: u32)
    ensures
        final(out)@ == old(out)@ + spec_u32_to_le_bytes(w),
{
    let mut bytes = vstd::bytes::u32_to_le_bytes(w);
    out.append(&mut bytes);
}

/// The UF2 image of `data`, linked at `base`, for the bootloader family
/// `family`.
pub fn to_uf2(data: &[u8], base: u32, family: u32) -> (out: Vec<u8>)
    requires
        fits(data@.len(), base),
    ensures
        out@ == uf2_image(data@, base, family),
        out@.len() == block_count(data@.len()) * 512,
        forall|j: int| 0 <= j < data@.len() ==> out@[(j / 256) * 512 + 32 + j % 256] == #[trigger] data@[j],
{
    let len = data.len();
    let blocks = blocks_for(len);
    let mut out: Vec<u8> = Vec::new();
    let mut i: usize = 0;
    while i < blocks
        invariant
            len == data@.len(),
            blocks == block_count(len as nat),
            fits(len as nat, base),
            i <= blocks,
            out@ == image_prefix(data@, base, family, i as nat),
            out@.len() == i * 512,
        decreases blocks - i,
    {
        let ghost before = out@;
        proof {
            vstd::bytes::lemma_auto_spec_u32_to_from_le_bytes();
        }
        let start = i * 256;
        let end = if len - start >= 256 {
            start + 256
        } else {
            len
        };
        assert(i * 256 <= len) by (nonlinear_arith)
            requires
                i < blocks,
                blocks == (len + 255) / 256,
        ;
        push_word(&mut out, MAGIC_START0);
        push_word(&mut out, MAGIC_START1);
        push_word(&mut out, FLAG_FAMILY_ID);
        push_word(&mut out, base + (i * 256) as u32);
        push_word(&mut out, 256);
        push_word(&mut out, i as u32);
        push_word(&mut out, blocks as u32);
        push_word(&mut out, family);
        let ghost header = out@;
        assert(header == before + block_header(base, family, i as int, blocks as int));
        let mut j = start;
        while j < end
            invariant
                start <= j <= end <= len,
                len == data@.len(),
                out@ == header + data@.subrange(start as int, j as int),
            decreases end - j,
        {
            out.push(data[j]);
            assert(data@.subrange(start as int, j + 1) == data@.subrange(start as int, j as int).push(data@[j as int]));
            j = j + 1;
        }
        let ghost with_chunk = out@;
        let pad = DATA - (end - start);
        let mut k: usize = 0;
        while k < pad
            invariant
                k <= pad,
                out@ == with_chunk + zeros(k as int),
            decreases pad - k,
        {
            out.push(0);
            assert(zeros(k + 1) == zeros(k as int).push(0u8));
            k = k + 1;
        }
        push_word(&mut out, MAGIC_END);
        assert(out@ == before + uf2_block(data@, base, family, i as int));
        i = i + 1;
    }
    proof {
        assert forall|j: int| 0 <= j < data@.len() implies out@[(j / 256) * 512 + 32 + j % 256] == #[trigger] data@[j] by {
            lemma_every_byte_carried(data@, base, family, j);
        }
    }
    out
}


/// Every block is 512 bytes, and a block's bytes start with its header and
/// continue with its chunk.
pub proof fn lemma_block_shape(data: Seq<u8>, base: u32, family: u32, i: int)
    requires
        0 <= i < block_count(data.len()),
    ensures
        uf2_block(data, base, family, i).len() == 512,
        chunk(data, i).len() <= 256,
        chunk(data, i).len() > 0,
        uf2_block(data, base, family, i).subrange(0, 32) == block_header(base, family, i, block_count(data.len()) as int),
        block_header(base, family, i, block_count(data.len()) as int).len() == 32,
        forall|m: int| 0 <= m < chunk(data, i).len() ==> #[trigger] uf2_block(data, base, family, i)[32 + m] == data[i * 256 + m],
        forall|m: int| chunk(data, i).len() <= m < 476 ==> #[trigger] uf2_block(data, base, family, i)[32 + m] == 0,
        uf2_block(data, base, family, i).subrange(508, 512) == spec_u32_to_le_bytes(MAGIC_END),
{
    vstd::bytes::lemma_auto_spec_u32_to_from_le_bytes();
    assert(i * 256 < data.len()) by (nonlinear_arith)
        requires
            0 <= i,
            i < (data.len() + 255) / 256,
    ;
    let c = chunk(data, i);
    let h = block_header(base, family, i, block_count(data.len()) as int);
    let b = uf2_block(data, base, family, i);
    assert(b == h + c + zeros(476 - c.len()) + spec_u32_to_le_bytes(MAGIC_END));
    assert(b.subrange(0, 32) =~= h);
    assert(b.subrange(508, 512) =~= spec_u32_to_le_bytes(MAGIC_END));
}

/// The image of `data` is its blocks back to back: block `k` is bytes
/// `512 * k .. 512 * (k + 1)`.
pub proof fn lemma_image_layout(data: Seq<u8>, base: u32, family: u32, n: nat, k: int)
    requires
        n <= block_count(data.len()),
        0 <= k < n,
    ensures
        image_prefix(data, base, family, n).len() == n * 512,
        image_prefix(data, base, family, n).subrange(k * 512, k * 512 + 512) == uf2_block(data, base, family, k),
    decreases n,
{
    lemma_image_len(data, base, family, n);
    lemma_block_shape(data, base, family, (n - 1) as int);
    let prev = image_prefix(data, base, family, (n - 1) as nat);
    lemma_image_len(data, base, family, (n - 1) as nat);
    if k < n - 1 {
        lemma_image_layout(data, base, family, (n - 1) as nat, k);
        assert(k * 512 + 512 <= (n - 1) * 512) by (nonlinear_arith)
            requires
                k < n - 1,
        ;
        assert(image_prefix(data, base, family, n).subrange(k * 512, k * 512 + 512) =~= prev.subrange(
            k * 512,
            k * 512 + 512,
        ));
    } else {
        assert(image_prefix(data, base, family, n).subrange(k * 512, k * 512 + 512) =~= uf2_block(
            data,
            base,
            family,
            k,
        ));
    }
}

/// The first `n` blocks take `512 * n` bytes.
pub proof fn lemma_image_len(data: Seq<u8>, base: u32, family: u32, n: nat)
    requires
        n <= block_count(data.len()),
    ensures
        image_prefix(data, base, family, n).len() == n * 512,
    decreases n,
{
    if n > 0 {
        lemma_image_len(data, base, family, (n - 1) as nat);
        lemma_block_shape(data, base, family, (n - 1) as int);
    }
}

/// Each block's header says what it carries: the magic words, the family id
/// flag, the target address `base + 256 * k`, a payload size of 256, its
/// block number `k`, the block count and the family id; and the block ends
/// with the closing magic word.
pub proof fn lemma_block_fields(data: Seq<u8>, base: u32, family: u32, k: int)
    requires
        fits(data.len(), base),
        0 <= k < block_count(data.len()),
    ensures
        ({
            let img = uf2_image(data, base, family);
            let at = k * 512;
            &&& spec_u32_from_le_bytes(img.subrange(at, at + 4)) == MAGIC_START0
            &&& spec_u32_from_le_bytes(img.subrange(at + 4, at + 8)) == MAGIC_START1
            &&& spec_u32_from_le_bytes(img.subrange(at + 8, at + 12)) == FLAG_FAMILY_ID
            &&& spec_u32_from_le_bytes(img.subrange(at + 12, at + 16)) == base + k * 256
            &&& spec_u32_from_le_bytes(img.subrange(at + 16, at + 20)) == 256
            &&& spec_u32_from_le_bytes(img.subrange(at + 20, at + 24)) == k
            &&& spec_u32_from_le_bytes(img.subrange(at + 24, at + 28)) == block_count(data.len())
            &&& spec_u32_from_le_bytes(img.subrange(at + 28, at + 32)) == family
            &&& spec_u32_from_le_bytes(img.subrange(at + 508, at + 512)) == MAGIC_END
        }),
{
    vstd::bytes::lemma_auto_spec_u32_to_from_le_bytes();
    let n = block_count(data.len());
    lemma_image_layout(data, base, family, n, k);
    lemma_block_shape(data, base, family, k);
    let img = uf2_image(data, base, family);
    let at = k * 512;
    let b = uf2_block(data, base, family, k);
    let h = block_header(base, family, k, n as int);
    assert(k * 256 <= (n - 1) * 256) by (nonlinear_arith)
        requires
            k <= n - 1,
    ;
    assert(n <= 0x100_0000) by (nonlinear_arith)
        requires
            base + (n - 1) * 256 <= u32::MAX,
            n >= 1,
    ;
    assert forall|lo: int, hi: int| 0 <= lo <= hi <= 512 implies #[trigger] img.subrange(at + lo, at + hi) == b.subrange(
        lo,
        hi,
    ) by {
        assert(img.subrange(at + lo, at + hi) =~= img.subrange(at, at + 512).subrange(lo, hi));
    }
    assert(b.subrange(0, 4) =~= h.subrange(0, 4));
    assert(h.subrange(0, 4) =~= spec_u32_to_le_bytes(MAGIC_START0));
    assert(b.subrange(4, 8) =~= spec_u32_to_le_bytes(MAGIC_START1));
    assert(b.subrange(8, 12) =~= spec_u32_to_le_bytes(FLAG_FAMILY_ID));
    assert(b.subrange(12, 16) =~= spec_u32_to_le_bytes((base + k * 256) as u32));
    assert(b.subrange(16, 20) =~= spec_u32_to_le_bytes(256));
    assert(b.subrange(20, 24) =~= spec_u32_to_le_bytes(k as u32));
    assert(b.subrange(24, 28) =~= spec_u32_to_le_bytes(n as u32));
    assert(b.subrange(28, 32) =~= spec_u32_to_le_bytes(family));
    assert(img.subrange(at, at + 4) == b.subrange(0, 4)) by {
        assert(img.subrange(at + 0, at + 4) == b.subrange(0, 4));
    }
    assert(img.subrange(at + 4, at + 8) == b.subrange(4, 8));
    assert(img.subrange(at + 8, at + 12) == b.subrange(8, 12));
    assert(img.subrange(at + 12, at + 16) == b.subrange(12, 16));
    assert(img.subrange(at + 16, at + 20) == b.subrange(16, 20));
    assert(img.subrange(at + 20, at + 24) == b.subrange(20, 24));
    assert(img.subrange(at + 24, at + 28) == b.subrange(24, 28));
    assert(img.subrange(at + 28, at + 32) == b.subrange(28, 32));
    assert(img.subrange(at + 508, at + 512) == b.subrange(508, 512));
    assert(spec_u32_from_le_bytes(spec_u32_to_le_bytes((base + k * 256) as u32)) == (base + k * 256) as u32);
    assert(((base + k * 256) as u32) == base + k * 256);
    assert((k as u32) == k);
    assert((n as u32) == n);
}

/// Round trip of the packaging: byte `j` of the binary is payload byte
/// `j % 256` of block `j / 256`, and the payload past the end of the binary
/// is zero.
pub proof fn lemma_payload_carries_data(data: Seq<u8>, base: u32, family: u32, j: int)
    requires
        0 <= j < block_count(data.len()) * 256,
    ensures
        ({
            let img = uf2_image(data, base, family);
            let at = (j / 256) * 512 + 32 + j % 256;
            &&& 0 <= at < img.len()
            &&& img[at] == if j < data.len() { data[j] } else { 0u8 }
        }),
{
    let n = block_count(data.len());
    let k = j / 256;
    let m = j % 256;
    vstd::arithmetic::div_mod::lemma_fundamental_div_mod(j, 256);
    assert(0 <= k < n) by (nonlinear_arith)
        requires
            0 <= j < n * 256,
            k == j / 256,
    ;
    lemma_image_layout(data, base, family, n, k);
    lemma_block_shape(data, base, family, k);
    let img = uf2_image(data, base, family);
    let b = uf2_block(data, base, family, k);
    assert(img[k * 512 + 32 + m] == img.subrange(k * 512, k * 512 + 512)[32 + m]);
    assert(k * 512 + 512 <= n * 512) by (nonlinear_arith)
        requires
            k < n,
    ;
    if j < data.len() {
        assert(m < chunk(data, k).len());
        assert(b[32 + m] == data[k * 256 + m]);
    } else {
        assert(chunk(data, k).len() <= m);
        assert(b[32 + m] == 0);
    }
}


/// Every byte of the binary is carried: byte `j` is payload byte `j % 256`
/// of block `j / 256` of the image, for every `j` below the binary's length.
pub proof fn lemma_every_byte_carried(data: Seq<u8>, base: u32, family: u32, j: int)
    requires
        0 <= j < data.len(),
    ensures
        ({
            let img = uf2_image(data, base, family);
            let at = (j / 256) * 512 + 32 + j % 256;
            &&& 0 <= at < img.len()
            &&& img[at] == data[j]
        }),
{
    lemma_block_count_is_ceil(data.len());
    lemma_payload_carries_data(data, base, family, j);
}

} // verus!
