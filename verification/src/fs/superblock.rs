//! The superblock of an ext filesystem.

use crate::text::{hex, lemma_hex_digits, push_hex};
use vstd::arithmetic::power2::{lemma2_to64, lemma_pow2_strictly_increases, pow2};
use vstd::prelude::*;

verus! {

/// The number of bytes that a superblock takes.
pub const SUPERBLOCK_SIZE: usize = 1024;

/// The greatest block size exponent.
pub const MAX_LOG_BLOCK_SIZE: u32 = 6;

/// The little-endian 32-bit number at `at`.
pub open spec fn le32(buf: Seq<u8>, at: int) -> nat {
    (buf[at] + 0x100 * buf[at + 1] + 0x1_0000 * buf[at + 2] + 0x100_0000 * buf[at + 3]) as nat
}

pub open spec fn inodes_count(buf: Seq<u8>) -> nat {
    le32(buf, 0)
}

pub open spec fn log_block_size(buf: Seq<u8>) -> nat {
    le32(buf, 24)
}

/// Whether the block count has a high half: bit 6 of the incompatible
/// features.
pub open spec fn has_64bit(buf: Seq<u8>) -> bool {
    le32(buf, 96) / 64 % 2 == 1
}

/// Sixteen bytes in hexadecimal, in groups of four, two, two, two and six.
pub open spec fn uuid_text(bytes: Seq<u8>) -> Seq<char> {
    hex(bytes.subrange(0, 4)).push('-') + hex(bytes.subrange(4, 6)).push('-') + hex(
        bytes.subrange(6, 8),
    ).push('-') + hex(bytes.subrange(8, 10)).push('-') + hex(bytes.subrange(10, 16))
}

/// What is read out of a superblock.
#[derive(Debug)]
pub struct Superblock {
    pub block_size: u32,
    pub block_count: u64,
    pub uuid: String,
}

/// A [`Superblock`] as mathematical values.
pub struct SuperblockView {
    pub block_size: nat,
    pub block_count: nat,
    pub uuid: Seq<char>,
}

impl View for Superblock {
    type V = SuperblockView;

    open spec fn view(&self) -> SuperblockView {
        SuperblockView {
            block_size: self.block_size as nat,
            block_count: self.block_count as nat,
            uuid: self.uuid@,
        }
    }
}

/// Whether `buf` is as long as a superblock and its block size exponent is in
/// range.
pub open spec fn is_parsable(buf: Seq<u8>) -> bool {
    buf.len() == SUPERBLOCK_SIZE && log_block_size(buf) <= MAX_LOG_BLOCK_SIZE
}

/// What the bytes of a superblock say.
pub open spec fn superblock_of(buf: Seq<u8>) -> SuperblockView {
    SuperblockView {
        block_size: pow2(log_block_size(buf)),
        block_count: le32(buf, 4) + if has_64bit(buf) {
            0x1_0000_0000 * le32(buf, 336)
        } else {
            0
        },
        uuid: uuid_text(buf.subrange(104, 120)),
    }
}

/// Reads the little-endian 32-bit number at `at`.
pub fn read_le32(buf: &[u8], at: usize) -> (r: u32)
    requires
        at + 4 <= buf.len(),
    ensures
        r == le32(buf@, at as int),
{
    buf[at] as u32 + 0x100 * (buf[at + 1] as u32) + 0x1_0000 * (buf[at + 2] as u32) + 0x100_0000 * (
    buf[at + 3] as u32)
}

impl Superblock {
    /// Reads a superblock.
    pub fn parse(buf: &[u8]) -> (r: Self)
        requires
            is_parsable(buf@),
        ensures
            r@ == superblock_of(buf@),
    {
        let log_b_size: u32 = read_le32(buf, 24);
        let block_size: u32 = power_of_two(log_b_size);
        let incompat_features: u32 = read_le32(buf, 96);
        let mut block_count: u64 = read_le32(buf, 4) as u64;
        proof {
            assert((incompat_features & 64 > 0) == (incompat_features / 64 % 2 == 1))
                by (bit_vector);
        }
        if incompat_features & 64 > 0 {
            block_count = block_count + 0x1_0000_0000 * (read_le32(buf, 336) as u64);
        }
        let mut uuid = String::new();
        push_hex(&mut uuid, buf, 104, 108);
        uuid.push('-');
        push_hex(&mut uuid, buf, 108, 110);
        uuid.push('-');
        push_hex(&mut uuid, buf, 110, 112);
        uuid.push('-');
        push_hex(&mut uuid, buf, 112, 114);
        uuid.push('-');
        push_hex(&mut uuid, buf, 114, 120);
        proof {
            let b = buf@.subrange(104, 120);
            assert(b.subrange(0, 4) =~= buf@.subrange(104, 108));
            assert(b.subrange(4, 6) =~= buf@.subrange(108, 110));
            assert(b.subrange(6, 8) =~= buf@.subrange(110, 112));
            assert(b.subrange(8, 10) =~= buf@.subrange(112, 114));
            assert(b.subrange(10, 16) =~= buf@.subrange(114, 120));
            assert(uuid@ =~= uuid_text(b));
        }
        Superblock { block_size, block_count, uuid }
    }
}

fn power_of_two(exponent: u32) -> (r: u32)
    requires
        exponent <= MAX_LOG_BLOCK_SIZE,
    ensures
        r == pow2(exponent as nat),
{
    proof {
        lemma2_to64();
    }
    match exponent {
        0 => 1,
        1 => 2,
        2 => 4,
        3 => 8,
        4 => 16,
        5 => 32,
        _ => 64,
    }
}

/// A number whose bytes lie at `at`, the lowest first, is the one read there.
pub proof fn lemma_le32_reads_back(buf: Seq<u8>, at: int, n: u32)
    requires
        0 <= at,
        at + 4 <= buf.len(),
        buf[at] == n as int % 256,
        buf[at + 1] == n as int / 256 % 256,
        buf[at + 2] == n as int / 65536 % 256,
        buf[at + 3] == n as int / 16777216,
    ensures
        le32(buf, at) == n,
{
}

/// The block count is the number at byte 4, its low half, joined by the number
/// at byte 336, its high half, exactly where the bit of 64 is set in byte 96.
pub proof fn lemma_block_count_halves(buf: Seq<u8>, low: u32, high: u32)
    requires
        buf.len() == 1024,
        buf[4] == low as int % 256,
        buf[5] == low as int / 256 % 256,
        buf[6] == low as int / 65536 % 256,
        buf[7] == low as int / 16777216,
        buf[336] == high as int % 256,
        buf[337] == high as int / 256 % 256,
        buf[338] == high as int / 65536 % 256,
        buf[339] == high as int / 16777216,
    ensures
        superblock_of(buf).block_count == if buf[96] & 64 != 0 {
            low + high * 4294967296
        } else {
            low as int
        },
{
    let flags: u8 = buf[96];
    assert((flags & 64 != 0) == (flags / 64 % 2 == 1)) by (bit_vector);
    lemma_le32_reads_back(buf, 4, low);
    lemma_le32_reads_back(buf, 336, high);
}

/// The block size is one, doubled as often as the number at byte 24 says, and
/// that may be at most six times.
pub proof fn lemma_block_sizes(buf: Seq<u8>, doublings: u32)
    requires
        buf.len() == 1024,
        buf[24] == doublings as int % 256,
        buf[25] == doublings as int / 256 % 256,
        buf[26] == doublings as int / 65536 % 256,
        buf[27] == doublings as int / 16777216,
    ensures
        is_parsable(buf) <==> doublings <= 6,
        doublings <= 6 ==> superblock_of(buf).block_size == seq![
            1nat,
            2,
            4,
            8,
            16,
            32,
            64,
        ][doublings as int],
{
    lemma_le32_reads_back(buf, 24, doublings);
    lemma2_to64();
}

/// The UUID is written byte by byte from byte 104 on, two digits each, with a
/// dash in front of the fifth, seventh, ninth and eleventh byte.
pub proof fn lemma_uuid_digits(buf: Seq<u8>, i: int)
    requires
        buf.len() == 1024,
        0 <= i < 16,
    ensures
        ({
            let sixteen = seq![
                '0', '1', '2', '3', '4', '5', '6', '7', '8', '9', 'a', 'b', 'c', 'd', 'e', 'f',
            ];
            let at = 2 * i + if i < 4 {
                0int
            } else if i < 6 {
                1
            } else if i < 8 {
                2
            } else if i < 10 {
                3
            } else {
                4
            };
            let text = superblock_of(buf).uuid;
            &&& text.len() == 36
            &&& text[8] == '-' && text[13] == '-' && text[18] == '-' && text[23] == '-'
            &&& exists|high: int, low: int|
                {
                    &&& 0 <= high < 16
                    &&& 0 <= low < 16
                    &&& buf[104 + i] == 16 * high + low
                    &&& text[at] == #[trigger] sixteen[high]
                    &&& text[at + 1] == #[trigger] sixteen[low]
                }
        }),
{
    let b = buf.subrange(104, 120);
    lemma_uuid_shape(b);
    if i < 4 {
        lemma_hex_digits(b.subrange(0, 4), i);
    } else if i < 6 {
        lemma_hex_digits(b.subrange(4, 6), i - 4);
    } else if i < 8 {
        lemma_hex_digits(b.subrange(6, 8), i - 6);
    } else if i < 10 {
        lemma_hex_digits(b.subrange(8, 10), i - 8);
    } else {
        lemma_hex_digits(b.subrange(10, 16), i - 10);
    }
}

/// Nothing else in a superblock matters: superblocks that agree on the bytes of
/// one value agree on that value.
pub proof fn lemma_superblock_bytes(a: Seq<u8>, b: Seq<u8>)
    requires
        a.len() == 1024,
        b.len() == 1024,
    ensures
        (forall|i: int| 24 <= i < 28 ==> #[trigger] a[i] == b[i]) ==> {
            &&& is_parsable(a) == is_parsable(b)
            &&& superblock_of(a).block_size == superblock_of(b).block_size
        },
        (forall|i: int| 4 <= i < 8 || i == 96 || 336 <= i < 340 ==> #[trigger] a[i] == b[i])
            ==> superblock_of(a).block_count == superblock_of(b).block_count,
        (forall|i: int| 104 <= i < 120 ==> #[trigger] a[i] == b[i]) ==> superblock_of(a).uuid
            == superblock_of(b).uuid,
{
    if forall|i: int| 104 <= i < 120 ==> #[trigger] a[i] == b[i] {
        assert(a.subrange(104, 120) =~= b.subrange(104, 120));
    }
}

/// A call reads what the bytes say, and may be made on any superblock whose
/// block size is in range.
pub proof fn lemma_parse_call(buf: &[u8], r: Superblock)
    ensures
        buf@.len() == 1024 && buf@[24] <= 6 && buf@[25] == 0 && buf@[26] == 0 && buf@[27] == 0
            ==> call_requires(Superblock::parse, (buf,)),
        call_ensures(Superblock::parse, (buf,), r) ==> {
            &&& r.block_size == superblock_of(buf@).block_size
            &&& r.block_count == superblock_of(buf@).block_count
            &&& r.uuid@ == superblock_of(buf@).uuid
        },
{
}

/// The block size lies between 1 and 64.
pub proof fn lemma_block_size_range(buf: Seq<u8>)
    requires
        is_parsable(buf),
    ensures
        1 <= superblock_of(buf).block_size <= 64,
{
    lemma2_to64();
    if log_block_size(buf) < 6 {
        lemma_pow2_strictly_increases(log_block_size(buf), 6);
    }
    vstd::arithmetic::power2::lemma_pow2_pos(log_block_size(buf));
}

/// Without the high half, the block count fits in 32 bits; with it, in 64.
pub proof fn lemma_block_count_range(buf: Seq<u8>)
    ensures
        !has_64bit(buf) ==> superblock_of(buf).block_count <= u32::MAX,
        superblock_of(buf).block_count <= u64::MAX,
{
}

/// The text of a UUID has 36 characters, with dashes between its groups.
pub proof fn lemma_uuid_shape(bytes: Seq<u8>)
    requires
        bytes.len() == 16,
    ensures
        uuid_text(bytes).len() == 36,
        uuid_text(bytes)[8] == '-',
        uuid_text(bytes)[13] == '-',
        uuid_text(bytes)[18] == '-',
        uuid_text(bytes)[23] == '-',
{
}

/// Different UUIDs have different texts.
pub proof fn lemma_uuid_injective(a: Seq<u8>, b: Seq<u8>)
    requires
        a.len() == 16,
        b.len() == 16,
        uuid_text(a) == uuid_text(b),
    ensures
        a == b,
{
    lemma_uuid_group(a, b, 0, 4, 0);
    lemma_uuid_group(a, b, 4, 6, 9);
    lemma_uuid_group(a, b, 6, 8, 14);
    lemma_uuid_group(a, b, 8, 10, 19);
    lemma_uuid_group(a, b, 10, 16, 24);
    assert forall|i: int| 0 <= i < 16 implies a[i] == b[i] by {
        if i < 4 {
            assert(a.subrange(0, 4)[i] == b.subrange(0, 4)[i]);
        } else if i < 6 {
            assert(a.subrange(4, 6)[i - 4] == b.subrange(4, 6)[i - 4]);
        } else if i < 8 {
            assert(a.subrange(6, 8)[i - 6] == b.subrange(6, 8)[i - 6]);
        } else if i < 10 {
            assert(a.subrange(8, 10)[i - 8] == b.subrange(8, 10)[i - 8]);
        } else {
            assert(a.subrange(10, 16)[i - 10] == b.subrange(10, 16)[i - 10]);
        }
    }
    assert(a =~= b);
}

/// Equal texts agree on the group of bytes `lo..hi`, which begins at `at`.
proof fn lemma_uuid_group(a: Seq<u8>, b: Seq<u8>, lo: int, hi: int, at: int)
    requires
        a.len() == 16,
        b.len() == 16,
        uuid_text(a) == uuid_text(b),
        (lo == 0 && hi == 4 && at == 0) || (lo == 4 && hi == 6 && at == 9) || (lo == 6 && hi == 8
            && at == 14) || (lo == 8 && hi == 10 && at == 19) || (lo == 10 && hi == 16 && at == 24),
    ensures
        a.subrange(lo, hi) == b.subrange(lo, hi),
{
    let n = 2 * (hi - lo);
    assert(uuid_text(a).subrange(at, at + n) =~= hex(a.subrange(lo, hi)));
    assert(uuid_text(b).subrange(at, at + n) =~= hex(b.subrange(lo, hi)));
    crate::text::lemma_hex_injective(a.subrange(lo, hi), b.subrange(lo, hi));
}

} // verus!
