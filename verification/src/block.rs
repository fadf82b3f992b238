//! The block state: one chunk column, the same for every player, which is
//! reported to a connection on request.

use crate::binary64::two_to;
use crate::field::{FieldValue, LIGHT_BYTES, SectionView};
use crate::messenger::SendPacketMessage;
use crate::packet::{BIOME_COUNT, ChunkData, ChunkSection, Packet, PacketKind, PacketView};
use crate::wire::{to_signed, to_unsigned};
use vstd::arithmetic::power2::{lemma2_to64, lemma_pow2_strictly_increases, lemma_pow2_unfold, pow2};
use vstd::prelude::*;

verus! {

/// The number of blocks in a chunk section.
pub const SECTION_BLOCKS: usize = 4096;

/// The number of bits that a block id takes in the data array.
pub const BITS_PER_BLOCK: u8 = 14;

/// The number of 64-bit words that hold the ids of a chunk section.
pub const SECTION_WORDS: usize = 896;

/// The biome of every column.
pub const BIOME: i32 = 127;

/// The light of every block: two blocks to a byte, each fully lit.
pub const FULL_LIGHT: u8 = 0xff;

/// The number of bytes after the size field of the chunk column that is
/// reported: the section and the biomes.
pub const PILLAR_SIZE: i32 = 12291;

/// The operations of the block state's mailbox.
#[derive(Debug, Clone, Copy, PartialEq, Eq)]
pub enum BlockStateOperations {
    Report(ReportMessage),
}

/// Asks for the block state to be reported to a connection.
#[derive(Debug, Clone, Copy, PartialEq, Eq)]
pub struct ReportMessage {
    pub conn_id: u128,
}

/// The id of the block at index `i` of a section: a border around each
/// layer of 16 by 16 blocks, and inside it two ids in turn, like the
/// squares of a chessboard.
pub open spec fn dummy_block_id(i: int) -> i32 {
    let x = (i % 256) % 16;
    let z = (i % 256) / 16;
    if x == 0 || x == 15 || z == 0 || z == 15 {
        180
    } else if (x + z) % 2 == 0 {
        97
    } else {
        103
    }
}

/// Fills the list of block ids up to the size of a section. The ids that
/// are there stay; a list that is full or longer stays as it is.
pub fn fill_dummy_block_ids(ids: &mut Vec<i32>)
    ensures
        final(ids)@.len() == (if old(ids)@.len() < SECTION_BLOCKS {
            SECTION_BLOCKS as nat
        } else {
            old(ids)@.len()
        }),
        forall|i: int| 0 <= i < old(ids)@.len() ==> final(ids)@[i] == old(ids)@[i],
        forall|i: int|
            old(ids)@.len() <= i < final(ids)@.len() ==> final(ids)@[i] == dummy_block_id(i),
{
    while ids.len() < SECTION_BLOCKS
        invariant
            old(ids)@.len() <= ids@.len(),
            ids@.len() <= SECTION_BLOCKS || ids@.len() == old(ids)@.len(),
            forall|i: int| 0 <= i < old(ids)@.len() ==> ids@[i] == old(ids)@[i],
            forall|i: int| old(ids)@.len() <= i < ids@.len() ==> ids@[i] == dummy_block_id(i),
        decreases SECTION_BLOCKS - ids@.len(),
    {
        let xz_pos: usize = ids.len() % 256;
        let z_pos: usize = xz_pos / 16;
        let x_pos: usize = xz_pos % 16;
        if x_pos == 0 || x_pos == 15 || z_pos == 0 || z_pos == 15 {
            ids.push(180);
        } else if (x_pos + z_pos) % 2 == 0 {
            ids.push(97);
        } else {
            ids.push(103);
        }
    }
}

/// Bit `n` of the stream of block ids: the ids one after the other, each
/// with `bits_per_block` bits, least significant bit first. Past the last
/// id the stream is 0.
pub open spec fn stream_bit(ids: Seq<i32>, bits_per_block: nat, n: int) -> nat {
    if bits_per_block > 0 && 0 <= n < ids.len() * bits_per_block {
        (to_unsigned(ids[n / bits_per_block as int] as int, 0x1_0000_0000) / pow2(
            (n % bits_per_block as int) as nat,
        )) % 2
    } else {
        0
    }
}

/// The low `bits` bits of word `w` of the stream: bit `b` of the word is
/// bit `64 * w + b` of the stream.
pub open spec fn packed_bits(ids: Seq<i32>, bits_per_block: nat, w: int, bits: nat) -> nat
    decreases bits,
{
    if bits == 0 {
        0
    } else {
        packed_bits(ids, bits_per_block, w, (bits - 1) as nat) + stream_bit(
            ids,
            bits_per_block,
            64 * w + bits - 1,
        ) * pow2((bits - 1) as nat)
    }
}

/// Word `w` of the stream, as the data array holds it.
pub open spec fn packed_word(ids: Seq<i32>, bits_per_block: nat, w: int) -> i64 {
    to_signed(packed_bits(ids, bits_per_block, w, 64), 0x1_0000_0000_0000_0000) as i64
}

proof fn lemma_packed_bits_bound(ids: Seq<i32>, bits_per_block: nat, w: int, bits: nat)
    ensures
        packed_bits(ids, bits_per_block, w, bits) < pow2(bits),
    decreases bits,
{
    lemma2_to64();
    if bits > 0 {
        lemma_packed_bits_bound(ids, bits_per_block, w, (bits - 1) as nat);
        lemma_pow2_unfold(bits);
        let bit = stream_bit(ids, bits_per_block, 64 * w + bits - 1);
        let weight = pow2((bits - 1) as nat);
        assert(bit * weight <= weight) by (nonlinear_arith)
            requires
                bit <= 1,
        ;
    }
}

/// Packs block ids into `words` 64-bit words, each id with
/// `bits_per_block` bits.
pub fn pack_block_ids(ids: &Vec<i32>, bits_per_block: u8, words: usize) -> (data: Vec<i64>)
    requires
        0 < bits_per_block <= 32,
        ids@.len() * bits_per_block <= usize::MAX,
        words * 64 <= usize::MAX,
    ensures
        data@.len() == words,
        forall|w: int|
            0 <= w < words ==> data@[w] == packed_word(ids@, bits_per_block as nat, w),
{
    let mut data: Vec<i64> = Vec::new();
    let total: usize = ids.len() * (bits_per_block as usize);
    let mut w: usize = 0;
    while w < words
        invariant
            w <= words,
            words * 64 <= usize::MAX,
            0 < bits_per_block <= 32,
            total == ids@.len() * bits_per_block,
            data@.len() == w,
            forall|v: int| 0 <= v < w ==> data@[v] == packed_word(ids@, bits_per_block as nat, v),
        decreases words - w,
    {
        let mut word: u64 = 0;
        let mut b: u32 = 0;
        while b < 64
            invariant
                b <= 64,
                w < words,
                words * 64 <= usize::MAX,
                0 < bits_per_block <= 32,
                total == ids@.len() * bits_per_block,
                word == packed_bits(ids@, bits_per_block as nat, w as int, b as nat),
            decreases 64 - b,
        {
            let n: usize = w * 64 + b as usize;
            let mut bit: u64 = 0;
            if n < total {
                let at: usize = n / (bits_per_block as usize);
                let shift: u32 = (n % (bits_per_block as usize)) as u32;
                assert(at < ids@.len()) by (nonlinear_arith)
                    requires
                        n < ids@.len() * bits_per_block,
                        at == (n as int) / (bits_per_block as int),
                        bits_per_block > 0,
                ;
                let id: i32 = ids[at];
                let pattern: u128 = if id >= 0 {
                    id as u128
                } else {
                    (id as i64 + 0x1_0000_0000) as u128
                };
                bit = ((pattern / two_to(shift)) % 2) as u64;
            }
            proof {
                lemma_packed_bits_bound(ids@, bits_per_block as nat, w as int, b as nat);
                lemma_pow2_unfold((b + 1) as nat);
                lemma2_to64();
                if b < 63 {
                    lemma_pow2_strictly_increases((b + 1) as nat, 64);
                }
                let weight = pow2(b as nat);
                assert(bit * weight <= weight) by (nonlinear_arith)
                    requires
                        bit <= 1,
                ;
            }
            let weight: u64 = two_to(b) as u64;
            word = word + bit * weight;
            b = b + 1;
        }
        let signed: i64 = if word < 0x8000_0000_0000_0000 {
            word as i64
        } else {
            (word as i128 - 0x1_0000_0000_0000_0000) as i64
        };
        data.push(signed);
        w = w + 1;
    }
    data
}

/// The chunk column that is reported, as a mathematical value.
pub open spec fn pillar() -> PacketView {
    let ids = Seq::new(SECTION_BLOCKS as nat, |i: int| dummy_block_id(i));
    PacketView {
        kind: PacketKind::ChunkData,
        fields: Seq::empty().push(FieldValue::Int(0)).push(FieldValue::Int(0)).push(
            FieldValue::Boolean(true),
        ).push(FieldValue::VarInt(1)).push(FieldValue::VarInt(PILLAR_SIZE)).push(
            FieldValue::Section(
                SectionView {
                    bits_per_block: BITS_PER_BLOCK,
                    data_array: Seq::new(
                        SECTION_WORDS as nat,
                        |w: int| packed_word(ids, BITS_PER_BLOCK as nat, w),
                    ),
                    block_light: Seq::new(LIGHT_BYTES as nat, |i: int| FULL_LIGHT),
                    sky_light: Seq::new(LIGHT_BYTES as nat, |i: int| FULL_LIGHT),
                },
            ),
        ).push(FieldValue::IntArray(Seq::new(BIOME_COUNT as nat, |i: int| BIOME))).push(
            FieldValue::VarInt(0),
        ),
    }
}

/// A list of `count` items, each `value`.
fn repeated_byte(value: u8, count: usize) -> (list: Vec<u8>)
    ensures
        list@ == Seq::new(count as nat, |i: int| value),
{
    let mut list: Vec<u8> = Vec::new();
    while list.len() < count
        invariant
            list@.len() <= count,
            forall|i: int| 0 <= i < list@.len() ==> list@[i] == value,
        decreases count - list@.len(),
    {
        list.push(value);
    }
    assert(list@ =~= Seq::new(count as nat, |i: int| value));
    list
}

/// A list of `count` items, each `value`.
fn repeated_int(value: i32, count: usize) -> (list: Vec<i32>)
    ensures
        list@ == Seq::new(count as nat, |i: int| value),
{
    let mut list: Vec<i32> = Vec::new();
    while list.len() < count
        invariant
            list@.len() <= count,
            forall|i: int| 0 <= i < list@.len() ==> list@[i] == value,
        decreases count - list@.len(),
    {
        list.push(value);
    }
    assert(list@ =~= Seq::new(count as nat, |i: int| value));
    list
}

/// Reports the block state: the chunk column, to be sent to the
/// connection that asked.
pub fn report(msg: ReportMessage) -> (send: SendPacketMessage)
    ensures
        send.conn_id == msg.conn_id,
        send.packet@ == pillar(),
{
    let mut block_ids: Vec<i32> = Vec::new();
    fill_dummy_block_ids(&mut block_ids);
    assert(block_ids@ =~= Seq::new(SECTION_BLOCKS as nat, |i: int| dummy_block_id(i)));
    let data_array = pack_block_ids(&block_ids, BITS_PER_BLOCK, SECTION_WORDS);
    assert(data_array@ =~= Seq::new(
        SECTION_WORDS as nat,
        |w: int| packed_word(block_ids@, BITS_PER_BLOCK as nat, w),
    ));
    let packet = Packet::ChunkData(
        ChunkData {
            chunk_x: 0,
            chunk_z: 0,
            full_chunk: true,
            primary_bit_mask: 1,
            size: PILLAR_SIZE,
            data: ChunkSection {
                bits_per_block: BITS_PER_BLOCK,
                data_array,
                block_light: repeated_byte(FULL_LIGHT, LIGHT_BYTES),
                sky_light: repeated_byte(FULL_LIGHT, LIGHT_BYTES),
            },
            biomes: repeated_int(BIOME, BIOME_COUNT),
            number_of_block_entities: 0,
        },
    );
    SendPacketMessage { conn_id: msg.conn_id, packet }
}

} // verus!
