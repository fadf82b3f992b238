//! Fields of a packet: the wire types of the catalogue, the values that
//! they carry, and how an ordered list of fields is written and read.

use crate::wire::{
    DecodeError,
    MAX_LENGTH,
    Parsed,
    encode_counted,
    encode_repeat,
    int_reader,
    int_writer,
    lemma_be_len,
    lemma_bool_window,
    lemma_counted_window,
    lemma_i16_window,
    lemma_i32_window,
    lemma_i64_window,
    lemma_i8_window,
    lemma_int_item,
    lemma_long_item,
    lemma_pow256_values,
    lemma_repeat_window,
    lemma_string_window,
    lemma_u128_window,
    lemma_u16_window,
    lemma_u32_window,
    lemma_u64_window,
    lemma_u8_window,
    lemma_varint_item,
    lemma_varint_window,
    long_reader,
    long_writer,
    parse_bool,
    parse_bytes,
    parse_counted,
    parse_i16,
    parse_i32,
    parse_i64,
    parse_i8,
    parse_repeat,
    parse_string,
    parse_u128,
    parse_u16,
    parse_u32,
    parse_u64,
    parse_u8,
    parse_varint,
    reads_back,
    spec_bool,
    spec_i16,
    spec_i32,
    spec_i64,
    spec_i8,
    spec_string,
    spec_u128,
    spec_u16,
    spec_u32,
    spec_u64,
    spec_u8,
    spec_varint,
    to_unsigned,
    varint_reader,
    varint_writer,
};
use vstd::prelude::*;
use vstd::utf8::*;

verus! {

/// The number of bytes in each light array of a chunk section.
pub const LIGHT_BYTES: usize = 2048;

/// How a field is laid out on the wire.
#[derive(Debug, Clone, Copy, PartialEq, Eq, Structural)]
pub enum WireType {
    VarInt,
    UShort,
    Short,
    Int,
    Long,
    UByte,
    Byte,
    Boolean,
    /// Four bytes: the bits of a binary32 number.
    Float,
    /// Eight bytes: the bits of a binary64 number.
    Double,
    /// Sixteen bytes.
    Uuid,
    /// A VarInt count of bytes, then that many bytes of UTF-8.
    Text,
    /// That many big-endian 32-bit integers, without a count.
    IntArray(usize),
    /// A VarInt count, then that many VarInts.
    VarIntArray,
    /// One section of a chunk column.
    Section,
}

/// What a field means to the translation between shard frames.
#[derive(Debug, Clone, Copy, PartialEq, Eq, Structural)]
pub enum Role {
    /// The field passes through every translation unchanged.
    Plain,
    /// An X coordinate of an entity, in world units.
    EntityX,
    /// An X coordinate of a chunk, in chunks.
    ChunkX,
    /// The id of an entity, or a list of such ids.
    EntityId,
}

/// One section of a chunk column, as a mathematical value.
pub struct SectionView {
    pub bits_per_block: u8,
    pub data_array: Seq<i64>,
    pub block_light: Seq<u8>,
    pub sky_light: Seq<u8>,
}

/// The value of one field, as a mathematical value.
pub enum FieldValue {
    VarInt(i32),
    UShort(u16),
    Short(i16),
    Int(i32),
    Long(i64),
    UByte(u8),
    Byte(i8),
    Boolean(bool),
    Float(u32),
    Double(u64),
    Uuid(u128),
    Text(Seq<char>),
    IntArray(Seq<i32>),
    VarIntArray(Seq<i32>),
    Section(SectionView),
}

/// The wire form of a chunk section: the bits per block, the counted data
/// array, then the two light arrays.
pub open spec fn encode_section(v: SectionView) -> Seq<u8> {
    spec_u8(v.bits_per_block) + encode_counted(long_writer(), v.data_array) + v.block_light
        + v.sky_light
}

/// Reads a chunk section at `pos`.
pub open spec fn parse_section(s: Seq<u8>, pos: int) -> Parsed<SectionView> {
    match parse_u8(s, pos) {
        Err(e) => Err(e),
        Ok((bits_per_block, at1)) => match parse_counted(long_reader(), s, at1) {
            Err(e) => Err(e),
            Ok((data_array, at2)) => match parse_bytes(s, at2, LIGHT_BYTES as nat) {
                Err(e) => Err(e),
                Ok((block_light, at3)) => match parse_bytes(s, at3, LIGHT_BYTES as nat) {
                    Err(e) => Err(e),
                    Ok((sky_light, at4)) => Ok(
                        (SectionView { bits_per_block, data_array, block_light, sky_light }, at4),
                    ),
                },
            },
        },
    }
}

/// The wire form of one field.
pub open spec fn encode_value(v: FieldValue) -> Seq<u8> {
    match v {
        FieldValue::VarInt(x) => spec_varint(x),
        FieldValue::UShort(x) => spec_u16(x),
        FieldValue::Short(x) => spec_i16(x),
        FieldValue::Int(x) => spec_i32(x),
        FieldValue::Long(x) => spec_i64(x),
        FieldValue::UByte(x) => spec_u8(x),
        FieldValue::Byte(x) => spec_i8(x),
        FieldValue::Boolean(x) => spec_bool(x),
        FieldValue::Float(x) => spec_u32(x),
        FieldValue::Double(x) => spec_u64(x),
        FieldValue::Uuid(x) => spec_u128(x),
        FieldValue::Text(x) => spec_string(x),
        FieldValue::IntArray(x) => encode_repeat(int_writer(), x),
        FieldValue::VarIntArray(x) => encode_counted(varint_writer(), x),
        FieldValue::Section(x) => encode_section(x),
    }
}

/// Puts a parsed value under its variant.
pub open spec fn tagged<T>(p: Parsed<T>, tag: spec_fn(T) -> FieldValue) -> Parsed<FieldValue> {
    match p {
        Err(e) => Err(e),
        Ok((v, next)) => Ok((tag(v), next)),
    }
}

/// Reads one field of wire type `t` at `pos`.
pub open spec fn parse_value(t: WireType, s: Seq<u8>, pos: int) -> Parsed<FieldValue> {
    match t {
        WireType::VarInt => tagged(parse_varint(s, pos), |x: i32| FieldValue::VarInt(x)),
        WireType::UShort => tagged(parse_u16(s, pos), |x: u16| FieldValue::UShort(x)),
        WireType::Short => tagged(parse_i16(s, pos), |x: i16| FieldValue::Short(x)),
        WireType::Int => tagged(parse_i32(s, pos), |x: i32| FieldValue::Int(x)),
        WireType::Long => tagged(parse_i64(s, pos), |x: i64| FieldValue::Long(x)),
        WireType::UByte => tagged(parse_u8(s, pos), |x: u8| FieldValue::UByte(x)),
        WireType::Byte => tagged(parse_i8(s, pos), |x: i8| FieldValue::Byte(x)),
        WireType::Boolean => tagged(parse_bool(s, pos), |x: bool| FieldValue::Boolean(x)),
        WireType::Float => tagged(parse_u32(s, pos), |x: u32| FieldValue::Float(x)),
        WireType::Double => tagged(parse_u64(s, pos), |x: u64| FieldValue::Double(x)),
        WireType::Uuid => tagged(parse_u128(s, pos), |x: u128| FieldValue::Uuid(x)),
        WireType::Text => tagged(parse_string(s, pos), |x: Seq<char>| FieldValue::Text(x)),
        WireType::IntArray(n) => tagged(
            parse_repeat(int_reader(), s, pos, n as nat, Seq::empty()),
            |x: Seq<i32>| FieldValue::IntArray(x),
        ),
        WireType::VarIntArray => tagged(
            parse_counted(varint_reader(), s, pos),
            |x: Seq<i32>| FieldValue::VarIntArray(x),
        ),
        WireType::Section => tagged(
            parse_section(s, pos),
            |x: SectionView| FieldValue::Section(x),
        ),
    }
}

/// A chunk section that can be written: its data array has a count that a
/// length prefix can hold, and each light array has its fixed size.
pub open spec fn section_fits(v: SectionView) -> bool {
    &&& v.data_array.len() <= MAX_LENGTH
    &&& v.block_light.len() == LIGHT_BYTES
    &&& v.sky_light.len() == LIGHT_BYTES
}

/// The value `v` is of wire type `t` and can be written in it.
pub open spec fn conforms(v: FieldValue, t: WireType) -> bool {
    match (v, t) {
        (FieldValue::VarInt(_), WireType::VarInt) => true,
        (FieldValue::UShort(_), WireType::UShort) => true,
        (FieldValue::Short(_), WireType::Short) => true,
        (FieldValue::Int(_), WireType::Int) => true,
        (FieldValue::Long(_), WireType::Long) => true,
        (FieldValue::UByte(_), WireType::UByte) => true,
        (FieldValue::Byte(_), WireType::Byte) => true,
        (FieldValue::Boolean(_), WireType::Boolean) => true,
        (FieldValue::Float(_), WireType::Float) => true,
        (FieldValue::Double(_), WireType::Double) => true,
        (FieldValue::Uuid(_), WireType::Uuid) => true,
        (FieldValue::Text(x), WireType::Text) => encode_utf8(x).len() <= MAX_LENGTH,
        (FieldValue::IntArray(x), WireType::IntArray(n)) => x.len() == n,
        (FieldValue::VarIntArray(x), WireType::VarIntArray) => x.len() <= MAX_LENGTH,
        (FieldValue::Section(x), WireType::Section) => section_fits(x),
        _ => false,
    }
}

/// The wire forms of `fields`, one after the other.
pub open spec fn encode_fields(fields: Seq<FieldValue>) -> Seq<u8>
    decreases fields.len(),
{
    if fields.len() == 0 {
        Seq::empty()
    } else {
        encode_fields(fields.drop_last()) + encode_value(fields.last())
    }
}

/// Reads the fields that `layout` lists, in order, `acc` holding those read
/// before.
#[verifier::opaque]
pub open spec fn parse_fields(layout: Seq<WireType>, s: Seq<u8>, pos: int, acc: Seq<FieldValue>)
    -> Parsed<Seq<FieldValue>>
    decreases layout.len() - acc.len(),
{
    if acc.len() >= layout.len() {
        Ok((acc, pos))
    } else {
        match parse_value(layout[acc.len() as int], s, pos) {
            Err(e) => Err(e),
            Ok((v, next)) => parse_fields(layout, s, next, acc.push(v)),
        }
    }
}

/// Every field is of the wire type that `layout` gives it, and can be
/// written in it.
pub open spec fn conforms_all(fields: Seq<FieldValue>, layout: Seq<WireType>) -> bool {
    &&& fields.len() == layout.len()
    &&& forall|i: int| 0 <= i < fields.len() ==> conforms(#[trigger] fields[i], layout[i])
}

/// Where `first + second` stands in `s`, `first` and `second` stand too.
pub proof fn lemma_window_split(s: Seq<u8>, pos: int, first: Seq<u8>, second: Seq<u8>)
    requires
        0 <= pos,
        pos + first.len() + second.len() <= s.len(),
        s.subrange(pos, pos + first.len() + second.len()) == first + second,
    ensures
        s.subrange(pos, pos + first.len()) == first,
        s.subrange(pos + first.len(), pos + first.len() + second.len()) == second,
{
    let whole = first + second;
    assert(s.subrange(pos, pos + first.len()) =~= first) by {
        assert forall|k: int| 0 <= k < first.len() implies s[pos + k] == first[k] by {
            assert(s[pos + k] == s.subrange(pos, pos + whole.len())[k]);
        }
    }
    assert(s.subrange(pos + first.len(), pos + first.len() + second.len()) =~= second) by {
        assert forall|k: int| 0 <= k < second.len() implies s[pos + first.len() + k]
            == second[k] by {
            assert(s[pos + first.len() + k] == s.subrange(pos, pos + whole.len())[first.len()
                + k]);
        }
    }
}

/// A chunk section that was written is read back, wherever it stands.
pub proof fn lemma_section_window(s: Seq<u8>, pos: int, v: SectionView)
    requires
        0 <= pos,
        section_fits(v),
        pos + encode_section(v).len() <= s.len(),
        s.subrange(pos, pos + encode_section(v).len()) == encode_section(v),
    ensures
        parse_section(s, pos) == Ok::<(SectionView, int), DecodeError>(
            (v, pos + encode_section(v).len()),
        ),
{
    let a = spec_u8(v.bits_per_block);
    let b = encode_counted(long_writer(), v.data_array);
    let c = v.block_light;
    let d = v.sky_light;
    lemma_be_len(v.bits_per_block as nat, 1);
    lemma_window_split(s, pos, a + b + c, d);
    lemma_window_split(s, pos, a + b, c);
    lemma_window_split(s, pos, a, b);
    lemma_u8_window(s, pos, v.bits_per_block);
    assert forall|k: int| 0 <= k < v.data_array.len() implies reads_back(
        long_reader(),
        long_writer(),
        #[trigger] v.data_array[k],
    ) by {
        lemma_long_item(v.data_array[k]);
    }
    lemma_counted_window(long_reader(), long_writer(), s, pos + 1, v.data_array);
}

/// A field that was written is read back, wherever it stands.
pub proof fn lemma_value_window(s: Seq<u8>, pos: int, v: FieldValue, t: WireType)
    requires
        0 <= pos,
        conforms(v, t),
        pos + encode_value(v).len() <= s.len(),
        s.subrange(pos, pos + encode_value(v).len()) == encode_value(v),
    ensures
        parse_value(t, s, pos) == Ok::<(FieldValue, int), DecodeError>(
            (v, pos + encode_value(v).len()),
        ),
{
    lemma_pow256_values();
    match v {
        FieldValue::VarInt(x) => {
            lemma_varint_window(s, pos, x);
        },
        FieldValue::UShort(x) => {
            lemma_be_len(x as nat, 2);
            lemma_u16_window(s, pos, x);
        },
        FieldValue::Short(x) => {
            lemma_be_len(to_unsigned(x as int, 0x1_0000), 2);
            lemma_i16_window(s, pos, x);
        },
        FieldValue::Int(x) => {
            lemma_be_len(to_unsigned(x as int, 0x1_0000_0000), 4);
            lemma_i32_window(s, pos, x);
        },
        FieldValue::Long(x) => {
            lemma_be_len(to_unsigned(x as int, 0x1_0000_0000_0000_0000), 8);
            lemma_i64_window(s, pos, x);
        },
        FieldValue::UByte(x) => {
            lemma_be_len(x as nat, 1);
            lemma_u8_window(s, pos, x);
        },
        FieldValue::Byte(x) => {
            lemma_be_len(to_unsigned(x as int, 0x100), 1);
            lemma_i8_window(s, pos, x);
        },
        FieldValue::Boolean(x) => {
            lemma_be_len(if x { 1 } else { 0 }, 1);
            lemma_bool_window(s, pos, x);
        },
        FieldValue::Float(x) => {
            lemma_be_len(x as nat, 4);
            lemma_u32_window(s, pos, x);
        },
        FieldValue::Double(x) => {
            lemma_be_len(x as nat, 8);
            lemma_u64_window(s, pos, x);
        },
        FieldValue::Uuid(x) => {
            lemma_be_len(x as nat, 16);
            lemma_u128_window(s, pos, x);
        },
        FieldValue::Text(x) => {
            lemma_string_window(s, pos, x);
        },
        FieldValue::IntArray(x) => {
            assert forall|k: int| 0 <= k < x.len() implies reads_back(
                int_reader(),
                int_writer(),
                #[trigger] x[k],
            ) by {
                lemma_int_item(x[k]);
            }
            lemma_repeat_window(int_reader(), int_writer(), s, pos, x);
        },
        FieldValue::VarIntArray(x) => {
            assert forall|k: int| 0 <= k < x.len() implies reads_back(
                varint_reader(),
                varint_writer(),
                #[trigger] x[k],
            ) by {
                lemma_varint_item(x[k]);
            }
            lemma_counted_window(varint_reader(), varint_writer(), s, pos, x);
        },
        FieldValue::Section(x) => {
            lemma_section_window(s, pos, x);
        },
    }
}

/// Reading the fields of a layout goes on with the field after `acc`, and
/// ends where that field cannot be read or the layout has no more fields.
pub proof fn lemma_parse_fields_step(
    layout: Seq<WireType>,
    s: Seq<u8>,
    pos: int,
    acc: Seq<FieldValue>,
)
    ensures
        acc.len() >= layout.len() ==> parse_fields(layout, s, pos, acc) == Ok::<
            (Seq<FieldValue>, int),
            DecodeError,
        >((acc, pos)),
        acc.len() < layout.len() ==> match parse_value(layout[acc.len() as int], s, pos) {
            Err(e) => parse_fields(layout, s, pos, acc) == Err::<(Seq<FieldValue>, int), DecodeError>(
                e,
            ),
            Ok((v, next)) => parse_fields(layout, s, pos, acc) == parse_fields(
                layout,
                s,
                next,
                acc.push(v),
            ),
        },
{
    reveal(parse_fields);
}

pub proof fn lemma_encode_fields_push(fields: Seq<FieldValue>, v: FieldValue)
    ensures
        encode_fields(fields.push(v)) == encode_fields(fields) + encode_value(v),
{
    assert(fields.push(v).drop_last() =~= fields);
}

/// Where `whole` stands in `s` and begins with `done + item`, `done` is a
/// prefix of `whole` and `item` stands in `s` right after it.
proof fn lemma_next_item(s: Seq<u8>, pos: int, whole: Seq<u8>, done: Seq<u8>, item: Seq<u8>)
    requires
        0 <= pos,
        pos + whole.len() <= s.len(),
        s.subrange(pos, pos + whole.len()) == whole,
        done.len() + item.len() <= whole.len(),
        done + item == whole.take((done.len() + item.len()) as int),
    ensures
        done == whole.take(done.len() as int),
        s.subrange(pos + done.len(), pos + done.len() + item.len()) == item,
{
    let next = done + item;
    assert(done =~= whole.take(done.len() as int)) by {
        assert forall|k: int| 0 <= k < done.len() implies done[k] == whole[k] by {
            assert(next[k] == done[k]);
            assert(next[k] == whole.take(next.len() as int)[k]);
        }
    }
    let at = pos + done.len();
    assert(s.subrange(at, at + item.len()) =~= item) by {
        assert forall|k: int| 0 <= k < item.len() implies s[at + k] == #[trigger] item[k] by {
            assert(next[done.len() + k] == item[k]);
            assert(next[done.len() + k] == whole.take(next.len() as int)[done.len() + k]);
            assert(s[at + k] == s.subrange(pos, pos + whole.len())[done.len() + k]);
        }
    }
}

proof fn lemma_fields_from(
    layout: Seq<WireType>,
    s: Seq<u8>,
    pos: int,
    fields: Seq<FieldValue>,
    i: int,
)
    requires
        0 <= pos,
        0 <= i <= fields.len(),
        conforms_all(fields, layout),
        pos + encode_fields(fields).len() <= s.len(),
        s.subrange(pos, pos + encode_fields(fields).len()) == encode_fields(fields),
    ensures
        parse_fields(layout, s, pos + encode_fields(fields.take(i)).len(), fields.take(i)) == Ok::<
            (Seq<FieldValue>, int),
            DecodeError,
        >((fields, pos + encode_fields(fields).len())),
        encode_fields(fields.take(i)).len() <= encode_fields(fields).len(),
        encode_fields(fields.take(i)) == encode_fields(fields).take(
            encode_fields(fields.take(i)).len() as int,
        ),
    decreases fields.len() - i,
{
    reveal(parse_fields);
    let whole = encode_fields(fields);
    let done = encode_fields(fields.take(i));
    if i == fields.len() {
        assert(fields.take(i) =~= fields);
        assert(whole.take(whole.len() as int) =~= whole);
    } else {
        let v = fields[i];
        let item = encode_value(v);
        assert(fields.take(i + 1) =~= fields.take(i).push(v));
        lemma_encode_fields_push(fields.take(i), v);
        lemma_fields_from(layout, s, pos, fields, i + 1);
        lemma_next_item(s, pos, whole, done, item);
        assert(conforms(fields[i], layout[i]));
        lemma_value_window(s, pos + done.len(), v, layout[i]);
    }
}

/// Fields that were written one after the other are read back by the
/// layout that they conform to, wherever they stand.
pub proof fn lemma_fields_window(
    layout: Seq<WireType>,
    s: Seq<u8>,
    pos: int,
    fields: Seq<FieldValue>,
)
    requires
        0 <= pos,
        conforms_all(fields, layout),
        pos + encode_fields(fields).len() <= s.len(),
        s.subrange(pos, pos + encode_fields(fields).len()) == encode_fields(fields),
    ensures
        parse_fields(layout, s, pos, Seq::empty()) == Ok::<(Seq<FieldValue>, int), DecodeError>(
            (fields, pos + encode_fields(fields).len()),
        ),
{
    lemma_fields_from(layout, s, pos, fields, 0);
    assert(fields.take(0) =~= Seq::<FieldValue>::empty());
}

} // verus!
