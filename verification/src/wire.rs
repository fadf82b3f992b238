//! Primitive wire encodings: variable-length integers, fixed-width
//! big-endian integers, booleans, strings and arrays.
//!
//! Every encoding is given twice: as a spec function on byte sequences and
//! as an executable reader or writer proved against it. A reader takes the
//! whole input and a position, and hands back the value together with the
//! position that follows it.

use vstd::prelude::*;
use vstd::string::*;
use vstd::utf8::*;

verus! {

/// Why a frame or a field could not be read.
#[derive(Debug, Clone, Copy, PartialEq, Eq, Structural)]
pub enum DecodeError {
    /// The input ends before the value does.
    Truncated,
    /// Five bytes in a row ask for a continuation of a VarInt.
    MalformedVarInt,
    /// A length prefix is negative.
    InvalidLength,
    /// The bytes of a string are not UTF-8.
    InvalidUtf8,
}

/// What a spec-level reader yields: the value and the position after it.
pub type Parsed<T> = Result<(T, int), DecodeError>;

/// An executable reader's result `r` says the same as the spec-level `p`.
pub open spec fn same_outcome<T>(r: Result<(T, usize), DecodeError>, p: Parsed<T>) -> bool {
    match r {
        Ok((v, next)) => p == Ok::<(T, int), DecodeError>((v, next as int)),
        Err(e) => p == Err::<(T, int), DecodeError>(e),
    }
}

// ---------------------------------------------------------------------
// VarInt
// ---------------------------------------------------------------------

/// The unsigned 32-bit pattern of `v` in two's complement.
pub open spec fn unsigned_of(v: i32) -> int {
    if v >= 0 {
        v as int
    } else {
        v + 0x1_0000_0000
    }
}

/// The signed value of the 32-bit pattern `u`.
pub open spec fn signed_of(u: int) -> i32 {
    if u < 0x8000_0000 {
        u as i32
    } else {
        (u - 0x1_0000_0000) as i32
    }
}

/// The bytes of the variable-length encoding of the unsigned value `v`:
/// seven bits per byte, least significant group first, the high bit of a
/// byte set when another byte follows.
pub open spec fn varint_bytes(v: nat) -> Seq<u8>
    decreases v,
{
    if v < 128 {
        seq![v as u8]
    } else {
        seq![(v % 128 + 128) as u8] + varint_bytes(v / 128)
    }
}

/// The wire form of a VarInt.
pub open spec fn spec_varint(v: i32) -> Seq<u8> {
    varint_bytes(unsigned_of(v) as nat)
}

/// The weight of the 7-bit group at index `i`.
pub open spec fn group_weight(i: int) -> int {
    if i <= 0 {
        1
    } else if i == 1 {
        0x80
    } else if i == 2 {
        0x4000
    } else if i == 3 {
        0x20_0000
    } else {
        0x1000_0000
    }
}

/// Reads the groups of a VarInt from index `i` on, `acc` holding the groups
/// before it. Bits beyond the 32nd are dropped.
pub open spec fn parse_varint_groups(s: Seq<u8>, pos: int, i: int, acc: int) -> Parsed<i32>
    decreases 5 - i,
{
    if i >= 5 {
        Err(DecodeError::MalformedVarInt)
    } else if pos + i >= s.len() {
        Err(DecodeError::Truncated)
    } else {
        let b = s[pos + i] as int;
        let acc2 = acc + (b % 128) * group_weight(i);
        if b < 128 {
            Ok((signed_of(acc2 % 0x1_0000_0000), pos + i + 1))
        } else {
            parse_varint_groups(s, pos, i + 1, acc2)
        }
    }
}

/// Reads a VarInt at `pos`.
pub open spec fn parse_varint(s: Seq<u8>, pos: int) -> Parsed<i32> {
    parse_varint_groups(s, pos, 0, 0)
}

/// Appends the wire form of a VarInt.
pub fn put_varint(out: &mut Vec<u8>, v: i32)
    ensures
        final(out)@ == old(out)@ + spec_varint(v),
{
    let mut rest: u64 = if v >= 0 {
        v as u64
    } else {
        (v as i64 + 0x1_0000_0000) as u64
    };
    let ghost start = out@;
    while rest >= 128
        invariant
            start + spec_varint(v) == out@ + varint_bytes(rest as nat),
        decreases rest,
    {
        let low: u8 = (rest % 128 + 128) as u8;
        out.push(low);
        rest = rest / 128;
    }
    out.push(rest as u8);
}

fn exec_group_weight(i: usize) -> (w: u64)
    requires
        i < 5,
    ensures
        w == group_weight(i as int),
{
    if i == 0 {
        1
    } else if i == 1 {
        0x80
    } else if i == 2 {
        0x4000
    } else if i == 3 {
        0x20_0000
    } else {
        0x1000_0000
    }
}

/// Reads a VarInt at `pos`.
pub fn read_varint(bytes: &[u8], pos: usize) -> (r: Result<(i32, usize), DecodeError>)
    ensures
        same_outcome(r, parse_varint(bytes@, pos as int)),
        r matches Ok((_, next)) ==> pos < next <= bytes.len(),
{
    if pos >= bytes.len() {
        return Err(DecodeError::Truncated);
    }
    let mut i: usize = 0;
    let mut acc: u64 = 0;
    while i < 5
        invariant
            i <= 5,
            pos < bytes.len(),
            acc < group_weight(i as int) || (i == 5 && acc < 0x8_0000_0000),
            parse_varint(bytes@, pos as int) == parse_varint_groups(
                bytes@,
                pos as int,
                i as int,
                acc as int,
            ),
        decreases 5 - i,
    {
        if bytes.len() - pos <= i {
            return Err(DecodeError::Truncated);
        }
        let b: u8 = bytes[pos + i];
        let low: u64 = (b % 128) as u64;
        let w: u64 = exec_group_weight(i);
        assert(low * w <= 127 * w) by (nonlinear_arith)
            requires
                low <= 127,
                w >= 0,
        ;
        acc = acc + low * w;
        if b < 128 {
            let u: u64 = acc % 0x1_0000_0000;
            let v: i32 = if u < 0x8000_0000 {
                u as i32
            } else {
                (u as i64 - 0x1_0000_0000) as i32
            };
            return Ok((v, pos + i + 1));
        }
        i = i + 1;
    }
    Err(DecodeError::MalformedVarInt)
}

proof fn lemma_varint_groups(s: Seq<u8>, pos: int, i: int, acc: int, u: nat, total: int)
    requires
        0 <= i < 5,
        0 <= pos,
        0 <= total < 0x1_0000_0000,
        acc + u * group_weight(i) == total,
        0 <= acc,
        pos + i + varint_bytes(u).len() <= s.len(),
        s.subrange(pos + i, pos + i + varint_bytes(u).len()) == varint_bytes(u),
    ensures
        parse_varint_groups(s, pos, i, acc) == Ok::<(i32, int), DecodeError>(
            (signed_of(total), pos + i + varint_bytes(u).len()),
        ),
    decreases u,
{
    let enc = varint_bytes(u);
    assert(s[pos + i] == s.subrange(pos + i, pos + i + enc.len())[0]);
    if u < 128 {
        assert(enc[0] == u as u8);
    } else {
        let rest = varint_bytes(u / 128);
        assert(enc[0] == (u % 128 + 128) as u8);
        assert(u * group_weight(i) >= 128 * group_weight(i)) by (nonlinear_arith)
            requires
                u >= 128,
                group_weight(i) >= 1,
        ;
        assert(i < 4);
        let acc2 = acc + (u % 128) * group_weight(i);
        assert((u / 128) * group_weight(i + 1) + (u % 128) * group_weight(i) == u * group_weight(
            i,
        )) by (nonlinear_arith)
            requires
                group_weight(i + 1) == 128 * group_weight(i),
        ;
        assert(s.subrange(pos + i + 1, pos + i + 1 + rest.len()) =~= rest) by {
            assert forall|k: int| 0 <= k < rest.len() implies s[pos + i + 1 + k] == rest[k] by {
                assert(s[pos + i + 1 + k] == s.subrange(pos + i, pos + i + enc.len())[k + 1]);
                assert(enc[k + 1] == rest[k]);
            }
        }
        lemma_varint_groups(s, pos, i + 1, acc2, u / 128, total);
    }
}

/// A VarInt that was written is read back, whatever stands around it.
pub proof fn lemma_varint_round_trip(pre: Seq<u8>, v: i32, post: Seq<u8>)
    ensures
        parse_varint(pre + spec_varint(v) + post, pre.len() as int) == Ok::<
            (i32, int),
            DecodeError,
        >((v, (pre.len() + spec_varint(v).len()) as int)),
        1 <= spec_varint(v).len() <= 5,
{
    let enc = spec_varint(v);
    let s = pre + enc + post;
    let u = unsigned_of(v) as nat;
    lemma_varint_len(u);
    assert(s.subrange(pre.len() as int, (pre.len() + enc.len()) as int) =~= enc);
    lemma_varint_groups(s, pre.len() as int, 0, 0, u, u as int);
}

/// A VarInt that was written is read back, wherever it stands.
pub proof fn lemma_varint_window(s: Seq<u8>, pos: int, v: i32)
    requires
        0 <= pos,
        pos + spec_varint(v).len() <= s.len(),
        s.subrange(pos, pos + spec_varint(v).len()) == spec_varint(v),
    ensures
        parse_varint(s, pos) == Ok::<(i32, int), DecodeError>((v, pos + spec_varint(v).len())),
{
    let u = unsigned_of(v) as nat;
    lemma_varint_groups(s, pos, 0, 0, u, u as int);
}

/// The number of bytes that the VarInt form of `u` takes.
pub proof fn lemma_varint_len(u: nat)
    ensures
        1 <= varint_bytes(u).len(),
        u < 0x80 ==> varint_bytes(u).len() == 1,
        0x80 <= u < 0x4000 ==> varint_bytes(u).len() == 2,
        0x4000 <= u < 0x20_0000 ==> varint_bytes(u).len() == 3,
        0x20_0000 <= u < 0x1000_0000 ==> varint_bytes(u).len() == 4,
        0x1000_0000 <= u < 0x8_0000_0000 ==> varint_bytes(u).len() == 5,
    decreases u,
{
    if u >= 128 {
        lemma_varint_len(u / 128);
    }
}

// ---------------------------------------------------------------------
// Fixed-width integers, big-endian
// ---------------------------------------------------------------------

/// The `n` low bytes of `v`, most significant first.
pub open spec fn be_bytes(v: nat, n: nat) -> Seq<u8>
    decreases n,
{
    if n == 0 {
        Seq::empty()
    } else {
        be_bytes(v / 256, (n - 1) as nat).push((v % 256) as u8)
    }
}

/// The number that the bytes of `s` spell, most significant first.
pub open spec fn be_value(s: Seq<u8>) -> nat
    decreases s.len(),
{
    if s.len() == 0 {
        0
    } else {
        be_value(s.drop_last()) * 256 + s.last() as nat
    }
}

/// 256 to the power `n`.
pub open spec fn pow256(n: nat) -> nat
    decreases n,
{
    if n == 0 {
        1
    } else {
        256 * pow256((n - 1) as nat)
    }
}

/// Reads `n` bytes at `pos` as one big-endian number.
pub open spec fn parse_be(s: Seq<u8>, pos: int, n: nat) -> Parsed<nat> {
    if pos + n > s.len() {
        Err(DecodeError::Truncated)
    } else {
        Ok((be_value(s.subrange(pos, pos + n)), pos + n))
    }
}

/// The pattern of `v` in two's complement, for a width whose patterns
/// number `modulus`.
pub open spec fn to_unsigned(v: int, modulus: int) -> nat {
    if v >= 0 {
        v as nat
    } else {
        (v + modulus) as nat
    }
}

/// The signed value of the pattern `u`, for a width whose patterns number
/// `modulus`.
pub open spec fn to_signed(u: nat, modulus: int) -> int {
    if 2 * u < modulus {
        u as int
    } else {
        u - modulus
    }
}

pub proof fn lemma_be_len(v: nat, n: nat)
    ensures
        be_bytes(v, n).len() == n,
    decreases n,
{
    if n > 0 {
        lemma_be_len(v / 256, (n - 1) as nat);
    }
}

pub proof fn lemma_be_value_bound(s: Seq<u8>)
    ensures
        be_value(s) < pow256(s.len()),
    decreases s.len(),
{
    if s.len() > 0 {
        lemma_be_value_bound(s.drop_last());
    }
}

/// The number that was written is the number that is read, as far as it
/// fits the width.
pub proof fn lemma_be_value_of_bytes(v: nat, n: nat)
    requires
        v < pow256(n),
    ensures
        be_value(be_bytes(v, n)) == v,
    decreases n,
{
    if n > 0 {
        let head = be_bytes(v / 256, (n - 1) as nat);
        lemma_be_len(v / 256, (n - 1) as nat);
        assert(be_bytes(v, n).drop_last() =~= head);
        lemma_be_value_of_bytes(v / 256, (n - 1) as nat);
    }
}

pub proof fn lemma_pow256_values()
    ensures
        pow256(0) == 1,
        pow256(1) == 0x100,
        pow256(2) == 0x1_0000,
        pow256(4) == 0x1_0000_0000,
        pow256(8) == 0x1_0000_0000_0000_0000,
        pow256(15) == 0x100_0000_0000_0000_0000_0000_0000_0000,
        pow256(16) == 0x1_0000_0000_0000_0000_0000_0000_0000_0000,
{
    reveal_with_fuel(pow256, 17);
}

proof fn lemma_pow256_monotonic(a: nat, b: nat)
    requires
        a <= b,
    ensures
        pow256(a) <= pow256(b),
        pow256(a) >= 1,
    decreases b,
{
    if a < b {
        lemma_pow256_monotonic(a, (b - 1) as nat);
    } else if a > 0 {
        lemma_pow256_monotonic((a - 1) as nat, (a - 1) as nat);
    }
}

/// Appends the `n` low bytes of `v`, most significant first.
pub fn put_be(out: &mut Vec<u8>, v: u128, n: usize)
    ensures
        final(out)@ == old(out)@ + be_bytes(v as nat, n as nat),
    decreases n,
{
    if n > 0 {
        put_be(out, v / 256, n - 1);
        out.push((v % 256) as u8);
    }
}

/// Reads `n` bytes at `pos` as one big-endian number.
pub fn read_be(bytes: &[u8], pos: usize, n: usize) -> (r: Result<(u128, usize), DecodeError>)
    requires
        n <= 16,
    ensures
        match r {
            Ok((v, next)) => parse_be(bytes@, pos as int, n as nat) == Ok::<(nat, int), DecodeError>(
                (v as nat, next as int),
            ),
            Err(e) => parse_be(bytes@, pos as int, n as nat) == Err::<(nat, int), DecodeError>(e),
        },
{
    if pos > bytes.len() || bytes.len() - pos < n {
        return Err(DecodeError::Truncated);
    }
    let mut acc: u128 = 0;
    let mut i: usize = 0;
    while i < n
        invariant
            i <= n <= 16,
            pos + n <= bytes.len(),
            acc == be_value(bytes@.subrange(pos as int, pos + i)),
        decreases n - i,
    {
        let ghost before = bytes@.subrange(pos as int, pos + i);
        let ghost after = bytes@.subrange(pos as int, pos + i + 1);
        proof {
            lemma_be_value_bound(before);
            lemma_pow256_monotonic(i as nat, 15);
            lemma_pow256_values();
            assert(after.drop_last() =~= before);
        }
        acc = acc * 256 + bytes[pos + i] as u128;
        i = i + 1;
    }
    Ok((acc, pos + n))
}

/// A number that was written with `n` bytes is read back, whatever stands
/// around it.
pub proof fn lemma_be_round_trip(pre: Seq<u8>, v: nat, n: nat, post: Seq<u8>)
    requires
        v < pow256(n),
    ensures
        parse_be(pre + be_bytes(v, n) + post, pre.len() as int, n) == Ok::<(nat, int), DecodeError>(
            (v, (pre.len() + n) as int),
        ),
        be_bytes(v, n).len() == n,
{
    lemma_be_len(v, n);
    lemma_be_value_of_bytes(v, n);
    let s = pre + be_bytes(v, n) + post;
    assert(s.subrange(pre.len() as int, (pre.len() + n) as int) =~= be_bytes(v, n));
}

// ---------------------------------------------------------------------
// Typed fixed-width values
// ---------------------------------------------------------------------
/// The wire form of an unsigned byte.
pub open spec fn spec_u8(v: u8) -> Seq<u8> {
    be_bytes(v as nat, 1)
}

/// Reads an unsigned byte at `pos`.
pub open spec fn parse_u8(s: Seq<u8>, pos: int) -> Parsed<u8> {
    match parse_be(s, pos, 1) {
        Err(e) => Err(e),
        Ok((u, p)) => Ok((u as u8, p)),
    }
}

/// Appends the wire form of an unsigned byte.
pub fn put_u8(out: &mut Vec<u8>, v: u8)
    ensures
        final(out)@ == old(out)@ + spec_u8(v),
{
    put_be(out, v as u128, 1);
}

/// Reads an unsigned byte at `pos`.
pub fn read_u8(bytes: &[u8], pos: usize) -> (r: Result<(u8, usize), DecodeError>)
    ensures
        same_outcome(r, parse_u8(bytes@, pos as int)),
{
    match read_be(bytes, pos, 1) {
        Err(e) => Err(e),
        Ok((u, next)) => {
            proof {
                lemma_be_value_bound(bytes@.subrange(pos as int, pos + 1));
                lemma_pow256_values();
            }
            Ok((u as u8, next))
        },
    }
}

/// The value that was written is read back, wherever it stands.
pub proof fn lemma_u8_window(s: Seq<u8>, pos: int, v: u8)
    requires
        0 <= pos,
        pos + 1 <= s.len(),
        s.subrange(pos, pos + 1) == spec_u8(v),
    ensures
        parse_u8(s, pos) == Ok::<(u8, int), DecodeError>((v, pos + 1)),
        spec_u8(v).len() == 1,
{
    lemma_pow256_values();
    lemma_be_len(v as nat, 1);
    lemma_be_value_of_bytes(v as nat, 1);
}

/// The wire form of a signed byte.
pub open spec fn spec_i8(v: i8) -> Seq<u8> {
    be_bytes(to_unsigned(v as int, 0x100), 1)
}

/// Reads a signed byte at `pos`.
pub open spec fn parse_i8(s: Seq<u8>, pos: int) -> Parsed<i8> {
    match parse_be(s, pos, 1) {
        Err(e) => Err(e),
        Ok((u, p)) => Ok((to_signed(u, 0x100) as i8, p)),
    }
}

/// Appends the wire form of a signed byte.
pub fn put_i8(out: &mut Vec<u8>, v: i8)
    ensures
        final(out)@ == old(out)@ + spec_i8(v),
{
    let u: u128 = if v >= 0 {
        v as u128
    } else {
        (v as i128 + 0x100) as u128
    };
    put_be(out, u, 1);
}

/// Reads a signed byte at `pos`.
pub fn read_i8(bytes: &[u8], pos: usize) -> (r: Result<(i8, usize), DecodeError>)
    ensures
        same_outcome(r, parse_i8(bytes@, pos as int)),
{
    match read_be(bytes, pos, 1) {
        Err(e) => Err(e),
        Ok((u, next)) => {
            proof {
                lemma_be_value_bound(bytes@.subrange(pos as int, pos + 1));
                lemma_pow256_values();
            }
            let v: i8 = if u < 0x80 {
                u as i8
            } else {
                (u as i128 - 0x100) as i8
            };
            Ok((v, next))
        },
    }
}

/// The value that was written is read back, wherever it stands.
pub proof fn lemma_i8_window(s: Seq<u8>, pos: int, v: i8)
    requires
        0 <= pos,
        pos + 1 <= s.len(),
        s.subrange(pos, pos + 1) == spec_i8(v),
    ensures
        parse_i8(s, pos) == Ok::<(i8, int), DecodeError>((v, pos + 1)),
        spec_i8(v).len() == 1,
{
    lemma_pow256_values();
    lemma_be_len(to_unsigned(v as int, 0x100), 1);
    lemma_be_value_of_bytes(to_unsigned(v as int, 0x100), 1);
}

/// The wire form of an unsigned 16-bit integer.
pub open spec fn spec_u16(v: u16) -> Seq<u8> {
    be_bytes(v as nat, 2)
}

/// Reads an unsigned 16-bit integer at `pos`.
pub open spec fn parse_u16(s: Seq<u8>, pos: int) -> Parsed<u16> {
    match parse_be(s, pos, 2) {
        Err(e) => Err(e),
        Ok((u, p)) => Ok((u as u16, p)),
    }
}

/// Appends the wire form of an unsigned 16-bit integer.
pub fn put_u16(out: &mut Vec<u8>, v: u16)
    ensures
        final(out)@ == old(out)@ + spec_u16(v),
{
    put_be(out, v as u128, 2);
}

/// Reads an unsigned 16-bit integer at `pos`.
pub fn read_u16(bytes: &[u8], pos: usize) -> (r: Result<(u16, usize), DecodeError>)
    ensures
        same_outcome(r, parse_u16(bytes@, pos as int)),
{
    match read_be(bytes, pos, 2) {
        Err(e) => Err(e),
        Ok((u, next)) => {
            proof {
                lemma_be_value_bound(bytes@.subrange(pos as int, pos + 2));
                lemma_pow256_values();
            }
            Ok((u as u16, next))
        },
    }
}

/// The value that was written is read back, wherever it stands.
pub proof fn lemma_u16_window(s: Seq<u8>, pos: int, v: u16)
    requires
        0 <= pos,
        pos + 2 <= s.len(),
        s.subrange(pos, pos + 2) == spec_u16(v),
    ensures
        parse_u16(s, pos) == Ok::<(u16, int), DecodeError>((v, pos + 2)),
        spec_u16(v).len() == 2,
{
    lemma_pow256_values();
    lemma_be_len(v as nat, 2);
    lemma_be_value_of_bytes(v as nat, 2);
}

/// The wire form of a signed 16-bit integer.
pub open spec fn spec_i16(v: i16) -> Seq<u8> {
    be_bytes(to_unsigned(v as int, 0x1_0000), 2)
}

/// Reads a signed 16-bit integer at `pos`.
pub open spec fn parse_i16(s: Seq<u8>, pos: int) -> Parsed<i16> {
    match parse_be(s, pos, 2) {
        Err(e) => Err(e),
        Ok((u, p)) => Ok((to_signed(u, 0x1_0000) as i16, p)),
    }
}

/// Appends the wire form of a signed 16-bit integer.
pub fn put_i16(out: &mut Vec<u8>, v: i16)
    ensures
        final(out)@ == old(out)@ + spec_i16(v),
{
    let u: u128 = if v >= 0 {
        v as u128
    } else {
        (v as i128 + 0x1_0000) as u128
    };
    put_be(out, u, 2);
}

/// Reads a signed 16-bit integer at `pos`.
pub fn read_i16(bytes: &[u8], pos: usize) -> (r: Result<(i16, usize), DecodeError>)
    ensures
        same_outcome(r, parse_i16(bytes@, pos as int)),
{
    match read_be(bytes, pos, 2) {
        Err(e) => Err(e),
        Ok((u, next)) => {
            proof {
                lemma_be_value_bound(bytes@.subrange(pos as int, pos + 2));
                lemma_pow256_values();
            }
            let v: i16 = if u < 0x8000 {
                u as i16
            } else {
                (u as i128 - 0x1_0000) as i16
            };
            Ok((v, next))
        },
    }
}

/// The value that was written is read back, wherever it stands.
pub proof fn lemma_i16_window(s: Seq<u8>, pos: int, v: i16)
    requires
        0 <= pos,
        pos + 2 <= s.len(),
        s.subrange(pos, pos + 2) == spec_i16(v),
    ensures
        parse_i16(s, pos) == Ok::<(i16, int), DecodeError>((v, pos + 2)),
        spec_i16(v).len() == 2,
{
    lemma_pow256_values();
    lemma_be_len(to_unsigned(v as int, 0x1_0000), 2);
    lemma_be_value_of_bytes(to_unsigned(v as int, 0x1_0000), 2);
}

/// The wire form of an unsigned 32-bit integer.
pub open spec fn spec_u32(v: u32) -> Seq<u8> {
    be_bytes(v as nat, 4)
}

/// Reads an unsigned 32-bit integer at `pos`.
pub open spec fn parse_u32(s: Seq<u8>, pos: int) -> Parsed<u32> {
    match parse_be(s, pos, 4) {
        Err(e) => Err(e),
        Ok((u, p)) => Ok((u as u32, p)),
    }
}

/// Appends the wire form of an unsigned 32-bit integer.
pub fn put_u32(out: &mut Vec<u8>, v: u32)
    ensures
        final(out)@ == old(out)@ + spec_u32(v),
{
    put_be(out, v as u128, 4);
}

/// Reads an unsigned 32-bit integer at `pos`.
pub fn read_u32(bytes: &[u8], pos: usize) -> (r: Result<(u32, usize), DecodeError>)
    ensures
        same_outcome(r, parse_u32(bytes@, pos as int)),
{
    match read_be(bytes, pos, 4) {
        Err(e) => Err(e),
        Ok((u, next)) => {
            proof {
                lemma_be_value_bound(bytes@.subrange(pos as int, pos + 4));
                lemma_pow256_values();
            }
            Ok((u as u32, next))
        },
    }
}

/// The value that was written is read back, wherever it stands.
pub proof fn lemma_u32_window(s: Seq<u8>, pos: int, v: u32)
    requires
        0 <= pos,
        pos + 4 <= s.len(),
        s.subrange(pos, pos + 4) == spec_u32(v),
    ensures
        parse_u32(s, pos) == Ok::<(u32, int), DecodeError>((v, pos + 4)),
        spec_u32(v).len() == 4,
{
    lemma_pow256_values();
    lemma_be_len(v as nat, 4);
    lemma_be_value_of_bytes(v as nat, 4);
}

/// The wire form of a signed 32-bit integer.
pub open spec fn spec_i32(v: i32) -> Seq<u8> {
    be_bytes(to_unsigned(v as int, 0x1_0000_0000), 4)
}

/// Reads a signed 32-bit integer at `pos`.
pub open spec fn parse_i32(s: Seq<u8>, pos: int) -> Parsed<i32> {
    match parse_be(s, pos, 4) {
        Err(e) => Err(e),
        Ok((u, p)) => Ok((to_signed(u, 0x1_0000_0000) as i32, p)),
    }
}

/// Appends the wire form of a signed 32-bit integer.
pub fn put_i32(out: &mut Vec<u8>, v: i32)
    ensures
        final(out)@ == old(out)@ + spec_i32(v),
{
    let u: u128 = if v >= 0 {
        v as u128
    } else {
        (v as i128 + 0x1_0000_0000) as u128
    };
    put_be(out, u, 4);
}

/// Reads a signed 32-bit integer at `pos`.
pub fn read_i32(bytes: &[u8], pos: usize) -> (r: Result<(i32, usize), DecodeError>)
    ensures
        same_outcome(r, parse_i32(bytes@, pos as int)),
{
    match read_be(bytes, pos, 4) {
        Err(e) => Err(e),
        Ok((u, next)) => {
            proof {
                lemma_be_value_bound(bytes@.subrange(pos as int, pos + 4));
                lemma_pow256_values();
            }
            let v: i32 = if u < 0x8000_0000 {
                u as i32
            } else {
                (u as i128 - 0x1_0000_0000) as i32
            };
            Ok((v, next))
        },
    }
}

/// The value that was written is read back, wherever it stands.
pub proof fn lemma_i32_window(s: Seq<u8>, pos: int, v: i32)
    requires
        0 <= pos,
        pos + 4 <= s.len(),
        s.subrange(pos, pos + 4) == spec_i32(v),
    ensures
        parse_i32(s, pos) == Ok::<(i32, int), DecodeError>((v, pos + 4)),
        spec_i32(v).len() == 4,
{
    lemma_pow256_values();
    lemma_be_len(to_unsigned(v as int, 0x1_0000_0000), 4);
    lemma_be_value_of_bytes(to_unsigned(v as int, 0x1_0000_0000), 4);
}

/// The wire form of an unsigned 64-bit integer.
pub open spec fn spec_u64(v: u64) -> Seq<u8> {
    be_bytes(v as nat, 8)
}

/// Reads an unsigned 64-bit integer at `pos`.
pub open spec fn parse_u64(s: Seq<u8>, pos: int) -> Parsed<u64> {
    match parse_be(s, pos, 8) {
        Err(e) => Err(e),
        Ok((u, p)) => Ok((u as u64, p)),
    }
}

/// Appends the wire form of an unsigned 64-bit integer.
pub fn put_u64(out: &mut Vec<u8>, v: u64)
    ensures
        final(out)@ == old(out)@ + spec_u64(v),
{
    put_be(out, v as u128, 8);
}

/// Reads an unsigned 64-bit integer at `pos`.
pub fn read_u64(bytes: &[u8], pos: usize) -> (r: Result<(u64, usize), DecodeError>)
    ensures
        same_outcome(r, parse_u64(bytes@, pos as int)),
{
    match read_be(bytes, pos, 8) {
        Err(e) => Err(e),
        Ok((u, next)) => {
            proof {
                lemma_be_value_bound(bytes@.subrange(pos as int, pos + 8));
                lemma_pow256_values();
            }
            Ok((u as u64, next))
        },
    }
}

/// The value that was written is read back, wherever it stands.
pub proof fn lemma_u64_window(s: Seq<u8>, pos: int, v: u64)
    requires
        0 <= pos,
        pos + 8 <= s.len(),
        s.subrange(pos, pos + 8) == spec_u64(v),
    ensures
        parse_u64(s, pos) == Ok::<(u64, int), DecodeError>((v, pos + 8)),
        spec_u64(v).len() == 8,
{
    lemma_pow256_values();
    lemma_be_len(v as nat, 8);
    lemma_be_value_of_bytes(v as nat, 8);
}

/// The wire form of a signed 64-bit integer.
pub open spec fn spec_i64(v: i64) -> Seq<u8> {
    be_bytes(to_unsigned(v as int, 0x1_0000_0000_0000_0000), 8)
}

/// Reads a signed 64-bit integer at `pos`.
pub open spec fn parse_i64(s: Seq<u8>, pos: int) -> Parsed<i64> {
    match parse_be(s, pos, 8) {
        Err(e) => Err(e),
        Ok((u, p)) => Ok((to_signed(u, 0x1_0000_0000_0000_0000) as i64, p)),
    }
}

/// Appends the wire form of a signed 64-bit integer.
pub fn put_i64(out: &mut Vec<u8>, v: i64)
    ensures
        final(out)@ == old(out)@ + spec_i64(v),
{
    let u: u128 = if v >= 0 {
        v as u128
    } else {
        (v as i128 + 0x1_0000_0000_0000_0000) as u128
    };
    put_be(out, u, 8);
}

/// Reads a signed 64-bit integer at `pos`.
pub fn read_i64(bytes: &[u8], pos: usize) -> (r: Result<(i64, usize), DecodeError>)
    ensures
        same_outcome(r, parse_i64(bytes@, pos as int)),
{
    match read_be(bytes, pos, 8) {
        Err(e) => Err(e),
        Ok((u, next)) => {
            proof {
                lemma_be_value_bound(bytes@.subrange(pos as int, pos + 8));
                lemma_pow256_values();
            }
            let v: i64 = if u < 0x8000_0000_0000_0000 {
                u as i64
            } else {
                (u as i128 - 0x1_0000_0000_0000_0000) as i64
            };
            Ok((v, next))
        },
    }
}

/// The value that was written is read back, wherever it stands.
pub proof fn lemma_i64_window(s: Seq<u8>, pos: int, v: i64)
    requires
        0 <= pos,
        pos + 8 <= s.len(),
        s.subrange(pos, pos + 8) == spec_i64(v),
    ensures
        parse_i64(s, pos) == Ok::<(i64, int), DecodeError>((v, pos + 8)),
        spec_i64(v).len() == 8,
{
    lemma_pow256_values();
    lemma_be_len(to_unsigned(v as int, 0x1_0000_0000_0000_0000), 8);
    lemma_be_value_of_bytes(to_unsigned(v as int, 0x1_0000_0000_0000_0000), 8);
}

/// The wire form of an unsigned 128-bit integer.
pub open spec fn spec_u128(v: u128) -> Seq<u8> {
    be_bytes(v as nat, 16)
}

/// Reads an unsigned 128-bit integer at `pos`.
pub open spec fn parse_u128(s: Seq<u8>, pos: int) -> Parsed<u128> {
    match parse_be(s, pos, 16) {
        Err(e) => Err(e),
        Ok((u, p)) => Ok((u as u128, p)),
    }
}

/// Appends the wire form of an unsigned 128-bit integer.
pub fn put_u128(out: &mut Vec<u8>, v: u128)
    ensures
        final(out)@ == old(out)@ + spec_u128(v),
{
    put_be(out, v, 16);
}

/// Reads an unsigned 128-bit integer at `pos`.
pub fn read_u128(bytes: &[u8], pos: usize) -> (r: Result<(u128, usize), DecodeError>)
    ensures
        same_outcome(r, parse_u128(bytes@, pos as int)),
{
    match read_be(bytes, pos, 16) {
        Err(e) => Err(e),
        Ok((u, next)) => {
            proof {
                lemma_be_value_bound(bytes@.subrange(pos as int, pos + 16));
                lemma_pow256_values();
            }
            Ok((u, next))
        },
    }
}

/// The value that was written is read back, wherever it stands.
pub proof fn lemma_u128_window(s: Seq<u8>, pos: int, v: u128)
    requires
        0 <= pos,
        pos + 16 <= s.len(),
        s.subrange(pos, pos + 16) == spec_u128(v),
    ensures
        parse_u128(s, pos) == Ok::<(u128, int), DecodeError>((v, pos + 16)),
        spec_u128(v).len() == 16,
{
    lemma_pow256_values();
    lemma_be_len(v as nat, 16);
    lemma_be_value_of_bytes(v as nat, 16);
}

/// The wire form of a boolean: one byte, 1 for true and 0 for false.
pub open spec fn spec_bool(v: bool) -> Seq<u8> {
    be_bytes(if v { 1 } else { 0 }, 1)
}

/// Reads a boolean at `pos`: any byte but 0 counts as true.
pub open spec fn parse_bool(s: Seq<u8>, pos: int) -> Parsed<bool> {
    match parse_be(s, pos, 1) {
        Err(e) => Err(e),
        Ok((u, p)) => Ok((u != 0, p)),
    }
}

/// Appends the wire form of a boolean.
pub fn put_bool(out: &mut Vec<u8>, v: bool)
    ensures
        final(out)@ == old(out)@ + spec_bool(v),
{
    let u: u128 = if v {
        1
    } else {
        0
    };
    put_be(out, u, 1);
}

/// Reads a boolean at `pos`.
pub fn read_bool(bytes: &[u8], pos: usize) -> (r: Result<(bool, usize), DecodeError>)
    ensures
        same_outcome(r, parse_bool(bytes@, pos as int)),
{
    match read_be(bytes, pos, 1) {
        Err(e) => Err(e),
        Ok((u, next)) => Ok((u != 0, next)),
    }
}

/// The value that was written is read back, wherever it stands.
pub proof fn lemma_bool_window(s: Seq<u8>, pos: int, v: bool)
    requires
        0 <= pos,
        pos + 1 <= s.len(),
        s.subrange(pos, pos + 1) == spec_bool(v),
    ensures
        parse_bool(s, pos) == Ok::<(bool, int), DecodeError>((v, pos + 1)),
        spec_bool(v).len() == 1,
{
    lemma_pow256_values();
    lemma_be_len(if v { 1 } else { 0 }, 1);
    lemma_be_value_of_bytes(if v { 1 } else { 0 }, 1);
}

// ---------------------------------------------------------------------
// Runs of raw bytes
// ---------------------------------------------------------------------

/// Reads `n` raw bytes at `pos`.
pub open spec fn parse_bytes(s: Seq<u8>, pos: int, n: nat) -> Parsed<Seq<u8>> {
    if pos + n > s.len() {
        Err(DecodeError::Truncated)
    } else {
        Ok((s.subrange(pos, pos + n), pos + n))
    }
}

/// Reads `n` raw bytes at `pos`.
pub fn read_bytes(bytes: &[u8], pos: usize, n: usize) -> (r: Result<(Vec<u8>, usize), DecodeError>)
    ensures
        match r {
            Ok((v, next)) => parse_bytes(bytes@, pos as int, n as nat) == Ok::<
                (Seq<u8>, int),
                DecodeError,
            >((v@, next as int)),
            Err(e) => parse_bytes(bytes@, pos as int, n as nat) == Err::<
                (Seq<u8>, int),
                DecodeError,
            >(e),
        },
{
    if pos > bytes.len() || bytes.len() - pos < n {
        return Err(DecodeError::Truncated);
    }
    let part = vstd::slice::slice_subrange(bytes, pos, pos + n);
    Ok((vstd::slice::slice_to_vec(part), pos + n))
}

/// Appends the bytes of `b`.
pub fn put_bytes(out: &mut Vec<u8>, b: &[u8])
    ensures
        final(out)@ == old(out)@ + b@,
{
    let ghost start = out@;
    let mut i: usize = 0;
    while i < b.len()
        invariant
            i <= b.len(),
            out@ == start + b@.take(i as int),
        decreases b.len() - i,
    {
        out.push(b[i]);
        assert(b@.take(i + 1) =~= b@.take(i as int).push(b@[i as int]));
        i = i + 1;
    }
    assert(b@.take(b.len() as int) =~= b@);
}

// ---------------------------------------------------------------------
// Strings
// ---------------------------------------------------------------------

/// The largest count that a length prefix can hold.
pub const MAX_LENGTH: usize = 0x7fff_ffff;

/// The wire form of a string: the number of its UTF-8 bytes as a VarInt,
/// then the bytes.
pub open spec fn spec_string(chars: Seq<char>) -> Seq<u8> {
    let b = encode_utf8(chars);
    spec_varint(b.len() as i32) + b
}

/// Reads a string at `pos`.
pub open spec fn parse_string(s: Seq<u8>, pos: int) -> Parsed<Seq<char>> {
    match parse_varint(s, pos) {
        Err(e) => Err(e),
        Ok((n, p)) => {
            if n < 0 {
                Err(DecodeError::InvalidLength)
            } else if p + n > s.len() {
                Err(DecodeError::Truncated)
            } else if !valid_utf8(s.subrange(p, p + n)) {
                Err(DecodeError::InvalidUtf8)
            } else {
                Ok((decode_utf8(s.subrange(p, p + n)), p + n))
            }
        },
    }
}

/// `String::from_utf8` of std, with its error dropped: the bytes become a
/// string exactly when they are UTF-8, and the string then holds the
/// characters that they spell.
#[verifier::external_body]
fn string_from_utf8(bytes: Vec<u8>) -> (r: Option<String>)
    ensures
        r is Some <==> valid_utf8(bytes@),
        r matches Some(text) ==> text@ == decode_utf8(bytes@),
{
    String::from_utf8(bytes).ok()
}

/// Appends the wire form of `text`. Nothing is written, and `false` comes
/// back, when its bytes are too many for a length prefix.
pub fn put_string(out: &mut Vec<u8>, text: &String) -> (done: bool)
    ensures
        done <==> encode_utf8(text@).len() <= MAX_LENGTH,
        done ==> final(out)@ == old(out)@ + spec_string(text@),
        !done ==> final(out)@ == old(out)@,
{
    let b = text.as_str().as_bytes();
    if b.len() > MAX_LENGTH {
        return false;
    }
    put_varint(out, b.len() as i32);
    put_bytes(out, b);
    assert(out@ =~= old(out)@ + spec_string(text@));
    true
}

/// Reads a string at `pos`.
pub fn read_string(bytes: &[u8], pos: usize) -> (r: Result<(String, usize), DecodeError>)
    ensures
        match r {
            Ok((v, next)) => parse_string(bytes@, pos as int) == Ok::<(Seq<char>, int), DecodeError>(
                (v@, next as int),
            ),
            Err(e) => parse_string(bytes@, pos as int) == Err::<(Seq<char>, int), DecodeError>(e),
        },
{
    let (n, p) = match read_varint(bytes, pos) {
        Ok(found) => found,
        Err(e) => { return Err(e); },
    };
    if n < 0 {
        return Err(DecodeError::InvalidLength);
    }
    let (raw, next) = match read_bytes(bytes, p, n as usize) {
        Ok(found) => found,
        Err(e) => { return Err(e); },
    };
    match string_from_utf8(raw) {
        Some(text) => Ok((text, next)),
        None => Err(DecodeError::InvalidUtf8),
    }
}

/// A string that was written is read back, wherever it stands.
pub proof fn lemma_string_window(s: Seq<u8>, pos: int, chars: Seq<char>)
    requires
        0 <= pos,
        encode_utf8(chars).len() <= MAX_LENGTH,
        pos + spec_string(chars).len() <= s.len(),
        s.subrange(pos, pos + spec_string(chars).len()) == spec_string(chars),
    ensures
        parse_string(s, pos) == Ok::<(Seq<char>, int), DecodeError>(
            (chars, pos + spec_string(chars).len()),
        ),
{
    let b = encode_utf8(chars);
    let head = spec_varint(b.len() as i32);
    let whole = spec_string(chars);
    lemma_varint_len(unsigned_of(b.len() as i32) as nat);
    assert(s.subrange(pos, pos + head.len()) =~= head) by {
        assert forall|k: int| 0 <= k < head.len() implies s[pos + k] == head[k] by {
            assert(s[pos + k] == s.subrange(pos, pos + whole.len())[k]);
        }
    }
    lemma_varint_window(s, pos, b.len() as i32);
    let p = pos + head.len();
    assert(s.subrange(p, p + b.len()) =~= b) by {
        assert forall|k: int| 0 <= k < b.len() implies s[p + k] == b[k] by {
            assert(s[p + k] == s.subrange(pos, pos + whole.len())[head.len() + k]);
        }
    }
    encode_utf8_valid_utf8(chars);
    encode_utf8_decode_utf8(chars);
}

// ---------------------------------------------------------------------
// Arrays
// ---------------------------------------------------------------------

/// A spec-level reader of one item.
pub type ItemReader<T> = spec_fn(Seq<u8>, int) -> Parsed<T>;

/// A spec-level writer of one item.
pub type ItemWriter<T> = spec_fn(T) -> Seq<u8>;

/// Reads `n` items one after the other, `acc` holding those read before.
pub open spec fn parse_repeat<T>(
    read: ItemReader<T>,
    s: Seq<u8>,
    pos: int,
    n: nat,
    acc: Seq<T>,
) -> Parsed<Seq<T>>
    decreases n,
{
    if n == 0 {
        Ok((acc, pos))
    } else {
        match read(s, pos) {
            Err(e) => Err(e),
            Ok((v, p)) => parse_repeat(read, s, p, (n - 1) as nat, acc.push(v)),
        }
    }
}

/// The wire forms of `items`, one after the other.
pub open spec fn encode_repeat<T>(write: ItemWriter<T>, items: Seq<T>) -> Seq<u8>
    decreases items.len(),
{
    if items.len() == 0 {
        Seq::empty()
    } else {
        encode_repeat(write, items.drop_last()) + write(items.last())
    }
}

/// Reads a VarInt count, then that many items.
pub open spec fn parse_counted<T>(read: ItemReader<T>, s: Seq<u8>, pos: int) -> Parsed<Seq<T>> {
    match parse_varint(s, pos) {
        Err(e) => Err(e),
        Ok((n, p)) => {
            if n < 0 {
                Err(DecodeError::InvalidLength)
            } else {
                parse_repeat(read, s, p, n as nat, Seq::empty())
            }
        },
    }
}

/// The wire form of a counted array: the count as a VarInt, then the items.
pub open spec fn encode_counted<T>(write: ItemWriter<T>, items: Seq<T>) -> Seq<u8> {
    spec_varint(items.len() as i32) + encode_repeat(write, items)
}

/// `read` reads back what `write` wrote of `v`, wherever it stands.
pub open spec fn reads_back<T>(read: ItemReader<T>, write: ItemWriter<T>, v: T) -> bool {
    forall|s: Seq<u8>, pos: int|
        0 <= pos && pos + write(v).len() <= s.len() && s.subrange(pos, pos + write(v).len())
            == write(v) ==> #[trigger] read(s, pos) == Ok::<(T, int), DecodeError>(
            (v, pos + write(v).len()),
        )
}

pub proof fn lemma_encode_repeat_push<T>(write: ItemWriter<T>, items: Seq<T>, v: T)
    ensures
        encode_repeat(write, items.push(v)) == encode_repeat(write, items) + write(v),
{
    assert(items.push(v).drop_last() =~= items);
}

proof fn lemma_repeat_from<T>(
    read: ItemReader<T>,
    write: ItemWriter<T>,
    s: Seq<u8>,
    pos: int,
    items: Seq<T>,
    i: int,
)
    requires
        0 <= pos,
        0 <= i <= items.len(),
        forall|k: int| 0 <= k < items.len() ==> reads_back(read, write, #[trigger] items[k]),
        pos + encode_repeat(write, items).len() <= s.len(),
        s.subrange(pos, pos + encode_repeat(write, items).len()) == encode_repeat(write, items),
    ensures
        parse_repeat(
            read,
            s,
            pos + encode_repeat(write, items.take(i)).len(),
            (items.len() - i) as nat,
            items.take(i),
        ) == Ok::<(Seq<T>, int), DecodeError>((items, pos + encode_repeat(write, items).len())),
        encode_repeat(write, items.take(i)).len() <= encode_repeat(write, items).len(),
        encode_repeat(write, items.take(i)) == encode_repeat(write, items).take(
            encode_repeat(write, items.take(i)).len() as int,
        ),
    decreases items.len() - i,
{
    let whole = encode_repeat(write, items);
    let done = encode_repeat(write, items.take(i));
    if i == items.len() {
        assert(items.take(i) =~= items);
        assert(whole.take(whole.len() as int) =~= whole);
    } else {
        let v = items[i];
        assert(items.take(i + 1) =~= items.take(i).push(v));
        lemma_encode_repeat_push(write, items.take(i), v);
        lemma_repeat_from(read, write, s, pos, items, i + 1);
        let next = encode_repeat(write, items.take(i + 1));
        assert(next == done + write(v));
        assert(done =~= whole.take(done.len() as int)) by {
            assert forall|k: int| 0 <= k < done.len() implies done[k] == whole[k] by {
                assert(next[k] == done[k]);
                assert(next[k] == whole.take(next.len() as int)[k]);
            }
        }
        let at = pos + done.len();
        let item = write(v);
        assert(s.subrange(at, at + item.len()) =~= item) by {
            assert forall|k: int| 0 <= k < item.len() implies s[at + k] == #[trigger] item[k] by {
                assert(next[done.len() + k] == item[k]);
                assert(next[done.len() + k] == whole.take(next.len() as int)[done.len() + k]);
                assert(s[at + k] == s.subrange(pos, pos + whole.len())[done.len() + k]);
            }
        }
        assert(reads_back(read, write, v));
        assert(read(s, at) == Ok::<(T, int), DecodeError>((v, at + write(v).len())));
    }
}

/// Items that were written one after the other are read back, wherever
/// they stand.
pub proof fn lemma_repeat_window<T>(
    read: ItemReader<T>,
    write: ItemWriter<T>,
    s: Seq<u8>,
    pos: int,
    items: Seq<T>,
)
    requires
        0 <= pos,
        forall|k: int| 0 <= k < items.len() ==> reads_back(read, write, #[trigger] items[k]),
        pos + encode_repeat(write, items).len() <= s.len(),
        s.subrange(pos, pos + encode_repeat(write, items).len()) == encode_repeat(write, items),
    ensures
        parse_repeat(read, s, pos, items.len(), Seq::empty()) == Ok::<(Seq<T>, int), DecodeError>(
            (items, pos + encode_repeat(write, items).len()),
        ),
{
    lemma_repeat_from(read, write, s, pos, items, 0);
    assert(items.take(0) =~= Seq::<T>::empty());
}

/// A counted array that was written is read back, wherever it stands.
pub proof fn lemma_counted_window<T>(
    read: ItemReader<T>,
    write: ItemWriter<T>,
    s: Seq<u8>,
    pos: int,
    items: Seq<T>,
)
    requires
        0 <= pos,
        items.len() <= MAX_LENGTH,
        forall|k: int| 0 <= k < items.len() ==> reads_back(read, write, #[trigger] items[k]),
        pos + encode_counted(write, items).len() <= s.len(),
        s.subrange(pos, pos + encode_counted(write, items).len()) == encode_counted(write, items),
    ensures
        parse_counted(read, s, pos) == Ok::<(Seq<T>, int), DecodeError>(
            (items, pos + encode_counted(write, items).len()),
        ),
{
    let head = spec_varint(items.len() as i32);
    let body = encode_repeat(write, items);
    let whole = encode_counted(write, items);
    assert(s.subrange(pos, pos + head.len()) =~= head) by {
        assert forall|k: int| 0 <= k < head.len() implies s[pos + k] == head[k] by {
            assert(s[pos + k] == s.subrange(pos, pos + whole.len())[k]);
        }
    }
    lemma_varint_window(s, pos, items.len() as i32);
    let p = pos + head.len();
    assert(s.subrange(p, p + body.len()) =~= body) by {
        assert forall|k: int| 0 <= k < body.len() implies s[p + k] == body[k] by {
            assert(s[p + k] == s.subrange(pos, pos + whole.len())[head.len() + k]);
        }
    }
    lemma_repeat_window(read, write, s, p, items);
}

/// Reads one VarInt item.
pub open spec fn varint_reader() -> ItemReader<i32> {
    |s: Seq<u8>, pos: int| parse_varint(s, pos)
}

/// Writes one VarInt item.
pub open spec fn varint_writer() -> ItemWriter<i32> {
    |v: i32| spec_varint(v)
}

/// Reads one big-endian 32-bit item.
pub open spec fn int_reader() -> ItemReader<i32> {
    |s: Seq<u8>, pos: int| parse_i32(s, pos)
}

/// Writes one big-endian 32-bit item.
pub open spec fn int_writer() -> ItemWriter<i32> {
    |v: i32| spec_i32(v)
}

/// Reads one big-endian 64-bit item.
pub open spec fn long_reader() -> ItemReader<i64> {
    |s: Seq<u8>, pos: int| parse_i64(s, pos)
}

/// Writes one big-endian 64-bit item.
pub open spec fn long_writer() -> ItemWriter<i64> {
    |v: i64| spec_i64(v)
}

pub proof fn lemma_varint_item(v: i32)
    ensures
        reads_back(varint_reader(), varint_writer(), v),
{
    assert forall|s: Seq<u8>, pos: int|
        0 <= pos && pos + varint_writer()(v).len() <= s.len() && s.subrange(
            pos,
            pos + varint_writer()(v).len(),
        ) == varint_writer()(v) implies #[trigger] varint_reader()(s, pos) == Ok::<
        (i32, int),
        DecodeError,
    >((v, pos + varint_writer()(v).len())) by {
        lemma_varint_window(s, pos, v);
    }
}

pub proof fn lemma_int_item(v: i32)
    ensures
        reads_back(int_reader(), int_writer(), v),
        int_writer()(v).len() == 4,
{
    lemma_pow256_values();
    lemma_be_len(to_unsigned(v as int, 0x1_0000_0000), 4);
    assert forall|s: Seq<u8>, pos: int|
        0 <= pos && pos + int_writer()(v).len() <= s.len() && s.subrange(
            pos,
            pos + int_writer()(v).len(),
        ) == int_writer()(v) implies #[trigger] int_reader()(s, pos) == Ok::<(i32, int), DecodeError>(
        (v, pos + int_writer()(v).len()),
    ) by {
        lemma_i32_window(s, pos, v);
    }
}

pub proof fn lemma_long_item(v: i64)
    ensures
        reads_back(long_reader(), long_writer(), v),
        long_writer()(v).len() == 8,
{
    lemma_pow256_values();
    lemma_be_len(to_unsigned(v as int, 0x1_0000_0000_0000_0000), 8);
    assert forall|s: Seq<u8>, pos: int|
        0 <= pos && pos + long_writer()(v).len() <= s.len() && s.subrange(
            pos,
            pos + long_writer()(v).len(),
        ) == long_writer()(v) implies #[trigger] long_reader()(s, pos) == Ok::<
        (i64, int),
        DecodeError,
    >((v, pos + long_writer()(v).len())) by {
        lemma_i64_window(s, pos, v);
    }
}

/// Appends a counted array of VarInts. Nothing is written, and `false`
/// comes back, when the items are too many for a length prefix.
pub fn put_varint_array(out: &mut Vec<u8>, items: &Vec<i32>) -> (done: bool)
    ensures
        done <==> items.len() <= MAX_LENGTH,
        done ==> final(out)@ == old(out)@ + encode_counted(varint_writer(), items@),
        !done ==> final(out)@ == old(out)@,
{
    if items.len() > MAX_LENGTH {
        return false;
    }
    put_varint(out, items.len() as i32);
    let ghost start = out@;
    let mut i: usize = 0;
    while i < items.len()
        invariant
            i <= items.len(),
            out@ == start + encode_repeat(varint_writer(), items@.take(i as int)),
        decreases items.len() - i,
    {
        proof {
            lemma_encode_repeat_push(varint_writer(), items@.take(i as int), items@[i as int]);
            assert(items@.take(i + 1) =~= items@.take(i as int).push(items@[i as int]));
        }
        put_varint(out, items[i]);
        i = i + 1;
    }
    assert(items@.take(items.len() as int) =~= items@);
    true
}

/// Reads a counted array of VarInts at `pos`.
pub fn read_varint_array(bytes: &[u8], pos: usize) -> (r: Result<(Vec<i32>, usize), DecodeError>)
    ensures
        match r {
            Ok((v, next)) => parse_counted(varint_reader(), bytes@, pos as int) == Ok::<
                (Seq<i32>, int),
                DecodeError,
            >((v@, next as int)),
            Err(e) => parse_counted(varint_reader(), bytes@, pos as int) == Err::<
                (Seq<i32>, int),
                DecodeError,
            >(e),
        },
{
    let (n, first) = match read_varint(bytes, pos) {
        Ok(found) => found,
        Err(e) => { return Err(e); },
    };
    if n < 0 {
        return Err(DecodeError::InvalidLength);
    }
    let count: usize = n as usize;
    let mut items: Vec<i32> = Vec::new();
    let mut at: usize = first;
    let mut i: usize = 0;
    while i < count
        invariant
            i <= count,
            parse_counted(varint_reader(), bytes@, pos as int) == parse_repeat(
                varint_reader(),
                bytes@,
                at as int,
                (count - i) as nat,
                items@,
            ),
        decreases count - i,
    {
        let (v, next) = match read_varint(bytes, at) {
            Ok(found) => found,
            Err(e) => { return Err(e); },
        };
        items.push(v);
        at = next;
        i = i + 1;
    }
    Ok((items, at))
}

/// Appends a counted array of big-endian 64-bit integers. Nothing is written, and `false`
/// comes back, when the items are too many for a length prefix.
pub fn put_long_array(out: &mut Vec<u8>, items: &Vec<i64>) -> (done: bool)
    ensures
        done <==> items.len() <= MAX_LENGTH,
        done ==> final(out)@ == old(out)@ + encode_counted(long_writer(), items@),
        !done ==> final(out)@ == old(out)@,
{
    if items.len() > MAX_LENGTH {
        return false;
    }
    put_varint(out, items.len() as i32);
    let ghost start = out@;
    let mut i: usize = 0;
    while i < items.len()
        invariant
            i <= items.len(),
            out@ == start + encode_repeat(long_writer(), items@.take(i as int)),
        decreases items.len() - i,
    {
        proof {
            lemma_encode_repeat_push(long_writer(), items@.take(i as int), items@[i as int]);
            assert(items@.take(i + 1) =~= items@.take(i as int).push(items@[i as int]));
        }
        put_i64(out, items[i]);
        i = i + 1;
    }
    assert(items@.take(items.len() as int) =~= items@);
    true
}

/// Reads a counted array of big-endian 64-bit integers at `pos`.
pub fn read_long_array(bytes: &[u8], pos: usize) -> (r: Result<(Vec<i64>, usize), DecodeError>)
    ensures
        match r {
            Ok((v, next)) => parse_counted(long_reader(), bytes@, pos as int) == Ok::<
                (Seq<i64>, int),
                DecodeError,
            >((v@, next as int)),
            Err(e) => parse_counted(long_reader(), bytes@, pos as int) == Err::<
                (Seq<i64>, int),
                DecodeError,
            >(e),
        },
{
    let (n, first) = match read_varint(bytes, pos) {
        Ok(found) => found,
        Err(e) => { return Err(e); },
    };
    if n < 0 {
        return Err(DecodeError::InvalidLength);
    }
    let count: usize = n as usize;
    let mut items: Vec<i64> = Vec::new();
    let mut at: usize = first;
    let mut i: usize = 0;
    while i < count
        invariant
            i <= count,
            parse_counted(long_reader(), bytes@, pos as int) == parse_repeat(
                long_reader(),
                bytes@,
                at as int,
                (count - i) as nat,
                items@,
            ),
        decreases count - i,
    {
        let (v, next) = match read_i64(bytes, at) {
            Ok(found) => found,
            Err(e) => { return Err(e); },
        };
        items.push(v);
        at = next;
        i = i + 1;
    }
    Ok((items, at))
}

/// Appends the big-endian 32-bit forms of `items`, without a count.
pub fn put_int_run(out: &mut Vec<u8>, items: &Vec<i32>)
    ensures
        final(out)@ == old(out)@ + encode_repeat(int_writer(), items@),
{
    let ghost start = out@;
    let mut i: usize = 0;
    while i < items.len()
        invariant
            i <= items.len(),
            out@ == start + encode_repeat(int_writer(), items@.take(i as int)),
        decreases items.len() - i,
    {
        proof {
            lemma_encode_repeat_push(int_writer(), items@.take(i as int), items@[i as int]);
            assert(items@.take(i + 1) =~= items@.take(i as int).push(items@[i as int]));
        }
        put_i32(out, items[i]);
        i = i + 1;
    }
    assert(items@.take(items.len() as int) =~= items@);
}

/// Reads `count` big-endian 32-bit integers at `pos`.
pub fn read_int_run(bytes: &[u8], pos: usize, count: usize) -> (r: Result<
    (Vec<i32>, usize),
    DecodeError,
>)
    ensures
        match r {
            Ok((v, next)) => parse_repeat(
                int_reader(),
                bytes@,
                pos as int,
                count as nat,
                Seq::empty(),
            ) == Ok::<(Seq<i32>, int), DecodeError>((v@, next as int)),
            Err(e) => parse_repeat(int_reader(), bytes@, pos as int, count as nat, Seq::empty())
                == Err::<(Seq<i32>, int), DecodeError>(e),
        },
{
    let mut items: Vec<i32> = Vec::new();
    let mut at: usize = pos;
    let mut i: usize = 0;
    while i < count
        invariant
            i <= count,
            parse_repeat(int_reader(), bytes@, pos as int, count as nat, Seq::empty())
                == parse_repeat(int_reader(), bytes@, at as int, (count - i) as nat, items@),
        decreases count - i,
    {
        let (v, next) = match read_i32(bytes, at) {
            Ok(found) => found,
            Err(e) => { return Err(e); },
        };
        items.push(v);
        at = next;
        i = i + 1;
    }
    Ok((items, at))
}

} // verus!
