//! Unsigned LEB128 length prefixes: seven value bits per byte, least
//! significant group first, the high bit set on every byte but the last.

use vstd::prelude::*;
use crate::error::CarError;
use crate::stream::ByteStream;

verus! {

/// The longest prefix that is read: ten bytes carry seventy bits.
pub const MAX_VARINT_LEN: usize = 10;

/// The bytes that encode `n`.
pub open spec fn varint_encoding(n: nat) -> Seq<u8>
    decreases n,
{
    if n < 128 {
        seq![n as u8]
    } else {
        seq![(n % 128 + 128) as u8] + varint_encoding(n / 128)
    }
}

/// What the front of `s` holds, read with at most `budget` bytes: the number
/// that the groups add up to, without bound, and how many bytes they take.
pub open spec fn varint_parse(s: Seq<u8>, budget: nat) -> Result<(nat, nat), CarError>
    decreases budget,
{
    if budget == 0 {
        Err(CarError::VarintOverflow)
    } else if s.len() == 0 {
        Err(CarError::UnexpectedEof)
    } else if s[0] < 128 {
        Ok((s[0] as nat, 1))
    } else {
        match varint_parse(s.skip(1), (budget - 1) as nat) {
            Ok((rest, used)) => Ok(((s[0] - 128) as nat + 128 * rest, used + 1)),
            Err(e) => Err(e),
        }
    }
}

/// The length prefix at position `pos` of `s`: its value as sixty-four bits
/// keep it, and the position behind it.
pub open spec fn varint_at(s: Seq<u8>, pos: int) -> Result<(u64, int), CarError> {
    if 0 <= pos <= s.len() {
        match varint_parse(s.skip(pos), MAX_VARINT_LEN as nat) {
            Ok((value, used)) => Ok(((value % 0x1_0000_0000_0000_0000) as u64, pos + used)),
            Err(e) => Err(e),
        }
    } else {
        Err(CarError::UnexpectedEof)
    }
}

/// 128 to the power `k`: the weight of the group at index `k`.
pub open spec fn group_weight(k: nat) -> nat
    decreases k,
{
    if k == 0 {
        1
    } else {
        128 * group_weight((k - 1) as nat)
    }
}

proof fn lemma_group_weights()
    ensures
        group_weight(0) == 0x1,
        group_weight(1) == 0x80,
        group_weight(2) == 0x4000,
        group_weight(3) == 0x20_0000,
        group_weight(4) == 0x1000_0000,
        group_weight(5) == 0x8_0000_0000,
        group_weight(6) == 0x400_0000_0000,
        group_weight(7) == 0x2_0000_0000_0000,
        group_weight(8) == 0x100_0000_0000_0000,
        group_weight(9) == 0x8000_0000_0000_0000,
        group_weight(10) == 0x40_0000_0000_0000_0000,
{
    reveal_with_fuel(group_weight, 11);
}

/// An encoding is as long as the number of groups that the number needs.
pub proof fn lemma_encoding_len(n: nat, k: nat)
    requires
        k >= 1,
        n < group_weight(k),
    ensures
        1 <= varint_encoding(n).len() <= k,
    decreases k,
{
    reveal_with_fuel(group_weight, 2);
    if n >= 128 {
        lemma_encoding_len(n / 128, (k - 1) as nat);
    }
}

/// No sixty-four bit number takes more than ten bytes.
pub proof fn lemma_encoding_fits(n: nat)
    requires
        n <= u64::MAX,
    ensures
        1 <= varint_encoding(n).len() <= MAX_VARINT_LEN,
{
    lemma_group_weights();
    lemma_encoding_len(n, 10);
}

/// Reading what was written gives the number back, whatever follows it.
pub proof fn lemma_parse_encoding(n: nat, rest: Seq<u8>, budget: nat)
    requires
        budget >= varint_encoding(n).len(),
    ensures
        varint_parse(varint_encoding(n) + rest, budget) == Ok::<(nat, nat), CarError>(
            (n, varint_encoding(n).len()),
        ),
    decreases n,
{
    let s = varint_encoding(n) + rest;
    if n >= 128 {
        let tail = varint_encoding(n / 128);
        assert(s.skip(1) =~= tail + rest);
        lemma_parse_encoding(n / 128, rest, (budget - 1) as nat);
    }
}

/// A prefix takes at least one byte, and no more than are there or allowed.
pub proof fn lemma_parse_bounds(s: Seq<u8>, budget: nat)
    requires
        varint_parse(s, budget) is Ok,
    ensures
        1 <= varint_parse(s, budget).unwrap().1 <= s.len(),
        varint_parse(s, budget).unwrap().1 <= budget,
    decreases budget,
{
    if s[0] >= 128 {
        lemma_parse_bounds(s.skip(1), (budget - 1) as nat);
    }
}

/// A prefix is read from its own bytes alone: a sequence that starts with the
/// same bytes holds the same prefix.
pub proof fn lemma_parse_local(s: Seq<u8>, t: Seq<u8>, budget: nat)
    requires
        varint_parse(s, budget) is Ok,
        t.len() >= varint_parse(s, budget).unwrap().1,
        forall|i: int| 0 <= i < varint_parse(s, budget).unwrap().1 ==> t[i] == s[i],
    ensures
        varint_parse(t, budget) == varint_parse(s, budget),
    decreases budget,
{
    if s[0] >= 128 {
        let used = varint_parse(s.skip(1), (budget - 1) as nat).unwrap().1;
        lemma_parse_bounds(s.skip(1), (budget - 1) as nat);
        assert forall|i: int| 0 <= i < used implies t.skip(1)[i] == s.skip(1)[i] by {}
        lemma_parse_local(s.skip(1), t.skip(1), (budget - 1) as nat);
    }
}

/// Encodes `value` as a length prefix.
pub fn write_varint_to_vec(value: u64) -> (out: Vec<u8>)
    ensures
        out@ == varint_encoding(value as nat),
        1 <= out.len() <= MAX_VARINT_LEN,
{
    let mut out: Vec<u8> = Vec::new();
    let mut rest: u64 = value;
    proof {
        lemma_encoding_fits(value as nat);
    }
    while rest >= 0x80
        invariant
            varint_encoding(value as nat) == out@ + varint_encoding(rest as nat),
            varint_encoding(value as nat).len() <= MAX_VARINT_LEN,
        decreases rest,
    {
        let group: u8 = ((rest & 0x7f) as u8) | 0x80;
        let next: u64 = rest >> 7;
        proof {
            assert(((rest & 0x7f) as u8) | 0x80 == (rest % 128 + 128) as u8) by (bit_vector);
            assert(rest >> 7 == rest / 128) by (bit_vector);
            assert(out@.push(group) + varint_encoding(next as nat) =~= out@ + varint_encoding(
                rest as nat,
            ));
        }
        out.push(group);
        rest = next;
    }
    out.push(rest as u8);
    out
}

/// The value that the groups read so far and the rest of the prefix give.
spec fn resume(
    so_far: nat,
    groups: nat,
    rest: Result<(nat, nat), CarError>,
) -> Result<(nat, nat), CarError> {
    match rest {
        Ok((value, used)) => Ok((so_far + group_weight(groups) * value, used + groups)),
        Err(e) => Err(e),
    }
}

proof fn lemma_resume_step(s: Seq<u8>, at: int, so_far: nat, groups: nat)
    requires
        0 <= at < s.len(),
        groups < 10,
        s[at] >= 128,
    ensures
        resume(so_far, groups, varint_parse(s.skip(at), (10 - groups) as nat)) == resume(
            so_far + (s[at] - 128) as nat * group_weight(groups),
            groups + 1,
            varint_parse(s.skip(at + 1), (9 - groups) as nat),
        ),
{
    assert(s.skip(at).skip(1) =~= s.skip(at + 1));
    let low = (s[at] - 128) as nat;
    let w = group_weight(groups);
    match varint_parse(s.skip(at + 1), (9 - groups) as nat) {
        Ok((value, used)) => {
            assert(w * (low + 128 * value) == low * w + (128 * w) * value) by (nonlinear_arith);
        },
        Err(e) => {},
    }
}

/// Reads the length prefix that starts at `pos` in `bytes`.
pub fn decode_varint(bytes: &[u8], pos: u64) -> (r: Result<(u64, u64), CarError>)
    ensures
        match varint_at(bytes@, pos as int) {
            Ok((value, next)) => r matches Ok((v, p)) && v == value && p == next && pos < next
                <= bytes@.len(),
            Err(e) => r == Err::<(u64, u64), CarError>(e),
        },
{
    let len: usize = bytes.len();
    if pos > len as u64 {
        return Err(CarError::UnexpectedEof);
    }
    let mut value: u64 = 0;
    let mut shift: u32 = 0;
    let mut groups: usize = 0;
    let mut at: usize = pos as usize;
    let ghost whole = varint_parse(bytes@.skip(pos as int), MAX_VARINT_LEN as nat);
    proof {
        assert(1u64 << 0u32 == 1u64) by (bit_vector);
    }
    loop
        invariant
            len == bytes@.len(),
            groups <= 9,
            shift == 7 * groups,
            at == pos + groups,
            at <= len,
            value < group_weight(groups as nat),
            group_weight(groups as nat) == (1u64 << shift),
            whole == varint_parse(bytes@.skip(pos as int), MAX_VARINT_LEN as nat),
            whole == resume(
                value as nat,
                groups as nat,
                varint_parse(bytes@.skip(at as int), (10 - groups) as nat),
            ),
        decreases 10 - groups,
    {
        if at >= len {
            return Err(CarError::UnexpectedEof);
        }
        let b: u8 = bytes[at];
        let low: u64 = (b & 0x7f) as u64;
        if b & 0x80 == 0 {
            proof {
                assert(b & 0x80 == 0 ==> b < 128 && (b & 0x7f) as u64 == b as u64) by (bit_vector);
                lemma_last_group(value, low, shift);
                let w = group_weight(groups as nat);
                assert(varint_parse(bytes@.skip(at as int), (10 - groups) as nat) == Ok::<
                    (nat, nat),
                    CarError,
                >((b as nat, 1)));
                assert(w * b == low * (1u64 << shift)) by (nonlinear_arith)
                    requires
                        w == (1u64 << shift),
                        low == b,
                ;
                assert(whole == Ok::<(nat, nat), CarError>(
                    ((value + w * b) as nat, (groups + 1) as nat),
                ));
            }
            return Ok((value | (low << shift), (at + 1) as u64));
        }
        proof {
            assert(b & 0x80 != 0 ==> b >= 128 && (b & 0x7f) as u64 == (b - 128) as u64)
                by (bit_vector);
            lemma_resume_step(bytes@, at as int, value as nat, groups as nat);
        }
        if groups == 9 {
            return Err(CarError::VarintOverflow);
        }
        proof {
            lemma_next_group(value, low, shift);
        }
        value = value | (low << shift);
        shift = shift + 7;
        groups = groups + 1;
        at = at + 1;
    }
}

/// Placing a group above the groups read so far adds its weighted value.
proof fn lemma_next_group(value: u64, low: u64, shift: u32)
    requires
        shift <= 56,
        value < (1u64 << shift),
        low < 128,
    ensures
        (value | (low << shift)) == value + low * (1u64 << shift),
        (value | (low << shift)) < (1u64 << ((shift + 7) as u32)),
        (1u64 << ((shift + 7) as u32)) == 128 * (1u64 << shift),
{
    assert(shift <= 56 && value < (1u64 << shift) && low < 128 ==> (value | (low << shift))
        == value + low * (1u64 << shift) && (value | (low << shift)) < (1u64 << ((shift
        + 7) as u32)) && (1u64 << ((shift + 7) as u32)) == 128 * (1u64 << shift))
        by (bit_vector);
}

/// The last group of a prefix: what sixty-four bits keep of the sum.
proof fn lemma_last_group(value: u64, low: u64, shift: u32)
    requires
        shift <= 63,
        value < (1u64 << shift),
        low < 128,
    ensures
        (value | (low << shift)) == (value + low * (1u64 << shift)) % 0x1_0000_0000_0000_0000,
{
    assert(shift <= 63 && value < (1u64 << shift) && low < 128 ==> (value | (low << shift)) == (
    value + low * (1u64 << shift)) % 0x1_0000_0000_0000_0000) by (bit_vector);
}

/// Reads the length prefix at the position of `reader` and moves behind it.
/// Where there is none the position stays.
pub fn read_varint(reader: &mut ByteStream) -> (r: Result<u64, CarError>)
    ensures
        final(reader)@.bytes == old(reader)@.bytes,
        match varint_at(old(reader)@.bytes, old(reader)@.pos as int) {
            Ok((value, next)) => r == Ok::<u64, CarError>(value) && final(reader)@.pos == next,
            Err(e) => r == Err::<u64, CarError>(e) && final(reader)@.pos == old(reader)@.pos,
        },
{
    let start: u64 = reader.position();
    let found = decode_varint(reader.as_slice(), start);
    match found {
        Ok((value, next)) => {
            reader.seek(next);
            Ok(value)
        },
        Err(e) => Err(e),
    }
}

} // verus!
