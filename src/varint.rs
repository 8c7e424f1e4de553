use vstd::prelude::*;
use vstd::slice::slice_subrange;

use crate::error::ProtocolError;

verus! {

/// The varint encoding of the 32-bit pattern `u`: seven bits per byte, least
/// significant group first, the high bit set on every byte but the last.
pub open spec fn varint_bytes(u: u32) -> Seq<u8>
    decreases u,
{
    if u < 128 {
        seq![u as u8]
    } else {
        seq![(u % 128 + 128) as u8] + varint_bytes(u / 128)
    }
}

/// The encoding of a signed value is that of its two's-complement bit pattern.
pub open spec fn encode_var_int(v: i32) -> Seq<u8> {
    varint_bytes(v as u32)
}

/// How many leading bytes of `s` carry the continuation bit.
pub open spec fn continuations(s: Seq<u8>) -> nat
    decreases s.len(),
{
    if s.len() == 0 || s[0] < 128 {
        0
    } else {
        1 + continuations(s.drop_first())
    }
}

/// `s` starts with a varint that ends within its first five bytes.
pub open spec fn varint_complete(s: Seq<u8>) -> bool {
    continuations(s) < 5 && continuations(s) < s.len()
}

/// Length of the complete varint at the start of `s`.
pub open spec fn varint_width(s: Seq<u8>) -> nat {
    continuations(s) + 1
}

/// How many bytes a decoder takes from `s`: up to and including the
/// terminating byte, but never more than five and never past the end.
pub open spec fn varint_read_len(s: Seq<u8>) -> nat {
    if varint_complete(s) {
        varint_width(s)
    } else if s.len() < 5 {
        s.len()
    } else {
        5
    }
}

pub open spec fn pow128(n: nat) -> nat
    decreases n,
{
    if n == 0 {
        1
    } else {
        128 * pow128((n - 1) as nat)
    }
}

/// The 7-bit groups of `s` read as one number, the first group least significant.
pub open spec fn groups_sum(s: Seq<u8>) -> nat
    decreases s.len(),
{
    if s.len() == 0 {
        0
    } else {
        groups_sum(s.drop_last()) + (s.last() % 128) as nat * pow128((s.len() - 1) as nat)
    }
}

/// The value of the complete varint at the start of `s`: its groups, with the
/// bits above the 32nd dropped, read as a two's-complement integer.
pub open spec fn varint_value(s: Seq<u8>) -> i32 {
    ((groups_sum(s.take(varint_width(s) as int)) % 0x1_0000_0000) as u32) as i32
}

proof fn lemma_continuations_bound(s: Seq<u8>)
    ensures
        continuations(s) <= s.len(),
    decreases s.len(),
{
    if s.len() > 0 && s[0] >= 128 {
        lemma_continuations_bound(s.drop_first());
    }
}

/// Below the count of continuation bytes every byte has its high bit set; the
/// byte at that count, if any, has it clear.
proof fn lemma_continuations_at(s: Seq<u8>, i: int)
    requires
        0 <= i < s.len(),
        i <= continuations(s),
    ensures
        (continuations(s) > i) == (s[i] >= 128),
    decreases i,
{
    if i > 0 {
        lemma_continuations_at(s.drop_first(), i - 1);
    }
}

proof fn lemma_groups_sum_concat(a: Seq<u8>, b: Seq<u8>)
    ensures
        groups_sum(a + b) == groups_sum(a) + pow128(a.len()) * groups_sum(b),
    decreases b.len(),
{
    if b.len() == 0 {
        assert(a + b =~= a);
        assert(groups_sum(b) == 0);
        assert(groups_sum(a + b) == groups_sum(a) + pow128(a.len()) * groups_sum(b));
    } else {
        let c = a + b;
        let bd = b.drop_last();
        assert(c.drop_last() =~= a + bd);
        lemma_groups_sum_concat(a, bd);
        let p = pow128(a.len());
        let q = pow128((b.len() - 1) as nat);
        let l = (b.last() % 128) as nat;
        assert(c.last() == b.last());
        assert(c.len() - 1 == a.len() + (b.len() - 1));
        lemma_pow128_add(a.len(), (b.len() - 1) as nat);
        assert(pow128((c.len() - 1) as nat) == p * q);
        assert(groups_sum(c) == groups_sum(a + bd) + l * (p * q));
        assert(groups_sum(b) == groups_sum(bd) + l * q);
        assert(groups_sum(a) + p * groups_sum(bd) + l * (p * q) == groups_sum(a) + p * (
        groups_sum(bd) + l * q)) by (nonlinear_arith);
        assert(groups_sum(a + b) == groups_sum(a) + p * groups_sum(b));
    }
}

proof fn lemma_pow128_small()
    ensures
        pow128(0) == 1,
        pow128(1) == 0x80,
        pow128(2) == 0x4000,
        pow128(3) == 0x20_0000,
        pow128(4) == 0x1000_0000,
        pow128(5) == 0x8_0000_0000,
{
    reveal_with_fuel(pow128, 6);
}

proof fn lemma_pow128_add(m: nat, n: nat)
    ensures
        pow128(m + n) == pow128(m) * pow128(n),
    decreases m,
{
    if m == 0 {
        assert(pow128(0) == 1);
        assert(m + n == n);
    } else {
        let k = (m - 1) as nat;
        lemma_pow128_add(k, n);
        assert(m + n == (k + n) + 1);
        assert(pow128(m + n) == 128 * pow128(k + n));
        assert(pow128(m) == 128 * pow128(k));
        assert(128 * (pow128(k) * pow128(n)) == (128 * pow128(k)) * pow128(n)) by (nonlinear_arith);
        assert(pow128(m + n) == pow128(m) * pow128(n));
    }
}

/// Decodes the varint at the front of `data`; also returns how many bytes
/// the decoder took.
pub fn decode_var_int(data: &[u8]) -> (r: (Result<i32, ProtocolError>, usize))
    ensures
        r.1 == varint_read_len(data@),
        varint_complete(data@) ==> r.0 == Ok::<i32, ProtocolError>(varint_value(data@)),
        !varint_complete(data@) ==> r.0 == Err::<i32, ProtocolError>(
            ProtocolError::MalformedVarint,
        ),
{
    let ghost s = data@;
    let mut acc: u64 = 0;
    let mut scale: u64 = 1;
    let mut i: usize = 0;
    proof {
        lemma_pow128_small();
        lemma_continuations_bound(s);
        assert(s.take(0) =~= Seq::<u8>::empty());
    }
    while i < 5
        invariant
            i <= 5,
            i <= s.len(),
            i <= continuations(s),
            continuations(s) <= s.len(),
            s == data@,
            scale == pow128(i as nat),
            acc == groups_sum(s.take(i as int)),
            acc < scale,
        decreases 5 - i,
    {
        if i == data.len() {
            assert(continuations(s) == s.len());
            return (Err(ProtocolError::MalformedVarint), i);
        }
        let byte = data[i];
        proof {
            lemma_pow128_small();
            assert(scale <= 0x1000_0000) by {
                assert(i == 0 || i == 1 || i == 2 || i == 3 || i == 4);
            }
            lemma_continuations_at(s, i as int);
            assert(s.take(i + 1).drop_last() =~= s.take(i as int));
        }
        let group: u64 = (byte & 0x7f) as u64;
        assert(group == (byte % 128) as nat) by (bit_vector)
            requires
                group == (byte & 0x7f) as u64,
        ;
        assert(acc + group * scale < scale * 128) by (nonlinear_arith)
            requires
                acc < scale,
                group < 128,
        ;
        acc = acc + group * scale;
        scale = scale * 128;
        i = i + 1;
        assert(acc == groups_sum(s.take(i as int)));
        if byte & 0x80 == 0 {
            assert(byte < 128) by (bit_vector)
                requires
                    byte & 0x80 == 0,
            ;
            assert(continuations(s) == i - 1);
            let low: u32 = (acc % 0x1_0000_0000) as u32;
            return (Ok(#[verifier::truncate] (low as i32)), i);
        }
        assert(byte >= 128) by (bit_vector)
            requires
                byte & 0x80 != 0,
        ;
    }
    (Err(ProtocolError::MalformedVarint), 5)
}

/// Decodes a varint from the front of `read` and advances `read` past the
/// bytes the decoder took.
pub fn read_var_int(read: &mut &[u8]) -> (r: Result<i32, ProtocolError>)
    ensures
        final(read)@ == old(read)@.skip(varint_read_len(old(read)@) as int),
        varint_complete(old(read)@) ==> r == Ok::<i32, ProtocolError>(varint_value(old(read)@)),
        !varint_complete(old(read)@) ==> r == Err::<i32, ProtocolError>(
            ProtocolError::MalformedVarint,
        ),
{
    let (r, n) = decode_var_int(*read);
    *read = slice_subrange(*read, n, read.len());
    r
}

/// Byte length of the encoding of `u`, by the range `u` falls in.
pub open spec fn varint_len_of(u: u32) -> nat {
    if u < 0x80 {
        1
    } else if u < 0x4000 {
        2
    } else if u < 0x20_0000 {
        3
    } else if u < 0x1000_0000 {
        4
    } else {
        5
    }
}

proof fn lemma_varint_len(u: u32)
    ensures
        varint_bytes(u).len() == varint_len_of(u),
    decreases u,
{
    if u >= 128 {
        lemma_varint_len(u / 128);
    }
}

/// Appends the varint encoding of `value` to `write`.
pub fn write_var_int(write: &mut Vec<u8>, value: i32)
    ensures
        final(write)@ == old(write)@ + encode_var_int(value),
{
    let mut u: u32 = value as u32;
    while u >= 128
        invariant
            old(write)@ + varint_bytes(value as u32) == write@ + varint_bytes(u),
        decreases u,
    {
        let b: u8 = (u % 128 + 128) as u8;
        let ghost before = write@;
        write.push(b);
        assert(before + varint_bytes(u) =~= write@ + varint_bytes(u / 128));
        u = u / 128;
    }
    let ghost before = write@;
    write.push(u as u8);
    assert(before + varint_bytes(u) =~= write@);
}

/// Number of bytes in the varint encoding of `i`: one per started group of
/// seven significant bits, and five for every negative value.
pub fn size_in_bytes(i: i32) -> (r: usize)
    ensures
        r == encode_var_int(i).len(),
        r == varint_len_of(i as u32),
        1 <= r <= 5,
        i < 0 ==> r == 5,
{
    let u: u32 = i as u32;
    proof {
        lemma_varint_len(u);
        if i < 0 {
            assert(u >= 0x8000_0000) by (bit_vector)
                requires u == i as u32, i < 0;
        }
    }
    if u < 0x80 {
        1
    } else if u < 0x4000 {
        2
    } else if u < 0x20_0000 {
        3
    } else if u < 0x1000_0000 {
        4
    } else {
        5
    }
}

proof fn lemma_varint_bytes_decode(u: u32, rest: Seq<u8>)
    ensures
        continuations(varint_bytes(u) + rest) == varint_bytes(u).len() - 1,
        groups_sum(varint_bytes(u)) == u,
        varint_bytes(u).len() >= 1,
    decreases u,
{
    let e = varint_bytes(u);
    if u < 128 {
        assert((e + rest)[0] == u as u8);
        assert(e.drop_last() =~= Seq::<u8>::empty());
        assert(groups_sum(Seq::<u8>::empty()) == 0);
        assert(pow128(0) == 1);
        assert(e.len() == 1 && e.last() == u as u8);
        assert(groups_sum(e) == groups_sum(e.drop_last()) + (e.last() % 128) as nat * pow128(
            (e.len() - 1) as nat,
        ));
        assert(groups_sum(e) == u);
    } else {
        let b: u8 = (u % 128 + 128) as u8;
        let tail = varint_bytes(u / 128);
        lemma_varint_bytes_decode(u / 128, rest);
        assert(e == seq![b] + tail);
        assert((e + rest)[0] == b);
        assert((e + rest).drop_first() =~= tail + rest);
        lemma_groups_sum_concat(seq![b], tail);
        assert(seq![b].drop_last() =~= Seq::<u8>::empty());
        assert(pow128(0) == 1);
        assert(pow128(1) == 128) by {
            reveal_with_fuel(pow128, 2);
        }
        let sb = seq![b];
        assert(groups_sum(Seq::<u8>::empty()) == 0);
        assert(sb.len() == 1 && sb.last() == b);
        assert(sb.drop_last() =~= Seq::<u8>::empty());
        assert(groups_sum(sb.drop_last()) == 0);
        assert(pow128((sb.len() - 1) as nat) == 1);
        assert(groups_sum(sb) == groups_sum(sb.drop_last()) + (sb.last() % 128) as nat * pow128(
            (sb.len() - 1) as nat,
        ));
        assert(groups_sum(sb) == (b % 128) as nat);
        assert(b % 128 == u % 128);
        assert(groups_sum(e) == (u % 128) as nat + 128 * ((u / 128) as nat));
    }
}

/// Decoding the encoding of any value, whatever bytes follow it, succeeds,
/// takes exactly the encoding's bytes and yields the value back.
pub proof fn lemma_var_int_round_trip(v: i32, rest: Seq<u8>)
    ensures
        varint_complete(encode_var_int(v) + rest),
        varint_read_len(encode_var_int(v) + rest) == encode_var_int(v).len(),
        varint_value(encode_var_int(v) + rest) == v,
{
    let u = v as u32;
    let e = varint_bytes(u);
    let s = e + rest;
    lemma_varint_bytes_decode(u, rest);
    lemma_varint_len(u);
    assert(s.take(varint_width(s) as int) =~= e);
    assert((u as nat) % 0x1_0000_0000 == u as nat);
    assert((u as u32) as i32 == v) by (bit_vector)
        requires
            u == v as u32,
    ;
}

/// Every encoding takes one to five bytes, as many as `size_in_bytes` counts,
/// and the decoder never accepts a varint longer than five bytes.
pub proof fn lemma_var_int_length_bound(v: i32, s: Seq<u8>)
    ensures
        encode_var_int(v).len() == varint_len_of(v as u32),
        1 <= encode_var_int(v).len() <= 5,
        varint_complete(s) ==> varint_read_len(s) <= 5,
        varint_read_len(s) <= 5,
{
    lemma_varint_len(v as u32);
}

} // verus!
