//! The two number codes of the wire format: the zig-zag code, which makes a
//! signed number an unsigned one, and the variable-length code of an unsigned
//! number in groups of seven bits.

use vstd::prelude::*;
use crate::error::DecodeError;

verus! {

/// The zig-zag code of `n`: 0, -1, 1, -2, ... become 0, 1, 2, 3, ...
pub open spec fn zig_zag_of(n: i64) -> u64 {
    if n >= 0 {
        (2 * n) as u64
    } else {
        (-2 * n - 1) as u64
    }
}

/// The number whose zig-zag code is `u`.
pub open spec fn zig_zag_decoded(u: u64) -> i64 {
    if u % 2 == 0 {
        (u / 2) as i64
    } else {
        (-(u / 2) - 1) as i64
    }
}

/// The zig-zag code of a signed number.
pub fn zig_zag_encode(num: i64) -> (r: u64)
    ensures
        r == zig_zag_of(num),
{
    assert(((num << 1) ^ (num >> 63)) as u64 == if num >= 0 {
        (2 * num) as u64
    } else {
        (-2 * num - 1) as u64
    }) by (bit_vector);
    // If num < 0, num >> 63 is all 1 and vice versa.
    ((num << 1) ^ (num >> 63)) as u64
}

/// The signed number that a zig-zag code stands for.
pub fn zig_zag_decode(encoded: u64) -> (r: i64)
    ensures
        r == zig_zag_decoded(encoded),
{
    let half: i64 = (encoded / 2) as i64;
    if encoded % 2 == 0 {
        half
    } else {
        -half - 1
    }
}

/// Decoding undoes the zig-zag code.
pub proof fn lemma_zig_zag_round_trip(n: i64)
    ensures
        zig_zag_decoded(zig_zag_of(n)) == n,
{
}

/// Every unsigned number is the zig-zag code of the number that it decodes to.
pub proof fn lemma_zig_zag_onto(u: u64)
    ensures
        zig_zag_of(zig_zag_decoded(u)) == u,
{
}

/// The bytes of `v` from its group `group` on, where `v` holds what is left
/// of the number: seven bits to a byte, lowest first, each byte but the last
/// with its high bit set; the ninth byte holds the eight bits that are left.
pub open spec fn varint_bytes_from(v: nat, group: nat) -> Seq<u8>
    decreases 8 - group,
{
    if group >= 8 || v < 128 {
        seq![v as u8]
    } else {
        seq![(v % 128 + 128) as u8] + varint_bytes_from(v / 128, group + 1)
    }
}

/// The variable-length code of `v`: one to nine bytes.
pub open spec fn varint_bytes(v: u64) -> Seq<u8> {
    varint_bytes_from(v as nat, 0)
}

/// The number that starts at byte `at` of `s` with its group `group`, and the
/// place where it ends; nothing if `s` ends first.
pub open spec fn varint_parse_from(s: Seq<u8>, at: int, group: nat) -> Option<(nat, int)>
    decreases 8 - group,
{
    if at < 0 || at >= s.len() {
        None
    } else if group >= 8 || s[at] < 128 {
        Some((s[at] as nat, at + 1))
    } else {
        match varint_parse_from(s, at + 1, group + 1) {
            Some((rest, end)) => Some(((s[at] - 128 + 128 * rest) as nat, end)),
            None => None,
        }
    }
}

/// The number whose variable-length code starts at byte `at` of `s`, and the
/// place where the code ends; nothing if `s` ends first.
pub open spec fn varint_parse(s: Seq<u8>, at: int) -> Option<(nat, int)> {
    varint_parse_from(s, at, 0)
}

/// 128 to the power of `group`.
pub open spec fn pow128(group: nat) -> nat
    decreases group,
{
    if group == 0 {
        1
    } else {
        128 * pow128((group - 1) as nat)
    }
}

/// The powers of 128 that a 64-bit number has groups for.
pub proof fn lemma_pow128_values()
    ensures
        pow128(0) == 1,
        pow128(1) == 0x80,
        pow128(2) == 0x4000,
        pow128(3) == 0x20_0000,
        pow128(4) == 0x1000_0000,
        pow128(5) == 0x8_0000_0000,
        pow128(6) == 0x400_0000_0000,
        pow128(7) == 0x2_0000_0000_0000,
        pow128(8) == 0x100_0000_0000_0000,
{
    reveal_with_fuel(pow128, 10);
}

/// A code has one to nine bytes, less the groups that came before.
pub proof fn lemma_varint_bytes_len(v: nat, group: nat)
    requires
        group <= 8,
    ensures
        1 <= varint_bytes_from(v, group).len() <= 9 - group,
    decreases 8 - group,
{
    if group < 8 && v >= 128 {
        lemma_varint_bytes_len(v / 128, group + 1);
    }
}

/// A number that is read ends after one to nine bytes, less the groups that
/// came before, and is below what its groups can hold.
pub proof fn lemma_varint_parse_bounds(s: Seq<u8>, at: int, group: nat)
    requires
        group <= 8,
        varint_parse_from(s, at, group).is_some(),
    ensures
        at < varint_parse_from(s, at, group).unwrap().1 <= at + 9 - group,
        varint_parse_from(s, at, group).unwrap().1 <= s.len(),
        varint_parse_from(s, at, group).unwrap().0 * pow128(group) < 0x1_0000_0000_0000_0000,
    decreases 8 - group,
{
    lemma_pow128_values();
    if group >= 8 || s[at] < 128 {
        let b = s[at] as int;
        let p = pow128(group) as int;
        if group >= 8 {
        } else {
            lemma_pow128_monotone(group, 8);
            assert(b * p < 0x1_0000_0000_0000_0000) by (nonlinear_arith)
                requires
                    0 <= b < 128,
                    0 < p <= 0x100_0000_0000_0000,
            ;
        }
    } else {
        lemma_varint_parse_bounds(s, at + 1, group + 1);
        let rest = varint_parse_from(s, at + 1, group + 1).unwrap().0 as int;
        let p = pow128(group) as int;
        let b = s[at] as int;
        assert(pow128(group + 1) == 128 * p) by {
            reveal_with_fuel(pow128, 2);
        }
        lemma_pow128_monotone(group, 8);
        lemma_pow128_monotone(0, group);
        assert(0 <= (b - 128) * p < 128 * p) by (nonlinear_arith)
            requires
                128 <= b < 256,
                p > 0,
        ;
        lemma_fits_below(rest, (b - 128) * p, 128 * p, 0x1_0000_0000_0000_0000);
        assert((b - 128 + 128 * rest) * p == (b - 128) * p + (128 * p) * rest)
            by (nonlinear_arith);
    }
}

/// A number below `p`, added to a multiple of `p` that is below a multiple
/// `m` of `p`, is below `m`.
pub proof fn lemma_fits_below(x: int, y: int, p: int, m: int)
    requires
        p > 0,
        m % p == 0,
        x * p < m,
        0 <= y < p,
    ensures
        y + p * x < m,
{
    let k = m / p;
    vstd::arithmetic::div_mod::lemma_fundamental_div_mod(m, p);
    assert(x < k) by (nonlinear_arith)
        requires
            x * p < p * k,
            p > 0,
    ;
    assert(p * x + p <= p * k) by (nonlinear_arith)
        requires
            x + 1 <= k,
            p > 0,
    ;
}

/// The powers of 128 grow with the exponent, and divide `2^64` up to the
/// eighth.
pub proof fn lemma_pow128_monotone(a: nat, b: nat)
    requires
        a <= b <= 8,
    ensures
        0 < pow128(a) <= pow128(b),
        0x1_0000_0000_0000_0000int % (pow128(b) as int) == 0,
        b < 8 ==> 0x1_0000_0000_0000_0000int % (128 * pow128(b)) as int == 0,
{
    lemma_pow128_values();
    reveal_with_fuel(pow128, 10);
    assert(0x1_0000_0000_0000_0000int % 0x1 == 0);
    assert(0x1_0000_0000_0000_0000int % 0x80 == 0);
    assert(0x1_0000_0000_0000_0000int % 0x4000 == 0);
    assert(0x1_0000_0000_0000_0000int % 0x20_0000 == 0);
    assert(0x1_0000_0000_0000_0000int % 0x1000_0000 == 0);
    assert(0x1_0000_0000_0000_0000int % 0x8_0000_0000 == 0);
    assert(0x1_0000_0000_0000_0000int % 0x400_0000_0000 == 0);
    assert(0x1_0000_0000_0000_0000int % 0x2_0000_0000_0000 == 0);
    assert(0x1_0000_0000_0000_0000int % 0x100_0000_0000_0000 == 0);
    if b == 0 {
    } else if b == 1 {
    } else if b == 2 {
    } else if b == 3 {
    } else if b == 4 {
    } else if b == 5 {
    } else if b == 6 {
    } else if b == 7 {
    } else {
    }
}

/// Reading what was written gives the number back, wherever the code
/// stands and whatever follows it.
pub proof fn lemma_varint_round_trip_from(
    v: nat,
    group: nat,
    before: Seq<u8>,
    after: Seq<u8>,
)
    requires
        group <= 8,
        v * pow128(group) < 0x1_0000_0000_0000_0000,
    ensures
        varint_parse_from(
            before + varint_bytes_from(v, group) + after,
            before.len() as int,
            group,
        ) == Some((v, (before.len() + varint_bytes_from(v, group).len()) as int)),
    decreases 8 - group,
{
    let code = varint_bytes_from(v, group);
    let s = before + code + after;
    let at = before.len() as int;
    lemma_pow128_values();
    lemma_pow128_monotone(group, 8);
    assert(s[at] == code[0]);
    if group >= 8 {
        assert(v < 256) by (nonlinear_arith)
            requires
                v * 0x100_0000_0000_0000 < 0x1_0000_0000_0000_0000,
        ;
    } else if v < 128 {
    } else {
        let first = seq![(v % 128 + 128) as u8];
        let rest = varint_bytes_from(v / 128, group + 1);
        assert(pow128(group + 1) == 128 * pow128(group)) by {
            reveal_with_fuel(pow128, 2);
        }
        assert((v / 128) * (128 * pow128(group)) <= v * pow128(group)) by (nonlinear_arith)
            requires
                (v / 128) * 128 <= v,
                pow128(group) > 0,
        ;
        lemma_varint_round_trip_from(v / 128, group + 1, before + first, after);
        assert(before + first + rest + after =~= s);
        assert(code.len() == 1 + rest.len());
    }
}

/// Reading what was written gives the number back.
pub proof fn lemma_varint_round_trip(v: u64, before: Seq<u8>, after: Seq<u8>)
    ensures
        varint_parse(before + varint_bytes(v) + after, before.len() as int) == Some(
            (v as nat, (before.len() + varint_bytes(v).len()) as int),
        ),
        1 <= varint_bytes(v).len() <= 9,
{
    lemma_pow128_values();
    lemma_varint_bytes_len(v as nat, 0);
    lemma_varint_round_trip_from(v as nat, 0, before, after);
}

/// Write a number as a LEB128-64b9B little endian base 128 varint to buf. This is not
/// quite the same as Protobuf's LEB128 as it encodes 64 bit values in a max of 9 bytes, not 10.
/// The first 8 7-bit chunks are encoded normally (up through the first 7 bytes of input). The last
/// byte is added to the buf as-is. This limits the input to 8 bytes, but that's all we need.
pub fn varint_write(input: u64, buf: &mut Vec<u8>)
    ensures
        final(buf)@ == old(buf)@ + varint_bytes(input),
{
    let mut rest: u64 = input;
    let mut group: u8 = 0;
    proof {
        lemma_pow128_values();
    }
    while group < 8 && rest >= 128
        invariant
            group <= 8,
            rest * pow128(group as nat) < 0x1_0000_0000_0000_0000,
            buf@ + varint_bytes_from(rest as nat, group as nat) == old(buf)@ + varint_bytes(input),
        decreases 8 - group,
    {
        let ghost before = buf@;
        proof {
            reveal_with_fuel(pow128, 2);
            lemma_pow128_monotone(group as nat, 8);
            assert((rest / 128) * (128 * pow128(group as nat)) <= rest * pow128(group as nat))
                by (nonlinear_arith)
                requires
                    (rest / 128) * 128 <= rest,
                    pow128(group as nat) > 0,
            ;
        }
        let low: u8 = (rest % 128) as u8;
        // set high bit because more bytes are coming, then next 7 bits of value.
        buf.push(low + 128);
        proof {
            assert(before + varint_bytes_from(rest as nat, group as nat) =~= before.push(
                (low + 128) as u8,
            ) + varint_bytes_from((rest / 128) as nat, (group + 1) as nat));
        }
        rest = rest / 128;
        group += 1;
    }
    let ghost before = buf@;
    // the last byte: what is left of the value, without a high bit to tell of more
    buf.push(rest as u8);
    proof {
        if group >= 8 {
            // eight groups of seven bits are gone: eight bits are left
            lemma_pow128_values();
            assert(rest < 256) by (nonlinear_arith)
                requires
                    rest * 0x100_0000_0000_0000 < 0x1_0000_0000_0000_0000,
            ;
        }
        assert(before + varint_bytes_from(rest as nat, group as nat) =~= before.push(rest as u8));
    }
}

/// Read the number whose code starts at `*position`, and move `*position`
/// to where the code ends. If the bytes end first, nothing is read and
/// `*position` is left where it was.
pub fn varint_read(bytes: &[u8], position: &mut usize) -> (r: Result<u64, DecodeError>)
    ensures
        match varint_parse(bytes@, *old(position) as int) {
            Some((value, end)) => r == Ok::<u64, DecodeError>(value as u64) && *final(position)
                == end,
            None => r == Err::<u64, DecodeError>(DecodeError::TruncatedInput) && *final(position)
                == *old(position),
        },
{
    let start: usize = *position;
    let mut at: usize = start;
    let mut value: u64 = 0;
    let mut scale: u64 = 1;
    let mut group: u8 = 0;
    proof {
        lemma_pow128_values();
    }
    loop
        invariant
            *position == start,
            start == *old(position),
            start <= at,
            at - start == group,
            group <= 8,
            scale == pow128(group as nat),
            value < scale,
            varint_parse(bytes@, start as int) == (match varint_parse_from(
                bytes@,
                at as int,
                group as nat,
            ) {
                Some((rest, end)) => Some(((value + scale * rest) as nat, end)),
                None => None,
            }),
        decreases 9 - group,
    {
        if at >= bytes.len() {
            return Err(DecodeError::TruncatedInput);
        }
        let b: u8 = bytes[at];
        proof {
            lemma_pow128_values();
            lemma_pow128_monotone(group as nat, 8);
            reveal_with_fuel(pow128, 2);
        }
        if group >= 8 || b < 128 {
            // the last byte of the number; the ninth byte has no high bit to test
            proof {
                let p = scale as int;
                assert(value + p * b < p * (b + 1) && p * (b + 1) <= p * 256 && (b < 128 ==> p * (b
                    + 1) <= p * 128)) by (nonlinear_arith)
                    requires
                        0 <= value < p,
                        0 <= b <= 255,
                ;
            }
            *position = at + 1;
            return Ok(value + scale * (b as u64));
        }
        proof {
            let p = scale as int;
            let rest = varint_parse_from(bytes@, at as int + 1, (group + 1) as nat);
            assert(value + p * (b - 128) < p * 128 && p * (b - 128) >= 0) by (nonlinear_arith)
                requires
                    128 <= b <= 255,
                    0 <= value < p,
            ;
            if rest.is_some() {
                let r = rest.unwrap().0 as int;
                assert(value + p * (b - 128 + 128 * r) == (value + p * (b - 128)) + (128 * p) * r)
                    by (nonlinear_arith);
            }
        }
        value = value + scale * ((b - 128) as u64);
        scale = scale * 128;
        group += 1;
        at += 1;
    }
}

} // verus!
