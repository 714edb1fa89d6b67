use vstd::prelude::*;
use crate::error::CodecError;
use crate::stream::ByteStream;

verus! {

/// The variable-length encoding of a 32-bit value: seven payload bits per
/// byte, least-significant group first, with the high bit set on every byte
/// but the last. A `u32` always encodes to between one and five bytes.
pub open spec fn venc(v: u32) -> Seq<u8>
    decreases v,
{
    if v < 128 {
        seq![v as u8]
    } else {
        seq![((v as int) % 128 + 128) as u8] + venc(((v as int) / 128) as u32)
    }
}

/// The number of bytes `v` encodes to.
pub open spec fn vsize(v: u32) -> int {
    venc(v).len() as int
}

/// The two's-complement reading of an `i32` as a `u32`; identifiers are
/// encoded through this mapping, so negative values take five bytes.
pub open spec fn u32_of_i32(v: i32) -> u32 {
    if v >= 0 {
        v as u32
    } else {
        (v + 0x1_0000_0000) as u32
    }
}

/// The inverse of `u32_of_i32`.
pub open spec fn i32_of_u32(u: u32) -> i32 {
    if u < 0x8000_0000 {
        u as i32
    } else {
        (u - 0x1_0000_0000) as i32
    }
}

/// The encoding of a signed identifier.
pub open spec fn venc32(v: i32) -> Seq<u8> {
    venc(u32_of_i32(v))
}

/// The encoded size of a signed identifier.
pub open spec fn vsize32(v: i32) -> int {
    vsize(u32_of_i32(v))
}

/// Parsing a varint from the front of `s` with `fuel` bytes of width left:
/// the raw (unclipped) value and the number of bytes consumed, or the error.
/// Exhausting the width is a varint failure; exhausting the input is an
/// unexpected end.
pub open spec fn vparse_rec(s: Seq<u8>, fuel: nat) -> Result<(nat, int), CodecError>
    decreases fuel,
{
    if fuel == 0 {
        Err(CodecError::Varint)
    } else if s.len() == 0 {
        Err(CodecError::UnexpectedEnd)
    } else if s[0] < 128 {
        Ok((s[0] as nat, 1))
    } else {
        match vparse_rec(s.skip(1), (fuel - 1) as nat) {
            Ok((v, n)) => Ok((((s[0] - 128) + 128 * v) as nat, n + 1)),
            Err(e) => Err(e),
        }
    }
}

/// Parsing a varint from the front of `s`, at most five bytes wide, the
/// value clipped to 32 bits: the value and the number of bytes consumed.
pub open spec fn vparse(s: Seq<u8>) -> Result<(u32, int), CodecError> {
    match vparse_rec(s, 5) {
        Ok((v, n)) => Ok(((v % 0x1_0000_0000) as u32, n)),
        Err(e) => Err(e),
    }
}

/// An encoding is between one and five bytes long.
pub proof fn lemma_venc_len(v: u32)
    ensures
        1 <= venc(v).len() <= 5,
{
    reveal_with_fuel(venc, 6);
    let v1 = ((v as int) / 128) as u32;
    let v2 = ((v1 as int) / 128) as u32;
    let v3 = ((v2 as int) / 128) as u32;
    let v4 = ((v3 as int) / 128) as u32;
    assert(v4 < 128);
    if v < 128 {
    } else if v1 < 128 {
    } else if v2 < 128 {
    } else if v3 < 128 {
    } else {
        assert(venc(v4).len() == 1);
    }
}

/// Round trip: parsing the encoding of `v`, whatever follows it, yields `v`
/// and consumes exactly the encoding.
proof fn lemma_vparse_rec_venc(v: u32, rest: Seq<u8>, fuel: nat)
    requires
        fuel >= venc(v).len(),
    ensures
        vparse_rec(venc(v) + rest, fuel) == Ok::<(nat, int), CodecError>(
            (v as nat, venc(v).len() as int),
        ),
    decreases v,
{
    let s = venc(v) + rest;
    if v < 128 {
        assert(s[0] == v as u8);
    } else {
        let v1 = ((v as int) / 128) as u32;
        assert(s[0] == ((v as int) % 128 + 128) as u8);
        assert(s.skip(1) =~= venc(v1) + rest);
        lemma_vparse_rec_venc(v1, rest, (fuel - 1) as nat);
        vstd::arithmetic::div_mod::lemma_fundamental_div_mod(v as int, 128);
    }
}

/// Round trip at the clipped level: the parse of `venc(v) + rest` is `v`.
pub proof fn lemma_vparse_of_venc(v: u32, rest: Seq<u8>)
    ensures
        vparse(venc(v) + rest) == Ok::<(u32, int), CodecError>((v, venc(v).len() as int)),
{
    lemma_venc_len(v);
    lemma_vparse_rec_venc(v, rest, 5);
}

proof fn lemma_vparse_rec_bounds(s: Seq<u8>, fuel: nat)
    ensures
        vparse_rec(s, fuel) matches Ok((v, n)) ==> 1 <= n <= fuel && n <= s.len(),
    decreases fuel,
{
    if fuel > 0 && s.len() > 0 && s[0] >= 128 {
        lemma_vparse_rec_bounds(s.skip(1), (fuel - 1) as nat);
    }
}

/// A successful parse consumes between one and five bytes, never more than
/// the input holds.
pub proof fn lemma_vparse_bounds(s: Seq<u8>)
    ensures
        vparse(s) matches Ok((v, n)) ==> 1 <= n <= 5 && n <= s.len(),
{
    lemma_vparse_rec_bounds(s, 5);
}

/// The signed/unsigned identifier mappings invert each other.
pub proof fn lemma_id_cast_roundtrip(v: i32, u: u32)
    ensures
        i32_of_u32(u32_of_i32(v)) == v,
        u32_of_i32(i32_of_u32(u)) == u,
{
}

/// Converts a signed identifier to its two's-complement unsigned reading.
pub fn u32_from_i32(v: i32) -> (r: u32)
    ensures
        r == u32_of_i32(v),
{
    if v >= 0 {
        v as u32
    } else {
        ((v as i64) + 0x1_0000_0000i64) as u32
    }
}

/// The inverse of `u32_from_i32`.
pub fn i32_from_u32(u: u32) -> (r: i32)
    ensures
        r == i32_of_u32(u),
{
    if u < 0x8000_0000 {
        u as i32
    } else {
        ((u as i64) - 0x1_0000_0000i64) as i32
    }
}

/// Appends the varint encoding of `value` to `out` and returns the number of
/// bytes written.
pub fn write_varint(out: &mut ByteStream, value: i32) -> (r: usize)
    ensures
        final(out)@ == old(out)@ + venc32(value),
        r == vsize32(value),
{
    let ghost orig: Seq<u8> = out@;
    let u0 = u32_from_i32(value);
    proof {
        lemma_venc_len(u0);
    }
    let mut u: u32 = u0;
    let mut count: usize = 0;
    while u >= 128
        invariant
            count + venc(u).len() == venc(u0).len(),
            venc(u0) == venc(u0).take(count as int) + venc(u),
            out@ == orig + venc(u0).take(count as int),
            venc(u0).len() <= 5,
        decreases u,
    {
        let b: u8 = ((u % 128) + 128) as u8;
        proof {
            assert(venc(u) == seq![((u as int) % 128 + 128) as u8] + venc(
                ((u as int) / 128) as u32,
            ));
            assert(venc(u)[0] == b);
            assert(venc(u0)[count as int] == b);
            assert(venc(u0).take(count + 1) =~= venc(u0).take(count as int).push(b));
            assert(venc(u0).take(count + 1) + venc(((u as int) / 128) as u32) =~= venc(u0).take(
                count as int,
            ) + venc(u));
        }
        out.write_byte(b);
        u = u / 128;
        count = count + 1;
    }
    proof {
        assert(venc(u) =~= seq![u as u8]);
        assert(venc(u0).take(count as int).push(u as u8) =~= venc(u0));
        assert((orig + venc(u0).take(count as int)).push(u as u8) =~= orig + venc(u0));
    }
    out.write_byte(u as u8);
    count + 1
}

/// The number of bytes the varint encoding of `value` takes, computed
/// without encoding it.
pub fn varint_size(value: i32) -> (r: usize)
    ensures
        r == vsize32(value),
{
    let u0 = u32_from_i32(value);
    proof {
        lemma_venc_len(u0);
    }
    let mut u: u32 = u0;
    let mut n: usize = 1;
    while u >= 128
        invariant
            1 <= n <= 5,
            n - 1 + venc(u).len() == venc(u0).len(),
            venc(u0).len() <= 5,
        decreases u,
    {
        proof {
            assert(venc(u) == seq![((u as int) % 128 + 128) as u8] + venc(
                ((u as int) / 128) as u32,
            ));
            lemma_venc_len(((u as int) / 128) as u32);
        }
        u = u / 128;
        n = n + 1;
    }
    n
}

/// 128 raised to `k`; the weight of the `k`-th varint byte group.
pub open spec fn pow128(k: nat) -> nat
    decreases k,
{
    if k == 0 {
        1
    } else {
        128 * pow128((k - 1) as nat)
    }
}

proof fn lemma_pow128_bound(k: nat)
    requires
        k <= 4,
    ensures
        pow128(k) <= 268435456,
{
    assert(pow128(0) == 1);
    assert(pow128(1) == 128);
    assert(pow128(2) == 16384);
    assert(pow128(3) == 2097152);
    assert(pow128(4) == 268435456);
    if k == 0 {
    } else if k == 1 {
    } else if k == 2 {
    } else if k == 3 {
    } else {
    }
}

/// Reads a varint from the front of `inp`: the parsed identifier, with
/// exactly the varint's bytes consumed; or the parse failure.
#[verifier::loop_isolation(false)]
pub fn read_varint(inp: &mut ByteStream) -> (r: Result<i32, CodecError>)
    ensures
        (match vparse(old(inp)@) {
            Ok((u, n)) => r == Ok::<i32, CodecError>(i32_of_u32(u)) && final(inp)@ == old(
                inp,
            )@.skip(n),
            Err(e) => r == Err::<i32, CodecError>(e),
        }),
{
    let ghost orig: Seq<u8> = inp@;
    let mut acc: u64 = 0;
    let mut mult: u64 = 1;
    let mut i: usize = 0;
    while i < 5
        invariant
            i <= 5,
            i <= orig.len(),
            mult == pow128(i as nat),
            acc < mult,
            inp@ == orig.skip(i as int),
            vparse_rec(orig, 5) == (match vparse_rec(inp@, (5 - i) as nat) {
                Ok((v, n)) => Ok::<(nat, int), CodecError>(((acc + mult * v) as nat, n + i)),
                Err(e) => Err::<(nat, int), CodecError>(e),
            }),
        decreases 5 - i,
    {
        proof {
            lemma_pow128_bound(i as nat);
        }
        let b: u8 = match inp.read_byte() {
            None => {
                proof {
                    assert(orig.skip(i as int).len() == 0);
                    assert(vparse_rec(orig.skip(i as int), (5 - i) as nat) == Err::<
                        (nat, int),
                        CodecError,
                    >(CodecError::UnexpectedEnd));
                }
                return Err(CodecError::UnexpectedEnd);
            },
            Some(b) => b,
        };
        if b < 128 {
            proof {
                assert(orig.skip(i as int)[0] == b);
                assert(vparse_rec(orig.skip(i as int), (5 - i) as nat) == Ok::<
                    (nat, int),
                    CodecError,
                >((b as nat, 1)));
                assert(orig.skip(i as int).skip(1) =~= orig.skip(i + 1));
                assert(inp@ == orig.skip(i as int).skip(1));
                assert((b as u64) * mult == mult * (b as nat)) by (nonlinear_arith)
                    requires
                        (b as u64) == (b as nat),
                ;
                assert((b as u64) * mult <= 127 * 268435456) by (nonlinear_arith)
                    requires
                        b < 128,
                        mult <= 268435456,
                ;
            }
            let raw: u64 = acc + (b as u64) * mult;
            let val: u32 = (raw % 0x1_0000_0000u64) as u32;
            return Ok(i32_from_u32(val));
        } else {
            proof {
                let s_i = orig.skip(i as int);
                assert(s_i[0] == b);
                assert(s_i.skip(1) =~= orig.skip(i + 1));
                assert(inp@ == s_i.skip(1));
                assert(vparse_rec(s_i, (5 - i) as nat) == (match vparse_rec(
                    orig.skip(i + 1),
                    (4 - i) as nat,
                ) {
                    Ok((v, n)) => Ok::<(nat, int), CodecError>(
                        (((s_i[0] - 128) + 128 * v) as nat, n + 1),
                    ),
                    Err(e) => Err::<(nat, int), CodecError>(e),
                }));
                if vparse_rec(orig.skip(i + 1), (4 - i) as nat) is Ok {
                    let (v2, n2) = vparse_rec(orig.skip(i + 1), (4 - i) as nat)->Ok_0;
                    assert(mult * (((b - 128) + 128 * v2) as nat) == mult * ((b - 128) as nat) + (
                    mult * 128) * v2) by (nonlinear_arith)
                        requires
                            128 <= b < 256,
                            v2 >= 0,
                            mult >= 1,
                    ;
                    assert(((b - 128) as u64) * mult == mult * ((b - 128) as nat))
                        by (nonlinear_arith)
                        requires
                            ((b - 128) as u64) == ((b - 128) as nat),
                    ;
                }
                assert(acc + ((b - 128) as u64) * mult < mult * 128) by (nonlinear_arith)
                    requires
                        acc < mult,
                        128 <= b < 256,
                ;
                assert(pow128((i + 1) as nat) == 128 * pow128(i as nat));
            }
            acc = acc + ((b - 128) as u64) * mult;
            mult = mult * 128;
            i = i + 1;
        }
    }
    proof {
        assert(vparse_rec(inp@, 0) == Err::<(nat, int), CodecError>(CodecError::Varint));
    }
    Err(CodecError::Varint)
}

} // verus!
