//! Variable-length integer and length-prefixed string codecs.
//!
//! The integer encoding stores 7 data bits per byte, least-significant group
//! first; the high bit of a byte says another group follows. A string is
//! encoded as the varint byte length of its UTF-8 form followed by those
//! bytes.

use vstd::prelude::*;
use vstd::string::StringSliceAdditionalSpecFns;

use crate::buffer::{twos_complement, u32_to_i32, Buffer};
use crate::error::{GDError, GDResult};

verus! {

/// `128^n`, the number of values that `n` varint groups can hold.
pub open spec fn pow128(n: nat) -> nat
    decreases n,
{
    if n == 0 {
        1
    } else {
        128 * pow128((n - 1) as nat)
    }
}

/// The concrete capacities of the group counts the codec meets.
pub proof fn lemma_pow128_values()
    ensures
        pow128(1) == 0x80,
        pow128(2) == 0x4000,
        pow128(3) == 0x200000,
        pow128(4) == 0x10000000,
        pow128(5) == 0x800000000,
{
    assert(pow128(0) == 1);
    assert(pow128(1) == 0x80);
    assert(pow128(2) == 0x4000);
    assert(pow128(3) == 0x200000);
    assert(pow128(4) == 0x10000000);
    assert(pow128(5) == 0x800000000);
}

pub proof fn lemma_pow128_le(i: nat, j: nat)
    requires
        i <= j,
    ensures
        pow128(i) <= pow128(j),
    decreases j,
{
    if i < j {
        lemma_pow128_le(i, (j - 1) as nat);
    }
}

/// The unsigned 32-bit word that `v` is transmitted as: its two's-complement
/// reading.
pub open spec fn u32_of_i32(v: i32) -> nat {
    if v >= 0 {
        v as nat
    } else {
        (v + 0x100000000) as nat
    }
}

/// The varint encoding of `u`: 7 bits per byte, low group first, high bit
/// set on every byte but the last.
pub open spec fn spec_varint(u: nat) -> Seq<u8>
    decreases u,
{
    if u < 0x80 {
        seq![u as u8]
    } else {
        seq![(u % 0x80 + 0x80) as u8] + spec_varint(u / 0x80)
    }
}

/// How many bytes the varint at the head of `s` spans, if a byte without
/// the continuation bit arrives within `m` bytes.
pub open spec fn varint_len_rec(s: Seq<u8>, m: nat) -> Option<nat>
    decreases m,
{
    if m == 0 || s.len() == 0 {
        None
    } else if s[0] < 0x80 {
        Some(1)
    } else {
        match varint_len_rec(s.drop_first(), (m - 1) as nat) {
            None => None,
            Some(k) => Some((k + 1) as nat),
        }
    }
}

/// The span of the varint at the head of `s`, capped at the five bytes a
/// 32-bit value can need.
pub open spec fn varint_len(s: Seq<u8>) -> Option<nat> {
    varint_len_rec(s, 5)
}

/// The value carried by the first `k` groups of `s`.
pub open spec fn varint_value(s: Seq<u8>, k: nat) -> nat
    decreases k,
{
    if k == 0 {
        0
    } else {
        (s[0] % 0x80 + 128 * varint_value(s.drop_first(), (k - 1) as nat)) as nat
    }
}

pub proof fn lemma_varint_value_bound(s: Seq<u8>, k: nat)
    ensures
        varint_value(s, k) < pow128(k),
    decreases k,
{
    if k > 0 {
        lemma_varint_value_bound(s.drop_first(), (k - 1) as nat);
    }
}

/// Reading one more group adds its bits above the ones already read.
pub proof fn lemma_varint_value_step(s: Seq<u8>, j: nat)
    requires
        j < s.len(),
    ensures
        varint_value(s, j + 1) == varint_value(s, j) + (s[j as int] % 0x80) * pow128(j),
    decreases j,
{
    if j == 0 {
        assert(pow128(0) == 1);
        assert(varint_value(s, 0) == 0);
        assert(varint_value(s.drop_first(), 0) == 0);
        assert(varint_value(s, 1) == s[0] % 0x80 + 128 * varint_value(s.drop_first(), 0));
    } else {
        let d = s.drop_first();
        lemma_varint_value_step(d, (j - 1) as nat);
        assert(d[j - 1] == s[j as int]);
        assert(varint_value(d, j) == varint_value(d, (j - 1) as nat) + (s[j as int] % 0x80)
            * pow128((j - 1) as nat));
        assert(varint_value(s, j + 1) == s[0] % 0x80 + 128 * varint_value(d, j));
        assert(varint_value(s, j) == s[0] % 0x80 + 128 * varint_value(d, (j - 1) as nat));
        assert(pow128(j) == 128 * pow128((j - 1) as nat));
        assert(varint_value(s, j + 1) == varint_value(s, j) + (s[j as int] % 0x80) * pow128(j))
            by (nonlinear_arith)
            requires
                varint_value(d, j) == varint_value(d, (j - 1) as nat) + (s[j as int] % 0x80)
                    * pow128((j - 1) as nat),
                varint_value(s, j + 1) == s[0] % 0x80 + 128 * varint_value(d, j),
                varint_value(s, j) == s[0] % 0x80 + 128 * varint_value(d, (j - 1) as nat),
                pow128(j) == 128 * pow128((j - 1) as nat),
        ;
    }
}

/// A varint terminated at index `j` spans `j + 1` bytes.
pub proof fn lemma_varint_len_terminated(s: Seq<u8>, j: nat, m: nat)
    requires
        j < m,
        j < s.len(),
        forall|i: int| 0 <= i < j ==> s[i] >= 0x80,
        s[j as int] < 0x80,
    ensures
        varint_len_rec(s, m) == Some((j + 1) as nat),
    decreases j,
{
    if j > 0 {
        lemma_varint_len_terminated(s.drop_first(), (j - 1) as nat, (m - 1) as nat);
    }
}

/// While every byte in reach carries the continuation bit, no varint ends.
pub proof fn lemma_varint_len_all_cont(s: Seq<u8>, m: nat)
    requires
        forall|i: int| 0 <= i < m && i < s.len() ==> s[i] >= 0x80,
    ensures
        varint_len_rec(s, m) is None,
    decreases m,
{
    if m > 0 && s.len() > 0 {
        assert(s[0] >= 0x80);
        lemma_varint_len_all_cont(s.drop_first(), (m - 1) as nat);
    }
}

/// The encoding of a value below `128^m` spans at most `m` bytes.
pub proof fn lemma_spec_varint_len_le(u: nat, m: nat)
    requires
        u < pow128(m),
        m >= 1,
    ensures
        spec_varint(u).len() <= m,
    decreases u,
{
    if u >= 0x80 {
        lemma_pow128_values();
        if m == 1 {
            assert(false);
        }
        assert(pow128(m) == 128 * pow128((m - 1) as nat));
        assert(u / 0x80 < pow128((m - 1) as nat)) by (nonlinear_arith)
            requires
                u < 128 * pow128((m - 1) as nat),
        ;
        lemma_spec_varint_len_le(u / 0x80, (m - 1) as nat);
    }
}

/// Decoding undoes encoding: wherever `spec_varint(u)` stands at the head
/// of a byte sequence, the decoder finds exactly its bytes and reads back
/// `u`, whatever follows.
pub proof fn lemma_spec_varint_decode(u: nat, s: Seq<u8>, m: nat)
    requires
        spec_varint(u).is_prefix_of(s),
        spec_varint(u).len() <= m,
    ensures
        varint_len_rec(s, m) == Some(spec_varint(u).len() as nat),
        varint_value(s, spec_varint(u).len() as nat) == u,
    decreases u,
{
    if u < 0x80 {
        assert(spec_varint(u) =~= seq![u as u8]);
        assert(s.subrange(0, 1)[0] == s[0]);
        assert(s[0] == u as u8);
        assert(varint_value(s.drop_first(), 0) == 0);
        assert(varint_value(s, 1) == s[0] % 0x80);
    } else {
        let d = s.drop_first();
        let e = spec_varint(u);
        assert(s[0] == e[0]);
        assert(e[0] == (u % 0x80 + 0x80) as u8);
        assert(spec_varint(u / 0x80).is_prefix_of(d)) by {
            assert(e.drop_first() =~= spec_varint(u / 0x80));
            assert(forall|i: int|
                0 <= i < e.drop_first().len() ==> e.drop_first()[i] == d[i] && e.drop_first()[i]
                    == e[i + 1]);
            assert(e.drop_first().is_prefix_of(d));
        }
        lemma_spec_varint_decode(u / 0x80, d, (m - 1) as nat);
        let k = spec_varint(u / 0x80).len();
        assert(varint_value(s, k + 1) == s[0] % 0x80 + 128 * varint_value(d, k));
        assert(s[0] % 0x80 == u % 0x80);
        assert(u % 0x80 + 128 * (u / 0x80) == u);
    }
}

/// Encodes `value`, transmitted as its unsigned two's-complement word.
pub fn as_varint(value: i32) -> (r: Vec<u8>)
    ensures
        r@ == spec_varint(u32_of_i32(value)),
{
    let mut u: u32 = if value >= 0 {
        value as u32
    } else {
        ((value as i64) + 0x100000000i64) as u32
    };
    let ghost u0 = u as nat;
    assert(u == u32_of_i32(value));
    let mut out: Vec<u8> = Vec::new();
    while u >= 0x80
        invariant
            spec_varint(u0) == out@ + spec_varint(u as nat),
        decreases u,
    {
        let ghost before = u as nat;
        out.push((u % 0x80 + 0x80) as u8);
        u = u / 0x80;
        proof {
            assert(spec_varint(before) == seq![(before % 0x80 + 0x80) as u8] + spec_varint(
                before / 0x80,
            ));
            assert(out@ + spec_varint(u as nat) =~= out@.drop_last() + spec_varint(before));
        }
    }
    out.push(u as u8);
    proof {
        assert(spec_varint(u as nat) =~= seq![u as u8]);
        assert(out@ =~= out@.drop_last() + spec_varint(u as nat));
    }
    out
}

/// Decodes the varint at the cursor into a signed 32-bit value.
///
/// Fails with an underflow report when the bytes run out before a
/// terminating group, and with [`GDError::PacketBad`] when five groups go
/// by without one or the carried value does not fit in 32 bits.
pub fn get_varint(b: &mut Buffer) -> (r: GDResult<i32>)
    requires
        old(b).wf(),
    ensures
        final(b).wf(),
        final(b).data() == old(b).data(),
        varint_len(old(b).remaining()) matches Some(k) ==> {
            &&& varint_value(old(b).remaining(), k) < 0x100000000 ==> {
                &&& r is Ok
                &&& r->Ok_0 as int == twos_complement(varint_value(old(b).remaining(), k), 4)
                &&& final(b).position() == old(b).position() + k
            }
            &&& varint_value(old(b).remaining(), k) >= 0x100000000 ==> r == Err::<i32, GDError>(
                GDError::PacketBad,
            )
        },
        varint_len(old(b).remaining()) is None && old(b).remaining().len() >= 5 ==> r == Err::<
            i32,
            GDError,
        >(GDError::PacketBad),
        varint_len(old(b).remaining()) is None && old(b).remaining().len() < 5 ==> r is Err
            && r->Err_0 matches GDError::UnderflowError { .. },
{
    let ghost orig = *b;
    let ghost s = orig.remaining();
    let mut acc: u64 = 0;
    let mut mult: u64 = 1;
    let mut j: usize = 0;
    while j < 5
        invariant
            orig == *old(b),
            orig.wf(),
            b.wf(),
            b.data() == orig.data(),
            b.position() == orig.position() + j,
            s == orig.remaining(),
            0 <= j <= 5,
            forall|i: int| 0 <= i < j ==> s[i] >= 0x80,
            acc == varint_value(s, j as nat),
            mult == pow128(j as nat),
        decreases 5 - j,
    {
        let byte = match b.read_u8() {
            Ok(v) => v,
            Err(e) => {
                proof {
                    assert(!orig.can_read((j + 1) as nat));
                    assert(s.len() == j);
                    lemma_varint_len_all_cont(s, 5);
                }
                return Err(e);
            },
        };
        proof {
            assert(orig.can_read((j + 1) as nat));
            assert(s.len() > j);
            assert(seq![s[j as int]].drop_last() =~= Seq::<u8>::empty());
            assert(crate::buffer::be_value(Seq::<u8>::empty()) == 0);
            assert(crate::buffer::be_value(seq![s[j as int]]) == s[j as int]);
            let t = orig.data().subrange(
                orig.position() + j,
                orig.position() + j + 1,
            );
            assert(t =~= seq![s[j as int]]);
            lemma_varint_value_step(s, j as nat);
            lemma_pow128_values();
            lemma_pow128_le((j + 1) as nat, 5);
            lemma_varint_value_bound(s, (j + 1) as nat);
        }
        if byte >= 0x80 {
            acc = acc + ((byte - 0x80) as u64) * mult;
            mult = mult * 0x80;
            j = j + 1;
        } else {
            acc = acc + (byte as u64) * mult;
            proof {
                lemma_varint_len_terminated(s, j as nat, 5);
            }
            if acc >= 0x100000000 {
                return Err(GDError::PacketBad);
            }
            return Ok(u32_to_i32(acc as u32));
        }
    }
    proof {
        lemma_varint_len_all_cont(s, 5);
    }
    Err(GDError::PacketBad)
}

/// Law: a varint decode undoes a varint encode. For every value and
/// whatever bytes follow the encoding, the decoder finds exactly the
/// encoded span, reads back the transmitted word, and that word reads
/// back as the original signed value.
pub proof fn lemma_varint_round_trip(v: i32, t: Seq<u8>)
    ensures
        ({
            let e = spec_varint(u32_of_i32(v));
            let s = e + t;
            &&& varint_len(s) == Some(e.len() as nat)
            &&& varint_value(s, e.len() as nat) == u32_of_i32(v)
            &&& twos_complement(u32_of_i32(v), 4) == v as int
        }),
{
    let u = u32_of_i32(v);
    let e = spec_varint(u);
    let s = e + t;
    lemma_pow128_values();
    lemma_spec_varint_len_le(u, 5);
    assert(s.subrange(0, e.len() as int) =~= e);
    assert(e.is_prefix_of(s));
    lemma_spec_varint_decode(u, s, 5);
    crate::buffer::lemma_pow256_values();
}

/// The wire form of a length-prefixed block: the varint byte count of
/// `bs`, then `bs` itself. Strings and packets both travel this way.
pub open spec fn spec_length_prefixed(bs: Seq<u8>) -> Seq<u8> {
    spec_varint(bs.len()) + bs
}

/// Relies on String::from_utf8: it accepts exactly the byte sequences that
/// are valid UTF-8, and the returned string holds those very bytes.
#[verifier::external_body]
pub(crate) fn string_from_utf8(bytes: Vec<u8>) -> (r: Option<String>)
    ensures
        r is Some <==> vstd::utf8::valid_utf8(bytes@),
        r matches Some(st) ==> vstd::utf8::encode_utf8(st@) == bytes@,
{
    String::from_utf8(bytes).ok()
}

/// Encodes `s` with its varint length prefix. A string whose UTF-8 form
/// does not fit a non-negative 32-bit length is refused.
pub fn as_string(s: &str) -> (r: GDResult<Vec<u8>>)
    ensures
        s.spec_bytes().len() < 0x80000000 ==> {
            &&& r is Ok
            &&& r->Ok_0@ == spec_length_prefixed(s.spec_bytes())
        },
        s.spec_bytes().len() >= 0x80000000 ==> r == Err::<Vec<u8>, GDError>(GDError::PacketBad),
{
    let bytes = s.as_bytes();
    if bytes.len() >= 0x80000000usize {
        return Err(GDError::PacketBad);
    }
    let mut out = as_varint(bytes.len() as i32);
    let mut tail = vstd::slice::slice_to_vec(bytes);
    out.append(&mut tail);
    proof {
        assert(u32_of_i32(s.spec_bytes().len() as i32) == s.spec_bytes().len());
    }
    Ok(out)
}

/// Decodes a varint length prefix, then that many bytes as UTF-8.
///
/// Fails with an underflow report when the prefix or the payload runs past
/// the buffer, and with [`GDError::PacketBad`] on a malformed or negative
/// length prefix or payload bytes that are not UTF-8.
pub fn get_string(b: &mut Buffer) -> (r: GDResult<String>)
    requires
        old(b).wf(),
    ensures
        final(b).wf(),
        final(b).data() == old(b).data(),
        varint_len(old(b).remaining()) matches Some(k) ==> ({
            let s = old(b).remaining();
            let v = varint_value(s, k);
            &&& v < 0x80000000 && k + v <= s.len() && vstd::utf8::valid_utf8(
                s.subrange(k as int, (k + v) as int),
            ) ==> {
                &&& r is Ok
                &&& r->Ok_0@ == vstd::utf8::decode_utf8(s.subrange(k as int, (k + v) as int))
                &&& final(b).position() == old(b).position() + k + v
            }
            &&& v < 0x80000000 && k + v <= s.len() && !vstd::utf8::valid_utf8(
                s.subrange(k as int, (k + v) as int),
            ) ==> r == Err::<String, GDError>(GDError::PacketBad)
            &&& v < 0x80000000 && k + v > s.len() ==> r is Err && (r->Err_0 matches
            GDError::UnderflowError { .. })
            &&& v >= 0x80000000 ==> r == Err::<String, GDError>(GDError::PacketBad)
        }),
        varint_len(old(b).remaining()) is None && old(b).remaining().len() >= 5 ==> r == Err::<
            String,
            GDError,
        >(GDError::PacketBad),
        varint_len(old(b).remaining()) is None && old(b).remaining().len() < 5 ==> r is Err
            && r->Err_0 matches GDError::UnderflowError { .. },
{
    broadcast use vstd::utf8::encode_utf8_decode_utf8;

    let ghost orig = *b;
    let ghost s = orig.remaining();
    proof {
        crate::buffer::lemma_pow256_values();
    }
    let n = match get_varint(b) {
        Ok(n) => n,
        Err(e) => {
            return Err(e);
        },
    };
    if n < 0 {
        return Err(GDError::PacketBad);
    }
    let ghost k = varint_len(s)->Some_0;
    let ghost v = varint_value(s, k);
    proof {
        assert(v < 0x80000000 && n == v);
    }
    let bytes = match b._get_inner_slice(n as usize) {
        Ok(x) => x,
        Err(e) => {
            proof {
                assert(k + v > s.len());
            }
            return Err(e);
        },
    };
    proof {
        assert(bytes@ =~= s.subrange(k as int, (k + v) as int));
    }
    match string_from_utf8(bytes) {
        Some(st) => Ok(st),
        None => Err(GDError::PacketBad),
    }
}

/// Law: decoding an encoded string returns it. For every character
/// sequence whose UTF-8 form carries a non-negative 32-bit length, and
/// whatever bytes follow the encoding, the decoder finds the length
/// prefix, takes exactly the encoded bytes, and reads back the original
/// characters.
pub proof fn lemma_string_round_trip(cs: Seq<char>, t: Seq<u8>)
    requires
        vstd::utf8::encode_utf8(cs).len() < 0x80000000,
    ensures
        ({
            let bs = vstd::utf8::encode_utf8(cs);
            let s = spec_length_prefixed(bs) + t;
            let k = spec_varint(bs.len()).len();
            &&& varint_len(s) == Some(k as nat)
            &&& varint_value(s, k as nat) == bs.len()
            &&& k + bs.len() <= s.len()
            &&& s.subrange(k as int, (k + bs.len()) as int) == bs
            &&& vstd::utf8::valid_utf8(bs)
            &&& vstd::utf8::decode_utf8(s.subrange(k as int, (k + bs.len()) as int)) == cs
        }),
{
    broadcast use vstd::utf8::encode_utf8_valid_utf8, vstd::utf8::encode_utf8_decode_utf8;

    let bs = vstd::utf8::encode_utf8(cs);
    let e = spec_varint(bs.len());
    let s = spec_length_prefixed(bs) + t;
    lemma_pow128_values();
    lemma_spec_varint_len_le(bs.len(), 5);
    assert(s.subrange(0, e.len() as int) =~= e);
    assert(e.is_prefix_of(s));
    lemma_spec_varint_decode(bs.len(), s, 5);
    assert(s.subrange(e.len() as int, (e.len() + bs.len()) as int) =~= bs);
}

} // verus!
