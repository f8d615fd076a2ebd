//! The plain-text datagram status protocol (the `getstatus` family).
//!
//! A query sends one fixed ASCII command and expects one datagram back: a
//! fixed header token, then a line of backslash-delimited key/value pairs,
//! then one line per player holding a score, a ping and a name. The whole
//! decoder is a pure function over the datagram bytes; the socket work
//! around it lives with the caller.

use vstd::prelude::*;

use crate::codec::string_from_utf8;
use crate::error::{GDError, GDResult};

verus! {

/// Where `b` first occurs in `s`.
pub open spec fn find_byte(s: Seq<u8>, b: u8) -> Option<nat>
    decreases s.len(),
{
    if s.len() == 0 {
        None
    } else if s[0] == b {
        Some(0)
    } else {
        match find_byte(s.drop_first(), b) {
            None => None,
            Some(i) => Some((i + 1) as nat),
        }
    }
}

/// `find_byte` finds the first occurrence: a scan that saw none up to `i`
/// pins the result.
pub proof fn lemma_find_byte_scan(s: Seq<u8>, b: u8, i: nat)
    requires
        i <= s.len(),
        forall|j: int| 0 <= j < i ==> s[j] != b,
        i < s.len() ==> s[i as int] == b,
    ensures
        i == s.len() ==> find_byte(s, b) is None,
        i < s.len() ==> find_byte(s, b) == Some(i),
    decreases i,
{
    if s.len() > 0 && s[0] != b {
        lemma_find_byte_scan(s.drop_first(), b, (i - 1) as nat);
    }
}

/// `s` split at every occurrence of `sep`, the separators dropped and
/// empty pieces kept: one piece more than there are separators.
pub open spec fn split_on(s: Seq<u8>, sep: u8) -> Seq<Seq<u8>>
    decreases s.len(),
    via split_on_decreases
{
    match find_byte(s, sep) {
        None => seq![s],
        Some(i) => seq![s.subrange(0, i as int)] + split_on(
            s.subrange(i as int + 1, s.len() as int),
            sep,
        ),
    }
}

/// A found index is a real occurrence inside the sequence.
pub proof fn lemma_find_byte_in_range(s: Seq<u8>, b: u8)
    ensures
        find_byte(s, b) matches Some(i) ==> i < s.len() && s[i as int] == b,
    decreases s.len(),
{
    if s.len() > 0 && s[0] != b {
        lemma_find_byte_in_range(s.drop_first(), b);
    }
}

#[via_fn]
proof fn split_on_decreases(s: Seq<u8>, sep: u8) {
    lemma_find_byte_in_range(s, sep);
}

pub proof fn lemma_split_on_nonempty(s: Seq<u8>, sep: u8)
    ensures
        split_on(s, sep).len() >= 1,
{
}

/// Finds the first `sep` at or after `start`.
fn find_from(data: &Vec<u8>, sep: u8, start: usize) -> (r: Option<usize>)
    requires
        start <= data@.len(),
    ensures
        ({
            let tail = data@.subrange(start as int, data@.len() as int);
            match find_byte(tail, sep) {
                None => r is None,
                Some(i) => r is Some && r->Some_0 == start + i,
            }
        }),
{
    let ghost tail = data@.subrange(start as int, data@.len() as int);
    let n = data.len();
    let mut i: usize = start;
    while i < n
        invariant
            start <= i <= n,
            n == data@.len(),
            tail == data@.subrange(start as int, data@.len() as int),
            forall|j: int| start <= j < i ==> data@[j] != sep,
        decreases n - i,
    {
        if data[i] == sep {
            proof {
                assert(forall|j: int| 0 <= j < i - start ==> tail[j] == data@[j + start]);
                lemma_find_byte_scan(tail, sep, (i - start) as nat);
            }
            return Some(i);
        }
        i = i + 1;
    }
    proof {
        assert(forall|j: int| 0 <= j < tail.len() ==> tail[j] == data@[j + start]);
        lemma_find_byte_scan(tail, sep, tail.len());
    }
    None
}

/// Copies `data[from..to]` out.
fn subvec(data: &Vec<u8>, from: usize, to: usize) -> (r: Vec<u8>)
    requires
        from <= to <= data@.len(),
    ensures
        r@ == data@.subrange(from as int, to as int),
{
    let s = vstd::slice::slice_subrange(data.as_slice(), from, to);
    vstd::slice::slice_to_vec(s)
}

/// Splits `data` at every occurrence of `sep`.
#[verifier::loop_isolation(false)]
fn split_bytes(data: &Vec<u8>, sep: u8) -> (r: Vec<Vec<u8>>)
    ensures
        r.deep_view() == split_on(data@, sep),
{
    let n = data.len();
    let mut out: Vec<Vec<u8>> = Vec::new();
    let mut pos: usize = 0;
    proof {
        assert(n == data@.len());
        assert(data@.subrange(0, data@.len() as int) =~= data@);
        assert(out.deep_view() + split_on(data@, sep) =~~= split_on(data@, sep));
    }
    loop
        invariant
            pos <= data@.len(),
            split_on(data@, sep) == out.deep_view() + split_on(
                data@.subrange(pos as int, data@.len() as int),
                sep,
            ),
        decreases data@.len() - pos,
    {
        let ghost rest = data@.subrange(pos as int, data@.len() as int);
        let ghost dv0 = out.deep_view();
        match find_from(data, sep, pos) {
            None => {
                let piece = subvec(data, pos, n);
                out.push(piece);
                proof {
                    assert(split_on(rest, sep) =~~= seq![rest]);
                    assert(out.deep_view() =~~= dv0.push(rest));
                    assert(dv0 + seq![rest] =~~= dv0.push(rest));
                    assert(out.deep_view() =~~= split_on(data@, sep));
                }
                return out;
            },
            Some(at) => {
                proof {
                    lemma_find_byte_in_range(rest, sep);
                    assert(find_byte(rest, sep) is Some);
                    assert(at == pos + find_byte(rest, sep)->Some_0);
                    assert(find_byte(rest, sep) == Some(((at - pos) as nat)));
                }
                let piece = subvec(data, pos, at);
                out.push(piece);
                proof {
                    let i = (at - pos) as int;
                    let tail2 = data@.subrange(at as int + 1, data@.len() as int);
                    assert(piece@ =~= rest.subrange(0, i));
                    assert(rest.subrange(i + 1, rest.len() as int) =~= tail2);
                    assert(split_on(rest, sep) =~~= seq![rest.subrange(0, i)] + split_on(
                        tail2,
                        sep,
                    ));
                    assert(out.deep_view() =~~= dv0.push(piece@));
                    assert(dv0 + (seq![piece@] + split_on(tail2, sep)) =~~= dv0.push(piece@)
                        + split_on(tail2, sep));
                    assert(split_on(data@, sep) == out.deep_view() + split_on(tail2, sep));
                }
                pos = at + 1;
            },
        }
    }
}

/// The numeric worth of an ASCII digit; anything else counts zero.
pub open spec fn digit_val(b: u8) -> nat {
    if 0x30 <= b <= 0x39 {
        (b - 0x30) as nat
    } else {
        0
    }
}

/// `s` is one or more ASCII digits.
pub open spec fn is_digits(s: Seq<u8>) -> bool {
    s.len() >= 1 && forall|i: int| 0 <= i < s.len() ==> 0x30 <= #[trigger] s[i] <= 0x39
}

/// The decimal value of a digit sequence.
pub open spec fn dec_value(s: Seq<u8>) -> nat
    decreases s.len(),
{
    if s.len() == 0 {
        0
    } else {
        (dec_value(s.drop_last()) * 10 + digit_val(s.last())) as nat
    }
}

/// More digits never shrink the value.
pub proof fn lemma_dec_prefix_le(s: Seq<u8>, m: nat)
    requires
        m <= s.len(),
    ensures
        dec_value(s.subrange(0, m as int)) <= dec_value(s),
    decreases s.len() - m,
{
    if m < s.len() {
        assert(s.subrange(0, m as int + 1).drop_last() =~= s.subrange(0, m as int));
        assert(dec_value(s.subrange(0, m as int + 1)) == dec_value(s.subrange(0, m as int)) * 10
            + digit_val(s.subrange(0, m as int + 1).last()));
        lemma_dec_prefix_le(s, (m + 1) as nat);
    } else {
        assert(s.subrange(0, m as int) =~= s);
    }
}

/// Reads the digits of `data[start..]` as a decimal number of at most
/// `max`.
#[verifier::loop_isolation(false)]
fn parse_magnitude(data: &Vec<u8>, start: usize, max: u64) -> (r: Option<u64>)
    requires
        start <= data@.len(),
        max <= 0x80000000,
    ensures
        ({
            let s = data@.subrange(start as int, data@.len() as int);
            &&& r is Some <==> is_digits(s) && dec_value(s) <= max
            &&& r matches Some(v) ==> v == dec_value(s)
        }),
{
    let ghost s = data@.subrange(start as int, data@.len() as int);
    let n = data.len();
    if start == n {
        return None;
    }
    let mut acc: u64 = 0;
    let mut i: usize = start;
    while i < n
        invariant
            start <= i <= n,
            forall|j: int| start <= j < i ==> 0x30 <= #[trigger] data@[j] <= 0x39,
            acc == dec_value(s.subrange(0, i - start)),
            acc <= max,
        decreases n - i,
    {
        let b = data[i];
        if b < 0x30 || b > 0x39 {
            proof {
                assert(s[i - start] == data@[i as int]);
                assert(!is_digits(s));
            }
            return None;
        }
        proof {
            assert(s.subrange(0, i - start + 1).drop_last() =~= s.subrange(0, i - start));
            assert(s.subrange(0, i - start + 1).last() == data@[i as int]);
        }
        let d = (b - 0x30) as u64;
        let next = acc * 10 + d;
        if next > max {
            proof {
                lemma_dec_prefix_le(s, (i - start + 1) as nat);
            }
            return None;
        }
        acc = next;
        i = i + 1;
    }
    proof {
        assert(s.subrange(0, n - start) =~= s);
        assert(forall|j: int| 0 <= j < s.len() ==> s[j] == data@[j + start]);
    }
    Some(acc)
}

/// `s` is a decimal integer that fits a signed 32-bit value: digits with
/// an optional leading minus.
pub open spec fn dec_i32_ok(s: Seq<u8>) -> bool {
    if s.len() >= 1 && s[0] == 0x2D {
        is_digits(s.drop_first()) && dec_value(s.drop_first()) <= 0x80000000
    } else {
        is_digits(s) && dec_value(s) <= 0x7FFFFFFF
    }
}

/// The signed value of such an integer.
pub open spec fn dec_i32_val(s: Seq<u8>) -> int {
    if s.len() >= 1 && s[0] == 0x2D {
        -(dec_value(s.drop_first()) as int)
    } else {
        dec_value(s) as int
    }
}

/// `s` is a decimal number that fits an unsigned 16-bit value.
pub open spec fn dec_u16_ok(s: Seq<u8>) -> bool {
    is_digits(s) && dec_value(s) <= 0xFFFF
}

/// Reads a token as a signed 32-bit decimal integer.
fn parse_i32_token(data: &Vec<u8>) -> (r: Option<i32>)
    ensures
        r is Some <==> dec_i32_ok(data@),
        r matches Some(v) ==> v as int == dec_i32_val(data@),
{
    if data.len() >= 1 && data[0] == 0x2D {
        proof {
            assert(data@.subrange(1, data@.len() as int) =~= data@.drop_first());
        }
        match parse_magnitude(data, 1, 0x80000000) {
            None => None,
            Some(v) => {
                if v == 0x80000000 {
                    Some(i32::MIN)
                } else {
                    Some(-(v as i32))
                }
            },
        }
    } else {
        proof {
            assert(data@.subrange(0, data@.len() as int) =~= data@);
        }
        match parse_magnitude(data, 0, 0x7FFFFFFF) {
            None => None,
            Some(v) => Some(v as i32),
        }
    }
}

/// Reads a token as an unsigned 16-bit decimal number.
fn parse_u16_token(data: &Vec<u8>) -> (r: Option<u16>)
    ensures
        r is Some <==> dec_u16_ok(data@),
        r matches Some(v) ==> v == dec_value(data@),
{
    proof {
        assert(data@.subrange(0, data@.len() as int) =~= data@);
    }
    match parse_magnitude(data, 0, 0xFFFF) {
        None => None,
        Some(v) => Some(v as u16),
    }
}

/// The tokens glued back together with single spaces: a player name that
/// contained spaces was split with the rest of its line.
pub open spec fn join_spaces(ts: Seq<Seq<u8>>) -> Seq<u8>
    decreases ts.len(),
{
    if ts.len() == 0 {
        Seq::empty()
    } else if ts.len() == 1 {
        ts[0]
    } else {
        join_spaces(ts.drop_last()) + seq![0x20u8] + ts.last()
    }
}

/// `s` without one pair of surrounding double quotes, where both stand.
pub open spec fn strip_quotes(s: Seq<u8>) -> Seq<u8> {
    if s.len() >= 2 && s[0] == 0x22 && s.last() == 0x22 {
        s.subrange(1, s.len() - 1)
    } else {
        s
    }
}

/// Joins `tokens[start..]` with single spaces.
#[verifier::loop_isolation(false)]
fn join_tokens(tokens: &Vec<Vec<u8>>, start: usize) -> (r: Vec<u8>)
    requires
        start <= tokens@.len(),
    ensures
        r@ == join_spaces(tokens.deep_view().subrange(start as int, tokens@.len() as int)),
{
    let ghost dv = tokens.deep_view();
    proof {
        assert(dv.len() == tokens@.len());
        assert(dv.subrange(start as int, start as int) =~= Seq::<Seq<u8>>::empty());
    }
    let n = tokens.len();
    let mut out: Vec<u8> = Vec::new();
    let mut i: usize = start;
    while i < n
        invariant
            start <= i <= n,
            out@ == join_spaces(dv.subrange(start as int, i as int)),
        decreases n - i,
    {
        if i > start {
            out.push(0x20);
        }
        let mut piece = subvec(&tokens[i], 0, tokens[i].len());
        out.append(&mut piece);
        proof {
            let sub1 = dv.subrange(start as int, i + 1);
            assert(sub1.drop_last() =~= dv.subrange(start as int, i as int));
            assert(sub1.last() == dv[i as int]);
            assert(dv[i as int] =~= tokens@[i as int]@);
            assert(tokens@[i as int]@.subrange(0, tokens@[i as int]@.len() as int) =~= tokens@[
                i as int
            ]@);
            if i == start {
                assert(sub1.len() == 1);
                assert(sub1[0] == dv[i as int]);
                assert(out@ =~= join_spaces(sub1));
            } else {
                assert(out@ =~= join_spaces(sub1));
            }
        }
        i = i + 1;
    }
    proof {
        assert(dv.subrange(start as int, n as int) =~= dv.subrange(
            start as int,
            tokens@.len() as int,
        ));
    }
    out
}

/// Removes one pair of surrounding double quotes, where both stand.
fn strip_quotes_bytes(data: Vec<u8>) -> (r: Vec<u8>)
    ensures
        r@ == strip_quotes(data@),
{
    if data.len() >= 2 && data[0] == 0x22 && data[data.len() - 1] == 0x22 {
        subvec(&data, 1, data.len() - 1)
    } else {
        data
    }
}

/// One record of the player block.
#[derive(Debug, Clone, PartialEq, Eq)]
pub struct Player {
    pub name: String,
    pub score: i32,
    pub ping: u16,
}

/// The bytes of the name a player line carries: everything after the
/// score and ping tokens, rejoined and unquoted.
pub open spec fn player_name_bytes(ts: Seq<Seq<u8>>) -> Seq<u8> {
    strip_quotes(join_spaces(ts.subrange(2, ts.len() as int)))
}

/// The tokens of a well-formed player line: a signed score, an unsigned
/// ping, and a UTF-8 name.
pub open spec fn player_tokens_ok(ts: Seq<Seq<u8>>) -> bool {
    &&& ts.len() >= 3
    &&& dec_i32_ok(ts[0])
    &&& dec_u16_ok(ts[1])
    &&& vstd::utf8::valid_utf8(player_name_bytes(ts))
}

/// `p` is the record those tokens describe.
pub open spec fn player_matches(p: Player, ts: Seq<Seq<u8>>) -> bool {
    &&& p.score as int == dec_i32_val(ts[0])
    &&& p.ping == dec_value(ts[1])
    &&& p.name@ == vstd::utf8::decode_utf8(player_name_bytes(ts))
}

/// The key/value pairs carried by an even run of tokens, each of them
/// UTF-8; an odd run or a non-UTF-8 token spoils the whole line.
pub open spec fn parse_kv(toks: Seq<Seq<u8>>) -> Option<Seq<(Seq<char>, Seq<char>)>>
    decreases toks.len(),
{
    if toks.len() == 0 {
        Some(Seq::empty())
    } else if toks.len() == 1 {
        None
    } else if vstd::utf8::valid_utf8(toks[0]) && vstd::utf8::valid_utf8(toks[1]) {
        match parse_kv(toks.subrange(2, toks.len() as int)) {
            None => None,
            Some(r) => Some(
                seq![
                    (vstd::utf8::decode_utf8(toks[0]), vstd::utf8::decode_utf8(toks[1])),
                ] + r,
            ),
        }
    } else {
        None
    }
}

/// The exec pairs carry exactly the spec pairs.
pub open spec fn pairs_match(v: Seq<(String, String)>, s: Seq<(Seq<char>, Seq<char>)>) -> bool {
    &&& v.len() == s.len()
    &&& forall|i: int|
        0 <= i < v.len() ==> (#[trigger] v[i]).0@ == s[i].0 && v[i].1@ == s[i].1
}

/// Decodes `tokens[start..]` as key/value pairs.
#[verifier::loop_isolation(false)]
fn parse_kv_tokens(tokens: &Vec<Vec<u8>>, start: usize) -> (r: GDResult<Vec<(String, String)>>)
    requires
        start <= tokens@.len(),
    ensures
        r is Ok <==> parse_kv(tokens.deep_view().subrange(start as int, tokens@.len() as int))
            is Some,
        r matches Ok(v) ==> pairs_match(
            v@,
            parse_kv(tokens.deep_view().subrange(start as int, tokens@.len() as int))->Some_0,
        ),
        r is Err ==> r->Err_0 == GDError::PacketBad,
{
    broadcast use vstd::utf8::encode_utf8_decode_utf8;

    let ghost dv = tokens.deep_view();
    proof {
        assert(dv.len() == tokens@.len());
    }
    let n = tokens.len();
    let mut out: Vec<(String, String)> = Vec::new();
    let ghost mut gpairs: Seq<(Seq<char>, Seq<char>)> = Seq::empty();
    let mut i: usize = start;
    while i < n
        invariant
            start <= i <= n,
            pairs_match(out@, gpairs),
            parse_kv(dv.subrange(start as int, n as int)) is Some <==> parse_kv(
                dv.subrange(i as int, n as int),
            ) is Some,
            parse_kv(dv.subrange(i as int, n as int)) matches Some(rest) ==> parse_kv(
                dv.subrange(start as int, n as int),
            ) == Some(gpairs + rest),
        decreases n - i,
    {
        let ghost seg = dv.subrange(i as int, n as int);
        if i + 1 == n {
            proof {
                assert(seg.len() == 1);
            }
            return Err(GDError::PacketBad);
        }
        let kb = subvec(&tokens[i], 0, tokens[i].len());
        let vb = subvec(&tokens[i + 1], 0, tokens[i + 1].len());
        proof {
            assert(kb@ =~= seg[0]);
            assert(vb@ =~= seg[1]);
        }
        let key = match crate::codec::string_from_utf8(kb) {
            Some(st) => st,
            None => {
                return Err(GDError::PacketBad);
            },
        };
        let val = match crate::codec::string_from_utf8(vb) {
            Some(st) => st,
            None => {
                return Err(GDError::PacketBad);
            },
        };
        out.push((key, val));
        proof {
            let pair = (vstd::utf8::decode_utf8(seg[0]), vstd::utf8::decode_utf8(seg[1]));
            assert(key@ == pair.0);
            assert(val@ == pair.1);
            assert(seg.subrange(2, seg.len() as int) =~= dv.subrange(i + 2, n as int));
            gpairs = gpairs.push(pair);
            assert(parse_kv(dv.subrange(i + 2, n as int)) matches Some(rest) ==> gpairs.drop_last()
                + (seq![pair] + rest) =~= gpairs + rest);
        }
        i = i + 2;
    }
    proof {
        assert(dv.subrange(n as int, n as int) =~= Seq::<Seq<u8>>::empty());
        assert(gpairs + Seq::<(Seq<char>, Seq<char>)>::empty() =~= gpairs);
    }
    Ok(out)
}

/// The records of the player block, one tuple — score, ping, name — per
/// non-empty line; one malformed line spoils the block.
pub open spec fn players_of_lines(ls: Seq<Seq<u8>>) -> Option<Seq<(int, int, Seq<char>)>>
    decreases ls.len(),
{
    if ls.len() == 0 {
        Some(Seq::empty())
    } else if ls[0].len() == 0 {
        players_of_lines(ls.drop_first())
    } else {
        let ts = split_on(ls[0], 0x20);
        if player_tokens_ok(ts) {
            match players_of_lines(ls.drop_first()) {
                None => None,
                Some(r) => Some(
                    seq![
                        (
                            dec_i32_val(ts[0]),
                            dec_value(ts[1]) as int,
                            vstd::utf8::decode_utf8(player_name_bytes(ts)),
                        ),
                    ] + r,
                ),
            }
        } else {
            None
        }
    }
}

/// The exec player records carry exactly the spec tuples.
pub open spec fn players_match(v: Seq<Player>, s: Seq<(int, int, Seq<char>)>) -> bool {
    &&& v.len() == s.len()
    &&& forall|i: int|
        0 <= i < v.len() ==> (#[trigger] v[i]).score as int == s[i].0 && v[i].ping as int
            == s[i].1 && v[i].name@ == s[i].2
}

/// The fixed header token every response of this protocol begins with.
pub open spec fn quake_header() -> Seq<u8> {
    vstd::utf8::encode_utf8("statusResponse\n"@)
}

/// The response begins with the exact header token.
pub open spec fn has_quake_header(s: Seq<u8>) -> bool {
    quake_header().is_prefix_of(s)
}

/// Everything after the header token.
pub open spec fn quake_payload(s: Seq<u8>) -> Seq<u8> {
    s.subrange(quake_header().len() as int, s.len() as int)
}

/// A whole response is well-formed: the header token, a decodable
/// key/value line, and a decodable player block.
pub open spec fn quake_response_ok(s: Seq<u8>) -> bool {
    &&& has_quake_header(s)
    &&& ({
        let lines = split_on(quake_payload(s), 0x0A);
        let toks = split_on(lines[0], 0x5C);
        let start: int = if toks[0].len() == 0 {
            1
        } else {
            0
        };
        &&& parse_kv(toks.subrange(start, toks.len() as int)) is Some
        &&& players_of_lines(lines.drop_first()) is Some
    })
}

/// The key/value pairs of a well-formed response.
pub open spec fn quake_kv_of(s: Seq<u8>) -> Seq<(Seq<char>, Seq<char>)> {
    let lines = split_on(quake_payload(s), 0x0A);
    let toks = split_on(lines[0], 0x5C);
    let start: int = if toks[0].len() == 0 {
        1
    } else {
        0
    };
    parse_kv(toks.subrange(start, toks.len() as int))->Some_0
}

/// The player records of a well-formed response.
pub open spec fn quake_players_of(s: Seq<u8>) -> Seq<(int, int, Seq<char>)> {
    players_of_lines(split_on(quake_payload(s), 0x0A).drop_first())->Some_0
}

/// The decoded response: the server's key/value settings in arrival
/// order, and the player records.
#[derive(Debug, Clone, PartialEq, Eq)]
pub struct Response {
    pub map: Vec<(String, String)>,
    pub players: Vec<Player>,
}

/// The third member of the protocol family: its fixed command and header
/// tokens, and its player-line grammar.
pub struct QuakeThree;

impl QuakeThree {
    /// The ASCII command a query sends.
    pub fn get_send_header<'a>() -> (r: &'a str)
        ensures
            r@ == "getstatus"@,
    {
        "getstatus"
    }

    /// The token a response must begin with.
    pub fn get_response_header<'a>() -> (r: &'a str)
        ensures
            r@ == "statusResponse\n"@,
    {
        "statusResponse\n"
    }

    /// Decodes the whitespace-split tokens of one player line: a signed
    /// score, an unsigned ping, and the name rejoined from the rest, its
    /// surrounding quotes dropped.
    pub fn parse_player_string(tokens: &Vec<Vec<u8>>) -> (r: GDResult<Player>)
        ensures
            r is Ok <==> player_tokens_ok(tokens.deep_view()),
            r matches Ok(p) ==> player_matches(p, tokens.deep_view()),
            r is Err ==> r->Err_0 == GDError::PacketBad,
    {
        broadcast use vstd::utf8::encode_utf8_decode_utf8;

        let ghost dv = tokens.deep_view();
        proof {
            assert(dv.len() == tokens@.len());
        }
        if tokens.len() < 3 {
            return Err(GDError::PacketBad);
        }
        proof {
            assert(dv[0] =~= tokens@[0]@);
            assert(dv[1] =~= tokens@[1]@);
        }
        let score = match parse_i32_token(&tokens[0]) {
            Some(v) => v,
            None => {
                return Err(GDError::PacketBad);
            },
        };
        let ping = match parse_u16_token(&tokens[1]) {
            Some(v) => v,
            None => {
                return Err(GDError::PacketBad);
            },
        };
        let joined = join_tokens(tokens, 2);
        let name_bytes = strip_quotes_bytes(joined);
        proof {
            assert(name_bytes@ == player_name_bytes(dv));
        }
        match string_from_utf8(name_bytes) {
            Some(name) => Ok(Player { name, score, ping }),
            None => Err(GDError::PacketBad),
        }
    }

    /// Decodes a whole datagram response.
    ///
    /// A response that does not begin with the exact header token fails
    /// with [`GDError::PacketBad`] before any key/value parsing. The rest
    /// splits into the key/value line and the player lines; the first
    /// malformed player line fails the whole decode rather than being
    /// dropped.
    #[verifier::loop_isolation(false)]
    pub fn parse_response(data: Vec<u8>) -> (r: GDResult<Response>)
        ensures
            r is Ok <==> quake_response_ok(data@),
            r matches Ok(resp) ==> pairs_match(resp.map@, quake_kv_of(data@)) && players_match(
                resp.players@,
                quake_players_of(data@),
            ),
            r is Err ==> r->Err_0 == GDError::PacketBad,
    {
        let ghost d = data@;
        let hdr = Self::get_response_header();
        let hb = hdr.as_bytes();
        proof {
            assert(hb@ == quake_header());
        }
        if data.len() < hb.len() {
            proof {
                assert(!has_quake_header(d));
            }
            return Err(GDError::PacketBad);
        }
        let hn = hb.len();
        let mut i: usize = 0;
        while i < hn
            invariant
                0 <= i <= hn,
                forall|j: int| 0 <= j < i ==> d[j] == quake_header()[j],
            decreases hn - i,
        {
            if data[i] != hb[i] {
                proof {
                    assert(quake_header()[i as int] != d[i as int]);
                    assert(!has_quake_header(d));
                }
                return Err(GDError::PacketBad);
            }
            i = i + 1;
        }
        proof {
            assert(quake_header() =~= d.subrange(0, hn as int));
            assert(has_quake_header(d));
        }

        let payload = subvec(&data, hn, data.len());
        proof {
            assert(payload@ =~= quake_payload(d));
        }
        let lines = split_bytes(&payload, 0x0A);
        let ghost ldv = lines.deep_view();
        proof {
            lemma_split_on_nonempty(quake_payload(d), 0x0A);
            assert(ldv.len() == lines@.len());
            assert(ldv[0] =~= lines@[0]@);
        }
        let toks0 = split_bytes(&lines[0], 0x5C);
        let ghost tdv = toks0.deep_view();
        proof {
            lemma_split_on_nonempty(ldv[0], 0x5C);
            assert(tdv.len() == toks0@.len());
            assert(tdv[0] =~= toks0@[0]@);
        }
        let start: usize = if toks0[0].len() == 0 {
            1
        } else {
            0
        };
        let map = match parse_kv_tokens(&toks0, start) {
            Ok(m) => m,
            Err(_) => {
                return Err(GDError::PacketBad);
            },
        };

        let ghost pls = ldv.drop_first();
        let mut players: Vec<Player> = Vec::new();
        let ghost mut gplayers: Seq<(int, int, Seq<char>)> = Seq::empty();
        let n = lines.len();
        let mut li: usize = 1;
        proof {
            assert(ldv.subrange(1, n as int) =~= pls);
        }
        while li < n
            invariant
                1 <= li <= n,
                players_match(players@, gplayers),
                players_of_lines(pls) is Some <==> players_of_lines(
                    ldv.subrange(li as int, n as int),
                ) is Some,
                players_of_lines(ldv.subrange(li as int, n as int)) matches Some(rest)
                    ==> players_of_lines(pls) == Some(gplayers + rest),
            decreases n - li,
        {
            let ghost seg = ldv.subrange(li as int, n as int);
            proof {
                assert(seg[0] =~= lines@[li as int]@);
                assert(seg.drop_first() =~= ldv.subrange(li + 1, n as int));
            }
            if lines[li].len() > 0 {
                let toks = split_bytes(&lines[li], 0x20);
                let p = match Self::parse_player_string(&toks) {
                    Ok(p) => p,
                    Err(_) => {
                        return Err(GDError::PacketBad);
                    },
                };
                players.push(p);
                proof {
                    let ts = split_on(seg[0], 0x20);
                    let tup = (
                        dec_i32_val(ts[0]),
                        dec_value(ts[1]) as int,
                        vstd::utf8::decode_utf8(player_name_bytes(ts)),
                    );
                    gplayers = gplayers.push(tup);
                    assert(players_of_lines(ldv.subrange(li + 1, n as int)) matches Some(rest)
                        ==> gplayers.drop_last() + (seq![tup] + rest) =~= gplayers + rest);
                }
            }
            li = li + 1;
        }
        proof {
            assert(ldv.subrange(n as int, n as int) =~= Seq::<Seq<u8>>::empty());
            assert(gplayers + Seq::<(int, int, Seq<char>)>::empty() =~= gplayers);
        }
        Ok(Response { map, players })
    }
}

} // verus!
