//! The length-prefixed binary status protocol (Server List Ping).
//!
//! A query opens a stream connection, sends a handshake, a status request
//! and a ping request — each a length-prefixed packet — then reads one
//! response: a length prefix (informational only), a packet id that must
//! be zero, and a length-prefixed string of structured JSON describing the
//! server. The packet builders and decoders here are pure functions over
//! bytes; the socket work around them lives with the caller.

use vstd::prelude::*;
use vstd::string::StringSliceAdditionalSpecFns;

use crate::buffer::{twos_complement, Buffer};
use crate::codec::{
    as_string, as_varint, get_string, get_varint, spec_length_prefixed, spec_varint, u32_of_i32,
    varint_len, varint_value,
};
use crate::error::{GDError, GDResult};
use crate::buffer::{wrap_i32, wrap_u32};
use crate::json::{
    json_as_array, json_as_bool, json_as_i64, json_as_str, json_as_u64, json_get, json_is_null,
    json_model_of, json_text_of, json_to_string, json_well_formed, parse_json, JsonValue,
};
use crate::settings::RequestSettings;

verus! {

/// Which protocol family answered a query.
#[derive(Debug, Clone, Copy, PartialEq, Eq, Structural)]
pub enum Server {
    Java,
    Bedrock,
    Legacy,
}

/// One entry of the sampled player list.
#[derive(Debug, Clone, PartialEq, Eq)]
pub struct Player {
    pub name: String,
    pub id: String,
}

/// The decoded status response.
///
/// Absent optional fields are present-but-empty, never a parse failure.
#[derive(Debug, Clone, PartialEq, Eq)]
pub struct JavaResponse {
    pub game_version: String,
    pub protocol_version: i32,
    pub players_maximum: u32,
    pub players_online: u32,
    pub players: Option<Vec<Player>>,
    pub description: String,
    pub favicon: Option<String>,
    pub previews_chat: Option<bool>,
    pub enforces_secure_chat: Option<bool>,
    pub server_type: Server,
}

/// The registered default port of the binary status protocol.
pub fn port_or_java_default(port: Option<u16>) -> (r: u16)
    ensures
        port matches Some(p) ==> r == p,
        port is None ==> r == 25565,
{
    match port {
        Some(p) => p,
        None => 25565,
    }
}

/// The registered default port of the sibling datagram protocol.
pub fn port_or_bedrock_default(port: Option<u16>) -> (r: u16)
    ensures
        port matches Some(p) ==> r == p,
        port is None ==> r == 19132,
{
    match port {
        Some(p) => p,
        None => 19132,
    }
}

/// Wraps a packet body in its varint length prefix, the frame every
/// packet of this protocol travels in. A body too long for a non-negative
/// 32-bit length is refused.
pub fn frame_packet(data: Vec<u8>) -> (r: GDResult<Vec<u8>>)
    ensures
        data@.len() < 0x80000000 ==> {
            &&& r is Ok
            &&& r->Ok_0@ == spec_length_prefixed(data@)
        },
        data@.len() >= 0x80000000 ==> r == Err::<Vec<u8>, GDError>(GDError::PacketBad),
{
    if data.len() >= 0x80000000usize {
        return Err(GDError::PacketBad);
    }
    let mut out = as_varint(data.len() as i32);
    let mut tail = data;
    proof {
        assert(u32_of_i32(tail@.len() as i32) == tail@.len());
    }
    out.append(&mut tail);
    Ok(out)
}

/// The handshake body: packet id 0, the claimed protocol version, the
/// length-prefixed hostname, the port as two raw little-endian bytes, and
/// next-state 1 to ask for status.
pub open spec fn spec_handshake(protocol_version: i32, hostname: Seq<char>, port: u16) -> Seq<
    u8,
> {
    seq![0u8] + spec_varint(u32_of_i32(protocol_version)) + spec_length_prefixed(
        vstd::utf8::encode_utf8(hostname),
    ) + seq![(port % 256) as u8, (port / 256) as u8] + seq![1u8]
}

/// Builds the handshake packet body from the request settings and the
/// port the connection went to.
pub fn handshake_payload(settings: &RequestSettings, port: u16) -> (r: GDResult<Vec<u8>>)
    ensures
        vstd::utf8::encode_utf8(settings.hostname@).len() < 0x80000000 ==> {
            &&& r is Ok
            &&& r->Ok_0@ == spec_handshake(settings.protocol_version, settings.hostname@, port)
        },
        vstd::utf8::encode_utf8(settings.hostname@).len() >= 0x80000000 ==> r == Err::<
            Vec<u8>,
            GDError,
        >(
            GDError::PacketBad,
        ),
{
    let mut out: Vec<u8> = Vec::new();
    out.push(0x00);
    let mut pv = as_varint(settings.protocol_version);
    out.append(&mut pv);
    let mut hn = match as_string(settings.hostname.as_str()) {
        Ok(v) => v,
        Err(e) => {
            return Err(e);
        },
    };
    out.append(&mut hn);
    out.push((port % 256) as u8);
    out.push((port / 256) as u8);
    out.push(0x01);
    proof {
        assert(out@ =~= spec_handshake(settings.protocol_version, settings.hostname@, port));
    }
    Ok(out)
}

/// The one-byte body of the status request: packet id 0.
pub fn status_request_payload() -> (r: Vec<u8>)
    ensures
        r@ == seq![0x00u8],
{
    let mut out: Vec<u8> = Vec::new();
    out.push(0x00);
    proof {
        assert(out@ =~= seq![0x00u8]);
    }
    out
}

/// The one-byte body of the ping request: packet id 1.
pub fn ping_request_payload() -> (r: Vec<u8>)
    ensures
        r@ == seq![0x01u8],
{
    let mut out: Vec<u8> = Vec::new();
    out.push(0x01);
    proof {
        assert(out@ =~= seq![0x01u8]);
    }
    out
}

/// Drops the outer varint length prefix of a received response and hands
/// back the rest. The declared length is informational only and is not
/// checked against the bytes actually received.
pub fn strip_length_frame(data: Vec<u8>) -> (r: GDResult<Vec<u8>>)
    ensures
        varint_len(data@) matches Some(k) ==> {
            &&& varint_value(data@, k) < 0x100000000 ==> {
                &&& r is Ok
                &&& r->Ok_0@ == data@.subrange(k as int, data@.len() as int)
            }
            &&& varint_value(data@, k) >= 0x100000000 ==> r == Err::<Vec<u8>, GDError>(
                GDError::PacketBad,
            )
        },
        varint_len(data@) is None && data@.len() >= 5 ==> r == Err::<Vec<u8>, GDError>(
            GDError::PacketBad,
        ),
        varint_len(data@) is None && data@.len() < 5 ==> r is Err && (r->Err_0 matches
        GDError::UnderflowError { .. }),
{
    let ghost d = data@;
    let mut b = Buffer::new(data);
    proof {
        assert(b.remaining() =~= d);
    }
    match get_varint(&mut b) {
        Ok(_) => Ok(b.remaining_bytes()),
        Err(e) => Err(e),
    }
}

/// The response holds a zero packet id followed by a well-formed
/// length-prefixed UTF-8 string.
pub open spec fn status_frame_ok(s: Seq<u8>) -> bool {
    &&& varint_len(s) matches Some(k)
    &&& varint_value(s, varint_len(s)->Some_0) < 0x100000000
    &&& twos_complement(varint_value(s, varint_len(s)->Some_0), 4) == 0
    &&& ({
        let rest = s.subrange(varint_len(s)->Some_0 as int, s.len() as int);
        &&& varint_len(rest) matches Some(k2)
        &&& ({
            let v2 = varint_value(rest, varint_len(rest)->Some_0);
            &&& v2 < 0x80000000
            &&& varint_len(rest)->Some_0 + v2 <= rest.len()
            &&& vstd::utf8::valid_utf8(
                rest.subrange(
                    varint_len(rest)->Some_0 as int,
                    (varint_len(rest)->Some_0 + v2) as int,
                ),
            )
        })
    })
}

/// The characters of the JSON text carried by a response that satisfies
/// [`status_frame_ok`].
pub open spec fn status_frame_json(s: Seq<u8>) -> Seq<char> {
    let rest = s.subrange(varint_len(s)->Some_0 as int, s.len() as int);
    let k2 = varint_len(rest)->Some_0;
    let v2 = varint_value(rest, k2);
    vstd::utf8::decode_utf8(rest.subrange(k2 as int, (k2 + v2) as int))
}

/// Decodes an already unframed response: reads the packet id, which must
/// be zero, then the length-prefixed JSON text.
///
/// A non-zero packet id fails with [`GDError::PacketBad`] and nothing of
/// the response is handed out.
pub fn decode_status_frame(data: Vec<u8>) -> (r: GDResult<String>)
    ensures
        r is Ok <==> status_frame_ok(data@),
        r is Ok ==> r->Ok_0@ == status_frame_json(data@),
        varint_len(data@) matches Some(k) ==> varint_value(data@, k) < 0x100000000
            && twos_complement(varint_value(data@, k), 4) != 0 ==> r == Err::<String, GDError>(
            GDError::PacketBad,
        ),
        r is Err ==> r->Err_0 == GDError::PacketBad || (r->Err_0 matches GDError::UnderflowError {
            ..
        }),
{
    let ghost d = data@;
    let mut b = Buffer::new(data);
    proof {
        assert(b.remaining() =~= d);
    }
    let id = match get_varint(&mut b) {
        Ok(i) => i,
        Err(e) => {
            return Err(e);
        },
    };
    if id != 0 {
        return Err(GDError::PacketBad);
    }
    proof {
        assert(b.remaining() =~= d.subrange(varint_len(d)->Some_0 as int, d.len() as int));
    }
    match get_string(&mut b) {
        Ok(s) => Ok(s),
        Err(e) => Err(e),
    }
}

/// The member of an object document under `key`.
pub open spec fn doc_member(doc: JsonValue, key: Seq<char>) -> Option<JsonValue> {
    match doc {
        JsonValue::Object(m) => if m.contains_key(key) {
            Some(m[key])
        } else {
            None
        },
        _ => None,
    }
}

/// The required version.name string of a status document.
pub open spec fn doc_version_name(doc: JsonValue) -> Option<Seq<char>> {
    match doc_member(doc, "version"@) {
        Some(v) => match doc_member(v, "name"@) {
            Some(JsonValue::Text(t)) => Some(t),
            _ => None,
        },
        None => None,
    }
}

/// The required version.protocol integer, within the range the integer
/// accessor accepts.
pub open spec fn doc_protocol(doc: JsonValue) -> Option<int> {
    match doc_member(doc, "version"@) {
        Some(v) => match doc_member(v, "protocol"@) {
            Some(JsonValue::Int(n)) => if i64::MIN <= n <= i64::MAX {
                Some(n)
            } else {
                None
            },
            _ => None,
        },
        None => None,
    }
}

/// A required unsigned player count under players.`key`.
pub open spec fn doc_count(doc: JsonValue, key: Seq<char>) -> Option<int> {
    match doc_member(doc, "players"@) {
        Some(p) => match doc_member(p, key) {
            Some(JsonValue::Int(n)) => if 0 <= n <= u64::MAX {
                Some(n)
            } else {
                None
            },
            _ => None,
        },
        None => None,
    }
}

/// players.sample is absent or null: no player list, and no failure.
pub open spec fn doc_sample_absent(doc: JsonValue) -> bool {
    match doc_member(doc, "players"@) {
        Some(p) => match doc_member(p, "sample"@) {
            None => true,
            Some(s) => s is Null,
        },
        None => true,
    }
}

/// The entries of a players.sample array.
pub open spec fn doc_sample_entries(doc: JsonValue) -> Option<Seq<JsonValue>> {
    match doc_member(doc, "players"@) {
        Some(p) => match doc_member(p, "sample"@) {
            Some(JsonValue::Array(es)) => Some(es),
            _ => None,
        },
        None => None,
    }
}

/// A sample entry carries its two required strings.
pub open spec fn sample_entry_ok(e: JsonValue) -> bool {
    &&& doc_member(e, "name"@) matches Some(JsonValue::Text(_))
    &&& doc_member(e, "id"@) matches Some(JsonValue::Text(_))
}

/// The name string of a well-formed sample entry.
pub open spec fn entry_name(e: JsonValue) -> Seq<char> {
    doc_member(e, "name"@)->Some_0->Text_0
}

/// The id string of a well-formed sample entry.
pub open spec fn entry_id(e: JsonValue) -> Seq<char> {
    doc_member(e, "id"@)->Some_0->Text_0
}

/// Every required field of the status document is there and well-shaped:
/// version.name a string, version.protocol an integer, players.max and
/// players.online unsigned integers, and players.sample — where present
/// and not null — an array of entries that each carry name and id
/// strings.
pub open spec fn status_doc_ok(doc: JsonValue) -> bool {
    &&& doc_version_name(doc) is Some
    &&& doc_protocol(doc) is Some
    &&& doc_count(doc, "max"@) is Some
    &&& doc_count(doc, "online"@) is Some
    &&& (doc_sample_absent(doc) || (doc_sample_entries(doc) matches Some(es) && forall|i: int|
        0 <= i < es.len() ==> sample_entry_ok(#[trigger] es[i])))
}

/// `r` is the record the document describes: required fields extracted
/// (counts and protocol keeping their low 32 bits), absent optionals
/// empty, the description serialized as-is — or the text `null` where it
/// is missing — and the family marker set.
pub open spec fn response_matches_doc(r: JavaResponse, doc: JsonValue) -> bool {
    &&& r.game_version@ == doc_version_name(doc)->Some_0
    &&& r.protocol_version as int == wrap_i32(doc_protocol(doc)->Some_0)
    &&& r.players_maximum as int == wrap_u32(doc_count(doc, "max"@)->Some_0)
    &&& r.players_online as int == wrap_u32(doc_count(doc, "online"@)->Some_0)
    &&& (doc_sample_absent(doc) ==> r.players is None)
    &&& (!doc_sample_absent(doc) ==> (doc_sample_entries(doc) matches Some(es) && (r.players
    matches Some(ps) && ps@.len() == es.len() && forall|i: int|
        0 <= i < es.len() ==> (#[trigger] ps@[i]).name@ == entry_name(es[i]) && ps@[i].id@
            == entry_id(es[i]))))
    &&& (match doc_member(doc, "description"@) {
        Some(d) => r.description@ == json_text_of(d),
        None => r.description@ == "null"@,
    })
    &&& (match doc_member(doc, "favicon"@) {
        Some(JsonValue::Text(t)) => r.favicon matches Some(f) && f@ == t,
        _ => r.favicon is None,
    })
    &&& (match doc_member(doc, "previewsChat"@) {
        Some(JsonValue::Bool(b)) => r.previews_chat == Some(b),
        _ => r.previews_chat is None,
    })
    &&& (match doc_member(doc, "enforcesSecureChat"@) {
        Some(JsonValue::Bool(b)) => r.enforces_secure_chat == Some(b),
        _ => r.enforces_secure_chat is None,
    })
    &&& r.server_type == Server::Java
}

/// Decodes the JSON status text into the response record.
///
/// Text the JSON parser refuses fails with [`GDError::JsonParse`]; a
/// well-formed document whose required fields are missing or of the wrong
/// shape fails with [`GDError::PacketBad`]; every other well-formed
/// document yields the record it describes, its absent optional fields
/// left empty.
#[verifier::loop_isolation(false)]
pub fn decode_status_payload(json: &str) -> (r: GDResult<JavaResponse>)
    ensures
        r == Err::<JavaResponse, GDError>(GDError::JsonParse) <==> !json_well_formed(json@),
        json_model_of(json@) matches Some(doc) ==> {
            &&& (r is Ok <==> status_doc_ok(doc))
            &&& (r matches Ok(resp) ==> response_matches_doc(resp, doc))
            &&& (!status_doc_ok(doc) ==> r == Err::<JavaResponse, GDError>(GDError::PacketBad))
        },
{
    let value = match parse_json(json) {
        Ok(v) => v,
        Err(_) => {
            return Err(GDError::JsonParse);
        },
    };
    let ghost doc = json_model_of(json@)->Some_0;

    let version = match json_get(&value, "version") {
        Some(v) => v,
        None => {
            return Err(GDError::PacketBad);
        },
    };
    let game_version = match json_get(version, "name") {
        Some(n) => match json_as_str(n) {
            Some(s) => s,
            None => {
                return Err(GDError::PacketBad);
            },
        },
        None => {
            return Err(GDError::PacketBad);
        },
    };
    let protocol_version_i64 = match json_get(version, "protocol") {
        Some(p) => match json_as_i64(p) {
            Some(v) => v,
            None => {
                return Err(GDError::PacketBad);
            },
        },
        None => {
            return Err(GDError::PacketBad);
        },
    };
    let protocol_version = crate::buffer::i64_wrap_to_i32(protocol_version_i64);

    let players_value = match json_get(&value, "players") {
        Some(p) => p,
        None => {
            return Err(GDError::PacketBad);
        },
    };
    let players_maximum_u64 = match json_get(players_value, "max") {
        Some(m) => match json_as_u64(m) {
            Some(v) => v,
            None => {
                return Err(GDError::PacketBad);
            },
        },
        None => {
            return Err(GDError::PacketBad);
        },
    };
    let players_online_u64 = match json_get(players_value, "online") {
        Some(o) => match json_as_u64(o) {
            Some(v) => v,
            None => {
                return Err(GDError::PacketBad);
            },
        },
        None => {
            return Err(GDError::PacketBad);
        },
    };
    let players_maximum = crate::buffer::u64_wrap_to_u32(players_maximum_u64);
    let players_online = crate::buffer::u64_wrap_to_u32(players_online_u64);

    let players: Option<Vec<Player>> = match json_get(players_value, "sample") {
        None => None,
        Some(sample) => {
            if json_is_null(sample) {
                None
            } else {
                let entries = match json_as_array(sample) {
                    Some(a) => a,
                    None => {
                        return Err(GDError::PacketBad);
                    },
                };
                let ghost es = doc_sample_entries(doc)->Some_0;
                let mut list: Vec<Player> = Vec::new();
                let mut i: usize = 0;
                let n = entries.len();
                while i < n
                    invariant
                        n == entries.len(),
                        0 <= i <= n,
                        list@.len() == i,
                        forall|j: int|
                            0 <= j < i ==> sample_entry_ok(#[trigger] es[j]) && list@[j].name@
                                == entry_name(es[j]) && list@[j].id@ == entry_id(es[j]),
                    decreases n - i,
                {
                    let entry = &entries[i];
                    let name = match json_get(entry, "name") {
                        Some(x) => match json_as_str(x) {
                            Some(s) => s,
                            None => {
                                return Err(GDError::PacketBad);
                            },
                        },
                        None => {
                            return Err(GDError::PacketBad);
                        },
                    };
                    let id = match json_get(entry, "id") {
                        Some(x) => match json_as_str(x) {
                            Some(s) => s,
                            None => {
                                return Err(GDError::PacketBad);
                            },
                        },
                        None => {
                            return Err(GDError::PacketBad);
                        },
                    };
                    list.push(Player { name, id });
                    i = i + 1;
                }
                Some(list)
            }
        },
    };

    let description = match json_get(&value, "description") {
        Some(d) => json_to_string(d),
        None => String::from_str("null"),
    };
    let favicon = match json_get(&value, "favicon") {
        Some(f) => json_as_str(f),
        None => None,
    };
    let previews_chat = match json_get(&value, "previewsChat") {
        Some(p) => json_as_bool(p),
        None => None,
    };
    let enforces_secure_chat = match json_get(&value, "enforcesSecureChat") {
        Some(p) => json_as_bool(p),
        None => None,
    };

    Ok(JavaResponse {
        game_version,
        protocol_version,
        players_maximum,
        players_online,
        players,
        description,
        favicon,
        previews_chat,
        enforces_secure_chat,
        server_type: Server::Java,
    })
}


/// What an automatic query does after one protocol finished: stop on
/// success, move to the next family in the fixed order, or give up after
/// the last.
#[derive(Debug, Clone, Copy, PartialEq, Eq, Structural)]
pub enum AutoStep {
    Done,
    TryNext(Server),
    Failed,
}

/// The fixed fallback order of an automatic query begins with the binary
/// protocol.
pub fn auto_query_start() -> (r: Server)
    ensures
        r == Server::Java,
{
    Server::Java
}

/// The decision of the automatic query loop: a success ends it, a failure
/// moves down the fixed order — binary, then the datagram sibling, then
/// the legacy variant — and a failure of the last yields the aggregate
/// failure.
pub fn auto_query_step(current: Server, success: bool) -> (r: AutoStep)
    ensures
        success ==> r == AutoStep::Done,
        !success && current == Server::Java ==> r == AutoStep::TryNext(Server::Bedrock),
        !success && current == Server::Bedrock ==> r == AutoStep::TryNext(Server::Legacy),
        !success && current == Server::Legacy ==> r == AutoStep::Failed,
{
    if success {
        AutoStep::Done
    } else {
        match current {
            Server::Java => AutoStep::TryNext(Server::Bedrock),
            Server::Bedrock => AutoStep::TryNext(Server::Legacy),
            Server::Legacy => AutoStep::Failed,
        }
    }
}

} // verus!
