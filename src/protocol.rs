//! Request decoding and response encoding for the `ApiVersions` and `Fetch` APIs.
use vstd::prelude::*;
use crate::frame::{frame_bytes, write_frame};
use crate::model::{
    ApiVersionEntry, KafkaApiKey, KafkaError, registry, spec_supported, is_supported, versions,
    NO_ERROR, UNSUPPORTED_VERSION, UNKNOWN_TOPIC,
};
use crate::wire::{
    be16, be32, be64, be128, u16_at, u32_at, u128_at, get_u16, get_u32, get_u128, put_u8, put_u16,
    put_u32, put_u64, put_u128,
};

verus! {

/// Why a request could not be answered; each closes the connection.
#[derive(Debug, Clone, Copy, PartialEq, Eq, Structural)]
pub enum ProtocolError {
    /// The request ended before a field that it must hold.
    Truncated,
    /// Bytes were left over after the last field of the request.
    TrailingBytes,
    /// The request names an API key that is not in the registry.
    UnknownApiKey,
}

/// The fields that open every request.
#[derive(Debug, Clone, Copy, PartialEq, Eq, Structural)]
pub struct RequestHeader {
    pub api_key: KafkaApiKey,
    pub api_version: u16,
    pub correlation_id: u32,
}

/// Bytes in the request header.
pub const HEADER_LEN: usize = 8;
/// Bytes of a partition entry in a fetch request, its tag byte included.
pub const PARTITION_LEN: usize = 33;
/// Bytes of a topic entry in a fetch response.
pub const TOPIC_RESPONSE_LEN: usize = 55;

/// The element count stored in a compact-array count byte; zero means absent.
pub open spec fn compact_count(b: u8) -> nat {
    if b == 0 { 0 } else { (b - 1) as nat }
}

/// The element count stored in a compact-array count byte; zero means absent.
pub fn read_compact_count(b: u8) -> (r: usize)
    ensures
        r == compact_count(b),
        r < 255,
{
    if b == 0 { 0 } else { (b - 1) as usize }
}

/// Appends the compact-array count byte for `n` elements.
pub fn write_compact_count(out: &mut Vec<u8>, n: usize)
    requires
        n < 255,
    ensures
        final(out)@ == old(out)@.push((n + 1) as u8),
{
    put_u8(out, (n + 1) as u8);
}

pub open spec fn spec_decode_header(s: Seq<u8>) -> Result<RequestHeader, ProtocolError> {
    if s.len() < HEADER_LEN {
        Err(ProtocolError::Truncated)
    } else {
        match KafkaApiKey::spec_from_code(u16_at(s, 0)) {
            None => Err(ProtocolError::UnknownApiKey),
            Some(k) => Ok(RequestHeader { api_key: k, api_version: u16_at(s, 2), correlation_id: u32_at(s, 4) }),
        }
    }
}

/// Reads the request header at the start of `s`.
pub fn decode_header(s: &[u8]) -> (r: Result<RequestHeader, ProtocolError>)
    ensures
        r == spec_decode_header(s@),
{
    if s.len() < HEADER_LEN {
        return Err(ProtocolError::Truncated);
    }
    match KafkaApiKey::try_from_code(get_u16(s, 0)) {
        Err(_) => Err(ProtocolError::UnknownApiKey),
        Ok(k) => Ok(RequestHeader { api_key: k, api_version: get_u16(s, 2), correlation_id: get_u32(s, 4) }),
    }
}

/// Where `k` topic entries that start at `p` end; negative where they do not fit in `s`.
pub open spec fn topics_end(s: Seq<u8>, p: int, k: nat) -> int
    decreases k,
{
    if k == 0 {
        p
    } else {
        let q = topics_end(s, p, (k - 1) as nat);
        if q < 0 || q + 17 > s.len() {
            -1
        } else {
            let e = q + 18 + PARTITION_LEN * compact_count(s[q + 16]);
            if e > s.len() { -1 } else { e }
        }
    }
}

/// The topic ids of the first `k` topic entries that start at `p`.
pub open spec fn topic_ids(s: Seq<u8>, p: int, k: nat) -> Seq<u128>
    decreases k,
{
    if k == 0 {
        Seq::empty()
    } else {
        topic_ids(s, p, (k - 1) as nat).push(u128_at(s, topics_end(s, p, (k - 1) as nat)))
    }
}

/// Where `k` forgotten-topic entries that start at `p` end; negative where they do not fit.
pub open spec fn forgotten_end(s: Seq<u8>, p: int, k: nat) -> int
    decreases k,
{
    if k == 0 {
        p
    } else {
        let q = forgotten_end(s, p, (k - 1) as nat);
        if q < 0 || q + 17 > s.len() {
            -1
        } else {
            let e = q + 18 + 4 * compact_count(s[q + 16]);
            if e > s.len() { -1 } else { e }
        }
    }
}

proof fn lemma_topic_ids_len(s: Seq<u8>, p: int, k: nat)
    ensures
        topic_ids(s, p, k).len() == k,
    decreases k,
{
    if k > 0 {
        lemma_topic_ids_len(s, p, (k - 1) as nat);
    }
}

proof fn lemma_topics_end_stays_negative(s: Seq<u8>, p: int, k1: nat, k2: nat)
    requires
        k1 <= k2,
        topics_end(s, p, k1) < 0,
    ensures
        topics_end(s, p, k2) < 0,
    decreases k2,
{
    if k2 > k1 {
        lemma_topics_end_stays_negative(s, p, k1, (k2 - 1) as nat);
    }
}

proof fn lemma_forgotten_end_stays_negative(s: Seq<u8>, p: int, k1: nat, k2: nat)
    requires
        k1 <= k2,
        forgotten_end(s, p, k1) < 0,
    ensures
        forgotten_end(s, p, k2) < 0,
    decreases k2,
{
    if k2 > k1 {
        lemma_forgotten_end_stays_negative(s, p, k1, (k2 - 1) as nat);
    }
}

/// Where the topic-count byte of a fetch request stands: after the header, the
/// client id, its tag byte and the fixed-width request fields.
pub open spec fn topic_count_pos(s: Seq<u8>) -> int {
    HEADER_LEN + 2 + u16_at(s, HEADER_LEN as int) + 22
}

/// The topic ids that the fetch request `s` (header included) lists, if the request
/// is well formed and ends exactly at its last field.
pub open spec fn spec_fetch_topics(s: Seq<u8>) -> Result<Seq<u128>, ProtocolError> {
    if s.len() < HEADER_LEN + 2 {
        Err(ProtocolError::Truncated)
    } else {
        let c = topic_count_pos(s);
        if c + 1 > s.len() {
            Err(ProtocolError::Truncated)
        } else {
            let n = compact_count(s[c]);
            let te = topics_end(s, c + 1, n);
            if te < 0 || te + 1 > s.len() {
                Err(ProtocolError::Truncated)
            } else {
                let fe = forgotten_end(s, te + 1, compact_count(s[te]));
                if fe < 0 || fe + 1 > s.len() {
                    Err(ProtocolError::Truncated)
                } else {
                    let end = fe + 1 + compact_count(s[fe]) + 1;
                    if end > s.len() {
                        Err(ProtocolError::Truncated)
                    } else if end < s.len() {
                        Err(ProtocolError::TrailingBytes)
                    } else {
                        Ok(topic_ids(s, c + 1, n))
                    }
                }
            }
        }
    }
}

/// Decodes the body of the fetch request `s` (header included) and returns the
/// topic ids it lists, in order.
pub fn decode_fetch_topics(s: &[u8]) -> (r: Result<Vec<u128>, ProtocolError>)
    ensures
        match r {
            Ok(ids) => spec_fetch_topics(s@) == Ok::<Seq<u128>, ProtocolError>(ids@) && ids@.len() < 255,
            Err(e) => spec_fetch_topics(s@) == Err::<Seq<u128>, ProtocolError>(e),
        },
{
    let len = s.len();
    if len < HEADER_LEN + 2 {
        return Err(ProtocolError::Truncated);
    }
    let client_id_len = get_u16(s, HEADER_LEN) as usize;
    let c = HEADER_LEN + 2 + client_id_len + 22;
    if c + 1 > len {
        return Err(ProtocolError::Truncated);
    }
    let n = read_compact_count(s[c]);
    let mut ids: Vec<u128> = Vec::new();
    let mut pos: usize = c + 1;
    let mut i: usize = 0;
    while i < n
        invariant
            len == s@.len(),
            len >= HEADER_LEN + 2,
            c == topic_count_pos(s@),
            c + 1 <= len,
            n == compact_count(s@[c as int]),
            0 <= i <= n,
            n < 255,
            pos == topics_end(s@, c + 1, i as nat),
            pos <= len,
            ids@ == topic_ids(s@, c + 1, i as nat),
            ids@.len() == i,
        decreases n - i,
    {
        if len - pos < 17 {
            proof {
                lemma_topics_end_stays_negative(s@, c + 1, (i + 1) as nat, n as nat);
            }
            return Err(ProtocolError::Truncated);
        }
        let id = get_u128(s, pos);
        let m = read_compact_count(s[pos + 16]);
        if len - pos < 18 + PARTITION_LEN * m {
            proof {
                lemma_topics_end_stays_negative(s@, c + 1, (i + 1) as nat, n as nat);
            }
            return Err(ProtocolError::Truncated);
        }
        pos = pos + 18 + PARTITION_LEN * m;
        ids.push(id);
        i += 1;
    }
    if pos >= len {
        return Err(ProtocolError::Truncated);
    }
    let te = pos;
    let f = read_compact_count(s[te]);
    let mut fpos: usize = te + 1;
    let mut j: usize = 0;
    while j < f
        invariant
            len == s@.len(),
            len >= HEADER_LEN + 2,
            c == topic_count_pos(s@),
            c + 1 <= len,
            n == compact_count(s@[c as int]),
            n < 255,
            te == topics_end(s@, c + 1, n as nat),
            ids@ == topic_ids(s@, c + 1, n as nat),
            ids@.len() == n,
            te + 1 <= len,
            f == compact_count(s@[te as int]),
            0 <= j <= f,
            fpos == forgotten_end(s@, te + 1, j as nat),
            fpos <= len,
        decreases f - j,
    {
        if len - fpos < 17 {
            proof {
                lemma_forgotten_end_stays_negative(s@, te + 1, (j + 1) as nat, f as nat);
            }
            return Err(ProtocolError::Truncated);
        }
        let m = read_compact_count(s[fpos + 16]);
        if len - fpos < 18 + 4 * m {
            proof {
                lemma_forgotten_end_stays_negative(s@, te + 1, (j + 1) as nat, f as nat);
            }
            return Err(ProtocolError::Truncated);
        }
        fpos = fpos + 18 + 4 * m;
        j += 1;
    }
    if fpos >= len {
        return Err(ProtocolError::Truncated);
    }
    let rack_len = read_compact_count(s[fpos]);
    if len - fpos - 1 < rack_len + 1 {
        return Err(ProtocolError::Truncated);
    }
    if len - fpos - 1 > rack_len + 1 {
        return Err(ProtocolError::TrailingBytes);
    }
    Ok(ids)
}

/// The response to a request whose API version is not supported.
pub open spec fn unsupported_response(correlation_id: u32) -> Seq<u8> {
    be32(correlation_id) + be16(UNSUPPORTED_VERSION)
}

/// One advertised API in an `ApiVersions` response.
pub open spec fn entry_bytes(e: ApiVersionEntry) -> Seq<u8> {
    be16(e.api_key.spec_code()) + be16(e.min_version) + be16(e.max_version) + seq![0u8]
}

pub open spec fn entries_bytes(es: Seq<ApiVersionEntry>) -> Seq<u8>
    decreases es.len(),
{
    if es.len() == 0 {
        Seq::empty()
    } else {
        entries_bytes(es.drop_last()) + entry_bytes(es.last())
    }
}

/// The `ApiVersions` response body: the registry, each entry with its tag byte.
pub open spec fn api_versions_response(correlation_id: u32) -> Seq<u8> {
    be32(correlation_id) + be16(NO_ERROR) + seq![(registry().len() + 1) as u8] + entries_bytes(registry())
        + be32(0) + seq![0u8]
}

/// The entry for one requested topic in a fetch response: one partition, unknown topic.
pub open spec fn topic_entry(topic_id: u128) -> Seq<u8> {
    be128(topic_id) + seq![2u8] + be32(0) + be16(UNKNOWN_TOPIC) + be64(0) + be64(0) + be64(0) + seq![0u8]
        + be32(0) + seq![1u8, 0u8, 0u8]
}

pub open spec fn topics_bytes(ids: Seq<u128>) -> Seq<u8>
    decreases ids.len(),
{
    if ids.len() == 0 {
        Seq::empty()
    } else {
        topics_bytes(ids.drop_last()) + topic_entry(ids.last())
    }
}

/// The fetch response body for the requested topic ids.
pub open spec fn fetch_response(correlation_id: u32, ids: Seq<u128>) -> Seq<u8> {
    be32(correlation_id) + seq![0u8] + be32(0) + be16(NO_ERROR) + be32(0) + seq![(ids.len() + 1) as u8]
        + topics_bytes(ids) + seq![0u8]
}

/// The response body owed to the request `s` (header included).
pub open spec fn spec_response(s: Seq<u8>) -> Result<Seq<u8>, ProtocolError> {
    match spec_decode_header(s) {
        Err(e) => Err(e),
        Ok(h) => if !spec_supported(h.api_key, h.api_version) {
            Ok(unsupported_response(h.correlation_id))
        } else {
            match h.api_key {
                KafkaApiKey::ApiVersions => Ok(api_versions_response(h.correlation_id)),
                KafkaApiKey::Fetch => match spec_fetch_topics(s) {
                    Ok(ids) => Ok(fetch_response(h.correlation_id, ids)),
                    Err(e) => Err(e),
                },
            }
        },
    }
}

/// A response that holds only a correlation id and an error code.
pub fn build_response(correlation_id: u32, error_code: u16) -> (r: Vec<u8>)
    ensures
        r@ == be32(correlation_id) + be16(error_code),
{
    let mut r: Vec<u8> = Vec::new();
    put_u32(&mut r, correlation_id);
    put_u16(&mut r, error_code);
    r
}

/// Appends the `ApiVersions` response body for `correlation_id`.
pub fn process_api_versions(response: &mut Vec<u8>, correlation_id: u32)
    ensures
        final(response)@ == old(response)@ + api_versions_response(correlation_id),
{
    let table = versions();
    put_u32(response, correlation_id);
    put_u16(response, KafkaError::NoError.code());
    write_compact_count(response, table.len());
    let ghost head = old(response)@ + be32(correlation_id) + be16(NO_ERROR) + seq![(registry().len() + 1) as u8];
    assert(response@ =~= head + entries_bytes(registry().take(0)));
    let mut i: usize = 0;
    while i < table.len()
        invariant
            table@ == registry(),
            0 <= i <= table@.len(),
            response@ == head + entries_bytes(registry().take(i as int)),
        decreases table@.len() - i,
    {
        let e = table[i];
        put_u16(response, e.api_key.code());
        put_u16(response, e.min_version);
        put_u16(response, e.max_version);
        put_u8(response, 0);
        assert(registry().take(i + 1).drop_last() =~= registry().take(i as int));
        i += 1;
        assert(response@ =~= head + entries_bytes(registry().take(i as int)));
    }
    assert(registry().take(2) =~= registry());
    put_u32(response, 0);
    put_u8(response, 0);
    assert(response@ =~= old(response)@ + api_versions_response(correlation_id));
}

/// An `ApiVersions` response lists the registry's two entries, in order, each
/// closed by a zero tag byte, after a count byte that says two entries follow.
pub proof fn lemma_api_versions_layout(correlation_id: u32)
    ensures
        ({
            let r = api_versions_response(correlation_id);
            &&& r.len() == 26
            &&& registry().len() == 2
            &&& r[6] == 3
            &&& forall|i: int| 0 <= i < 2 ==> r.subrange(7 + 7 * i, 14 + 7 * i) == entry_bytes(#[trigger] registry()[i])
                && r[13 + 7 * i] == 0
        }),
{
    let r = api_versions_response(correlation_id);
    reveal_with_fuel(entries_bytes, 3);
    let es = registry();
    assert(es.drop_last().drop_last() =~= Seq::<ApiVersionEntry>::empty());
    assert(es.drop_last() =~= seq![es[0]]);
    assert(entries_bytes(es) =~= entry_bytes(es[0]) + entry_bytes(es[1]));
    assert(r.subrange(7, 14) =~= entry_bytes(es[0]));
    assert(r.subrange(14, 21) =~= entry_bytes(es[1]));
}

proof fn lemma_topics_bytes_len(ids: Seq<u128>)
    ensures
        topics_bytes(ids).len() == TOPIC_RESPONSE_LEN * ids.len(),
    decreases ids.len(),
{
    if ids.len() > 0 {
        lemma_topics_bytes_len(ids.drop_last());
    }
}

/// The fetch response body for the requested topic ids.
pub fn encode_fetch_response(correlation_id: u32, ids: &Vec<u128>) -> (r: Vec<u8>)
    requires
        ids@.len() < 255,
    ensures
        r@ == fetch_response(correlation_id, ids@),
        r@.len() == 17 + TOPIC_RESPONSE_LEN * ids@.len(),
{
    let mut r: Vec<u8> = Vec::new();
    put_u32(&mut r, correlation_id);
    put_u8(&mut r, 0);
    put_u32(&mut r, 0);
    put_u16(&mut r, KafkaError::NoError.code());
    put_u32(&mut r, 0);
    write_compact_count(&mut r, ids.len());
    let ghost head = r@;
    assert(head + topics_bytes(ids@.take(0)) =~= head);
    let mut i: usize = 0;
    while i < ids.len()
        invariant
            0 <= i <= ids@.len(),
            r@ == head + topics_bytes(ids@.take(i as int)),
        decreases ids@.len() - i,
    {
        let id = ids[i];
        put_u128(&mut r, id);
        put_u8(&mut r, 2);
        put_u32(&mut r, 0);
        put_u16(&mut r, KafkaError::UnknownTopic.code());
        put_u64(&mut r, 0);
        put_u64(&mut r, 0);
        put_u64(&mut r, 0);
        put_u8(&mut r, 0);
        put_u32(&mut r, 0);
        put_u8(&mut r, 1);
        put_u8(&mut r, 0);
        put_u8(&mut r, 0);
        assert(ids@.take(i + 1).drop_last() =~= ids@.take(i as int));
        i += 1;
        assert(r@ =~= head + topics_bytes(ids@.take(i as int)));
    }
    assert(ids@.take(ids@.len() as int) =~= ids@);
    put_u8(&mut r, 0);
    proof {
        lemma_topics_bytes_len(ids@);
    }
    assert(r@ =~= fetch_response(correlation_id, ids@));
    r
}

fn respond(s: &[u8]) -> (r: Result<Vec<u8>, ProtocolError>)
    ensures
        match spec_response(s@) {
            Ok(b) => r matches Ok(v) && v@ == b && v@.len() <= 17 + TOPIC_RESPONSE_LEN * 254,
            Err(e) => r == Err::<Vec<u8>, ProtocolError>(e),
        },
{
    let h = match decode_header(s) {
        Ok(h) => h,
        Err(e) => return Err(e),
    };
    if !is_supported(h.api_key, h.api_version) {
        return Ok(build_response(h.correlation_id, KafkaError::UnsupportedVersion.code()));
    }
    match h.api_key {
        KafkaApiKey::ApiVersions => {
            let mut r: Vec<u8> = Vec::new();
            process_api_versions(&mut r, h.correlation_id);
            assert(r@ =~= api_versions_response(h.correlation_id));
            proof {
                lemma_api_versions_layout(h.correlation_id);
            }
            Ok(r)
        },
        KafkaApiKey::Fetch => match decode_fetch_topics(s) {
            Ok(ids) => Ok(encode_fetch_response(h.correlation_id, &ids)),
            Err(e) => Err(e),
        },
    }
}

/// The response body for one request frame's body `message_buf`.
pub fn handle_request(message_buf: Vec<u8>) -> (r: Result<Vec<u8>, ProtocolError>)
    ensures
        match spec_response(message_buf@) {
            Ok(b) => r matches Ok(v) && v@ == b,
            Err(e) => r == Err::<Vec<u8>, ProtocolError>(e),
        },
{
    respond(message_buf.as_slice())
}

/// The framed response for one request frame's body `message_buf`.
pub fn process_message(message_buf: &[u8]) -> (r: Result<Vec<u8>, ProtocolError>)
    ensures
        match spec_response(message_buf@) {
            Ok(b) => r matches Ok(v) && v@ == frame_bytes(b),
            Err(e) => r == Err::<Vec<u8>, ProtocolError>(e),
        },
{
    match respond(message_buf) {
        Ok(body) => Ok(write_frame(&body)),
        Err(e) => Err(e),
    }
}

/// A request whose key is known but whose version is outside the registry's range
/// is answered with its correlation id and the unsupported-version code alone:
/// six bytes, whatever the rest of the request holds.
pub proof fn lemma_unsupported_version_response(s: Seq<u8>)
    requires
        s.len() >= HEADER_LEN,
        KafkaApiKey::spec_from_code(u16_at(s, 0)) is Some,
        !spec_supported(KafkaApiKey::spec_from_code(u16_at(s, 0))->Some_0, u16_at(s, 2)),
    ensures
        spec_response(s) == Ok::<Seq<u8>, ProtocolError>(be32(u32_at(s, 4)) + be16(UNSUPPORTED_VERSION)),
        (be32(u32_at(s, 4)) + be16(UNSUPPORTED_VERSION)).len() == 6,
{
}

proof fn lemma_topics_bytes_entry(ids: Seq<u128>, i: int)
    requires
        0 <= i < ids.len(),
    ensures
        topics_bytes(ids).len() == TOPIC_RESPONSE_LEN * ids.len(),
        topics_bytes(ids).subrange(TOPIC_RESPONSE_LEN * i, TOPIC_RESPONSE_LEN * i + TOPIC_RESPONSE_LEN)
            == topic_entry(ids[i]),
    decreases ids.len(),
{
    lemma_topics_bytes_len(ids);
    let p = ids.drop_last();
    lemma_topics_bytes_len(p);
    let t = topics_bytes(ids);
    if i < ids.len() - 1 {
        lemma_topics_bytes_entry(p, i);
        assert(t.subrange(TOPIC_RESPONSE_LEN * i, TOPIC_RESPONSE_LEN * i + TOPIC_RESPONSE_LEN)
            =~= topics_bytes(p).subrange(TOPIC_RESPONSE_LEN * i, TOPIC_RESPONSE_LEN * i + TOPIC_RESPONSE_LEN));
    } else {
        assert(t.subrange(TOPIC_RESPONSE_LEN * i, TOPIC_RESPONSE_LEN * i + TOPIC_RESPONSE_LEN) =~= topic_entry(ids[i]));
    }
}

/// The `i`-th topic entry of the fetch response body `r`.
pub open spec fn response_topic(r: Seq<u8>, i: int) -> Seq<u8> {
    r.subrange(16 + TOPIC_RESPONSE_LEN * i, 16 + TOPIC_RESPONSE_LEN * i + TOPIC_RESPONSE_LEN)
}

/// A supported fetch request that lists `N` topics is answered with a count byte
/// for `N` entries and exactly `N` topic entries, the `i`-th for the `i`-th requested
/// topic id, each with one partition and the unknown-topic error code.
pub proof fn lemma_fetch_echoes_topics(s: Seq<u8>)
    requires
        spec_decode_header(s) matches Ok(h) && h.api_key == KafkaApiKey::Fetch && spec_supported(h.api_key, h.api_version),
        spec_fetch_topics(s) is Ok,
    ensures
        ({
            let ids = spec_fetch_topics(s)->Ok_0;
            let r = spec_response(s)->Ok_0;
            &&& spec_response(s) is Ok
            &&& r.len() == 17 + TOPIC_RESPONSE_LEN * ids.len()
            &&& r[15] as int == ids.len() + 1
            &&& forall|i: int| 0 <= i < ids.len() ==> {
                let t = #[trigger] response_topic(r, i);
                &&& t == topic_entry(ids[i])
                &&& t.subrange(0, 16) == be128(ids[i])
                &&& t[16] == 2
                &&& t.subrange(21, 23) == be16(UNKNOWN_TOPIC)
            }
        }),
{
    let ids = spec_fetch_topics(s)->Ok_0;
    let cid = spec_decode_header(s)->Ok_0.correlation_id;
    let r = fetch_response(cid, ids);
    let c = topic_count_pos(s);
    lemma_topic_ids_len(s, c + 1, compact_count(s[c]));
    assert(ids.len() < 255);
    lemma_topics_bytes_len(ids);
    assert(spec_response(s) == Ok::<Seq<u8>, ProtocolError>(r));
    assert(r[15] == (ids.len() + 1) as u8);
    assert forall|i: int| 0 <= i < ids.len() implies {
        let t = #[trigger] response_topic(r, i);
        &&& t == topic_entry(ids[i])
        &&& t.subrange(0, 16) == be128(ids[i])
        &&& t[16] == 2
        &&& t.subrange(21, 23) == be16(UNKNOWN_TOPIC)
    } by {
        lemma_topics_bytes_entry(ids, i);
        let t = response_topic(r, i);
        assert(t == r.subrange(16 + TOPIC_RESPONSE_LEN * i, 16 + TOPIC_RESPONSE_LEN * i + TOPIC_RESPONSE_LEN));
        assert(t =~= topics_bytes(ids).subrange(TOPIC_RESPONSE_LEN * i, TOPIC_RESPONSE_LEN * i + TOPIC_RESPONSE_LEN));
        assert(t.subrange(0, 16) =~= be128(ids[i]));
        assert(t.subrange(21, 23) =~= be16(UNKNOWN_TOPIC));
    }
}

proof fn lemma_topics_end_extend(s: Seq<u8>, t: Seq<u8>, p: int, k: nat)
    requires
        topics_end(s, p, k) >= 0,
    ensures
        topics_end(s + t, p, k) == topics_end(s, p, k),
        topic_ids(s + t, p, k) == topic_ids(s, p, k),
    decreases k,
{
    if k > 0 {
        let q = topics_end(s, p, (k - 1) as nat);
        lemma_topics_end_extend(s, t, p, (k - 1) as nat);
        let u = s + t;
        assert(u[q + 16] == s[q + 16]);
        assert forall|j: int| q <= j < q + 16 implies u[j] == s[j] by {}
        assert(u128_at(u, q) == u128_at(s, q));
    }
}

proof fn lemma_forgotten_end_extend(s: Seq<u8>, t: Seq<u8>, p: int, k: nat)
    requires
        forgotten_end(s, p, k) >= 0,
    ensures
        forgotten_end(s + t, p, k) == forgotten_end(s, p, k),
    decreases k,
{
    if k > 0 {
        let q = forgotten_end(s, p, (k - 1) as nat);
        lemma_forgotten_end_extend(s, t, p, (k - 1) as nat);
        assert((s + t)[q + 16] == s[q + 16]);
    }
}

/// Decoding a fetch request consumes it exactly: a well-formed request followed
/// by any further bytes is rejected as having trailing bytes, not read as a shorter one.
pub proof fn lemma_fetch_rejects_trailing_bytes(s: Seq<u8>, t: Seq<u8>)
    requires
        spec_fetch_topics(s) is Ok,
        t.len() > 0,
    ensures
        spec_fetch_topics(s + t) == Err::<Seq<u128>, ProtocolError>(ProtocolError::TrailingBytes),
{
    let u = s + t;
    assert(u[8] == s[8] && u[9] == s[9]);
    assert(u16_at(u, 8) == u16_at(s, 8));
    let c = topic_count_pos(s);
    assert(u[c] == s[c]);
    let n = compact_count(s[c]);
    lemma_topics_end_extend(s, t, c + 1, n);
    let te = topics_end(s, c + 1, n);
    assert(u[te] == s[te]);
    lemma_forgotten_end_extend(s, t, te + 1, compact_count(s[te]));
    let fe = forgotten_end(s, te + 1, compact_count(s[te]));
    assert(u[fe] == s[fe]);
}

proof fn lemma_topics_end_prefix(s: Seq<u8>, m: int, p: int, k: nat)
    requires
        topics_end(s, p, k) >= 0,
        0 <= m <= s.len(),
    ensures
        topics_end(s.take(m), p, k) < 0 || topics_end(s.take(m), p, k) == topics_end(s, p, k),
    decreases k,
{
    if k > 0 {
        let q = topics_end(s, p, (k - 1) as nat);
        lemma_topics_end_prefix(s, m, p, (k - 1) as nat);
        if topics_end(s.take(m), p, (k - 1) as nat) >= 0 && q + 17 <= m {
            assert(s.take(m)[q + 16] == s[q + 16]);
        }
    }
}

proof fn lemma_forgotten_end_prefix(s: Seq<u8>, m: int, p: int, k: nat)
    requires
        forgotten_end(s, p, k) >= 0,
        0 <= m <= s.len(),
    ensures
        forgotten_end(s.take(m), p, k) < 0 || forgotten_end(s.take(m), p, k) == forgotten_end(s, p, k),
    decreases k,
{
    if k > 0 {
        let q = forgotten_end(s, p, (k - 1) as nat);
        lemma_forgotten_end_prefix(s, m, p, (k - 1) as nat);
        if forgotten_end(s.take(m), p, (k - 1) as nat) >= 0 && q + 17 <= m {
            assert(s.take(m)[q + 16] == s[q + 16]);
        }
    }
}

/// Decoding a fetch request never reads past its end: any strict prefix of a
/// well-formed request is rejected as truncated.
pub proof fn lemma_fetch_rejects_truncation(s: Seq<u8>, m: int)
    requires
        spec_fetch_topics(s) is Ok,
        0 <= m < s.len(),
    ensures
        spec_fetch_topics(s.take(m)) == Err::<Seq<u128>, ProtocolError>(ProtocolError::Truncated),
{
    let u = s.take(m);
    if m >= HEADER_LEN + 2 {
        assert(u[8] == s[8] && u[9] == s[9]);
        assert(u16_at(u, 8) == u16_at(s, 8));
        let c = topic_count_pos(s);
        if c + 1 <= m {
            assert(u[c] == s[c]);
            let n = compact_count(s[c]);
            lemma_topics_end_prefix(s, m, c + 1, n);
            let te = topics_end(s, c + 1, n);
            if topics_end(u, c + 1, n) >= 0 && te + 1 <= m {
                assert(u[te] == s[te]);
                let f = compact_count(s[te]);
                lemma_forgotten_end_prefix(s, m, te + 1, f);
                let fe = forgotten_end(s, te + 1, f);
                if forgotten_end(u, te + 1, f) >= 0 && fe + 1 <= m {
                    assert(u[fe] == s[fe]);
                }
            }
        }
    }
}

}
