//! Responses: how one is built from a decoded request, and its bytes on the
//! wire.

use crate::api_keys::{ApiKey, NO_ERROR, UNSUPPORTED_VERSION};
use crate::buffer::{
    as_slice, be_bytes, extend_from_slice, freeze, i16_be_bytes, i32_be_bytes, lemma_be_bytes_len,
    lemma_signed_be_round_trip, new_buffer, pending, put_i16, put_i32, put_u128, put_u32, put_u8, written,
};
use crate::codec::{
    concat, encode_compact_array, encode_compact_array_len, encode_compact_string, encode_uvarint,
    lemma_concat_len, lemma_concat_take, lemma_uvarint_round_trip, tag_buffer, write_compact_array_len,
    uvarint_size, write_compact_string, write_tag_buffer,
};
use crate::errors::Field;
use crate::requests::{Request, RequestBody, RequestBodyView, RequestHeader, RequestView};
use bytes::{Bytes, BytesMut};
use vstd::prelude::*;
use vstd::utf8::encode_utf8;

verus! {

/// Error code of a topic that the endpoint does not know.
pub const UNKNOWN_TOPIC_OR_PARTITION: i16 = 3;

/// The operations that every described topic is reported to allow.
pub const AUTHORIZED_OPERATIONS: u32 = 0x0000_0DF8;

/// The cursor value that stands for "no further page".
pub const NO_NEXT_CURSOR: u8 = 0xFF;

/// A response, ready to be encoded.
#[derive(Debug, PartialEq, Eq)]
pub struct Response {
    pub response_header: ResponseHeader,
    pub response_body: ResponseBody,
}

/// The header of a response. The tag buffer is part of every response
/// format but that of `ApiVersions`.
#[derive(Debug, Clone, Copy, PartialEq, Eq, Structural)]
pub struct ResponseHeader {
    pub correlation_id: i32,
    pub tag_buffer_present: bool,
}

/// The body of a response, by API.
#[derive(Debug, PartialEq, Eq)]
pub enum ResponseBody {
    ApiVersions { error_code: i16, api_versions: Vec<ApiVersionDetails>, throttle_time: i32 },
    DescribeTopicPartitions {
        throttle_time: i32,
        topics: Vec<DescribeTopicPartitionsDetails>,
        next_cursor: u8,
    },
}

/// One advertised API with the versions served.
#[derive(Debug, Clone, Copy, PartialEq, Eq, Structural)]
pub struct ApiVersionDetails {
    pub api_key: ApiKey,
    pub min_version: i16,
    pub max_version: i16,
}

/// What the endpoint reports of one requested topic.
#[derive(Debug, PartialEq, Eq)]
pub struct DescribeTopicPartitionsDetails {
    pub error_code: i16,
    pub topic_name: String,
    pub topic_id: u128,
    pub is_internal: bool,
    pub partitions_array: Vec<String>,
    pub topic_authorized_operations: u32,
}

/// The model of a topic description.
pub struct TopicView {
    pub error_code: i16,
    pub topic_name: Seq<char>,
    pub topic_id: u128,
    pub is_internal: bool,
    pub partitions: Seq<Seq<char>>,
    pub topic_authorized_operations: u32,
}

/// The model of a response body.
pub enum ResponseBodyView {
    ApiVersions { error_code: i16, api_versions: Seq<ApiVersionDetails>, throttle_time: i32 },
    DescribeTopicPartitions { throttle_time: i32, topics: Seq<TopicView>, next_cursor: u8 },
}

/// The model of a response.
pub struct ResponseView {
    pub header: ResponseHeader,
    pub body: ResponseBodyView,
}

impl View for DescribeTopicPartitionsDetails {
    type V = TopicView;

    open spec fn view(&self) -> TopicView {
        TopicView {
            error_code: self.error_code,
            topic_name: self.topic_name@,
            topic_id: self.topic_id,
            is_internal: self.is_internal,
            partitions: self.partitions_array.deep_view(),
            topic_authorized_operations: self.topic_authorized_operations,
        }
    }
}

impl DeepView for DescribeTopicPartitionsDetails {
    type V = TopicView;

    open spec fn deep_view(&self) -> TopicView {
        self@
    }
}

impl View for ResponseBody {
    type V = ResponseBodyView;

    open spec fn view(&self) -> ResponseBodyView {
        match self {
            ResponseBody::ApiVersions {
                error_code,
                api_versions,
                throttle_time,
            } => ResponseBodyView::ApiVersions {
                error_code: *error_code,
                api_versions: api_versions@,
                throttle_time: *throttle_time,
            },
            ResponseBody::DescribeTopicPartitions {
                throttle_time,
                topics,
                next_cursor,
            } => ResponseBodyView::DescribeTopicPartitions {
                throttle_time: *throttle_time,
                topics: topics.deep_view(),
                next_cursor: *next_cursor,
            },
        }
    }
}

impl View for Response {
    type V = ResponseView;

    open spec fn view(&self) -> ResponseView {
        ResponseView { header: self.response_header, body: self.response_body@ }
    }
}

/// The entry that advertises `key`.
pub open spec fn advertised_entry(key: ApiKey) -> ApiVersionDetails {
    ApiVersionDetails {
        api_key: key,
        min_version: key.version_range()->Some_0.0,
        max_version: key.version_range()->Some_0.1,
    }
}

/// What the endpoint advertises: the whole registry, in its order.
pub open spec fn advertised_apis() -> Seq<ApiVersionDetails> {
    Seq::new(ApiKey::registry().len(), |i: int| advertised_entry(ApiKey::registry()[i]))
}

/// The error code of every topic in a response to a request in `version`:
/// the version error if there is one, else "unknown topic", since the
/// endpoint holds no topics.
pub open spec fn topic_error(version: i16) -> i16 {
    if ApiKey::DescribeTopicPartitions.version_error(version) == NO_ERROR {
        UNKNOWN_TOPIC_OR_PARTITION
    } else {
        UNSUPPORTED_VERSION
    }
}

/// The description of the requested topic `name`.
pub open spec fn described_topic(name: Seq<char>, version: i16) -> TopicView {
    TopicView {
        error_code: topic_error(version),
        topic_name: name,
        topic_id: 0,
        is_internal: false,
        partitions: Seq::empty(),
        topic_authorized_operations: AUTHORIZED_OPERATIONS,
    }
}

/// The header of the response to a request with this API key and
/// correlation id: the id is echoed.
pub open spec fn response_header_for(api_key: ApiKey, correlation_id: i32) -> ResponseHeader {
    ResponseHeader { correlation_id, tag_buffer_present: api_key != ApiKey::ApiVersions }
}

/// The body of the response to `body`, requested in `version`.
///
/// An `ApiVersions` request is answered with the whole registry, whatever
/// it holds; a `DescribeTopicPartitions` request with one description for
/// each requested topic, in the order requested.
pub open spec fn response_body_for(body: RequestBodyView, version: i16) -> ResponseBodyView {
    match body {
        RequestBodyView::ApiVersions { .. } => ResponseBodyView::ApiVersions {
            error_code: ApiKey::ApiVersions.version_error(version),
            api_versions: advertised_apis(),
            throttle_time: 0,
        },
        RequestBodyView::DescribeTopicPartitions {
            topics,
            ..
        } => ResponseBodyView::DescribeTopicPartitions {
            throttle_time: 0,
            topics: Seq::new(topics.len(), |i: int| described_topic(topics[i], version)),
            next_cursor: NO_NEXT_CURSOR,
        },
    }
}

/// The response to `request`.
pub open spec fn response_for(request: RequestView) -> ResponseView {
    ResponseView {
        header: response_header_for(request.header.api_key, request.header.correlation_id),
        body: response_body_for(request.body, request.header.api_version),
    }
}

impl Response {
    /// Builds the response to `request`.
    pub fn new(request: Request) -> (response: Self)
        ensures
            response@ == response_for(request@),
    {
        let response_header = ResponseHeader::from_request_header(&request.request_header);
        let response_body = ResponseBody::from_request_body(
            &request.request_body,
            request.request_header.api_version,
        );
        Self { response_header, response_body }
    }
}

impl ResponseHeader {
    /// Builds the header of the response to a request with this header.
    pub fn from_request_header(request_header: &RequestHeader) -> (header: Self)
        ensures
            header == response_header_for(request_header.api_key, request_header.correlation_id),
    {
        let tag_buffer_present = match request_header.api_key {
            ApiKey::ApiVersions => false,
            ApiKey::DescribeTopicPartitions => true,
            ApiKey::Unsupported => true,
        };
        Self { correlation_id: request_header.correlation_id, tag_buffer_present }
    }
}

impl ResponseBody {
    /// Builds the body of the response to `request_body`, requested in
    /// `version`.
    pub fn from_request_body(request_body: &RequestBody, version: i16) -> (body: Self)
        ensures
            body@ == response_body_for(request_body@, version),
    {
        match request_body {
            RequestBody::ApiVersions { .. } => {
                let error_code = ApiKey::ApiVersions.check_version(version);
                let keys = ApiKey::all_supported();
                let mut api_versions: Vec<ApiVersionDetails> = Vec::with_capacity(keys.len());
                let mut index: usize = 0;
                while index < keys.len()
                    invariant
                        index <= keys.len(),
                        keys@ == ApiKey::registry(),
                        api_versions@ == advertised_apis().take(index as int),
                    decreases keys.len() - index,
                {
                    let api_key = keys[index];
                    proof {
                        ApiKey::lemma_registry_complete(api_key.code());
                        assert(ApiKey::registry().contains(api_key));
                        ApiKey::lemma_range_ordered(api_key);
                    }
                    match api_key.supported_versions() {
                        Some((min_version, max_version)) => {
                            api_versions.push(
                                ApiVersionDetails { api_key, min_version, max_version },
                            );
                        },
                        None => {},
                    }
                    index = index + 1;
                    assert(api_versions@ == advertised_apis().take(index as int));
                }
                assert(advertised_apis().take(index as int) == advertised_apis());
                Self::ApiVersions { error_code, api_versions, throttle_time: 0 }
            },
            RequestBody::DescribeTopicPartitions { topics, .. } => {
                let error_code = if ApiKey::DescribeTopicPartitions.check_version(version)
                    == NO_ERROR {
                    UNKNOWN_TOPIC_OR_PARTITION
                } else {
                    UNSUPPORTED_VERSION
                };
                let mut described: Vec<DescribeTopicPartitionsDetails> = Vec::new();
                let mut index: usize = 0;
                while index < topics.len()
                    invariant
                        index <= topics.len(),
                        error_code == topic_error(version),
                        described.deep_view() == Seq::new(
                            index as nat,
                            |i: int| described_topic(topics[i]@, version),
                        ),
                    decreases topics.len() - index,
                {
                    let ghost before = described.deep_view();
                    let partitions_array: Vec<String> = Vec::new();
                    assert(partitions_array.deep_view() == Seq::<Seq<char>>::empty());
                    let topic = DescribeTopicPartitionsDetails {
                        error_code,
                        topic_name: topics[index].clone(),
                        topic_id: 0,
                        is_internal: false,
                        partitions_array,
                        topic_authorized_operations: AUTHORIZED_OPERATIONS,
                    };
                    assert(topic@ == described_topic(topics[index as int]@, version));
                    described.push(topic);
                    assert(described.deep_view() == before.push(topic@));
                    index = index + 1;
                }
                assert(described.deep_view() == Seq::new(
                    topics.deep_view().len(),
                    |i: int| described_topic(topics.deep_view()[i], version),
                ));
                Self::DescribeTopicPartitions {
                    throttle_time: 0,
                    topics: described,
                    next_cursor: NO_NEXT_CURSOR,
                }
            },
        }
    }
}


/// The bytes of a response header: the correlation id and, where the
/// format has one, an empty tag buffer.
pub open spec fn header_wire(header: ResponseHeader) -> Seq<u8> {
    i32_be_bytes(header.correlation_id) + if header.tag_buffer_present {
        tag_buffer()
    } else {
        Seq::empty()
    }
}

/// The bytes of one advertised API: code, lowest version, highest version
/// and an empty tag buffer.
pub open spec fn api_version_wire(entry: ApiVersionDetails) -> Seq<u8> {
    i16_be_bytes(entry.api_key.code()) + i16_be_bytes(entry.min_version) + i16_be_bytes(
        entry.max_version,
    ) + tag_buffer()
}

/// The bytes of each advertised API, in order.
pub open spec fn api_versions_parts(entries: Seq<ApiVersionDetails>) -> Seq<Seq<u8>> {
    Seq::new(entries.len(), |i: int| api_version_wire(entries[i]))
}

/// The byte of a boolean: one for true, zero for false.
pub open spec fn bool_byte(flag: bool) -> u8 {
    if flag {
        1
    } else {
        0
    }
}

/// The bytes of one topic description: error code, name as a compact
/// string, the 16 bytes of the id, the internal flag, the partitions as an
/// empty compact array, the authorized operations and an empty tag buffer.
/// No partition is ever written.
pub open spec fn topic_wire(topic: TopicView) -> Seq<u8> {
    i16_be_bytes(topic.error_code) + encode_compact_string(topic.topic_name) + be_bytes(
        topic.topic_id as nat,
        16,
    ) + seq![bool_byte(topic.is_internal)] + encode_compact_array(Seq::empty()) + be_bytes(
        topic.topic_authorized_operations as nat,
        4,
    ) + tag_buffer()
}

/// The bytes of each topic description, in order.
pub open spec fn topics_parts(topics: Seq<TopicView>) -> Seq<Seq<u8>> {
    Seq::new(topics.len(), |i: int| topic_wire(topics[i]))
}

/// The bytes of a response body.
pub open spec fn body_wire(body: ResponseBodyView) -> Seq<u8> {
    match body {
        ResponseBodyView::ApiVersions { error_code, api_versions, throttle_time } => i16_be_bytes(
            error_code,
        ) + encode_compact_array(api_versions_parts(api_versions)) + i32_be_bytes(throttle_time)
            + tag_buffer(),
        ResponseBodyView::DescribeTopicPartitions {
            throttle_time,
            topics,
            next_cursor,
        } => i32_be_bytes(throttle_time) + encode_compact_array(topics_parts(topics))
            + seq![next_cursor] + tag_buffer(),
    }
}

/// The bytes of a response after its length prefix: header, then body.
pub open spec fn message_wire(response: ResponseView) -> Seq<u8> {
    header_wire(response.header) + body_wire(response.body)
}

/// The frame of a response: the length of the message as a big-endian
/// signed 32-bit integer, then the message.
pub open spec fn frame_wire(response: ResponseView) -> Seq<u8> {
    i32_be_bytes(message_wire(response).len() as i32) + message_wire(response)
}

/// Whether a response can be framed: the length of its message fits the
/// prefix, and the frame fits a buffer on this machine.
pub open spec fn fits_frame(response: ResponseView) -> bool {
    message_wire(response).len() <= i32::MAX && message_wire(response).len() + 4 <= isize::MAX
}

impl ResponseHeader {
    /// The bytes of this header.
    pub fn to_be_bytes(&self) -> (bytes: Bytes)
        ensures
            pending(bytes) == header_wire(*self),
    {
        let mut buf = new_buffer();
        proof {
            lemma_signed_be_round_trip(0, self.correlation_id);
        }
        put_i32(&mut buf, self.correlation_id);
        if self.tag_buffer_present {
            write_tag_buffer(&mut buf);
        }
        assert(written(buf) == header_wire(*self));
        freeze(buf)
    }
}


/// Every advertised API takes seven bytes.
proof fn lemma_api_version_wire_len(entry: ApiVersionDetails)
    ensures
        api_version_wire(entry).len() == 7,
        tag_buffer() == seq![0u8],
{
    lemma_signed_be_round_trip(entry.api_key.code(), 0);
    lemma_signed_be_round_trip(entry.min_version, 0);
    lemma_signed_be_round_trip(entry.max_version, 0);
    assert(encode_uvarint(0) == seq![0u8]);
}

/// The length of a topic description, piece by piece.
proof fn lemma_topic_wire_len(topic: TopicView)
    ensures
        topic_wire(topic).len() == 2 + encode_compact_string(topic.topic_name).len() + 16 + 1 + 1
            + 4 + 1,
        encode_compact_string(topic.topic_name).len() == encode_uvarint(
            encode_utf8(topic.topic_name).len() + 1,
        ).len() + encode_utf8(topic.topic_name).len(),
        encode_compact_array(Seq::empty()) == seq![1u8],
        tag_buffer() == seq![0u8],
{
    lemma_signed_be_round_trip(topic.error_code, 0);
    lemma_be_bytes_len(topic.topic_id as nat, 16);
    lemma_be_bytes_len(topic.topic_authorized_operations as nat, 4);
    assert(encode_uvarint(0) == seq![0u8]);
    assert(encode_uvarint(1) == seq![1u8]);
    assert(concat(Seq::<Seq<u8>>::empty()) == Seq::<u8>::empty());
    assert(encode_compact_array(Seq::empty()) == seq![1u8]);
}

impl ApiVersionDetails {
    /// Appends the bytes of this entry to `buf`.
    pub fn write_to(&self, buf: &mut BytesMut)
        requires
            written(*old(buf)).len() + api_version_wire(*self).len() <= isize::MAX,
        ensures
            written(*final(buf)) == written(*old(buf)) + api_version_wire(*self),
    {
        let ghost before = written(*buf);
        let ghost code = i16_be_bytes(self.api_key.code());
        let ghost min = i16_be_bytes(self.min_version);
        let ghost max = i16_be_bytes(self.max_version);
        proof {
            lemma_api_version_wire_len(*self);
            lemma_signed_be_round_trip(self.api_key.code(), 0);
            lemma_signed_be_round_trip(self.min_version, 0);
            lemma_signed_be_round_trip(self.max_version, 0);
        }
        put_i16(buf, self.api_key.to_int());
        put_i16(buf, self.min_version);
        put_i16(buf, self.max_version);
        write_tag_buffer(buf);
        assert(before + code + min + max + tag_buffer() == before + (code + min + max
            + tag_buffer()));
    }
}

impl DescribeTopicPartitionsDetails {
    /// Appends the bytes of this description to `buf`.
    pub fn write_to(&self, buf: &mut BytesMut)
        requires
            encode_utf8(self.topic_name@).len() < u32::MAX,
            written(*old(buf)).len() + topic_wire(self@).len() <= isize::MAX,
        ensures
            written(*final(buf)) == written(*old(buf)) + topic_wire(self@),
    {
        let ghost before = written(*buf);
        let ghost code = i16_be_bytes(self.error_code);
        let ghost name = encode_compact_string(self.topic_name@);
        let ghost id = be_bytes(self.topic_id as nat, 16);
        let ghost internal = seq![bool_byte(self.is_internal)];
        let ghost partitions = encode_compact_array(Seq::empty());
        let ghost operations = be_bytes(self.topic_authorized_operations as nat, 4);
        proof {
            lemma_topic_wire_len(self@);
            lemma_signed_be_round_trip(self.error_code, 0);
            lemma_be_bytes_len(self.topic_id as nat, 16);
            lemma_be_bytes_len(self.topic_authorized_operations as nat, 4);
            assert(partitions == encode_compact_array_len(0));
        }
        put_i16(buf, self.error_code);
        write_compact_string(buf, self.topic_name.as_str());
        put_u128(buf, self.topic_id);
        put_u8(
            buf,
            if self.is_internal {
                1
            } else {
                0
            },
        );
        assert(written(*buf) == before + code + name + id + internal) by {
            assert((before + code + name + id).push(bool_byte(self.is_internal)) == before + code
                + name + id + internal);
        }
        write_compact_array_len(buf, 0);
        put_u32(buf, self.topic_authorized_operations);
        write_tag_buffer(buf);
        assert(before + code + name + id + internal + partitions + operations + tag_buffer()
            == before + (code + name + id + internal + partitions + operations + tag_buffer()));
    }
}

impl ResponseBody {
    /// The bytes of this body.
    pub fn to_be_bytes(&self) -> (bytes: Bytes)
        requires
            body_wire(self@).len() <= i32::MAX,
        ensures
            pending(bytes) == body_wire(self@),
    {
        let mut buf = new_buffer();
        match self {
            ResponseBody::ApiVersions { error_code, api_versions, throttle_time } => {
                let ghost parts = api_versions_parts(api_versions@);
                proof {
                    lemma_signed_be_round_trip(*error_code, *throttle_time);
                    assert forall|i: int| 0 <= i < parts.len() implies parts[i].len() >= 1 by {
                        lemma_api_version_wire_len(api_versions@[i]);
                    }
                    lemma_concat_len(parts);
                    lemma_uvarint_round_trip(
                        (api_versions.len() + 1) as u32,
                        Seq::empty(),
                        Field::MessageSize,
                    );
                }
                put_i16(&mut buf, *error_code);
                write_compact_array_len(&mut buf, api_versions.len() as u32);
                let ghost base = written(buf);
                let mut index: usize = 0;
                assert(concat(parts.take(0)) == Seq::<u8>::empty());
                while index < api_versions.len()
                    invariant
                        index <= api_versions.len(),
                        parts == api_versions_parts(api_versions@),
                        written(buf) == base + concat(parts.take(index as int)),
                        base.len() + concat(parts).len() + 5 <= i32::MAX,
                    decreases api_versions.len() - index,
                {
                    let entry = &api_versions[index];
                    let ghost before = written(buf);
                    proof {
                        lemma_concat_take(parts, index as int);
                        lemma_api_version_wire_len(*entry);
                    }
                    entry.write_to(&mut buf);
                    index = index + 1;
                    assert(written(buf) == base + concat(parts.take(index as int))) by {
                        assert(before + api_version_wire(*entry) == base + (concat(
                            parts.take(index - 1),
                        ) + api_version_wire(*entry)));
                    }
                }
                proof {
                    if parts.len() > 0 {
                        lemma_concat_take(parts, 0);
                    } else {
                        assert(parts.take(0) == parts);
                    }
                }
                put_i32(&mut buf, *throttle_time);
                write_tag_buffer(&mut buf);
                assert(written(buf) == body_wire(self@));
            },
            ResponseBody::DescribeTopicPartitions { throttle_time, topics, next_cursor } => {
                let ghost parts = topics_parts(topics.deep_view());
                proof {
                    lemma_signed_be_round_trip(0, *throttle_time);
                    assert forall|i: int| 0 <= i < parts.len() implies parts[i].len() >= 1 by {
                        lemma_topic_wire_len(topics.deep_view()[i]);
                    }
                    lemma_concat_len(parts);
                    lemma_uvarint_round_trip(
                        (topics.len() + 1) as u32,
                        Seq::empty(),
                        Field::MessageSize,
                    );
                }
                put_i32(&mut buf, *throttle_time);
                write_compact_array_len(&mut buf, topics.len() as u32);
                let ghost base = written(buf);
                let mut index: usize = 0;
                assert(concat(parts.take(0)) == Seq::<u8>::empty());
                while index < topics.len()
                    invariant
                        index <= topics.len(),
                        parts == topics_parts(topics.deep_view()),
                        written(buf) == base + concat(parts.take(index as int)),
                        base.len() + concat(parts).len() + 2 <= i32::MAX,
                    decreases topics.len() - index,
                {
                    let topic = &topics[index];
                    let ghost before = written(buf);
                    proof {
                        lemma_concat_take(parts, index as int);
                        assert(parts[index as int] == topic_wire(topic@));
                    }
                    topic.write_to(&mut buf);
                    index = index + 1;
                    assert(written(buf) == base + concat(parts.take(index as int))) by {
                        assert(before + topic_wire(topic@) == base + (concat(
                            parts.take(index - 1),
                        ) + topic_wire(topic@)));
                    }
                }
                proof {
                    if parts.len() > 0 {
                        lemma_concat_take(parts, 0);
                    } else {
                        assert(parts.take(0) == parts);
                    }
                }
                put_u8(&mut buf, *next_cursor);
                write_tag_buffer(&mut buf);
                assert(written(buf) == body_wire(self@));
            },
        };
        freeze(buf)
    }
}


/// The advertised APIs take seven bytes each.
proof fn lemma_api_versions_len(entries: Seq<ApiVersionDetails>, count: int)
    requires
        0 <= count <= entries.len(),
    ensures
        concat(api_versions_parts(entries).take(count)).len() == 7 * count,
    decreases count,
{
    let parts = api_versions_parts(entries);
    if count > 0 {
        lemma_api_versions_len(entries, count - 1);
        lemma_concat_take(parts, count - 1);
        lemma_api_version_wire_len(entries[count - 1]);
    } else {
        assert(concat(parts.take(0)) == Seq::<u8>::empty());
    }
}

impl Response {
    /// The length of the message of this response, without its length
    /// prefix, if the response can be framed.
    pub fn message_len(&self) -> (len: Option<usize>)
        ensures
            len is Some <==> fits_frame(self@),
            len matches Some(n) ==> n == message_wire(self@).len(),
    {
        let header_len: u64 = if self.response_header.tag_buffer_present {
            5
        } else {
            4
        };
        proof {
            lemma_signed_be_round_trip(0, self.response_header.correlation_id);
            assert(encode_uvarint(0) == seq![0u8]);
            assert(header_wire(self.response_header).len() == header_len);
        }
        let body_len: u64 = match &self.response_body {
            ResponseBody::ApiVersions { error_code, api_versions, throttle_time } => {
                let ghost parts = api_versions_parts(api_versions@);
                proof {
                    lemma_signed_be_round_trip(*error_code, *throttle_time);
                    lemma_api_versions_len(api_versions@, api_versions@.len() as int);
                    assert(parts.take(parts.len() as int) == parts);
                }
                let count = api_versions.len();
                if count > 0x7fff_ffff {
                    return None;
                }
                2 + uvarint_size((count + 1) as u32) as u64 + 7 * (count as u64) + 4 + 1
            },
            ResponseBody::DescribeTopicPartitions { throttle_time, topics, next_cursor } => {
                let ghost parts = topics_parts(topics.deep_view());
                proof {
                    lemma_signed_be_round_trip(0, *throttle_time);
                    assert forall|i: int| 0 <= i < parts.len() implies parts[i].len() >= 1 by {
                        lemma_topic_wire_len(topics.deep_view()[i]);
                    }
                    lemma_concat_len(parts);
                    assert(concat(parts.take(0)) == Seq::<u8>::empty());
                }
                let mut sum: u64 = 0;
                let mut index: usize = 0;
                while index < topics.len()
                    invariant
                        index <= topics.len(),
                        parts == topics_parts(topics.deep_view()),
                        sum == concat(parts.take(index as int)).len(),
                        sum <= i32::MAX,
                        message_wire(self@).len() >= concat(parts).len(),
                    decreases topics.len() - index,
                {
                    let topic = &topics[index];
                    proof {
                        lemma_concat_take(parts, index as int);
                        assert(parts[index as int] == topic_wire(topic@));
                        lemma_topic_wire_len(topic@);
                    }
                    let name_len = topic.topic_name.as_str().as_bytes().len();
                    if name_len > 0x7fff_ffff {
                        return None;
                    }
                    sum = sum + 2 + uvarint_size((name_len + 1) as u32) as u64 + name_len as u64
                        + 23;
                    if sum > 0x7fff_ffff {
                        return None;
                    }
                    index = index + 1;
                }
                proof {
                    assert(parts.take(parts.len() as int) == parts);
                }
                4 + uvarint_size((topics.len() + 1) as u32) as u64 + sum + 2
            },
        };
        let total = header_len + body_len;
        if total > 0x7fff_ffff || total + 4 > isize::MAX as u64 {
            None
        } else {
            Some(total as usize)
        }
    }

    /// The frame of this response: length prefix, header and body.
    pub fn to_bytes(&self) -> (frame: Bytes)
        requires
            fits_frame(self@),
        ensures
            pending(frame) == frame_wire(self@),
    {
        let mut body_buf = new_buffer();
        let header = self.response_header.to_be_bytes();
        extend_from_slice(&mut body_buf, as_slice(&header));
        let body = self.response_body.to_be_bytes();
        extend_from_slice(&mut body_buf, as_slice(&body));
        assert(written(body_buf) == message_wire(self@));
        let message = freeze(body_buf);
        let mut out = new_buffer();
        proof {
            lemma_signed_be_round_trip(0, message_wire(self@).len() as i32);
        }
        put_i32(&mut out, as_slice(&message).len() as i32);
        extend_from_slice(&mut out, as_slice(&message));
        assert(written(out) == frame_wire(self@));
        freeze(out)
    }

    /// The frame of this response, if it can be framed.
    pub fn try_to_bytes(&self) -> (frame: Option<Bytes>)
        ensures
            frame is Some <==> fits_frame(self@),
            frame matches Some(bytes) ==> pending(bytes) == frame_wire(self@),
    {
        match self.message_len() {
            Some(_) => Some(self.to_bytes()),
            None => None,
        }
    }

    /// Builds the response to `request` and frames it, if it can be framed.
    pub fn generate_response(request: Request) -> (frame: Option<Bytes>)
        ensures
            frame is Some <==> fits_frame(response_for(request@)),
            frame matches Some(bytes) ==> pending(bytes) == frame_wire(response_for(request@)),
    {
        Response::new(request).try_to_bytes()
    }
}


/// The error code of a response follows the version check of its API: an
/// `ApiVersions` response carries no error exactly for the versions 0 to
/// 4, and each topic of a `DescribeTopicPartitions` response is reported
/// unknown exactly for version 0; every other version is answered with the
/// unsupported-version code.
pub proof fn lemma_response_error_codes(body: RequestBodyView, version: i16)
    ensures
        match response_body_for(body, version) {
            ResponseBodyView::ApiVersions { error_code, .. } => {
                &&& body is ApiVersions
                &&& error_code == ApiKey::ApiVersions.version_error(version)
                &&& error_code == NO_ERROR <==> 0 <= version <= 4
                &&& error_code != NO_ERROR ==> error_code == UNSUPPORTED_VERSION
            },
            ResponseBodyView::DescribeTopicPartitions { topics, .. } => {
                &&& body is DescribeTopicPartitions
                &&& topics.len() == body->topics.len()
                &&& forall|i: int|
                    0 <= i < topics.len() ==> {
                        &&& #[trigger] topics[i].topic_name == body->topics[i]
                        &&& topics[i].error_code == UNKNOWN_TOPIC_OR_PARTITION <==> version == 0
                        &&& topics[i].error_code != UNKNOWN_TOPIC_OR_PARTITION
                            ==> topics[i].error_code == UNSUPPORTED_VERSION
                    }
            },
        },
{
}

/// What is advertised is what the registry serves: an API code is
/// advertised exactly if `lookup` serves it, once, with the version range
/// that the version check goes by.
pub proof fn lemma_advertised_is_registry(code: i16)
    ensures
        advertised_apis().len() == ApiKey::registry().len(),
        forall|i: int|
            0 <= i < advertised_apis().len() ==> {
                &&& (#[trigger] advertised_apis()[i]).api_key == ApiKey::registry()[i]
                &&& ApiKey::lookup(advertised_apis()[i].api_key.code())
                    == advertised_apis()[i].api_key
                &&& advertised_apis()[i].api_key.version_range() == Some(
                    (advertised_apis()[i].min_version, advertised_apis()[i].max_version),
                )
                &&& advertised_apis()[i].min_version <= advertised_apis()[i].max_version
            },
        ApiKey::lookup(code).supported() <==> exists|i: int|
            0 <= i < advertised_apis().len() && (#[trigger] advertised_apis()[i]).api_key.code()
                == code,
{
    let table = ApiKey::registry();
    let entries = advertised_apis();
    assert(table[0] == ApiKey::ApiVersions);
    assert(table[1] == ApiKey::DescribeTopicPartitions);
    if ApiKey::lookup(code) == ApiKey::ApiVersions {
        assert(entries[0].api_key.code() == code);
    }
    if ApiKey::lookup(code) == ApiKey::DescribeTopicPartitions {
        assert(entries[1].api_key.code() == code);
    }
}

/// The response to an `ApiVersions` request always fits a frame: its
/// message takes 26 bytes.
pub proof fn lemma_api_versions_response_fits(request: RequestView)
    requires
        request.header.api_key == ApiKey::ApiVersions,
        request.body is ApiVersions,
    ensures
        message_wire(response_for(request)).len() == 26,
        fits_frame(response_for(request)),
{
    let response = response_for(request);
    let entries = advertised_apis();
    lemma_signed_be_round_trip(
        ApiKey::ApiVersions.version_error(request.header.api_version),
        request.header.correlation_id,
    );
    lemma_signed_be_round_trip(0, 0);
    lemma_api_versions_len(entries, 2);
    assert(api_versions_parts(entries).take(2) == api_versions_parts(entries));
    assert(encode_uvarint(0) == seq![0u8]);
    assert(encode_uvarint(3) == seq![3u8]);
}

} // verus!
