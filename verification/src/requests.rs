//! Request frames: the length prefix, the common header and the body of
//! each API the registry serves.

use crate::api_keys::ApiKey;
use crate::buffer::{
    i16_be_bytes, i32_be_bytes, i32_from_be, lemma_signed_be_round_trip, pending, remaining,
    split_to,
};
use crate::codec::{
    concat, decode_compact_array_len, decode_compact_string, decode_i16, decode_i32,
    decode_tag_buffer, decode_u8, encode_compact_array, encode_compact_array_len,
    encode_compact_string, lemma_compact_array_len_round_trip, lemma_compact_string_round_trip,
    lemma_i16_round_trip, lemma_i32_round_trip, lemma_tag_byte, outcome_view,
    read_compact_array_len, read_compact_string, read_i16, read_i32, read_tag_buffer, read_u8,
    Decoded,
};
use crate::errors::{DecodeError, Field};
use bytes::Bytes;
use vstd::prelude::*;
use vstd::utf8::encode_utf8;

verus! {

/// The least message size a frame may announce: the fixed part of a header.
pub const MIN_MESSAGE_SIZE: i32 = 8;

/// The cursor value that stands for "no cursor".
pub const NULL_CURSOR: u8 = 0xFF;

/// A decoded request.
#[derive(Debug, PartialEq, Eq)]
pub struct Request {
    pub request_header: RequestHeader,
    pub request_body: RequestBody,
}

/// The header that every request starts with.
#[derive(Debug, PartialEq, Eq)]
pub struct RequestHeader {
    pub api_key: ApiKey,
    pub api_version: i16,
    pub correlation_id: i32,
    pub client_id: String,
}

/// The body of a request, by API.
#[derive(Debug, PartialEq, Eq)]
pub enum RequestBody {
    ApiVersions { client_id: String, client_software_version: String },
    DescribeTopicPartitions { topics: Vec<String>, response_partition_limit: i32, cursor: u8 },
}

/// The model of a request header.
pub struct RequestHeaderView {
    pub api_key: ApiKey,
    pub api_version: i16,
    pub correlation_id: i32,
    pub client_id: Seq<char>,
}

/// The model of a request body.
pub enum RequestBodyView {
    ApiVersions { client_id: Seq<char>, client_software_version: Seq<char> },
    DescribeTopicPartitions { topics: Seq<Seq<char>>, response_partition_limit: i32, cursor: u8 },
}

/// The model of a request.
pub struct RequestView {
    pub header: RequestHeaderView,
    pub body: RequestBodyView,
}

impl View for RequestHeader {
    type V = RequestHeaderView;

    open spec fn view(&self) -> RequestHeaderView {
        RequestHeaderView {
            api_key: self.api_key,
            api_version: self.api_version,
            correlation_id: self.correlation_id,
            client_id: self.client_id@,
        }
    }
}

impl DeepView for RequestHeader {
    type V = RequestHeaderView;

    open spec fn deep_view(&self) -> RequestHeaderView {
        self@
    }
}

impl View for RequestBody {
    type V = RequestBodyView;

    open spec fn view(&self) -> RequestBodyView {
        match self {
            RequestBody::ApiVersions {
                client_id,
                client_software_version,
            } => RequestBodyView::ApiVersions {
                client_id: client_id@,
                client_software_version: client_software_version@,
            },
            RequestBody::DescribeTopicPartitions {
                topics,
                response_partition_limit,
                cursor,
            } => RequestBodyView::DescribeTopicPartitions {
                topics: topics.deep_view(),
                response_partition_limit: *response_partition_limit,
                cursor: *cursor,
            },
        }
    }
}

impl DeepView for RequestBody {
    type V = RequestBodyView;

    open spec fn deep_view(&self) -> RequestBodyView {
        self@
    }
}

impl View for Request {
    type V = RequestView;

    open spec fn view(&self) -> RequestView {
        RequestView { header: self.request_header@, body: self.request_body@ }
    }
}

impl DeepView for Request {
    type V = RequestView;

    open spec fn deep_view(&self) -> RequestView {
        self@
    }
}

/// The text of a string field: a null string counts as the empty text.
pub open spec fn text_or_empty(text: Option<Seq<char>>) -> Seq<char> {
    match text {
        Some(text) => text,
        None => Seq::empty(),
    }
}

/// Decodes the length prefix of a frame: four bytes, a big-endian signed
/// integer that must be at least eight. A prefix that is too small is
/// consumed; nothing after it is.
pub open spec fn decode_message_size(input: Seq<u8>) -> Decoded<usize> {
    if input.len() < 4 {
        Decoded {
            result: Err(DecodeError::Truncated { expected: 4, available: input.len() as usize }),
            rest: input,
        }
    } else if i32_from_be(input.take(4)) < MIN_MESSAGE_SIZE {
        Decoded {
            result: Err(DecodeError::FrameTooSmall { message_size: i32_from_be(input.take(4)) }),
            rest: input.skip(4),
        }
    } else {
        Decoded { result: Ok(i32_from_be(input.take(4)) as usize), rest: input.skip(4) }
    }
}

/// Decodes a request header: API code, API version, correlation id, client
/// id as a compact string and a tag buffer, in this order. The API code is
/// looked up in the registry; a code that the registry does not serve gives
/// a header with the sentinel key, which is not a failure of the header.
pub open spec fn decode_request_header(input: Seq<u8>) -> Decoded<RequestHeaderView> {
    let code = decode_i16(input, Field::ApiKey);
    if code.result is Err {
        code.failure()
    } else {
        let version = decode_i16(code.rest, Field::ApiVersion);
        if version.result is Err {
            version.failure()
        } else {
            let correlation = decode_i32(version.rest, Field::CorrelationId);
            if correlation.result is Err {
                correlation.failure()
            } else {
                let client = decode_compact_string(correlation.rest, Field::HeaderClientId);
                if client.result is Err {
                    client.failure()
                } else {
                    let tags = decode_tag_buffer(client.rest, Field::HeaderTagBuffer);
                    if tags.result is Err {
                        tags.failure()
                    } else {
                        Decoded {
                            result: Ok(
                                RequestHeaderView {
                                    api_key: ApiKey::lookup(code.result->Ok_0),
                                    api_version: version.result->Ok_0,
                                    correlation_id: correlation.result->Ok_0,
                                    client_id: text_or_empty(client.result->Ok_0),
                                },
                            ),
                            rest: tags.rest,
                        }
                    }
                }
            }
        }
    }
}

/// Decodes the body of an `ApiVersions` request: client id and client
/// software version as compact strings, then a tag buffer.
pub open spec fn decode_api_versions_body(input: Seq<u8>) -> Decoded<RequestBodyView> {
    let client = decode_compact_string(input, Field::ClientId);
    if client.result is Err {
        client.failure()
    } else {
        let software = decode_compact_string(client.rest, Field::ClientSoftwareVersion);
        if software.result is Err {
            software.failure()
        } else {
            let tags = decode_tag_buffer(software.rest, Field::ApiVersionsTagBuffer);
            if tags.result is Err {
                tags.failure()
            } else {
                Decoded {
                    result: Ok(
                        RequestBodyView::ApiVersions {
                            client_id: text_or_empty(client.result->Ok_0),
                            client_software_version: text_or_empty(software.result->Ok_0),
                        },
                    ),
                    rest: tags.rest,
                }
            }
        }
    }
}

/// Decodes one requested topic: its name as a compact string, then the
/// topic's own tag buffer.
pub open spec fn decode_topic(input: Seq<u8>) -> Decoded<Seq<char>> {
    let name = decode_compact_string(input, Field::TopicName);
    if name.result is Err {
        name.failure()
    } else {
        let tags = decode_tag_buffer(name.rest, Field::TopicTagBuffer);
        if tags.result is Err {
            tags.failure()
        } else {
            Decoded { result: Ok(text_or_empty(name.result->Ok_0)), rest: tags.rest }
        }
    }
}

/// Puts `name` in front of the topics decoded after it.
pub open spec fn prepend_topics(names: Seq<Seq<char>>, others: Decoded<Seq<Seq<char>>>) -> Decoded<
    Seq<Seq<char>>,
> {
    match others.result {
        Ok(more) => Decoded { result: Ok(names + more), rest: others.rest },
        Err(error) => Decoded { result: Err(error), rest: others.rest },
    }
}

/// Decodes `count` topics, one after the other; the first failure ends it.
pub open spec fn decode_topics(input: Seq<u8>, count: nat) -> Decoded<Seq<Seq<char>>>
    decreases count,
{
    if count == 0 {
        Decoded { result: Ok(Seq::empty()), rest: input }
    } else {
        let first = decode_topic(input);
        if first.result is Err {
            first.failure()
        } else {
            prepend_topics(
                seq![first.result->Ok_0],
                decode_topics(first.rest, (count - 1) as nat),
            )
        }
    }
}

/// The number of elements of a compact array: the null array has none.
pub open spec fn count_or_zero(count: Option<u32>) -> nat {
    match count {
        Some(count) => count as nat,
        None => 0,
    }
}

/// Decodes the body of a `DescribeTopicPartitions` request: a compact array
/// of topics, the response partition limit, the cursor, which must be the
/// null sentinel, and a tag buffer.
pub open spec fn decode_describe_topic_partitions(input: Seq<u8>) -> Decoded<RequestBodyView> {
    let count = decode_compact_array_len(input, Field::Topics);
    if count.result is Err {
        count.failure()
    } else {
        let topics = decode_topics(count.rest, count_or_zero(count.result->Ok_0));
        if topics.result is Err {
            topics.failure()
        } else {
            let limit = decode_i32(topics.rest, Field::ResponsePartitionLimit);
            if limit.result is Err {
                limit.failure()
            } else {
                let cursor = decode_u8(limit.rest, Field::Cursor);
                if cursor.result is Err {
                    cursor.failure()
                } else if cursor.result->Ok_0 != NULL_CURSOR {
                    Decoded {
                        result: Err(DecodeError::InvalidCursor { cursor: cursor.result->Ok_0 }),
                        rest: cursor.rest,
                    }
                } else {
                    let tags = decode_tag_buffer(cursor.rest, Field::DescribeTopicPartitionsTagBuffer);
                    if tags.result is Err {
                        tags.failure()
                    } else {
                        Decoded {
                            result: Ok(
                                RequestBodyView::DescribeTopicPartitions {
                                    topics: topics.result->Ok_0,
                                    response_partition_limit: limit.result->Ok_0,
                                    cursor: cursor.result->Ok_0,
                                },
                            ),
                            rest: tags.rest,
                        }
                    }
                }
            }
        }
    }
}

/// Decodes the body that belongs to `api_key`. For the sentinel there is
/// no body format: the request is rejected and nothing is consumed. No API
/// code is at hand here, so the failure carries none.
pub open spec fn decode_request_body(input: Seq<u8>, api_key: ApiKey) -> Decoded<RequestBodyView> {
    match api_key {
        ApiKey::ApiVersions => decode_api_versions_body(input),
        ApiKey::DescribeTopicPartitions => decode_describe_topic_partitions(input),
        ApiKey::Unsupported => Decoded {
            result: Err(DecodeError::UnsupportedApi { api_key: None }),
            rest: input,
        },
    }
}

/// The API code at the head of a message: its first two bytes, read as a
/// big-endian signed integer. It has a meaning only where the message holds
/// them, as it does wherever its header decodes.
pub open spec fn wire_api_code(input: Seq<u8>) -> i16 {
    decode_i16(input, Field::ApiKey).result->Ok_0
}

/// Decodes a message, that is a frame without its length prefix: the
/// header, the lookup of its API code and then the body that the API key
/// calls for. A message whose code the registry does not serve is rejected
/// after its header, with the code as it was read; its body is left unread.
pub open spec fn decode_message(input: Seq<u8>) -> Decoded<RequestView> {
    let header = decode_request_header(input);
    if header.result is Err {
        header.failure()
    } else if !(header.result->Ok_0).api_key.supported() {
        Decoded {
            result: Err(DecodeError::UnsupportedApi { api_key: Some(wire_api_code(input)) }),
            rest: header.rest,
        }
    } else {
        let body = decode_request_body(header.rest, (header.result->Ok_0).api_key);
        if body.result is Err {
            body.failure()
        } else {
            Decoded {
                result: Ok(RequestView { header: header.result->Ok_0, body: body.result->Ok_0 }),
                rest: body.rest,
            }
        }
    }
}

/// Decodes one frame from a stream of bytes: the length prefix, then a
/// message of exactly that many bytes. Once the prefix is accepted and the
/// message is there in full, the whole frame is consumed, whether or not
/// the message decodes; bytes of the message after its body are skipped.
pub open spec fn decode_frame(input: Seq<u8>) -> Decoded<RequestView> {
    let size = decode_message_size(input);
    if size.result is Err {
        size.failure()
    } else if size.rest.len() < size.result->Ok_0 {
        Decoded {
            result: Err(
                DecodeError::Truncated {
                    expected: size.result->Ok_0,
                    available: size.rest.len() as usize,
                },
            ),
            rest: size.rest,
        }
    } else {
        Decoded {
            result: decode_message(size.rest.take(size.result->Ok_0 as int)).result,
            rest: size.rest.skip(size.result->Ok_0 as int),
        }
    }
}


/// The text of a string field: a null string counts as the empty text.
fn string_or_empty(text: Option<String>) -> (owned: String)
    ensures
        owned@ == text_or_empty(text.deep_view()),
{
    match text {
        Some(text) => text,
        None => String::new(),
    }
}

impl RequestHeader {
    /// Reads the header at the head of `message`. An API code that the
    /// registry does not serve gives the sentinel key.
    pub fn parse_request_header(message: &mut Bytes) -> (outcome: Result<Self, DecodeError>)
        ensures
            outcome_view(outcome) == decode_request_header(pending(*old(message))).result,
            pending(*final(message)) == decode_request_header(pending(*old(message))).rest,
    {
        match Self::parse_with_code(message) {
            Ok((header, _)) => Ok(header),
            Err(error) => Err(error),
        }
    }

    /// Reads the header at the head of `message` and hands on, beside it,
    /// the API code as it was read.
    fn parse_with_code(message: &mut Bytes) -> (outcome: Result<(Self, i16), DecodeError>)
        ensures
            match outcome {
                Ok((header, code)) => {
                    &&& decode_request_header(pending(*old(message))).result == Ok::<
                        RequestHeaderView,
                        DecodeError,
                    >(header@)
                    &&& code == wire_api_code(pending(*old(message)))
                    &&& header.api_key == ApiKey::lookup(code)
                },
                Err(error) => decode_request_header(pending(*old(message))).result == Err::<
                    RequestHeaderView,
                    DecodeError,
                >(error),
            },
            pending(*final(message)) == decode_request_header(pending(*old(message))).rest,
    {
        let request_api_key = match read_i16(message, Field::ApiKey) {
            Ok(code) => code,
            Err(error) => {
                return Err(error);
            },
        };
        let request_api_version = match read_i16(message, Field::ApiVersion) {
            Ok(version) => version,
            Err(error) => {
                return Err(error);
            },
        };
        let correlation_id = match read_i32(message, Field::CorrelationId) {
            Ok(id) => id,
            Err(error) => {
                return Err(error);
            },
        };
        let client_id = match read_compact_string(message, Field::HeaderClientId) {
            Ok(text) => string_or_empty(text),
            Err(error) => {
                return Err(error);
            },
        };
        match read_tag_buffer(message, Field::HeaderTagBuffer) {
            Ok(()) => Ok(
                (
                    Self {
                        api_key: ApiKey::from_int(request_api_key),
                        api_version: request_api_version,
                        correlation_id,
                        client_id,
                    },
                    request_api_key,
                ),
            ),
            Err(error) => Err(error),
        }
    }
}

impl RequestBody {
    /// Reads the body that `request_header` calls for.
    pub fn parse_request_body(message: &mut Bytes, request_header: &RequestHeader) -> (outcome:
        Result<Self, DecodeError>)
        ensures
            outcome_view(outcome) == decode_request_body(
                pending(*old(message)),
                request_header.api_key,
            ).result,
            pending(*final(message)) == decode_request_body(
                pending(*old(message)),
                request_header.api_key,
            ).rest,
    {
        match request_header.api_key {
            ApiKey::ApiVersions => Self::parse_api_versions_body(message),
            ApiKey::DescribeTopicPartitions => Self::parse_describe_topic_partitions(message),
            ApiKey::Unsupported => Err(DecodeError::UnsupportedApi { api_key: None }),
        }
    }

    /// Reads the body of an `ApiVersions` request.
    pub fn parse_api_versions_body(message: &mut Bytes) -> (outcome: Result<
        RequestBody,
        DecodeError,
    >)
        ensures
            outcome_view(outcome) == decode_api_versions_body(pending(*old(message))).result,
            pending(*final(message)) == decode_api_versions_body(pending(*old(message))).rest,
    {
        let client_id = match read_compact_string(message, Field::ClientId) {
            Ok(text) => string_or_empty(text),
            Err(error) => {
                return Err(error);
            },
        };
        let client_software_version = match read_compact_string(
            message,
            Field::ClientSoftwareVersion,
        ) {
            Ok(text) => string_or_empty(text),
            Err(error) => {
                return Err(error);
            },
        };
        match read_tag_buffer(message, Field::ApiVersionsTagBuffer) {
            Ok(()) => Ok(RequestBody::ApiVersions { client_id, client_software_version }),
            Err(error) => Err(error),
        }
    }

    /// Reads the body of a `DescribeTopicPartitions` request.
    pub fn parse_describe_topic_partitions(message: &mut Bytes) -> (outcome: Result<
        RequestBody,
        DecodeError,
    >)
        ensures
            outcome_view(outcome) == decode_describe_topic_partitions(
                pending(*old(message)),
            ).result,
            pending(*final(message)) == decode_describe_topic_partitions(
                pending(*old(message)),
            ).rest,
    {
        let count = match read_compact_array_len(message, Field::Topics) {
            Ok(Some(count)) => count,
            Ok(None) => 0,
            Err(error) => {
                return Err(error);
            },
        };
        let ghost start = pending(*message);
        let mut topics: Vec<String> = Vec::new();
        let mut read: u32 = 0;
        assert(topics.deep_view() + Seq::<Seq<char>>::empty() == topics.deep_view());
        while read < count
            invariant
                read <= count,
                decode_compact_array_len(pending(*old(message)), Field::Topics).result is Ok,
                decode_compact_array_len(pending(*old(message)), Field::Topics).rest == start,
                count_or_zero(
                    decode_compact_array_len(pending(*old(message)), Field::Topics).result->Ok_0,
                ) == count,
                decode_topics(start, count as nat) == prepend_topics(
                    topics.deep_view(),
                    decode_topics(pending(*message), (count - read) as nat),
                ),
            decreases count - read,
        {
            let ghost done = topics.deep_view();
            let ghost here = pending(*message);
            match Self::parse_topic(message) {
                Ok(name) => {
                    topics.push(name);
                    proof {
                        let more = decode_topics(pending(*message), (count - read - 1) as nat);
                        assert(topics.deep_view() == done.push(name@));
                        if more.result is Ok {
                            assert(done + (seq![name@] + more.result->Ok_0) == done.push(name@)
                                + more.result->Ok_0);
                        }
                    }
                },
                Err(error) => {
                    return Err(error);
                },
            }
            read = read + 1;
        }
        assert(topics.deep_view() + Seq::<Seq<char>>::empty() == topics.deep_view());
        let response_partition_limit = match read_i32(message, Field::ResponsePartitionLimit) {
            Ok(limit) => limit,
            Err(error) => {
                return Err(error);
            },
        };
        let cursor = match read_u8(message, Field::Cursor) {
            Ok(cursor) => cursor,
            Err(error) => {
                return Err(error);
            },
        };
        if cursor != NULL_CURSOR {
            return Err(DecodeError::InvalidCursor { cursor });
        }
        match read_tag_buffer(message, Field::DescribeTopicPartitionsTagBuffer) {
            Ok(()) => Ok(
                RequestBody::DescribeTopicPartitions { topics, response_partition_limit, cursor },
            ),
            Err(error) => Err(error),
        }
    }

    /// Reads one requested topic and returns its name.
    pub fn parse_topic(message: &mut Bytes) -> (outcome: Result<String, DecodeError>)
        ensures
            outcome_view(outcome) == decode_topic(pending(*old(message))).result,
            pending(*final(message)) == decode_topic(pending(*old(message))).rest,
    {
        let topic_name = match read_compact_string(message, Field::TopicName) {
            Ok(text) => string_or_empty(text),
            Err(error) => {
                return Err(error);
            },
        };
        match read_tag_buffer(message, Field::TopicTagBuffer) {
            Ok(()) => Ok(topic_name),
            Err(error) => Err(error),
        }
    }
}

impl Request {
    /// Reads the length prefix of a frame and returns the size of the
    /// message that follows it.
    pub fn read_message_size(frame: &mut Bytes) -> (outcome: Result<usize, DecodeError>)
        ensures
            outcome == decode_message_size(pending(*old(frame))).result,
            pending(*final(frame)) == decode_message_size(pending(*old(frame))).rest,
    {
        let available = remaining(frame);
        if available < 4 {
            return Err(DecodeError::Truncated { expected: 4, available });
        }
        let message_size = crate::buffer::get_i32(frame);
        if message_size < MIN_MESSAGE_SIZE {
            return Err(DecodeError::FrameTooSmall { message_size });
        }
        Ok(message_size as usize)
    }

    /// Reads a message, that is a frame without its length prefix.
    pub fn parse_message(message: &mut Bytes) -> (outcome: Result<Self, DecodeError>)
        ensures
            outcome_view(outcome) == decode_message(pending(*old(message))).result,
            pending(*final(message)) == decode_message(pending(*old(message))).rest,
    {
        let (request_header, code) = match RequestHeader::parse_with_code(message) {
            Ok(read) => read,
            Err(error) => {
                return Err(error);
            },
        };
        match request_header.api_key {
            ApiKey::Unsupported => {
                return Err(DecodeError::UnsupportedApi { api_key: Some(code) });
            },
            _ => {},
        }
        match RequestBody::parse_request_body(message, &request_header) {
            Ok(request_body) => Ok(Self { request_header, request_body }),
            Err(error) => Err(error),
        }
    }

    /// Reads one frame off the head of `frame`: the length prefix and the
    /// message it announces.
    pub fn parse_request(frame: &mut Bytes) -> (outcome: Result<Self, DecodeError>)
        ensures
            outcome_view(outcome) == decode_frame(pending(*old(frame))).result,
            pending(*final(frame)) == decode_frame(pending(*old(frame))).rest,
    {
        let message_size = match Self::read_message_size(frame) {
            Ok(size) => size,
            Err(error) => {
                return Err(error);
            },
        };
        let available = remaining(frame);
        if available < message_size {
            return Err(DecodeError::Truncated { expected: message_size, available });
        }
        let mut message = split_to(frame, message_size);
        Self::parse_message(&mut message)
    }
}


/// The bytes of a header up to its tag buffer: API code, API version,
/// correlation id and client id.
pub open spec fn header_fields_wire(
    code: i16,
    version: i16,
    correlation_id: i32,
    client_id: Seq<char>,
) -> Seq<u8> {
    i16_be_bytes(code) + i16_be_bytes(version) + i32_be_bytes(correlation_id)
        + encode_compact_string(client_id)
}

/// A frame whose prefix announces fewer than eight bytes is rejected on
/// the prefix alone: whatever follows the prefix is left unread.
pub proof fn lemma_small_frame_rejected(input: Seq<u8>)
    requires
        input.len() >= 4,
        i32_from_be(input.take(4)) < MIN_MESSAGE_SIZE,
    ensures
        decode_frame(input) == (Decoded::<RequestView> {
            result: Err(DecodeError::FrameTooSmall { message_size: i32_from_be(input.take(4)) }),
            rest: input.skip(4),
        }),
        decode_message_size(input).result == Err::<usize, DecodeError>(
            DecodeError::FrameTooSmall { message_size: i32_from_be(input.take(4)) },
        ),
{
}

/// A header is decoded from its bytes, whatever follows them, with the key
/// that the registry holds for its API code: the sentinel for a code that
/// is not served. A tag byte that is not zero is rejected under the name of
/// the header's tag buffer.
pub proof fn lemma_header_decoded(
    code: i16,
    version: i16,
    correlation_id: i32,
    client_id: Seq<char>,
    tag: u8,
    rest: Seq<u8>,
)
    requires
        encode_utf8(client_id).len() < u32::MAX,
    ensures
        decode_request_header(
            header_fields_wire(code, version, correlation_id, client_id) + seq![tag] + rest,
        ) == (Decoded {
            result: if tag != 0 {
                Err(DecodeError::UnexpectedTagBuffer { field: Field::HeaderTagBuffer, tag })
            } else {
                Ok(
                    RequestHeaderView {
                        api_key: ApiKey::lookup(code),
                        api_version: version,
                        correlation_id,
                        client_id,
                    },
                )
            },
            rest,
        }),
        wire_api_code(
            header_fields_wire(code, version, correlation_id, client_id) + seq![tag] + rest,
        ) == code,
{
    let client = encode_compact_string(client_id);
    let after_client = seq![tag] + rest;
    let after_correlation = client + after_client;
    let after_version = i32_be_bytes(correlation_id) + after_correlation;
    let after_code = i16_be_bytes(version) + after_version;
    let input = header_fields_wire(code, version, correlation_id, client_id) + seq![tag] + rest;
    assert(input == i16_be_bytes(code) + after_code);
    lemma_i16_round_trip(code, after_code, Field::ApiKey);
    lemma_i16_round_trip(version, after_version, Field::ApiVersion);
    lemma_i32_round_trip(correlation_id, after_correlation, Field::CorrelationId);
    lemma_compact_string_round_trip(client_id, after_client, Field::HeaderClientId);
    lemma_tag_byte(tag, rest, Field::HeaderTagBuffer);
}


/// The body of an `ApiVersions` request is decoded from its bytes,
/// whatever follows them; a tag byte that is not zero is rejected under
/// the name of the body's tag buffer.
pub proof fn lemma_api_versions_body_decoded(
    client_id: Seq<char>,
    client_software_version: Seq<char>,
    tag: u8,
    rest: Seq<u8>,
)
    requires
        encode_utf8(client_id).len() < u32::MAX,
        encode_utf8(client_software_version).len() < u32::MAX,
    ensures
        decode_api_versions_body(
            encode_compact_string(client_id) + encode_compact_string(client_software_version)
                + seq![tag] + rest,
        ) == (Decoded {
            result: if tag != 0 {
                Err(DecodeError::UnexpectedTagBuffer { field: Field::ApiVersionsTagBuffer, tag })
            } else {
                Ok(RequestBodyView::ApiVersions { client_id, client_software_version })
            },
            rest,
        }),
{
    let after_software = seq![tag] + rest;
    let after_client = encode_compact_string(client_software_version) + after_software;
    let input = encode_compact_string(client_id) + encode_compact_string(client_software_version)
        + seq![tag] + rest;
    assert(input == encode_compact_string(client_id) + after_client);
    lemma_compact_string_round_trip(client_id, after_client, Field::ClientId);
    lemma_compact_string_round_trip(
        client_software_version,
        after_software,
        Field::ClientSoftwareVersion,
    );
    lemma_tag_byte(tag, rest, Field::ApiVersionsTagBuffer);
}

/// A requested topic is decoded from its bytes, whatever follows them; a
/// tag byte that is not zero is rejected under the name of the topic's tag
/// buffer.
pub proof fn lemma_topic_decoded(name: Seq<char>, tag: u8, rest: Seq<u8>)
    requires
        encode_utf8(name).len() < u32::MAX,
    ensures
        decode_topic(encode_compact_string(name) + seq![tag] + rest) == (Decoded {
            result: if tag != 0 {
                Err(DecodeError::UnexpectedTagBuffer { field: Field::TopicTagBuffer, tag })
            } else {
                Ok(name)
            },
            rest,
        }),
{
    let after_name = seq![tag] + rest;
    assert(encode_compact_string(name) + seq![tag] + rest == encode_compact_string(name)
        + after_name);
    lemma_compact_string_round_trip(name, after_name, Field::TopicName);
    lemma_tag_byte(tag, rest, Field::TopicTagBuffer);
}

/// The bytes of each requested topic: its name as a compact string and an
/// empty tag buffer.
pub open spec fn requested_topics_parts(names: Seq<Seq<char>>) -> Seq<Seq<u8>> {
    Seq::new(names.len(), |i: int| encode_compact_string(names[i]) + seq![0u8])
}

/// The topics of a compact array are decoded in the order they were
/// written, and what follows them is left.
pub proof fn lemma_topics_round_trip(names: Seq<Seq<char>>, rest: Seq<u8>)
    requires
        forall|i: int| 0 <= i < names.len() ==> encode_utf8(#[trigger] names[i]).len() < u32::MAX,
    ensures
        decode_topics(concat(requested_topics_parts(names)) + rest, names.len()) == (Decoded {
            result: Ok(names),
            rest,
        }),
    decreases names.len(),
{
    let parts = requested_topics_parts(names);
    if names.len() == 0 {
        assert(concat(parts) + rest == rest);
        assert(names == Seq::<Seq<char>>::empty());
    } else {
        let others = names.skip(1);
        let other_parts = requested_topics_parts(others);
        lemma_concat_first(parts);
        assert(parts.skip(1) == other_parts);
        let after_first = concat(other_parts) + rest;
        assert(concat(parts) + rest == encode_compact_string(names[0]) + seq![0u8] + after_first);
        lemma_topic_decoded(names[0], 0, after_first);
        assert forall|i: int| 0 <= i < others.len() implies encode_utf8(
            #[trigger] others[i],
        ).len() < u32::MAX by {
            assert(others[i] == names[i + 1]);
        }
        lemma_topics_round_trip(others, rest);
        assert(seq![names[0]] + others == names);
    }
}

/// The parts one after the other are the first part and then the others.
proof fn lemma_concat_first(parts: Seq<Seq<u8>>)
    requires
        parts.len() > 0,
    ensures
        concat(parts) == parts[0] + concat(parts.skip(1)),
    decreases parts.len(),
{
    if parts.len() == 1 {
        assert(parts.drop_last().len() == 0);
        assert(parts.skip(1).len() == 0);
        assert(concat(parts.drop_last()) == Seq::<u8>::empty());
        assert(concat(parts.skip(1)) == Seq::<u8>::empty());
        assert(Seq::<u8>::empty() + parts[0] == parts[0] + Seq::<u8>::empty());
    } else {
        let front = parts.drop_last();
        lemma_concat_first(front);
        assert(front.skip(1) == parts.skip(1).drop_last());
        assert(parts.skip(1).last() == parts.last());
        assert((parts[0] + concat(front.skip(1))) + parts.last() == parts[0] + (concat(
            front.skip(1),
        ) + parts.last()));
    }
}


/// The bytes of a `DescribeTopicPartitions` body up to its tag buffer: the
/// topics as a compact array, the response partition limit and the cursor.
pub open spec fn describe_fields_wire(names: Seq<Seq<char>>, limit: i32, cursor: u8) -> Seq<u8> {
    encode_compact_array(requested_topics_parts(names)) + i32_be_bytes(limit) + seq![cursor]
}

/// The body of a `DescribeTopicPartitions` request is decoded from its
/// bytes, whatever follows them. A cursor other than the null sentinel is
/// rejected with its value, before the tag byte is read; a tag byte that
/// is not zero is rejected under the name of the body's tag buffer.
pub proof fn lemma_describe_body_decoded(
    names: Seq<Seq<char>>,
    limit: i32,
    cursor: u8,
    tag: u8,
    rest: Seq<u8>,
)
    requires
        names.len() < u32::MAX,
        forall|i: int| 0 <= i < names.len() ==> encode_utf8(#[trigger] names[i]).len() < u32::MAX,
    ensures
        decode_describe_topic_partitions(
            describe_fields_wire(names, limit, cursor) + seq![tag] + rest,
        ) == (Decoded {
            result: if cursor != NULL_CURSOR {
                Err(DecodeError::InvalidCursor { cursor })
            } else if tag != 0 {
                Err(DecodeError::UnexpectedTagBuffer { field: Field::DescribeTopicPartitionsTagBuffer, tag })
            } else {
                Ok(
                    RequestBodyView::DescribeTopicPartitions {
                        topics: names,
                        response_partition_limit: limit,
                        cursor,
                    },
                )
            },
            rest: if cursor != NULL_CURSOR {
                seq![tag] + rest
            } else {
                rest
            },
        }),
{
    let parts = requested_topics_parts(names);
    let after_cursor = seq![tag] + rest;
    let after_limit = seq![cursor] + after_cursor;
    let after_topics = i32_be_bytes(limit) + after_limit;
    let after_count = concat(parts) + after_topics;
    let input = describe_fields_wire(names, limit, cursor) + seq![tag] + rest;
    assert(input == encode_compact_array_len(names.len()) + after_count);
    lemma_compact_array_len_round_trip(names.len() as u32, after_count, Field::Topics);
    lemma_topics_round_trip(names, after_topics);
    lemma_i32_round_trip(limit, after_limit, Field::ResponsePartitionLimit);
    assert(after_limit.skip(1) == after_cursor);
    lemma_tag_byte(tag, rest, Field::DescribeTopicPartitionsTagBuffer);
}

/// Whether a request can be written: its key is served, its body is the
/// body of its key, its cursor is null and its lengths fit their prefixes.
pub open spec fn well_formed(request: RequestView) -> bool {
    &&& encode_utf8(request.header.client_id).len() < u32::MAX
    &&& match request.body {
        RequestBodyView::ApiVersions { client_id, client_software_version } => {
            &&& request.header.api_key == ApiKey::ApiVersions
            &&& encode_utf8(client_id).len() < u32::MAX
            &&& encode_utf8(client_software_version).len() < u32::MAX
        },
        RequestBodyView::DescribeTopicPartitions { topics, cursor, .. } => {
            &&& request.header.api_key == ApiKey::DescribeTopicPartitions
            &&& cursor == NULL_CURSOR
            &&& topics.len() < u32::MAX
            &&& forall|i: int|
                0 <= i < topics.len() ==> encode_utf8(#[trigger] topics[i]).len() < u32::MAX
        },
    }
}

/// The bytes of a request after its length prefix: the header with an
/// empty tag buffer, then the body with an empty tag buffer.
pub open spec fn request_wire(request: RequestView) -> Seq<u8> {
    header_fields_wire(
        request.header.api_key.code(),
        request.header.api_version,
        request.header.correlation_id,
        request.header.client_id,
    ) + seq![0u8] + request_body_wire(request.body)
}

/// The bytes of a request body with its empty tag buffer.
pub open spec fn request_body_wire(body: RequestBodyView) -> Seq<u8> {
    match body {
        RequestBodyView::ApiVersions { client_id, client_software_version } => {
            encode_compact_string(client_id) + encode_compact_string(client_software_version)
                + seq![0u8]
        },
        RequestBodyView::DescribeTopicPartitions { topics, response_partition_limit, cursor } => {
            describe_fields_wire(topics, response_partition_limit, cursor) + seq![0u8]
        },
    }
}

/// The body of a well-formed request is decoded from its bytes to itself.
pub proof fn lemma_request_body_round_trip(request: RequestView, rest: Seq<u8>)
    requires
        well_formed(request),
    ensures
        decode_request_body(request_body_wire(request.body) + rest, request.header.api_key) == (
        Decoded { result: Ok(request.body), rest }),
{
    match request.body {
        RequestBodyView::ApiVersions { client_id, client_software_version } => {
            lemma_api_versions_body_decoded(client_id, client_software_version, 0, rest);
        },
        RequestBodyView::DescribeTopicPartitions { topics, response_partition_limit, cursor } => {
            lemma_describe_body_decoded(topics, response_partition_limit, cursor, 0, rest);
        },
    }
}

/// Every well-formed request is decoded from its bytes to itself, and what
/// follows its bytes is left.
pub proof fn lemma_request_round_trip(request: RequestView, rest: Seq<u8>)
    requires
        well_formed(request),
    ensures
        decode_message(request_wire(request) + rest) == (Decoded { result: Ok(request), rest }),
{
    let header = request.header;
    let fields = header_fields_wire(
        header.api_key.code(),
        header.api_version,
        header.correlation_id,
        header.client_id,
    );
    let body = request_body_wire(request.body) + rest;
    let input = request_wire(request) + rest;
    assert(input == fields + seq![0u8] + body);
    assert(decode_request_header(input) == (Decoded { result: Ok(header), rest: body })) by {
        ApiKey::lemma_lookup_of_code(header.api_key);
        lemma_header_decoded(
            header.api_key.code(),
            header.api_version,
            header.correlation_id,
            header.client_id,
            0,
            body,
        );
    }
    lemma_request_body_round_trip(request, rest);
}

/// A message behind its length prefix is decoded as the message alone is,
/// and what follows the frame is left, whether or not the message decodes.
pub proof fn lemma_frame_decoded(message: Seq<u8>, rest: Seq<u8>)
    requires
        MIN_MESSAGE_SIZE <= message.len() <= i32::MAX,
    ensures
        decode_frame(i32_be_bytes(message.len() as i32) + message + rest) == (Decoded {
            result: decode_message(message).result,
            rest,
        }),
{
    let size = message.len() as i32;
    let input = i32_be_bytes(size) + message + rest;
    lemma_signed_be_round_trip(0, size);
    assert(input.take(4) == i32_be_bytes(size));
    assert(input.skip(4) == message + rest);
    assert((message + rest).take(message.len() as int) == message);
    assert((message + rest).skip(message.len() as int) == rest);
}


/// A message whose API code the registry does not serve is rejected once
/// its header is read, with the code as it stands on the wire; what follows
/// the header is left unread.
pub proof fn lemma_unsupported_api_rejected(
    code: i16,
    version: i16,
    correlation_id: i32,
    client_id: Seq<char>,
    rest: Seq<u8>,
)
    requires
        encode_utf8(client_id).len() < u32::MAX,
        !ApiKey::lookup(code).supported(),
    ensures
        decode_message(
            header_fields_wire(code, version, correlation_id, client_id) + seq![0u8] + rest,
        ) == (Decoded::<RequestView> {
            result: Err(DecodeError::UnsupportedApi { api_key: Some(code) }),
            rest,
        }),
{
    lemma_header_decoded(code, version, correlation_id, client_id, 0, rest);
}

} // verus!
