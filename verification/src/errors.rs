//! Decode failures. Every failure names the field at which decoding stopped
//! and, where a byte was read, the value observed.

use vstd::prelude::*;

verus! {

/// A field of a request frame, in wire order.
#[derive(Debug, Clone, Copy, PartialEq, Eq, Structural)]
pub enum Field {
    MessageSize,
    ApiKey,
    ApiVersion,
    CorrelationId,
    HeaderClientId,
    HeaderTagBuffer,
    ClientId,
    ClientSoftwareVersion,
    Topics,
    TopicName,
    TopicTagBuffer,
    ResponsePartitionLimit,
    Cursor,
    ApiVersionsTagBuffer,
    DescribeTopicPartitionsTagBuffer,
}

/// Why a frame was rejected. Each failure is fatal to the connection: past a
/// misread field the start of the next frame cannot be found again.
#[derive(Debug, Clone, Copy, PartialEq, Eq, Structural)]
pub enum DecodeError {
    /// The length prefix announces fewer than eight bytes.
    FrameTooSmall { message_size: i32 },
    /// Fewer bytes arrived than the frame needs.
    Truncated { expected: usize, available: usize },
    /// The message ended inside `field`.
    UnexpectedEof { field: Field },
    /// The varint of `field` does not fit 32 bits; `byte` is its fifth byte.
    MalformedVarint { field: Field, byte: u8 },
    /// The tag count `field` is not zero.
    UnexpectedTagBuffer { field: Field, tag: u8 },
    /// The cursor is not the null sentinel.
    InvalidCursor { cursor: u8 },
    /// The registry does not serve the request's API. `api_key` is the code
    /// read from the wire; it is `None` where a body was asked for under a
    /// header that holds the sentinel and no code was read.
    UnsupportedApi { api_key: Option<i16> },
}

impl Field {
    /// The field's name as text.
    pub open spec fn name_text(self) -> Seq<char> {
        match self {
            Field::MessageSize => "message_size"@,
            Field::ApiKey => "api_key"@,
            Field::ApiVersion => "api_version"@,
            Field::CorrelationId => "correlation_id"@,
            Field::HeaderClientId => "header.client_id"@,
            Field::HeaderTagBuffer => "header.tag_buffer"@,
            Field::ClientId => "client_id"@,
            Field::ClientSoftwareVersion => "client_software_version"@,
            Field::Topics => "topics"@,
            Field::TopicName => "topic_name"@,
            Field::TopicTagBuffer => "topic.tag_buffer"@,
            Field::ResponsePartitionLimit => "response_partition_limit"@,
            Field::Cursor => "cursor"@,
            Field::ApiVersionsTagBuffer => "api_versions.tag_buffer"@,
            Field::DescribeTopicPartitionsTagBuffer => "describe_topic_partitions.tag_buffer"@,
        }
    }

    /// The field's name, for reports.
    pub fn name(&self) -> (text: &'static str)
        ensures
            text@ == self.name_text(),
    {
        match self {
            Field::MessageSize => "message_size",
            Field::ApiKey => "api_key",
            Field::ApiVersion => "api_version",
            Field::CorrelationId => "correlation_id",
            Field::HeaderClientId => "header.client_id",
            Field::HeaderTagBuffer => "header.tag_buffer",
            Field::ClientId => "client_id",
            Field::ClientSoftwareVersion => "client_software_version",
            Field::Topics => "topics",
            Field::TopicName => "topic_name",
            Field::TopicTagBuffer => "topic.tag_buffer",
            Field::ResponsePartitionLimit => "response_partition_limit",
            Field::Cursor => "cursor",
            Field::ApiVersionsTagBuffer => "api_versions.tag_buffer",
            Field::DescribeTopicPartitionsTagBuffer => "describe_topic_partitions.tag_buffer",
        }
    }
}

impl DecodeError {
    /// The field at which decoding stopped.
    pub open spec fn at(self) -> Field {
        match self {
            DecodeError::FrameTooSmall { .. } => Field::MessageSize,
            DecodeError::Truncated { .. } => Field::MessageSize,
            DecodeError::UnexpectedEof { field } => field,
            DecodeError::MalformedVarint { field, .. } => field,
            DecodeError::UnexpectedTagBuffer { field, .. } => field,
            DecodeError::InvalidCursor { .. } => Field::Cursor,
            DecodeError::UnsupportedApi { .. } => Field::ApiKey,
        }
    }

    /// The field at which decoding stopped.
    pub fn field(&self) -> (field: Field)
        ensures
            field == self.at(),
    {
        match self {
            DecodeError::FrameTooSmall { .. } => Field::MessageSize,
            DecodeError::Truncated { .. } => Field::MessageSize,
            DecodeError::UnexpectedEof { field } => *field,
            DecodeError::MalformedVarint { field, .. } => *field,
            DecodeError::UnexpectedTagBuffer { field, .. } => *field,
            DecodeError::InvalidCursor { .. } => Field::Cursor,
            DecodeError::UnsupportedApi { .. } => Field::ApiKey,
        }
    }
}

} // verus!
