//! The data model: message records as they come out of the store's payload
//! column, the per-conversation aggregate that the archive emits, and the
//! error taxonomy of the whole pipeline.

use vstd::prelude::*;

verus! {

/// A thumbnail nested inside an attachment; once present, every field is
/// required.
pub struct Thumbnail {
    pub path: String,
    pub content_type: String,
    pub width: i32,
    pub height: i32,
}

/// One attachment owned by exactly one message record.
pub struct Attachment {
    pub content_type: String,
    pub path: String,
    pub size: Option<i32>,
    pub width: Option<i32>,
    pub height: Option<i32>,
    pub thumbnail: Option<Thumbnail>,
}

/// One chat message, as decoded from a payload blob and merged with the
/// row-derived fields. Only the conversation id and the unique id are
/// guaranteed by the source schema; everything else may be absent.
pub struct FullMessage {
    pub timestamp: Option<i64>,
    pub attachments: Option<Vec<Attachment>>,
    pub body: Option<String>,
    pub conversation_id: String,
    pub sent_at: Option<i64>,
    pub received_at: Option<i64>,
    pub received_at_ms: Option<i64>,
    pub recipients: Option<Vec<String>>,
    pub has_attachments: Option<i32>,
    pub has_visual_media_attachments: Option<i32>,
    pub destination: Option<String>,
    pub from: Option<String>,
    pub msg_type: Option<String>,
    pub e164: Option<i64>,
    pub profile_name: Option<String>,
    pub message_name: Option<String>,
    pub id: String,
}

/// One output unit: the sorted, filtered messages of a single conversation
/// together with the header fields frozen from the first record seen.
pub struct ConversationOutput {
    pub profile_name: Option<String>,
    pub conversation_id: String,
    pub conv_type: String,
    pub e164: Option<i64>,
    pub messages: Vec<FullMessage>,
}

/// A flat, fully populated row shape kept for callers that want one record
/// per message with its conversation context.
pub struct ConversationData {
    pub timestamp: String,
    pub body: String,
    pub conversation_id: String,
    pub conv_type: String,
    pub e164: i64,
    pub profile_name: Option<String>,
    pub message_name: String,
}

/// A minimal message shape: when it was sent, what it said, who sent it.
pub struct Message {
    pub timestamp_in_ms: i64,
    pub body: String,
    pub from: String,
}

/// One raw row as the join query returns it, before any payload decoding:
/// the payload blob plus the conversation-level columns.
pub struct RawRow {
    pub payload: String,
    pub conversation_id: String,
    pub conv_type: Option<String>,
    pub e164_text: Option<String>,
    pub profile_name: Option<String>,
    pub profile_full_name: Option<String>,
    pub msg_type: Option<String>,
}

/// Everything that can go wrong in the pipeline, by stage.
#[derive(Debug)]
pub enum ExportError {
    /// The configuration artifact does not exist.
    ConfigNotFound,
    /// The configuration artifact exists but could not be read.
    ConfigUnreadable,
    /// The configuration artifact is not valid structured data or lacks a
    /// `key` field.
    ConfigMalformed,
    /// The database file is absent.
    StoreNotFound,
    /// The database file exists but the driver failed to open it.
    StoreOpenError(String),
    /// The key-setup directive was rejected, the key held no content, or
    /// reads after it failed.
    UnlockFailed,
    /// The join query could not be prepared or executed.
    QueryError(String),
    /// One row's payload blob could not be decoded; carries the row's
    /// conversation id so the caller can report which row failed.
    PayloadDecodeError(String),
    /// A conversation's type tag was never populated.
    MissingConversationType,
    /// The output directory could not be created.
    DirectoryCreateError(String),
    /// One conversation's archive file could not be written.
    WriteError(String),
}

} // verus!
