//! Extracts message history from an encrypted local chat database and
//! re-exports it as one normalized JSON archive per conversation.
//!
//! The pipeline: resolve a hex key from a configuration artifact, unlock the
//! store with a key-setup directive, stream the joined row set, decode each
//! row's payload into a typed message record, group and sort the records
//! into per-conversation aggregates, and render each aggregate as JSON.

pub mod aggregate;
pub mod json;
pub mod keys;
pub mod output;
pub mod payload;
pub mod records;
pub mod store;
pub mod text;

pub use aggregate::extract_raw_messages_to_formatted_messages;
pub use keys::{build_key_pragma, extract_signal_key, key_from_config};
pub use store::{get_signal_data_from_sqlite, parse_e164, row_to_message, rows_to_messages, unlock_sqlite_database_with_pragma};
pub use json::{parse_json, render_json, Json};
pub use output::{attachment_from_json, attachment_to_json, conversation_from_output_json, conversation_to_json, message_from_output_json, message_to_json, output_filename, render_conversation, thumbnail_from_json, thumbnail_to_json};
pub use payload::{derive_display_name, derive_sender_label, extract_useful_fields_from_json, merge_row_fields, message_from_json};
pub use records::{
    Attachment, ConversationData, ConversationOutput, ExportError, FullMessage, Message, RawRow,
    Thumbnail,
};
