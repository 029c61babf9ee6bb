use export_signal_desktop::{
    build_key_pragma, extract_raw_messages_to_formatted_messages, extract_signal_key,
    extract_useful_fields_from_json, output_filename, parse_e164, render_conversation,
    unlock_sqlite_database_with_pragma, ConversationOutput, ExportError, FullMessage,
};

fn msg(conv: &str, ts: Option<i64>, label: Option<&str>, mtype: Option<&str>, id: &str) -> FullMessage {
    FullMessage {
        timestamp: ts,
        attachments: None,
        body: None,
        conversation_id: conv.to_string(),
        sent_at: None,
        received_at: None,
        received_at_ms: None,
        recipients: None,
        has_attachments: None,
        has_visual_media_attachments: None,
        destination: None,
        from: None,
        msg_type: mtype.map(|s| s.to_string()),
        e164: None,
        profile_name: None,
        message_name: label.map(|s| s.to_string()),
        id: id.to_string(),
    }
}

#[test]
fn key_pragma_strips_embedded_quotes() {
    let pragma = build_key_pragma("ab\"cd\"ef");
    assert_eq!(pragma, "PRAGMA key = \"x'abcdef'\";");
    let inner = &pragma["PRAGMA key = \"x'".len()..pragma.len() - "'\";".len()];
    assert!(!inner.contains('"'));
}

#[test]
fn key_pragma_plain_key() {
    assert_eq!(build_key_pragma("deadbeef"), "PRAGMA key = \"x'deadbeef'\";");
}

#[test]
fn two_rows_sorted_by_timestamp() {
    let rows = vec![
        msg("conv-1", Some(200), Some("Alice"), Some("private"), "m1"),
        msg("conv-1", Some(100), Some("me"), Some("private"), "m2"),
    ];
    let out = extract_raw_messages_to_formatted_messages(rows).unwrap();
    assert_eq!(out.len(), 1);
    let agg = &out[0];
    assert_eq!(agg.conversation_id, "conv-1");
    let stamps: Vec<Option<i64>> = agg.messages.iter().map(|m| m.timestamp).collect();
    assert_eq!(stamps, vec![Some(100), Some(200)]);
}

#[test]
fn null_sender_label_is_excluded() {
    let rows = vec![
        msg("conv-1", Some(150), Some("null"), Some("private"), "m1"),
        msg("conv-1", Some(300), Some("me"), Some("private"), "m2"),
    ];
    let out = extract_raw_messages_to_formatted_messages(rows).unwrap();
    assert_eq!(out.len(), 1);
    assert_eq!(out[0].messages.len(), 1);
    assert_eq!(out[0].messages[0].id, "m2");
}

#[test]
fn absent_timestamp_is_excluded() {
    let rows = vec![
        msg("conv-1", None, Some("me"), Some("private"), "m1"),
        msg("conv-1", Some(1), Some("me"), Some("private"), "m2"),
    ];
    let out = extract_raw_messages_to_formatted_messages(rows).unwrap();
    assert_eq!(out[0].messages.len(), 1);
    assert_eq!(out[0].messages[0].id, "m2");
}

#[test]
fn absent_sender_label_is_excluded() {
    let rows = vec![msg("conv-1", Some(5), None, Some("private"), "m1")];
    let out = extract_raw_messages_to_formatted_messages(rows).unwrap();
    assert_eq!(out.len(), 1);
    assert!(out[0].messages.is_empty());
}

#[test]
fn equal_timestamps_keep_input_order() {
    let mut rows = Vec::new();
    for (i, id) in ["a", "b", "c"].iter().enumerate() {
        let mut m = msg("conv-1", Some(7), Some("me"), Some("private"), id);
        m.body = Some(format!("body-{}", i));
        rows.push(m);
    }
    rows.push(msg("conv-1", Some(3), Some("me"), Some("private"), "d"));
    let out = extract_raw_messages_to_formatted_messages(rows).unwrap();
    let ids: Vec<&str> = out[0].messages.iter().map(|m| m.id.as_str()).collect();
    assert_eq!(ids, vec!["d", "a", "b", "c"]);
}

#[test]
fn missing_conversation_type_is_a_hard_error() {
    let rows = vec![msg("conv-1", Some(1), Some("me"), None, "m1")];
    let r = extract_raw_messages_to_formatted_messages(rows);
    assert!(matches!(r, Err(ExportError::MissingConversationType)));
}

#[test]
fn header_fields_frozen_from_first_record() {
    let mut first = msg("conv-1", None, Some("me"), Some("group"), "m1");
    first.profile_name = Some("Alice".to_string());
    first.e164 = Some(15551234567);
    let mut second = msg("conv-1", Some(9), Some("me"), Some("private"), "m2");
    second.profile_name = Some("Other".to_string());
    let out = extract_raw_messages_to_formatted_messages(vec![first, second]).unwrap();
    assert_eq!(out[0].conv_type, "group");
    assert_eq!(out[0].profile_name.as_deref(), Some("Alice"));
    assert_eq!(out[0].e164, Some(15551234567));
}

#[test]
fn empty_key_yields_unlock_failed() {
    let conn = rusqlite::Connection::open_in_memory().unwrap();
    let r = unlock_sqlite_database_with_pragma(&conn, "\"\"");
    assert!(matches!(r, Err(ExportError::UnlockFailed)));
    let r2 = unlock_sqlite_database_with_pragma(&conn, "");
    assert!(matches!(r2, Err(ExportError::UnlockFailed)));
}

#[test]
fn nonempty_key_unlocks_plain_store() {
    let conn = rusqlite::Connection::open_in_memory().unwrap();
    let r = unlock_sqlite_database_with_pragma(&conn, "\"deadbeef\"");
    assert!(r.is_ok());
}

#[test]
fn missing_store_is_store_not_found() {
    let r = export_signal_desktop::get_signal_data_from_sqlite(
        "no_such_directory/no_such_file.sqlite3",
        "deadbeef",
    );
    assert!(matches!(r, Err(ExportError::StoreNotFound)));
}

#[test]
fn filename_falls_back_to_conversation_id() {
    let agg = ConversationOutput {
        profile_name: None,
        conversation_id: "conv-42".to_string(),
        conv_type: "private".to_string(),
        e164: None,
        messages: Vec::new(),
    };
    assert_eq!(output_filename(&agg), "conv-42.json");
}

#[test]
fn filename_prefers_profile_name() {
    let agg = ConversationOutput {
        profile_name: Some("Alice".to_string()),
        conversation_id: "conv-42".to_string(),
        conv_type: "private".to_string(),
        e164: None,
        messages: Vec::new(),
    };
    assert_eq!(output_filename(&agg), "Alice.json");
}

#[test]
fn payload_decoding_reads_fields() {
    let row_id = "conv-9".to_string();
    let payload = "{\"timestamp\": 123, \"body\": \"hi there\", \"conversationId\": \"conv-9\", \
                   \"sent_at\": 5, \"hasAttachments\": 1, \"id\": \"msg-1\", \
                   \"attachments\": [{\"contentType\": \"image/png\", \"path\": \"a/b.png\", \
                   \"size\": 10, \"thumbnail\": {\"path\": \"t\", \"contentType\": \"image/png\", \
                   \"width\": 4, \"height\": 6}}]}";
    let m = extract_useful_fields_from_json(payload, &row_id).unwrap();
    assert_eq!(m.timestamp, Some(123));
    assert_eq!(m.body.as_deref(), Some("hi there"));
    assert_eq!(m.conversation_id, "conv-9");
    assert_eq!(m.sent_at, Some(5));
    assert_eq!(m.has_attachments, Some(1));
    assert_eq!(m.id, "msg-1");
    let atts = m.attachments.unwrap();
    assert_eq!(atts.len(), 1);
    assert_eq!(atts[0].content_type, "image/png");
    assert_eq!(atts[0].path, "a/b.png");
    assert_eq!(atts[0].size, Some(10));
    let th = atts[0].thumbnail.as_ref().unwrap();
    assert_eq!(th.width, 4);
    assert_eq!(th.height, 6);
}

#[test]
fn bad_payload_is_a_decode_error() {
    let row_id = "conv-9".to_string();
    let r = extract_useful_fields_from_json("{not json", &row_id);
    match r {
        Err(ExportError::PayloadDecodeError(c)) => assert_eq!(c, "conv-9"),
        _ => panic!("expected a decode error"),
    }
    let r2 = extract_useful_fields_from_json("{\"id\": \"x\"}", &row_id);
    assert!(matches!(r2, Err(ExportError::PayloadDecodeError(_))));
}

#[test]
fn e164_parsing() {
    assert_eq!(parse_e164("+15551234567"), Ok(15551234567));
    assert_eq!(parse_e164("42"), Ok(42));
    assert!(parse_e164("").is_err());
    assert!(parse_e164("+").is_err());
    assert!(parse_e164("12a4").is_err());
    assert!(parse_e164("99999999999999999999999").is_err());
}

#[test]
fn key_extraction_keeps_quoting() {
    let r = extract_signal_key("{\"key\": \"abc123\"}").unwrap();
    assert_eq!(r, "\"abc123\"");
}

#[test]
fn key_extraction_rejects_bad_config() {
    assert!(matches!(
        extract_signal_key("not json at all"),
        Err(ExportError::ConfigMalformed)
    ));
    assert!(matches!(
        extract_signal_key("{\"other\": 1}"),
        Err(ExportError::ConfigMalformed)
    ));
}

#[test]
fn key_extraction_renders_nonstring_keys() {
    assert_eq!(extract_signal_key("{\"key\": 17}").unwrap(), "17");
    assert_eq!(extract_signal_key("{\"key\": true}").unwrap(), "true");
}

#[test]
fn rendered_aggregate_round_trips() {
    let mut m = msg("conv-1", Some(100), Some("Alice"), Some("private"), "m1");
    m.body = Some("line one\nline \"two\"\\".to_string());
    m.e164 = Some(-3);
    m.recipients = Some(vec!["r1".to_string(), "r2".to_string()]);
    let agg = ConversationOutput {
        profile_name: Some("Alice".to_string()),
        conversation_id: "conv-1".to_string(),
        conv_type: "private".to_string(),
        e164: Some(15551234567),
        messages: vec![m],
    };
    let text = render_conversation(&agg);
    let v: serde_json::Value = serde_json::from_str(&text).unwrap();
    assert_eq!(v["profile_name"], serde_json::Value::String("Alice".to_string()));
    assert_eq!(v["conversation_id"], "conv-1");
    assert_eq!(v["conv_type"], "private");
    assert_eq!(v["e164"].as_i64(), Some(15551234567));
    let ms = v["messages"].as_array().unwrap();
    assert_eq!(ms.len(), 1);
    let m0 = &ms[0];
    assert_eq!(m0["timestamp"].as_i64(), Some(100));
    assert_eq!(m0["body"], "line one\nline \"two\"\\");
    assert_eq!(m0["type"], "private");
    assert_eq!(m0["message_name"], "Alice");
    assert_eq!(m0["e164"].as_i64(), Some(-3));
    assert_eq!(m0["id"], "m1");
    let recips = m0["recipients"].as_array().unwrap();
    assert_eq!(recips.len(), 2);
    // absent optional fields are omitted, not null placeholders
    assert!(m0.get("sent_at").is_none());
    assert!(m0.get("attachments").is_none());
    assert!(m0.get("destination").is_none());
}

#[test]
fn absent_profile_name_is_omitted_in_output() {
    let agg = ConversationOutput {
        profile_name: None,
        conversation_id: "conv-42".to_string(),
        conv_type: "private".to_string(),
        e164: None,
        messages: Vec::new(),
    };
    let text = render_conversation(&agg);
    let v: serde_json::Value = serde_json::from_str(&text).unwrap();
    assert!(v.get("profile_name").is_none());
    assert!(v.get("e164").is_none());
    assert_eq!(v["messages"].as_array().unwrap().len(), 0);
}

#[test]
fn thumbnail_output_round_trip() {
    let t = export_signal_desktop::Thumbnail {
        path: "ab/cd.png".to_string(),
        content_type: "image/png".to_string(),
        width: 9,
        height: 12,
    };
    let j = export_signal_desktop::thumbnail_to_json(&t);
    let back = export_signal_desktop::thumbnail_from_json(&j).unwrap();
    assert_eq!(back.path, "ab/cd.png");
    assert_eq!(back.content_type, "image/png");
    assert_eq!(back.width, 9);
    assert_eq!(back.height, 12);
}

#[test]
fn attachment_output_round_trip() {
    let a = export_signal_desktop::Attachment {
        content_type: "image/jpeg".to_string(),
        path: "x/y.jpg".to_string(),
        size: Some(2048),
        width: None,
        height: Some(30),
        thumbnail: Some(export_signal_desktop::Thumbnail {
            path: "t/u.jpg".to_string(),
            content_type: "image/jpeg".to_string(),
            width: 3,
            height: 4,
        }),
    };
    let j = export_signal_desktop::attachment_to_json(&a);
    let back = export_signal_desktop::attachment_from_json(&j).unwrap();
    assert_eq!(back.content_type, "image/jpeg");
    assert_eq!(back.path, "x/y.jpg");
    assert_eq!(back.size, Some(2048));
    assert_eq!(back.width, None);
    assert_eq!(back.height, Some(30));
    let t = back.thumbnail.unwrap();
    assert_eq!(t.path, "t/u.jpg");
    assert_eq!(t.width, 3);
    assert_eq!(t.height, 4);
}

#[test]
fn sender_label_derivation() {
    let incoming = Some("incoming".to_string());
    let outgoing = Some("outgoing".to_string());
    let full = Some("Alice Smith".to_string());
    assert_eq!(
        export_signal_desktop::derive_sender_label(&incoming, &full),
        "Alice Smith"
    );
    assert_eq!(export_signal_desktop::derive_sender_label(&incoming, &None), "system");
    assert_eq!(export_signal_desktop::derive_sender_label(&outgoing, &full), "me");
    assert_eq!(export_signal_desktop::derive_sender_label(&None, &full), "me");
}

#[test]
fn display_name_falls_back_to_id() {
    let id = "conv-1".to_string();
    assert_eq!(
        export_signal_desktop::derive_display_name(&Some("Alice".to_string()), &id),
        "Alice"
    );
    assert_eq!(export_signal_desktop::derive_display_name(&None, &id), "conv-1");
}

#[test]
fn e164_leading_zeros_stay_in_range() {
    assert_eq!(parse_e164("00000000000000000000001"), Ok(1));
    assert_eq!(parse_e164("+0015551234567"), Ok(15551234567));
    assert_eq!(parse_e164("0"), Ok(0));
    assert!(parse_e164("9223372036854775808").is_err());
    assert_eq!(parse_e164("9223372036854775807"), Ok(i64::MAX));
}

#[test]
fn surrogate_pair_escapes_decode() {
    let row_id = "conv-s".to_string();
    let payload = "{\"conversationId\": \"conv-s\", \"id\": \"m\", \"body\": \"\\uD83D\\uDE00!\"}";
    let m = extract_useful_fields_from_json(payload, &row_id).unwrap();
    assert_eq!(m.body.as_deref(), Some("\u{1F600}!"));
}

#[test]
fn control_characters_render_as_escapes() {
    let mut m = msg("conv-1", Some(1), Some("me"), Some("private"), "m1");
    m.body = Some("a\u{1}b\u{8}c".to_string());
    let agg = ConversationOutput {
        profile_name: None,
        conversation_id: "conv-1".to_string(),
        conv_type: "private".to_string(),
        e164: None,
        messages: vec![m],
    };
    let text = render_conversation(&agg);
    let v: serde_json::Value = serde_json::from_str(&text).unwrap();
    assert_eq!(v["messages"][0]["body"], "a\u{1}b\u{8}c");
}

#[test]
fn aggregate_round_trips_through_own_parser() {
    let mut m = msg("conv-1", Some(100), Some("Alice"), Some("private"), "m1");
    m.body = Some("hi \"there\"\n\\slash".to_string());
    m.sent_at = Some(-7);
    m.recipients = Some(vec!["r1".to_string(), "r2".to_string()]);
    m.has_attachments = Some(1);
    m.attachments = Some(vec![export_signal_desktop::Attachment {
        content_type: "image/png".to_string(),
        path: "a/b.png".to_string(),
        size: Some(10),
        width: None,
        height: Some(4),
        thumbnail: Some(export_signal_desktop::Thumbnail {
            path: "t".to_string(),
            content_type: "image/png".to_string(),
            width: 2,
            height: 3,
        }),
    }]);
    let agg = ConversationOutput {
        profile_name: Some("Alice".to_string()),
        conversation_id: "conv-1".to_string(),
        conv_type: "private".to_string(),
        e164: Some(15551234567),
        messages: vec![m],
    };
    let text = render_conversation(&agg);
    let parsed = export_signal_desktop::parse_json(&text).unwrap();
    let back = export_signal_desktop::conversation_from_output_json(&parsed).unwrap();
    assert_eq!(back.profile_name.as_deref(), Some("Alice"));
    assert_eq!(back.conversation_id, "conv-1");
    assert_eq!(back.conv_type, "private");
    assert_eq!(back.e164, Some(15551234567));
    assert_eq!(back.messages.len(), 1);
    let bm = &back.messages[0];
    assert_eq!(bm.timestamp, Some(100));
    assert_eq!(bm.body.as_deref(), Some("hi \"there\"\n\\slash"));
    assert_eq!(bm.sent_at, Some(-7));
    assert_eq!(bm.received_at, None);
    assert_eq!(bm.recipients.as_deref(), Some(&["r1".to_string(), "r2".to_string()][..]));
    assert_eq!(bm.has_attachments, Some(1));
    assert_eq!(bm.message_name.as_deref(), Some("Alice"));
    assert_eq!(bm.id, "m1");
    let atts = bm.attachments.as_ref().unwrap();
    assert_eq!(atts.len(), 1);
    assert_eq!(atts[0].path, "a/b.png");
    assert_eq!(atts[0].size, Some(10));
    assert_eq!(atts[0].width, None);
    let th = atts[0].thumbnail.as_ref().unwrap();
    assert_eq!(th.path, "t");
    assert_eq!(th.width, 2);
    assert_eq!(th.height, 3);
}

#[test]
fn payload_integer_bounds() {
    let row_id = "c".to_string();
    let p_max = "{\"conversationId\": \"c\", \"id\": \"m\", \"timestamp\": 9223372036854775807}";
    let m = extract_useful_fields_from_json(p_max, &row_id).unwrap();
    assert_eq!(m.timestamp, Some(i64::MAX));
    let p_min = "{\"conversationId\": \"c\", \"id\": \"m\", \"timestamp\": -9223372036854775808}";
    let m2 = extract_useful_fields_from_json(p_min, &row_id).unwrap();
    assert_eq!(m2.timestamp, Some(i64::MIN));
    let p_over = "{\"conversationId\": \"c\", \"id\": \"m\", \"timestamp\": 9223372036854775808}";
    assert!(extract_useful_fields_from_json(p_over, &row_id).is_err());
    let p_zeros = "{\"conversationId\": \"c\", \"id\": \"m\", \"timestamp\": 007}";
    let m3 = extract_useful_fields_from_json(p_zeros, &row_id).unwrap();
    assert_eq!(m3.timestamp, Some(7));
}
