//! The payload parser: decodes one row's semi-structured payload blob into a
//! typed message record, and merges in the four row-derived fields that the
//! payload itself cannot be trusted for.

use vstd::prelude::*;
use crate::json::{digit_of, digits_value, obj_get, parse_json, spec_parse_doc, view_obj, Json, JsonV};
use crate::records::{Attachment, ExportError, FullMessage, Thumbnail};
use crate::text::{chars_of, string_of, str_eq};

verus! {

broadcast use vstd::std_specs::vec::group_vec_axioms, vstd::seq::group_seq_axioms;

/// An optional integer field: `None` on a type error, `Some(None)` when the
/// field is absent or null.
pub open spec fn field_opt_i64(o: Seq<(Seq<char>, JsonV)>, key: Seq<char>) -> Option<
    Option<i64>,
> {
    match obj_get(o, key) {
        Option::None => Option::Some(Option::None),
        Option::Some(JsonV::Null) => Option::Some(Option::None),
        Option::Some(JsonV::Int(i)) => Option::Some(Option::Some(i)),
        Option::Some(_) => Option::None,
    }
}

/// An optional small-integer field, range-checked.
pub open spec fn field_opt_i32(o: Seq<(Seq<char>, JsonV)>, key: Seq<char>) -> Option<
    Option<i32>,
> {
    match obj_get(o, key) {
        Option::None => Option::Some(Option::None),
        Option::Some(JsonV::Null) => Option::Some(Option::None),
        Option::Some(JsonV::Int(i)) => if i32::MIN <= i <= i32::MAX {
            Option::Some(Option::Some(i as i32))
        } else {
            Option::None
        },
        Option::Some(_) => Option::None,
    }
}

/// An optional string field.
pub open spec fn field_opt_str(o: Seq<(Seq<char>, JsonV)>, key: Seq<char>) -> Option<
    Option<Seq<char>>,
> {
    match obj_get(o, key) {
        Option::None => Option::Some(Option::None),
        Option::Some(JsonV::Null) => Option::Some(Option::None),
        Option::Some(JsonV::Str(s)) => Option::Some(Option::Some(s)),
        Option::Some(_) => Option::None,
    }
}

/// A required string field: `None` when absent, null or not a string.
pub open spec fn field_req_str(o: Seq<(Seq<char>, JsonV)>, key: Seq<char>) -> Option<Seq<char>> {
    match obj_get(o, key) {
        Option::Some(JsonV::Str(s)) => Option::Some(s),
        _ => Option::None,
    }
}

/// Whether an optional `String` carries exactly the given optional text.
pub open spec fn opt_str_is(f: Option<String>, v: Option<Seq<char>>) -> bool {
    match (f, v) {
        (Option::None, Option::None) => true,
        (Option::Some(s), Option::Some(t)) => s@ == t,
        _ => false,
    }
}

fn get_opt_i64(o: &Vec<(Vec<char>, Json)>, key: &str) -> (r: Result<Option<i64>, ()>)
    ensures
        field_opt_i64(view_obj(o@), key@) == match r {
            Result::Ok(v) => Option::Some(v),
            Result::Err(_) => Option::None::<Option<i64>>,
        },
{
    match crate::json::obj_find(o, key) {
        Option::None => Result::Ok(Option::None),
        Option::Some(j) => match j {
            Json::Null => Result::Ok(Option::None),
            Json::Int(i) => Result::Ok(Option::Some(*i)),
            _ => Result::Err(()),
        },
    }
}

fn get_opt_i32(o: &Vec<(Vec<char>, Json)>, key: &str) -> (r: Result<Option<i32>, ()>)
    ensures
        field_opt_i32(view_obj(o@), key@) == match r {
            Result::Ok(v) => Option::Some(v),
            Result::Err(_) => Option::None::<Option<i32>>,
        },
{
    match crate::json::obj_find(o, key) {
        Option::None => Result::Ok(Option::None),
        Option::Some(j) => match j {
            Json::Null => Result::Ok(Option::None),
            Json::Int(i) => {
                if i32::MIN as i64 <= *i && *i <= i32::MAX as i64 {
                    Result::Ok(Option::Some(*i as i32))
                } else {
                    Result::Err(())
                }
            },
            _ => Result::Err(()),
        },
    }
}

fn get_opt_str(o: &Vec<(Vec<char>, Json)>, key: &str) -> (r: Result<Option<String>, ()>)
    ensures
        match r {
            Result::Ok(v) => field_opt_str(view_obj(o@), key@) matches Option::Some(w)
                && opt_str_is(v, w),
            Result::Err(_) => field_opt_str(view_obj(o@), key@) is None,
        },
{
    match crate::json::obj_find(o, key) {
        Option::None => Result::Ok(Option::None),
        Option::Some(j) => match j {
            Json::Null => Result::Ok(Option::None),
            Json::Str(s) => Result::Ok(Option::Some(string_of(s))),
            _ => Result::Err(()),
        },
    }
}

fn get_req_str(o: &Vec<(Vec<char>, Json)>, key: &str) -> (r: Result<String, ()>)
    ensures
        match r {
            Result::Ok(v) => field_req_str(view_obj(o@), key@) == Option::Some(v@),
            Result::Err(_) => field_req_str(view_obj(o@), key@) is None,
        },
{
    match crate::json::obj_find(o, key) {
        Option::None => Result::Err(()),
        Option::Some(j) => match j {
            Json::Str(s) => Result::Ok(string_of(s)),
            _ => Result::Err(()),
        },
    }
}

/// Whether one JSON value is a well-shaped thumbnail: all four fields
/// present with the right types.
pub open spec fn thumb_ok(v: JsonV) -> bool {
    match v {
        JsonV::Obj(o) => {
            &&& field_req_str(o, "path"@) is Some
            &&& field_req_str(o, "contentType"@) is Some
            &&& field_opt_i32(o, "width"@) matches Option::Some(Option::Some(_))
            &&& field_opt_i32(o, "height"@) matches Option::Some(Option::Some(_))
        },
        _ => false,
    }
}

/// Whether a decoded thumbnail carries exactly what its JSON shape holds.
pub open spec fn thumb_matches(v: JsonV, t: Thumbnail) -> bool {
    match v {
        JsonV::Obj(o) => {
            &&& field_req_str(o, "path"@) == Option::Some(t.path@)
            &&& field_req_str(o, "contentType"@) == Option::Some(t.content_type@)
            &&& field_opt_i32(o, "width"@) == Option::Some(Option::Some(t.width))
            &&& field_opt_i32(o, "height"@) == Option::Some(Option::Some(t.height))
        },
        _ => false,
    }
}

/// Whether one JSON value is a well-shaped attachment.
pub open spec fn att_ok(v: JsonV) -> bool {
    match v {
        JsonV::Obj(o) => {
            &&& field_req_str(o, "contentType"@) is Some
            &&& field_req_str(o, "path"@) is Some
            &&& field_opt_i32(o, "size"@) is Some
            &&& field_opt_i32(o, "width"@) is Some
            &&& field_opt_i32(o, "height"@) is Some
            &&& match obj_get(o, "thumbnail"@) {
                Option::None => true,
                Option::Some(JsonV::Null) => true,
                Option::Some(t) => thumb_ok(t),
            }
        },
        _ => false,
    }
}

/// Whether a decoded attachment carries exactly what its JSON shape holds.
pub open spec fn att_matches(v: JsonV, a: Attachment) -> bool {
    match v {
        JsonV::Obj(o) => {
            &&& field_req_str(o, "contentType"@) == Option::Some(a.content_type@)
            &&& field_req_str(o, "path"@) == Option::Some(a.path@)
            &&& field_opt_i32(o, "size"@) == Option::Some(a.size)
            &&& field_opt_i32(o, "width"@) == Option::Some(a.width)
            &&& field_opt_i32(o, "height"@) == Option::Some(a.height)
            &&& match obj_get(o, "thumbnail"@) {
                Option::None => a.thumbnail is None,
                Option::Some(JsonV::Null) => a.thumbnail is None,
                Option::Some(t) => a.thumbnail matches Option::Some(th) && thumb_matches(t, th),
            }
        },
        _ => false,
    }
}

fn parse_thumbnail(j: &Json) -> (r: Result<Thumbnail, ()>)
    ensures
        match r {
            Result::Ok(t) => thumb_matches(j@, t),
            Result::Err(_) => !thumb_ok(j@),
        },
{
    match j {
        Json::Obj(o) => {
            let path = match get_req_str(o, "path") {
                Result::Ok(v) => v,
                Result::Err(_) => return Result::Err(()),
            };
            let content_type = match get_req_str(o, "contentType") {
                Result::Ok(v) => v,
                Result::Err(_) => return Result::Err(()),
            };
            let width = match get_opt_i32(o, "width") {
                Result::Ok(Option::Some(v)) => v,
                _ => return Result::Err(()),
            };
            let height = match get_opt_i32(o, "height") {
                Result::Ok(Option::Some(v)) => v,
                _ => return Result::Err(()),
            };
            Result::Ok(Thumbnail { path, content_type, width, height })
        },
        _ => Result::Err(()),
    }
}

fn parse_attachment(j: &Json) -> (r: Result<Attachment, ()>)
    ensures
        match r {
            Result::Ok(a) => att_matches(j@, a),
            Result::Err(_) => !att_ok(j@),
        },
{
    match j {
        Json::Obj(o) => {
            let content_type = match get_req_str(o, "contentType") {
                Result::Ok(v) => v,
                Result::Err(_) => return Result::Err(()),
            };
            let path = match get_req_str(o, "path") {
                Result::Ok(v) => v,
                Result::Err(_) => return Result::Err(()),
            };
            let size = match get_opt_i32(o, "size") {
                Result::Ok(v) => v,
                Result::Err(_) => return Result::Err(()),
            };
            let width = match get_opt_i32(o, "width") {
                Result::Ok(v) => v,
                Result::Err(_) => return Result::Err(()),
            };
            let height = match get_opt_i32(o, "height") {
                Result::Ok(v) => v,
                Result::Err(_) => return Result::Err(()),
            };
            let thumbnail = match crate::json::obj_find(o, "thumbnail") {
                Option::None => Option::None,
                Option::Some(t) => match t {
                    Json::Null => Option::None,
                    _ => match parse_thumbnail(t) {
                        Result::Ok(th) => Option::Some(th),
                        Result::Err(_) => return Result::Err(()),
                    },
                },
            };
            Result::Ok(Attachment { content_type, path, size, width, height, thumbnail })
        },
        _ => Result::Err(()),
    }
}

/// The attachment-list field: absent or null is fine; present, it must be an
/// array of well-shaped attachments.
pub open spec fn atts_field_ok(o: Seq<(Seq<char>, JsonV)>) -> bool {
    match obj_get(o, "attachments"@) {
        Option::None => true,
        Option::Some(JsonV::Null) => true,
        Option::Some(JsonV::Arr(a)) => arr_atts_ok(a),
        Option::Some(_) => false,
    }
}

/// Every element of the array is a well-shaped attachment.
pub open spec fn arr_atts_ok(a: Seq<JsonV>) -> bool {
    forall|k: int| 0 <= k < a.len() ==> att_ok(#[trigger] a[k])
}

/// Whether the decoded attachment list carries exactly the field's shapes.
pub open spec fn atts_match(o: Seq<(Seq<char>, JsonV)>, f: Option<Vec<Attachment>>) -> bool {
    match obj_get(o, "attachments"@) {
        Option::None => f is None,
        Option::Some(JsonV::Null) => f is None,
        Option::Some(JsonV::Arr(a)) => f matches Option::Some(v) && arr_atts_matches(a, v@),
        Option::Some(_) => false,
    }
}

/// The decoded attachments carry the array's shapes, element for element.
pub open spec fn arr_atts_matches(a: Seq<JsonV>, v: Seq<Attachment>) -> bool {
    v.len() == a.len() && forall|k: int| 0 <= k < a.len() ==> att_matches(#[trigger] a[k], v[k])
}

fn get_attachments(o: &Vec<(Vec<char>, Json)>) -> (r: Result<Option<Vec<Attachment>>, ()>)
    ensures
        match r {
            Result::Ok(f) => atts_match(view_obj(o@), f),
            Result::Err(_) => !atts_field_ok(view_obj(o@)),
        },
{
    match crate::json::obj_find(o, "attachments") {
        Option::None => Result::Ok(Option::None),
        Option::Some(j) => match j {
            Json::Null => Result::Ok(Option::None),
            Json::Arr(a) => {
                proof {
                    crate::json::lemma_view_arr_index(a@);
                    assert(j@ == JsonV::Arr(crate::json::view_arr(a@)));
                }
                let ghost av = crate::json::view_arr(a@);
                let mut out: Vec<Attachment> = Vec::new();
                let mut i: usize = 0;
                while i < a.len()
                    invariant
                        i <= a.len(),
                        av == crate::json::view_arr(a@),
                        av.len() == a@.len(),
                        obj_get(view_obj(o@), "attachments"@) == Option::Some(JsonV::Arr(av)),
                        forall|k: int| 0 <= k < a@.len() ==> #[trigger] av[k] == a@[k]@,
                        out@.len() == i,
                        forall|k: int| 0 <= k < i ==> att_matches(av[k], #[trigger] out@[k]),
                    decreases a.len() - i,
                {
                    match parse_attachment(&a[i]) {
                        Result::Ok(att) => out.push(att),
                        Result::Err(_) => {
                            proof {
                                assert(av[i as int] == a@[i as int]@);
                                assert(!att_ok(av[i as int]));
                                assert(!arr_atts_ok(av)) by {
                                    if arr_atts_ok(av) {
                                        assert(att_ok(av[i as int]));
                                    }
                                }
                                assert(!atts_field_ok(view_obj(o@)));
                            }
                            return Result::Err(());
                        },
                    }
                    i = i + 1;
                }
                Result::Ok(Option::Some(out))
            },
            _ => Result::Err(()),
        },
    }
}

/// The recipients field: absent or null is fine; present, it must be an
/// array of strings.
pub open spec fn recips_field_ok(o: Seq<(Seq<char>, JsonV)>) -> bool {
    match obj_get(o, "recipients"@) {
        Option::None => true,
        Option::Some(JsonV::Null) => true,
        Option::Some(JsonV::Arr(a)) => arr_strs_ok(a),
        Option::Some(_) => false,
    }
}

/// Every element of the array is a string.
pub open spec fn arr_strs_ok(a: Seq<JsonV>) -> bool {
    forall|k: int| 0 <= k < a.len() ==> (#[trigger] a[k]) is Str
}

/// Whether the decoded recipient list carries exactly the field's strings.
pub open spec fn recips_match(o: Seq<(Seq<char>, JsonV)>, f: Option<Vec<String>>) -> bool {
    match obj_get(o, "recipients"@) {
        Option::None => f is None,
        Option::Some(JsonV::Null) => f is None,
        Option::Some(JsonV::Arr(a)) => f matches Option::Some(v) && arr_strs_match(a, v@),
        Option::Some(_) => false,
    }
}

/// The decoded strings carry the array's texts, element for element.
pub open spec fn arr_strs_match(a: Seq<JsonV>, v: Seq<String>) -> bool {
    v.len() == a.len() && forall|k: int| 0 <= k < a.len() ==> #[trigger] a[k] == JsonV::Str(v[k]@)
}

fn get_recipients(o: &Vec<(Vec<char>, Json)>) -> (r: Result<Option<Vec<String>>, ()>)
    ensures
        match r {
            Result::Ok(f) => recips_match(view_obj(o@), f),
            Result::Err(_) => !recips_field_ok(view_obj(o@)),
        },
{
    match crate::json::obj_find(o, "recipients") {
        Option::None => Result::Ok(Option::None),
        Option::Some(j) => match j {
            Json::Null => Result::Ok(Option::None),
            Json::Arr(a) => {
                proof {
                    crate::json::lemma_view_arr_index(a@);
                    assert(j@ == JsonV::Arr(crate::json::view_arr(a@)));
                }
                let ghost av = crate::json::view_arr(a@);
                let mut out: Vec<String> = Vec::new();
                let mut i: usize = 0;
                while i < a.len()
                    invariant
                        i <= a.len(),
                        av == crate::json::view_arr(a@),
                        av.len() == a@.len(),
                        obj_get(view_obj(o@), "recipients"@) == Option::Some(JsonV::Arr(av)),
                        forall|k: int| 0 <= k < a@.len() ==> #[trigger] av[k] == a@[k]@,
                        out@.len() == i,
                        forall|k: int| 0 <= k < i ==> av[k] == JsonV::Str(#[trigger] out@[k]@),
                    decreases a.len() - i,
                {
                    match &a[i] {
                        Json::Str(s) => out.push(string_of(s)),
                        _ => {
                            proof {
                                assert(av[i as int] == a@[i as int]@);
                                assert(!(av[i as int] is Str));
                                assert(!arr_strs_ok(av)) by {
                                    if arr_strs_ok(av) {
                                        assert(av[i as int] is Str);
                                    }
                                }
                                assert(!recips_field_ok(view_obj(o@)));
                            }
                            return Result::Err(());
                        },
                    }
                    i = i + 1;
                }
                Result::Ok(Option::Some(out))
            },
            _ => Result::Err(()),
        },
    }
}

/// Whether one JSON value is a well-shaped message payload: an object whose
/// required string fields (`conversationId`, `id`) are present and whose
/// known fields all carry the right types.
pub open spec fn msg_shape_ok(v: JsonV) -> bool {
    match v {
        JsonV::Obj(o) => {
            &&& field_opt_i64(o, "timestamp"@) is Some
            &&& atts_field_ok(o)
            &&& field_opt_str(o, "body"@) is Some
            &&& field_req_str(o, "conversationId"@) is Some
            &&& field_opt_i64(o, "sent_at"@) is Some
            &&& field_opt_i64(o, "received_at"@) is Some
            &&& field_opt_i64(o, "received_at_ms"@) is Some
            &&& recips_field_ok(o)
            &&& field_opt_i32(o, "hasAttachments"@) is Some
            &&& field_opt_i32(o, "hasVisualMediaAttachments"@) is Some
            &&& field_opt_str(o, "destination"@) is Some
            &&& field_opt_str(o, "from"@) is Some
            &&& field_opt_str(o, "type"@) is Some
            &&& field_opt_i64(o, "e164"@) is Some
            &&& field_opt_str(o, "profileName"@) is Some
            &&& field_opt_str(o, "messageName"@) is Some
            &&& field_req_str(o, "id"@) is Some
        },
        _ => false,
    }
}

/// Whether a decoded message record carries exactly what the payload's
/// fields hold.
pub open spec fn msg_matches(v: JsonV, m: FullMessage) -> bool {
    match v {
        JsonV::Obj(o) => {
            &&& field_opt_i64(o, "timestamp"@) == Option::Some(m.timestamp)
            &&& atts_match(o, m.attachments)
            &&& field_opt_str(o, "body"@) matches Option::Some(w) && opt_str_is(m.body, w)
            &&& field_req_str(o, "conversationId"@) == Option::Some(m.conversation_id@)
            &&& field_opt_i64(o, "sent_at"@) == Option::Some(m.sent_at)
            &&& field_opt_i64(o, "received_at"@) == Option::Some(m.received_at)
            &&& field_opt_i64(o, "received_at_ms"@) == Option::Some(m.received_at_ms)
            &&& recips_match(o, m.recipients)
            &&& field_opt_i32(o, "hasAttachments"@) == Option::Some(m.has_attachments)
            &&& field_opt_i32(o, "hasVisualMediaAttachments"@) == Option::Some(
                m.has_visual_media_attachments,
            )
            &&& field_opt_str(o, "destination"@) matches Option::Some(w) && opt_str_is(
                m.destination,
                w,
            )
            &&& field_opt_str(o, "from"@) matches Option::Some(w) && opt_str_is(m.from, w)
            &&& field_opt_str(o, "type"@) matches Option::Some(w) && opt_str_is(m.msg_type, w)
            &&& field_opt_i64(o, "e164"@) == Option::Some(m.e164)
            &&& field_opt_str(o, "profileName"@) matches Option::Some(w) && opt_str_is(
                m.profile_name,
                w,
            )
            &&& field_opt_str(o, "messageName"@) matches Option::Some(w) && opt_str_is(
                m.message_name,
                w,
            )
            &&& field_req_str(o, "id"@) == Option::Some(m.id@)
        },
        _ => false,
    }
}

/// Decodes one parsed payload value into a message record: exactly the
/// fields the payload holds, an error exactly when the payload is not a
/// well-shaped message object.
pub fn message_from_json(j: &Json, row_id: &String) -> (r: Result<FullMessage, ExportError>)
    ensures
        match r {
            Result::Ok(m) => msg_matches(j@, m) && msg_shape_ok(j@),
            Result::Err(e) => e matches ExportError::PayloadDecodeError(c) && c@ == row_id@
                && !msg_shape_ok(j@),
        },
{
    match j {
        Json::Obj(o) => {
            let timestamp = match get_opt_i64(o, "timestamp") {
                Result::Ok(v) => v,
                Result::Err(_) => return Result::Err(ExportError::PayloadDecodeError(
                    row_id.clone(),
                )),
            };
            let attachments = match get_attachments(o) {
                Result::Ok(v) => v,
                Result::Err(_) => return Result::Err(ExportError::PayloadDecodeError(
                    row_id.clone(),
                )),
            };
            let body = match get_opt_str(o, "body") {
                Result::Ok(v) => v,
                Result::Err(_) => return Result::Err(ExportError::PayloadDecodeError(
                    row_id.clone(),
                )),
            };
            let conversation_id = match get_req_str(o, "conversationId") {
                Result::Ok(v) => v,
                Result::Err(_) => return Result::Err(ExportError::PayloadDecodeError(
                    row_id.clone(),
                )),
            };
            let sent_at = match get_opt_i64(o, "sent_at") {
                Result::Ok(v) => v,
                Result::Err(_) => return Result::Err(ExportError::PayloadDecodeError(
                    row_id.clone(),
                )),
            };
            let received_at = match get_opt_i64(o, "received_at") {
                Result::Ok(v) => v,
                Result::Err(_) => return Result::Err(ExportError::PayloadDecodeError(
                    row_id.clone(),
                )),
            };
            let received_at_ms = match get_opt_i64(o, "received_at_ms") {
                Result::Ok(v) => v,
                Result::Err(_) => return Result::Err(ExportError::PayloadDecodeError(
                    row_id.clone(),
                )),
            };
            let recipients = match get_recipients(o) {
                Result::Ok(v) => v,
                Result::Err(_) => return Result::Err(ExportError::PayloadDecodeError(
                    row_id.clone(),
                )),
            };
            let has_attachments = match get_opt_i32(o, "hasAttachments") {
                Result::Ok(v) => v,
                Result::Err(_) => return Result::Err(ExportError::PayloadDecodeError(
                    row_id.clone(),
                )),
            };
            let has_visual_media_attachments = match get_opt_i32(o, "hasVisualMediaAttachments") {
                Result::Ok(v) => v,
                Result::Err(_) => return Result::Err(ExportError::PayloadDecodeError(
                    row_id.clone(),
                )),
            };
            let destination = match get_opt_str(o, "destination") {
                Result::Ok(v) => v,
                Result::Err(_) => return Result::Err(ExportError::PayloadDecodeError(
                    row_id.clone(),
                )),
            };
            let from = match get_opt_str(o, "from") {
                Result::Ok(v) => v,
                Result::Err(_) => return Result::Err(ExportError::PayloadDecodeError(
                    row_id.clone(),
                )),
            };
            let msg_type = match get_opt_str(o, "type") {
                Result::Ok(v) => v,
                Result::Err(_) => return Result::Err(ExportError::PayloadDecodeError(
                    row_id.clone(),
                )),
            };
            let e164 = match get_opt_i64(o, "e164") {
                Result::Ok(v) => v,
                Result::Err(_) => return Result::Err(ExportError::PayloadDecodeError(
                    row_id.clone(),
                )),
            };
            let profile_name = match get_opt_str(o, "profileName") {
                Result::Ok(v) => v,
                Result::Err(_) => return Result::Err(ExportError::PayloadDecodeError(
                    row_id.clone(),
                )),
            };
            let message_name = match get_opt_str(o, "messageName") {
                Result::Ok(v) => v,
                Result::Err(_) => return Result::Err(ExportError::PayloadDecodeError(
                    row_id.clone(),
                )),
            };
            let id = match get_req_str(o, "id") {
                Result::Ok(v) => v,
                Result::Err(_) => return Result::Err(ExportError::PayloadDecodeError(
                    row_id.clone(),
                )),
            };
            Result::Ok(FullMessage {
                timestamp,
                attachments,
                body,
                conversation_id,
                sent_at,
                received_at,
                received_at_ms,
                recipients,
                has_attachments,
                has_visual_media_attachments,
                destination,
                from,
                msg_type,
                e164,
                profile_name,
                message_name,
                id,
            })
        },
        _ => Result::Err(ExportError::PayloadDecodeError(row_id.clone())),
    }
}

/// Overwrites a decoded record's type, numeric identifier, display-name and
/// sender-label fields with the row-derived values: the payload's own copies
/// of them are stale or absent and must not be trusted.
pub fn merge_row_fields(
    m: FullMessage,
    conv_type: Option<String>,
    e164: Option<i64>,
    profile_name: Option<String>,
    message_name: String,
) -> (r: FullMessage)
    ensures
        r.timestamp == m.timestamp,
        r.attachments == m.attachments,
        r.body == m.body,
        r.conversation_id == m.conversation_id,
        r.sent_at == m.sent_at,
        r.received_at == m.received_at,
        r.received_at_ms == m.received_at_ms,
        r.recipients == m.recipients,
        r.has_attachments == m.has_attachments,
        r.has_visual_media_attachments == m.has_visual_media_attachments,
        r.destination == m.destination,
        r.from == m.from,
        r.msg_type == conv_type,
        r.e164 == e164,
        r.profile_name == profile_name,
        r.message_name == Option::Some(message_name),
        r.id == m.id,
{
    let mut r = m;
    r.msg_type = conv_type;
    r.e164 = e164;
    r.profile_name = profile_name;
    r.message_name = Option::Some(message_name);
    r
}

/// The computed display name: the conversation's profile name if present,
/// else the conversation id itself.
pub fn derive_display_name(profile_name: &Option<String>, conversation_id: &String) -> (r: String)
    ensures
        r@ == match profile_name {
            Option::Some(p) => p@,
            Option::None => conversation_id@,
        },
{
    match profile_name {
        Option::Some(p) => p.clone(),
        Option::None => conversation_id.clone(),
    }
}

/// The computed sender label for a message's direction and profile data.
pub open spec fn sender_label_spec(msg_type: Option<Seq<char>>, full_name: Option<Seq<char>>)
    -> Seq<char> {
    if msg_type == Option::Some("incoming"@) {
        match full_name {
            Option::Some(n) => n,
            Option::None => "system"@,
        }
    } else {
        "me"@
    }
}

/// Computes the sender label: an incoming message is labelled with the
/// conversation's full profile name, anything else with `me`, and an
/// incoming message without a profile name with `system`.
pub fn derive_sender_label(msg_type: &Option<String>, full_name: &Option<String>) -> (r: String)
    ensures
        r@ == sender_label_spec(
            match msg_type {
                Option::Some(t) => Option::Some(t@),
                Option::None => Option::None,
            },
            match full_name {
                Option::Some(n) => Option::Some(n@),
                Option::None => Option::None,
            },
        ),
{
    let incoming = match msg_type {
        Option::Some(t) => str_eq(t.as_str(), "incoming"),
        Option::None => false,
    };
    if incoming {
        match full_name {
            Option::Some(n) => n.clone(),
            Option::None => {
                let v = chars_of("system");
                string_of(&v)
            },
        }
    } else {
        let v = chars_of("me");
        string_of(&v)
    }
}

/// A phone-style identifier's numeric reading: an optional leading `+` is
/// dropped, the rest must be decimal digits.
pub open spec fn e164_value(s: Seq<char>) -> Option<int> {
    if s.len() > 0 && s[0] == '+' {
        digits_value(s.subrange(1, s.len() as int))
    } else {
        digits_value(s)
    }
}

/// Whether the payload text reads as a well-shaped message object.
pub open spec fn payload_wellformed(s: Seq<char>) -> bool {
    spec_parse_doc(s) matches Option::Some(v) && msg_shape_ok(v)
}

/// The payload-decoded fields of a merged record: everything `msg_matches`
/// fixes except the four row-derived fields that merging writes over.
pub open spec fn payload_fields_match(v: JsonV, m: FullMessage) -> bool {
    match v {
        JsonV::Obj(o) => {
            &&& field_opt_i64(o, "timestamp"@) == Option::Some(m.timestamp)
            &&& atts_match(o, m.attachments)
            &&& field_opt_str(o, "body"@) matches Option::Some(w) && opt_str_is(m.body, w)
            &&& field_req_str(o, "conversationId"@) == Option::Some(m.conversation_id@)
            &&& field_opt_i64(o, "sent_at"@) == Option::Some(m.sent_at)
            &&& field_opt_i64(o, "received_at"@) == Option::Some(m.received_at)
            &&& field_opt_i64(o, "received_at_ms"@) == Option::Some(m.received_at_ms)
            &&& recips_match(o, m.recipients)
            &&& field_opt_i32(o, "hasAttachments"@) == Option::Some(m.has_attachments)
            &&& field_opt_i32(o, "hasVisualMediaAttachments"@) == Option::Some(
                m.has_visual_media_attachments,
            )
            &&& field_opt_str(o, "destination"@) matches Option::Some(w) && opt_str_is(
                m.destination,
                w,
            )
            &&& field_opt_str(o, "from"@) matches Option::Some(w) && opt_str_is(m.from, w)
            &&& field_req_str(o, "id"@) == Option::Some(m.id@)
        },
        _ => false,
    }
}

/// A record matching a payload keeps its payload-decoded fields.
pub proof fn lemma_msg_matches_payload_fields(v: JsonV, m: FullMessage)
    requires
        msg_matches(v, m),
    ensures
        payload_fields_match(v, m),
{
}

/// Decodes a payload blob, as text, into a message record: exactly the
/// record the text reads as, when the text reads as a well-shaped message
/// object; a `PayloadDecodeError` naming the offending row exactly
/// otherwise.
pub fn extract_useful_fields_from_json(message: &str, row_id: &String) -> (r: Result<
    FullMessage,
    ExportError,
>)
    ensures
        match r {
            Result::Ok(m) => spec_parse_doc(message@) matches Option::Some(v) && msg_shape_ok(v)
                && msg_matches(v, m),
            Result::Err(e) => (e matches ExportError::PayloadDecodeError(c) && c@ == row_id@)
                && !payload_wellformed(message@),
        },
{
    match parse_json(message) {
        Option::Some(j) => message_from_json(&j, row_id),
        Option::None => Result::Err(ExportError::PayloadDecodeError(row_id.clone())),
    }
}

} // verus!
