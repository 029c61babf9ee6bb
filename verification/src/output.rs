//! The archive writer's pure side: shaping one conversation aggregate as the
//! output JSON value, rendering it as text, and deriving the output file
//! name.

use vstd::prelude::*;
use crate::json::{obj_get, render_json, view_obj, Json, JsonV};
use crate::records::{Attachment, ConversationOutput, FullMessage, Thumbnail};
use crate::text::chars_of;

verus! {

fn key_of(name: &str) -> (r: Vec<char>)
    ensures
        r@ == name@,
{
    chars_of(name)
}

fn str_val(s: &String) -> (r: Json)
    ensures
        r matches Json::Str(v) && v@ == s@,
{
    Json::Str(chars_of(s.as_str()))
}

/// Whether a JSON value is exactly the output shape of the given thumbnail:
/// its four fields under their stable output names.
pub open spec fn out_thumb_matches(v: JsonV, t: Thumbnail) -> bool {
    match v {
        JsonV::Obj(o) => {
            &&& obj_get(o, "path"@) == Option::Some(JsonV::Str(t.path@))
            &&& obj_get(o, "content_type"@) == Option::Some(JsonV::Str(t.content_type@))
            &&& obj_get(o, "width"@) == Option::Some(JsonV::Int(t.width as i64))
            &&& obj_get(o, "height"@) == Option::Some(JsonV::Int(t.height as i64))
        },
        _ => false,
    }
}

/// The output shape of a thumbnail: all four fields, under their stable
/// output names.
pub fn thumbnail_to_json(t: &Thumbnail) -> (r: Json)
    ensures
        out_thumb_matches(r@, *t),
{
    let mut members: Vec<(Vec<char>, Json)> = Vec::new();
    members.push((key_of("path"), str_val(&t.path)));
    members.push((key_of("content_type"), str_val(&t.content_type)));
    members.push((key_of("width"), Json::Int(t.width as i64)));
    members.push((key_of("height"), Json::Int(t.height as i64)));
    proof {
        reveal_strlit("path");
        reveal_strlit("content_type");
        reveal_strlit("width");
        reveal_strlit("height");
        crate::json::lemma_view_obj_index(members@);
        let ms = view_obj(members@);
        assert(ms.len() == 4);
        assert(ms[0] == ("path"@, JsonV::Str(t.path@)));
        assert(ms[1] == ("content_type"@, JsonV::Str(t.content_type@)));
        assert(ms[2] == ("width"@, JsonV::Int(t.width as i64)));
        assert(ms[3] == ("height"@, JsonV::Int(t.height as i64)));
        let m1 = ms.drop_first();
        let m2 = m1.drop_first();
        let m3 = m2.drop_first();
        assert(m1[0] == ms[1] && m1[1] == ms[2] && m1[2] == ms[3] && m1.len() == 3);
        assert(m2[0] == ms[2] && m2[1] == ms[3] && m2.len() == 2);
        assert(m3[0] == ms[3] && m3.len() == 1);
        assert(m1.drop_first() =~= m2);
        assert(m2.drop_first() =~= m3);
        assert(obj_get(ms, "path"@) == Option::Some(JsonV::Str(t.path@)));
        assert("path"@.len() == 4 && "content_type"@.len() == 12 && "width"@.len() == 5
            && "height"@.len() == 6);
        assert(obj_get(m1, "content_type"@) == Option::Some(JsonV::Str(t.content_type@)));
        assert(obj_get(ms, "content_type"@) == obj_get(m1, "content_type"@));
        assert(obj_get(m2, "width"@) == Option::Some(JsonV::Int(t.width as i64)));
        assert(obj_get(m1, "width"@) == obj_get(m2, "width"@));
        assert(obj_get(ms, "width"@) == obj_get(m1, "width"@));
        assert(obj_get(m3, "height"@) == Option::Some(JsonV::Int(t.height as i64)));
        assert(obj_get(m2, "height"@) == obj_get(m3, "height"@));
        assert(obj_get(m1, "height"@) == obj_get(m2, "height"@));
        assert(obj_get(ms, "height"@) == obj_get(m1, "height"@));
    }
    Json::Obj(members)
}

/// Whether a JSON value has the output shape of some thumbnail: all four
/// fields present with the right types and ranges.
pub open spec fn out_thumb_shape_ok(v: JsonV) -> bool {
    match v {
        JsonV::Obj(o) => {
            &&& obj_get(o, "path"@) matches Option::Some(JsonV::Str(_))
            &&& obj_get(o, "content_type"@) matches Option::Some(JsonV::Str(_))
            &&& obj_get(o, "width"@) matches Option::Some(JsonV::Int(w)) && i32::MIN <= w
                <= i32::MAX
            &&& obj_get(o, "height"@) matches Option::Some(JsonV::Int(h)) && i32::MIN <= h
                <= i32::MAX
        },
        _ => false,
    }
}

/// Reads a thumbnail back from its output JSON shape: one comes back
/// exactly when the shape is a thumbnail's, and it carries that shape.
pub fn thumbnail_from_json(j: &Json) -> (r: Option<Thumbnail>)
    ensures
        match r {
            Option::Some(t) => out_thumb_matches(j@, t) && out_thumb_shape_ok(j@),
            Option::None => !out_thumb_shape_ok(j@),
        },
{
    match j {
        Json::Obj(o) => {
            let path = match crate::json::obj_find(o, "path") {
                Option::Some(pj) => match pj {
                    Json::Str(s) => crate::text::string_of(s),
                    _ => {
                        return Option::None;
                    },
                },
                Option::None => {
                    return Option::None;
                },
            };
            let content_type = match crate::json::obj_find(o, "content_type") {
                Option::Some(pj) => match pj {
                    Json::Str(s) => crate::text::string_of(s),
                    _ => {
                        return Option::None;
                    },
                },
                Option::None => {
                    return Option::None;
                },
            };
            let width = match crate::json::obj_find(o, "width") {
                Option::Some(pj) => match pj {
                    Json::Int(v) => {
                        if i32::MIN as i64 <= *v && *v <= i32::MAX as i64 {
                            *v as i32
                        } else {
                            return Option::None;
                        }
                    },
                    _ => {
                        return Option::None;
                    },
                },
                Option::None => {
                    return Option::None;
                },
            };
            let height = match crate::json::obj_find(o, "height") {
                Option::Some(pj) => match pj {
                    Json::Int(v) => {
                        if i32::MIN as i64 <= *v && *v <= i32::MAX as i64 {
                            *v as i32
                        } else {
                            return Option::None;
                        }
                    },
                    _ => {
                        return Option::None;
                    },
                },
                Option::None => {
                    return Option::None;
                },
            };
            Option::Some(Thumbnail { path, content_type, width, height })
        },
        _ => Option::None,
    }
}

/// One output shape determines one thumbnail: two thumbnails matching the
/// same rendered shape agree on every field, so a thumbnail serialized to
/// its output shape and parsed back is reproduced exactly.
pub proof fn lemma_thumbnail_round_trip(v: JsonV, a: Thumbnail, b: Thumbnail)
    requires
        out_thumb_matches(v, a),
        out_thumb_matches(v, b),
    ensures
        a.path@ == b.path@,
        a.content_type@ == b.content_type@,
        a.width == b.width,
        a.height == b.height,
{
}

/// An optional small integer's output shape: its number, or nothing.
pub open spec fn opt_i32_shape(v: Option<i32>) -> Option<JsonV> {
    match v {
        Option::Some(x) => Option::Some(JsonV::Int(x as i64)),
        Option::None => Option::None,
    }
}

/// Whether a JSON value is exactly the output shape of the given attachment:
/// the required fields, each optional field only when present, and the
/// thumbnail's own shape nested.
pub open spec fn out_att_matches(v: JsonV, a: Attachment) -> bool {
    match v {
        JsonV::Obj(o) => {
            &&& obj_get(o, "content_type"@) == Option::Some(JsonV::Str(a.content_type@))
            &&& obj_get(o, "path"@) == Option::Some(JsonV::Str(a.path@))
            &&& obj_get(o, "size"@) == opt_i32_shape(a.size)
            &&& obj_get(o, "width"@) == opt_i32_shape(a.width)
            &&& obj_get(o, "height"@) == opt_i32_shape(a.height)
            &&& match a.thumbnail {
                Option::Some(t) => obj_get(o, "thumbnail"@) matches Option::Some(tv)
                    && out_thumb_matches(tv, t),
                Option::None => obj_get(o, "thumbnail"@) is None,
            }
        },
        _ => false,
    }
}

/// The six output keys of an attachment are pairwise distinct.
proof fn lemma_att_keys_distinct()
    ensures
        "content_type"@ != "path"@ && "content_type"@ != "size"@ && "content_type"@ != "width"@
            && "content_type"@ != "height"@ && "content_type"@ != "thumbnail"@,
        "path"@ != "size"@ && "path"@ != "width"@ && "path"@ != "height"@ && "path"@
            != "thumbnail"@,
        "size"@ != "width"@ && "size"@ != "height"@ && "size"@ != "thumbnail"@,
        "width"@ != "height"@ && "width"@ != "thumbnail"@,
        "height"@ != "thumbnail"@,
{
    reveal_strlit("content_type");
    reveal_strlit("path");
    reveal_strlit("size");
    reveal_strlit("width");
    reveal_strlit("height");
    reveal_strlit("thumbnail");
    assert("content_type"@.len() == 12 && "path"@.len() == 4 && "size"@.len() == 4 && "width"@.len()
        == 5 && "height"@.len() == 6 && "thumbnail"@.len() == 9);
    assert("path"@[0] == 'p' && "size"@[0] == 's');
}

/// The output shape of an attachment: required and present optional fields
/// only, under their stable output names.
pub fn attachment_to_json(a: &Attachment) -> (r: Json)
    ensures
        out_att_matches(r@, *a),
{
    proof {
        lemma_att_keys_distinct();
    }
    let mut members: Vec<(Vec<char>, Json)> = Vec::new();
    proof {
        assert(view_obj(members@) =~= Seq::<(Seq<char>, JsonV)>::empty());
    }
    crate::json::push_member(&mut members, "content_type", str_val(&a.content_type));
    crate::json::push_member(&mut members, "path", str_val(&a.path));
    if let Option::Some(v) = &a.size {
        crate::json::push_member(&mut members, "size", Json::Int(*v as i64));
    }
    proof {
        assert(obj_get(view_obj(members@), "size"@) == opt_i32_shape(a.size));
    }
    if let Option::Some(v) = &a.width {
        crate::json::push_member(&mut members, "width", Json::Int(*v as i64));
    }
    proof {
        assert(obj_get(view_obj(members@), "width"@) == opt_i32_shape(a.width));
    }
    if let Option::Some(v) = &a.height {
        crate::json::push_member(&mut members, "height", Json::Int(*v as i64));
    }
    proof {
        assert(obj_get(view_obj(members@), "height"@) == opt_i32_shape(a.height));
    }
    if let Option::Some(t) = &a.thumbnail {
        let tj = thumbnail_to_json(t);
        crate::json::push_member(&mut members, "thumbnail", tj);
    }
    proof {
        assert(obj_get(view_obj(members@), "content_type"@) == Option::Some(
            JsonV::Str(a.content_type@),
        ));
        assert(obj_get(view_obj(members@), "path"@) == Option::Some(JsonV::Str(a.path@)));
        assert(obj_get(view_obj(members@), "size"@) == opt_i32_shape(a.size));
        assert(obj_get(view_obj(members@), "width"@) == opt_i32_shape(a.width));
        assert(obj_get(view_obj(members@), "height"@) == opt_i32_shape(a.height));
    }
    Json::Obj(members)
}

/// Whether a JSON value has the output shape of some attachment: required
/// string fields, optional numbers absent or in range, and the thumbnail
/// absent or thumbnail-shaped.
pub open spec fn out_att_shape_ok(v: JsonV) -> bool {
    match v {
        JsonV::Obj(o) => {
            &&& obj_get(o, "content_type"@) matches Option::Some(JsonV::Str(_))
            &&& obj_get(o, "path"@) matches Option::Some(JsonV::Str(_))
            &&& opt_i32_slot_ok(obj_get(o, "size"@))
            &&& opt_i32_slot_ok(obj_get(o, "width"@))
            &&& opt_i32_slot_ok(obj_get(o, "height"@))
            &&& match obj_get(o, "thumbnail"@) {
                Option::None => true,
                Option::Some(t) => out_thumb_shape_ok(t),
            }
        },
        _ => false,
    }
}

/// An optional small-integer slot: absent, or a number in range.
pub open spec fn opt_i32_slot_ok(g: Option<JsonV>) -> bool {
    match g {
        Option::None => true,
        Option::Some(JsonV::Int(x)) => i32::MIN <= x <= i32::MAX,
        Option::Some(_) => false,
    }
}

/// Reads an attachment back from its output JSON shape: one comes back
/// exactly when the shape is an attachment's, and it carries that shape.
pub fn attachment_from_json(j: &Json) -> (r: Option<Attachment>)
    ensures
        match r {
            Option::Some(a) => out_att_matches(j@, a) && out_att_shape_ok(j@),
            Option::None => !out_att_shape_ok(j@),
        },
{
    match j {
        Json::Obj(o) => {
            let content_type = match crate::json::obj_find(o, "content_type") {
                Option::Some(pj) => match pj {
                    Json::Str(s) => crate::text::string_of(s),
                    _ => {
                        return Option::None;
                    },
                },
                Option::None => {
                    return Option::None;
                },
            };
            let path = match crate::json::obj_find(o, "path") {
                Option::Some(pj) => match pj {
                    Json::Str(s) => crate::text::string_of(s),
                    _ => {
                        return Option::None;
                    },
                },
                Option::None => {
                    return Option::None;
                },
            };
            let size = match read_opt_i32(o, "size") {
                Result::Ok(v) => v,
                Result::Err(_) => {
                    return Option::None;
                },
            };
            let width = match read_opt_i32(o, "width") {
                Result::Ok(v) => v,
                Result::Err(_) => {
                    return Option::None;
                },
            };
            let height = match read_opt_i32(o, "height") {
                Result::Ok(v) => v,
                Result::Err(_) => {
                    return Option::None;
                },
            };
            let thumbnail = match crate::json::obj_find(o, "thumbnail") {
                Option::None => Option::None,
                Option::Some(tj) => match thumbnail_from_json(tj) {
                    Option::Some(t) => Option::Some(t),
                    Option::None => {
                        return Option::None;
                    },
                },
            };
            Option::Some(Attachment { content_type, path, size, width, height, thumbnail })
        },
        _ => Option::None,
    }
}

/// Reads an optional small-integer slot of an output object.
fn read_opt_i32(o: &Vec<(Vec<char>, Json)>, key: &str) -> (r: Result<Option<i32>, ()>)
    ensures
        match r {
            Result::Ok(v) => opt_i32_slot_ok(obj_get(view_obj(o@), key@)) && obj_get(
                view_obj(o@),
                key@,
            ) == opt_i32_shape(v),
            Result::Err(_) => !opt_i32_slot_ok(obj_get(view_obj(o@), key@)),
        },
{
    match crate::json::obj_find(o, key) {
        Option::None => Result::Ok(Option::None),
        Option::Some(pj) => match pj {
            Json::Int(v) => {
                if i32::MIN as i64 <= *v && *v <= i32::MAX as i64 {
                    Result::Ok(Option::Some(*v as i32))
                } else {
                    Result::Err(())
                }
            },
            _ => Result::Err(()),
        },
    }
}

/// One output shape determines one attachment: two attachments matching the
/// same rendered shape agree on every field, nested thumbnail included, so
/// an attachment serialized to its output shape and parsed back is
/// reproduced exactly — with optional absence reproduced as absence.
pub proof fn lemma_attachment_round_trip(v: JsonV, a: Attachment, b: Attachment)
    requires
        out_att_matches(v, a),
        out_att_matches(v, b),
    ensures
        a.content_type@ == b.content_type@,
        a.path@ == b.path@,
        a.size == b.size,
        a.width == b.width,
        a.height == b.height,
        a.thumbnail is Some <==> b.thumbnail is Some,
        a.thumbnail is Some ==> {
            &&& a.thumbnail->0.path@ == b.thumbnail->0.path@
            &&& a.thumbnail->0.content_type@ == b.thumbnail->0.content_type@
            &&& a.thumbnail->0.width == b.thumbnail->0.width
            &&& a.thumbnail->0.height == b.thumbnail->0.height
        },
{
    if a.thumbnail is Some && b.thumbnail is Some {
        let o = v->Obj_0;
        let tv = obj_get(o, "thumbnail"@)->0;
        lemma_thumbnail_round_trip(tv, a.thumbnail->0, b.thumbnail->0);
    }
}

/// An optional wide integer's output shape: its number, or nothing.
pub open spec fn opt_i64_shape(v: Option<i64>) -> Option<JsonV> {
    match v {
        Option::Some(x) => Option::Some(JsonV::Int(x)),
        Option::None => Option::None,
    }
}

/// An optional string's output shape: its text, or nothing.
pub open spec fn opt_str_shape(v: Option<String>) -> Option<JsonV> {
    match v {
        Option::Some(s) => Option::Some(JsonV::Str(s@)),
        Option::None => Option::None,
    }
}

/// The output shapes of a recipient list.
pub open spec fn strs_shape(v: Seq<String>) -> Seq<JsonV> {
    v.map_values(|s: String| JsonV::Str(s@))
}

/// The output shapes of an attachment list, element for element.
pub open spec fn arr_out_atts_match(s: Seq<JsonV>, av: Seq<Attachment>) -> bool {
    s.len() == av.len() && forall|k: int|
        0 <= k < s.len() ==> out_att_matches(#[trigger] s[k], av[k])
}

/// The first block of a message record's output fields.
pub open spec fn msg_facts_a(o: Seq<(Seq<char>, JsonV)>, m: FullMessage) -> bool {
    &&& obj_get(o, "timestamp"@) == opt_i64_shape(m.timestamp)
    &&& match m.attachments {
        Option::Some(av) => obj_get(o, "attachments"@) matches Option::Some(JsonV::Arr(s))
            && arr_out_atts_match(s, av@),
        Option::None => obj_get(o, "attachments"@) is None,
    }
    &&& obj_get(o, "body"@) == opt_str_shape(m.body)
    &&& obj_get(o, "conversation_id"@) == Option::Some(JsonV::Str(m.conversation_id@))
}

/// The second block of a message record's output fields.
pub open spec fn msg_facts_b(o: Seq<(Seq<char>, JsonV)>, m: FullMessage) -> bool {
    &&& obj_get(o, "sent_at"@) == opt_i64_shape(m.sent_at)
    &&& obj_get(o, "received_at"@) == opt_i64_shape(m.received_at)
    &&& obj_get(o, "received_at_ms"@) == opt_i64_shape(m.received_at_ms)
    &&& match m.recipients {
        Option::Some(rs) => obj_get(o, "recipients"@) == Option::Some(
            JsonV::Arr(strs_shape(rs@)),
        ),
        Option::None => obj_get(o, "recipients"@) is None,
    }
}

/// The third block of a message record's output fields.
pub open spec fn msg_facts_c(o: Seq<(Seq<char>, JsonV)>, m: FullMessage) -> bool {
    &&& obj_get(o, "has_attachments"@) == opt_i32_shape(m.has_attachments)
    &&& obj_get(o, "has_visual_media_attachments"@) == opt_i32_shape(
        m.has_visual_media_attachments,
    )
    &&& obj_get(o, "destination"@) == opt_str_shape(m.destination)
    &&& obj_get(o, "from"@) == opt_str_shape(m.from)
}

/// The last block of a message record's output fields.
pub open spec fn msg_facts_d(o: Seq<(Seq<char>, JsonV)>, m: FullMessage) -> bool {
    &&& obj_get(o, "type"@) == opt_str_shape(m.msg_type)
    &&& obj_get(o, "e164"@) == opt_i64_shape(m.e164)
    &&& obj_get(o, "profile_name"@) == opt_str_shape(m.profile_name)
    &&& obj_get(o, "message_name"@) == opt_str_shape(m.message_name)
    &&& obj_get(o, "id"@) == Option::Some(JsonV::Str(m.id@))
}

/// Whether a JSON value is exactly the output shape of the given message
/// record: every present field under its stable output name, and no
/// placeholder for an absent one.
pub open spec fn out_msg_matches(v: JsonV, m: FullMessage) -> bool {
    match v {
        JsonV::Obj(o) => {
            &&& msg_facts_a(o, m)
            &&& msg_facts_b(o, m)
            &&& msg_facts_c(o, m)
            &&& msg_facts_d(o, m)
        },
        _ => false,
    }
}

/// The keys of the second block onward are still absent.
pub open spec fn msg_keys_absent_b(o: Seq<(Seq<char>, JsonV)>) -> bool {
    &&& obj_get(o, "sent_at"@) is None
    &&& obj_get(o, "received_at"@) is None
    &&& obj_get(o, "received_at_ms"@) is None
    &&& obj_get(o, "recipients"@) is None
}

/// The keys of the third block onward are still absent.
pub open spec fn msg_keys_absent_c(o: Seq<(Seq<char>, JsonV)>) -> bool {
    &&& obj_get(o, "has_attachments"@) is None
    &&& obj_get(o, "has_visual_media_attachments"@) is None
    &&& obj_get(o, "destination"@) is None
    &&& obj_get(o, "from"@) is None
}

/// The keys of the last block are still absent.
pub open spec fn msg_keys_absent_d(o: Seq<(Seq<char>, JsonV)>) -> bool {
    &&& obj_get(o, "type"@) is None
    &&& obj_get(o, "e164"@) is None
    &&& obj_get(o, "profile_name"@) is None
    &&& obj_get(o, "message_name"@) is None
    &&& obj_get(o, "id"@) is None
}

/// The seventeen output keys of a message record, by length and first
/// character: enough to tell every pair apart.
proof fn lemma_msg_keys_distinct()
    ensures
        "timestamp"@.len() == 9 && "attachments"@.len() == 11 && "body"@.len() == 4
            && "conversation_id"@.len() == 15 && "sent_at"@.len() == 7 && "received_at"@.len()
            == 11 && "received_at_ms"@.len() == 14 && "recipients"@.len() == 10
            && "has_attachments"@.len() == 15 && "has_visual_media_attachments"@.len() == 28
            && "destination"@.len() == 11 && "from"@.len() == 4 && "type"@.len() == 4
            && "e164"@.len() == 4 && "profile_name"@.len() == 12 && "message_name"@.len() == 12
            && "id"@.len() == 2,
        "attachments"@[0] == 'a' && "received_at"@[0] == 'r' && "destination"@[0] == 'd',
        "body"@[0] == 'b' && "from"@[0] == 'f' && "type"@[0] == 't' && "e164"@[0] == 'e',
        "conversation_id"@[0] == 'c' && "has_attachments"@[0] == 'h',
        "profile_name"@[0] == 'p' && "message_name"@[0] == 'm',
{
    reveal_strlit("timestamp");
    reveal_strlit("attachments");
    reveal_strlit("body");
    reveal_strlit("conversation_id");
    reveal_strlit("sent_at");
    reveal_strlit("received_at");
    reveal_strlit("received_at_ms");
    reveal_strlit("recipients");
    reveal_strlit("has_attachments");
    reveal_strlit("has_visual_media_attachments");
    reveal_strlit("destination");
    reveal_strlit("from");
    reveal_strlit("type");
    reveal_strlit("e164");
    reveal_strlit("profile_name");
    reveal_strlit("message_name");
    reveal_strlit("id");
}

/// Writes the first block of a message's output fields.
#[verifier::spinoff_prover]
fn push_msg_a(members: &mut Vec<(Vec<char>, Json)>, m: &FullMessage)
    requires
        view_obj(old(members)@) == Seq::<(Seq<char>, JsonV)>::empty(),
    ensures
        msg_facts_a(view_obj(final(members)@), *m),
        msg_keys_absent_b(view_obj(final(members)@)),
        msg_keys_absent_c(view_obj(final(members)@)),
        msg_keys_absent_d(view_obj(final(members)@)),
{
    proof {
        lemma_msg_keys_distinct();
    }
    if let Option::Some(v) = &m.timestamp {
        crate::json::push_member(members, "timestamp", Json::Int(*v));
    }
    if let Option::Some(atts) = &m.attachments {
        let mut arr: Vec<Json> = Vec::new();
        let mut i: usize = 0;
        while i < atts.len()
            invariant
                i <= atts@.len(),
                crate::json::view_arr(arr@).len() == i,
                arr@.len() == i,
                forall|k: int|
                    0 <= k < i ==> out_att_matches(
                        #[trigger] crate::json::view_arr(arr@)[k],
                        atts@[k],
                    ),
            decreases atts.len() - i,
        {
            let ghost pre = arr@;
            let aj = attachment_to_json(&atts[i]);
            let ghost ajv = aj@;
            arr.push(aj);
            proof {
                assert(arr@.drop_last() =~= pre);
                assert(crate::json::view_arr(arr@) == crate::json::view_arr(pre).push(ajv));
                crate::json::lemma_view_arr_index(arr@);
            }
            i = i + 1;
        }
        proof {
            assert(arr@.len() == atts@.len());
        }
        crate::json::push_member(members, "attachments", Json::Arr(arr));
    }
    if let Option::Some(v) = &m.body {
        crate::json::push_member(members, "body", str_val(v));
    }
    crate::json::push_member(members, "conversation_id", str_val(&m.conversation_id));
}

/// Writes the second block of a message's output fields.
#[verifier::spinoff_prover]
fn push_msg_b(members: &mut Vec<(Vec<char>, Json)>, m: &FullMessage)
    requires
        msg_facts_a(view_obj(old(members)@), *m),
        msg_keys_absent_b(view_obj(old(members)@)),
        msg_keys_absent_c(view_obj(old(members)@)),
        msg_keys_absent_d(view_obj(old(members)@)),
    ensures
        msg_facts_a(view_obj(final(members)@), *m),
        msg_facts_b(view_obj(final(members)@), *m),
        msg_keys_absent_c(view_obj(final(members)@)),
        msg_keys_absent_d(view_obj(final(members)@)),
{
    proof {
        lemma_msg_keys_distinct();
    }
    if let Option::Some(v) = &m.sent_at {
        crate::json::push_member(members, "sent_at", Json::Int(*v));
    }
    if let Option::Some(v) = &m.received_at {
        crate::json::push_member(members, "received_at", Json::Int(*v));
    }
    if let Option::Some(v) = &m.received_at_ms {
        crate::json::push_member(members, "received_at_ms", Json::Int(*v));
    }
    if let Option::Some(rs) = &m.recipients {
        let mut arr: Vec<Json> = Vec::new();
        let mut i: usize = 0;
        while i < rs.len()
            invariant
                i <= rs@.len(),
                crate::json::view_arr(arr@).len() == i,
                arr@.len() == i,
                forall|k: int|
                    0 <= k < i ==> #[trigger] crate::json::view_arr(arr@)[k] == JsonV::Str(
                        rs@[k]@,
                    ),
            decreases rs.len() - i,
        {
            let ghost pre = arr@;
            let sj = str_val(&rs[i]);
            let ghost sjv = sj@;
            arr.push(sj);
            proof {
                assert(arr@.drop_last() =~= pre);
                assert(crate::json::view_arr(arr@) == crate::json::view_arr(pre).push(sjv));
                crate::json::lemma_view_arr_index(arr@);
            }
            i = i + 1;
        }
        proof {
            assert(crate::json::view_arr(arr@) =~= strs_shape(rs@));
        }
        crate::json::push_member(members, "recipients", Json::Arr(arr));
    }
}

/// Writes the third block of a message's output fields.
#[verifier::spinoff_prover]
fn push_msg_c(members: &mut Vec<(Vec<char>, Json)>, m: &FullMessage)
    requires
        msg_facts_a(view_obj(old(members)@), *m),
        msg_facts_b(view_obj(old(members)@), *m),
        msg_keys_absent_c(view_obj(old(members)@)),
        msg_keys_absent_d(view_obj(old(members)@)),
    ensures
        msg_facts_a(view_obj(final(members)@), *m),
        msg_facts_b(view_obj(final(members)@), *m),
        msg_facts_c(view_obj(final(members)@), *m),
        msg_keys_absent_d(view_obj(final(members)@)),
{
    proof {
        lemma_msg_keys_distinct();
    }
    if let Option::Some(v) = &m.has_attachments {
        crate::json::push_member(members, "has_attachments", Json::Int(*v as i64));
    }
    if let Option::Some(v) = &m.has_visual_media_attachments {
        crate::json::push_member(members, "has_visual_media_attachments", Json::Int(*v as i64));
    }
    if let Option::Some(v) = &m.destination {
        crate::json::push_member(members, "destination", str_val(v));
    }
    if let Option::Some(v) = &m.from {
        crate::json::push_member(members, "from", str_val(v));
    }
}

/// Writes the last block of a message's output fields.
#[verifier::spinoff_prover]
fn push_msg_d(members: &mut Vec<(Vec<char>, Json)>, m: &FullMessage)
    requires
        msg_facts_a(view_obj(old(members)@), *m),
        msg_facts_b(view_obj(old(members)@), *m),
        msg_facts_c(view_obj(old(members)@), *m),
        msg_keys_absent_d(view_obj(old(members)@)),
    ensures
        msg_facts_a(view_obj(final(members)@), *m),
        msg_facts_b(view_obj(final(members)@), *m),
        msg_facts_c(view_obj(final(members)@), *m),
        msg_facts_d(view_obj(final(members)@), *m),
{
    proof {
        lemma_msg_keys_distinct();
    }
    if let Option::Some(v) = &m.msg_type {
        crate::json::push_member(members, "type", str_val(v));
    }
    if let Option::Some(v) = &m.e164 {
        crate::json::push_member(members, "e164", Json::Int(*v));
    }
    if let Option::Some(v) = &m.profile_name {
        crate::json::push_member(members, "profile_name", str_val(v));
    }
    if let Option::Some(v) = &m.message_name {
        crate::json::push_member(members, "message_name", str_val(v));
    }
    crate::json::push_member(members, "id", str_val(&m.id));
}

/// The output shape of one message record: every present field under its
/// stable output name, and no placeholder for an absent one.
pub fn message_to_json(m: &FullMessage) -> (r: Json)
    ensures
        out_msg_matches(r@, *m),
{
    let mut members: Vec<(Vec<char>, Json)> = Vec::new();
    proof {
        assert(view_obj(members@) =~= Seq::<(Seq<char>, JsonV)>::empty());
    }
    push_msg_a(&mut members, m);
    push_msg_b(&mut members, m);
    push_msg_c(&mut members, m);
    push_msg_d(&mut members, m);
    Json::Obj(members)
}

/// The output shapes of a message list, element for element.
pub open spec fn arr_out_msgs_match(s: Seq<JsonV>, mv: Seq<FullMessage>) -> bool {
    s.len() == mv.len() && forall|k: int|
        0 <= k < s.len() ==> out_msg_matches(#[trigger] s[k], mv[k])
}

/// Whether a JSON value is exactly the top-level output shape of the given
/// conversation aggregate: `conversation_id`, `conv_type` and `messages`
/// always present, `profile_name` and `e164` present exactly when the
/// aggregate has them, and each message under its own output shape.
pub open spec fn out_conv_matches(v: JsonV, c: ConversationOutput) -> bool {
    match v {
        JsonV::Obj(o) => {
            &&& obj_get(o, "profile_name"@) == opt_str_shape(c.profile_name)
            &&& obj_get(o, "conversation_id"@) == Option::Some(JsonV::Str(c.conversation_id@))
            &&& obj_get(o, "conv_type"@) == Option::Some(JsonV::Str(c.conv_type@))
            &&& obj_get(o, "e164"@) == opt_i64_shape(c.e164)
            &&& obj_get(o, "messages"@) matches Option::Some(JsonV::Arr(s)) && arr_out_msgs_match(
                s,
                c.messages@,
            )
        },
        _ => false,
    }
}

/// The five top-level output keys are pairwise distinct.
proof fn lemma_conv_keys_distinct()
    ensures
        "profile_name"@.len() == 12 && "conversation_id"@.len() == 15 && "conv_type"@.len() == 9
            && "e164"@.len() == 4 && "messages"@.len() == 8,
{
    reveal_strlit("profile_name");
    reveal_strlit("conversation_id");
    reveal_strlit("conv_type");
    reveal_strlit("e164");
    reveal_strlit("messages");
}

/// The top-level output shape of one conversation aggregate.
#[verifier::spinoff_prover]
pub fn conversation_to_json(c: &ConversationOutput) -> (r: Json)
    ensures
        out_conv_matches(r@, *c),
{
    proof {
        lemma_conv_keys_distinct();
    }
    let mut members: Vec<(Vec<char>, Json)> = Vec::new();
    proof {
        assert(view_obj(members@) =~= Seq::<(Seq<char>, JsonV)>::empty());
    }
    if let Option::Some(v) = &c.profile_name {
        crate::json::push_member(&mut members, "profile_name", str_val(v));
    }
    crate::json::push_member(&mut members, "conversation_id", str_val(&c.conversation_id));
    crate::json::push_member(&mut members, "conv_type", str_val(&c.conv_type));
    if let Option::Some(v) = &c.e164 {
        crate::json::push_member(&mut members, "e164", Json::Int(*v));
    }
    let mut arr: Vec<Json> = Vec::new();
    let mut i: usize = 0;
    while i < c.messages.len()
        invariant
            i <= c.messages@.len(),
            crate::json::view_arr(arr@).len() == i,
            arr@.len() == i,
            forall|k: int|
                0 <= k < i ==> out_msg_matches(
                    #[trigger] crate::json::view_arr(arr@)[k],
                    c.messages@[k],
                ),
        decreases c.messages.len() - i,
    {
        let ghost pre = arr@;
        let mj = message_to_json(&c.messages[i]);
        let ghost mjv = mj@;
        arr.push(mj);
        proof {
            assert(arr@.drop_last() =~= pre);
            assert(crate::json::view_arr(arr@) == crate::json::view_arr(pre).push(mjv));
            crate::json::lemma_view_arr_index(arr@);
        }
        i = i + 1;
    }
    proof {
        assert(arr@.len() == c.messages@.len());
    }
    crate::json::push_member(&mut members, "messages", Json::Arr(arr));
    Json::Obj(members)
}

/// Renders one conversation aggregate as pretty-printed output JSON text:
/// the format's rendering of a value carrying exactly the aggregate's
/// top-level output shape.
pub fn render_conversation(c: &ConversationOutput) -> (r: String)
    ensures
        exists|v: JsonV| #[trigger] out_conv_matches(v, *c) && r@ == crate::json::render_doc(v),
{
    let j = conversation_to_json(c);
    let r = render_json(&j);
    proof {
        assert(out_conv_matches(j@, *c) && r@ == crate::json::render_doc(j@));
    }
    r
}

/// An optional wide-integer slot: absent, or a number.
pub open spec fn opt_i64_slot_ok(g: Option<JsonV>) -> bool {
    match g {
        Option::None => true,
        Option::Some(JsonV::Int(_)) => true,
        Option::Some(_) => false,
    }
}

/// An optional string slot: absent, or a string.
pub open spec fn opt_str_slot_ok(g: Option<JsonV>) -> bool {
    match g {
        Option::None => true,
        Option::Some(JsonV::Str(_)) => true,
        Option::Some(_) => false,
    }
}

/// Every element of the array has an attachment's output shape.
pub open spec fn arr_out_atts_ok(s: Seq<JsonV>) -> bool {
    forall|k: int| 0 <= k < s.len() ==> out_att_shape_ok(#[trigger] s[k])
}

/// Every element of the array is a string.
pub open spec fn arr_all_strs(s: Seq<JsonV>) -> bool {
    forall|k: int| 0 <= k < s.len() ==> (#[trigger] s[k]) is Str
}

/// Every element of the array has a message record's output shape.
pub open spec fn arr_out_msgs_ok(s: Seq<JsonV>) -> bool {
    forall|k: int| 0 <= k < s.len() ==> out_msg_shape_ok(#[trigger] s[k])
}

/// Whether a JSON value has the output shape of some message record.
pub open spec fn out_msg_shape_ok(v: JsonV) -> bool {
    match v {
        JsonV::Obj(o) => {
            &&& opt_i64_slot_ok(obj_get(o, "timestamp"@))
            &&& match obj_get(o, "attachments"@) {
                Option::None => true,
                Option::Some(JsonV::Arr(s)) => arr_out_atts_ok(s),
                Option::Some(_) => false,
            }
            &&& opt_str_slot_ok(obj_get(o, "body"@))
            &&& obj_get(o, "conversation_id"@) matches Option::Some(JsonV::Str(_))
            &&& opt_i64_slot_ok(obj_get(o, "sent_at"@))
            &&& opt_i64_slot_ok(obj_get(o, "received_at"@))
            &&& opt_i64_slot_ok(obj_get(o, "received_at_ms"@))
            &&& match obj_get(o, "recipients"@) {
                Option::None => true,
                Option::Some(JsonV::Arr(s)) => arr_all_strs(s),
                Option::Some(_) => false,
            }
            &&& opt_i32_slot_ok(obj_get(o, "has_attachments"@))
            &&& opt_i32_slot_ok(obj_get(o, "has_visual_media_attachments"@))
            &&& opt_str_slot_ok(obj_get(o, "destination"@))
            &&& opt_str_slot_ok(obj_get(o, "from"@))
            &&& opt_str_slot_ok(obj_get(o, "type"@))
            &&& opt_i64_slot_ok(obj_get(o, "e164"@))
            &&& opt_str_slot_ok(obj_get(o, "profile_name"@))
            &&& opt_str_slot_ok(obj_get(o, "message_name"@))
            &&& obj_get(o, "id"@) matches Option::Some(JsonV::Str(_))
        },
        _ => false,
    }
}

/// Reads an optional wide-integer slot of an output object.
fn read_opt_i64(o: &Vec<(Vec<char>, Json)>, key: &str) -> (r: Result<Option<i64>, ()>)
    ensures
        match r {
            Result::Ok(v) => obj_get(view_obj(o@), key@) == opt_i64_shape(v),
            Result::Err(_) => !opt_i64_slot_ok(obj_get(view_obj(o@), key@)),
        },
{
    match crate::json::obj_find(o, key) {
        Option::None => Result::Ok(Option::None),
        Option::Some(pj) => match pj {
            Json::Int(v) => Result::Ok(Option::Some(*v)),
            _ => Result::Err(()),
        },
    }
}

/// Reads an optional string slot of an output object.
fn read_opt_str(o: &Vec<(Vec<char>, Json)>, key: &str) -> (r: Result<Option<String>, ()>)
    ensures
        match r {
            Result::Ok(v) => obj_get(view_obj(o@), key@) == opt_str_shape(v),
            Result::Err(_) => !opt_str_slot_ok(obj_get(view_obj(o@), key@)),
        },
{
    match crate::json::obj_find(o, key) {
        Option::None => Result::Ok(Option::None),
        Option::Some(pj) => match pj {
            Json::Str(t) => Result::Ok(Option::Some(crate::text::string_of(t))),
            _ => Result::Err(()),
        },
    }
}

/// Reads a required string slot of an output object.
fn read_req_str(o: &Vec<(Vec<char>, Json)>, key: &str) -> (r: Result<String, ()>)
    ensures
        match r {
            Result::Ok(v) => obj_get(view_obj(o@), key@) == Option::Some(JsonV::Str(v@)),
            Result::Err(_) => !(obj_get(view_obj(o@), key@) matches Option::Some(JsonV::Str(_))),
        },
{
    match crate::json::obj_find(o, key) {
        Option::None => Result::Err(()),
        Option::Some(pj) => match pj {
            Json::Str(t) => Result::Ok(crate::text::string_of(t)),
            _ => Result::Err(()),
        },
    }
}

/// Reads a message record back from its output JSON shape: one comes back
/// exactly when the shape is a message's, and it carries that shape.
#[verifier::rlimit(60)]
#[verifier::spinoff_prover]
#[verifier::loop_isolation(false)]
pub fn message_from_output_json(j: &Json) -> (r: Option<FullMessage>)
    ensures
        match r {
            Option::Some(m) => out_msg_matches(j@, m) && out_msg_shape_ok(j@),
            Option::None => !out_msg_shape_ok(j@),
        },
{
    match j {
        Json::Obj(o) => {
            let timestamp = match read_opt_i64(o, "timestamp") {
                Result::Ok(v) => v,
                Result::Err(_) => {
                    return Option::None;
                },
            };
            let attachments = match crate::json::obj_find(o, "attachments") {
                Option::None => Option::None,
                Option::Some(aj) => match aj {
                    Json::Arr(a) => {
                        proof {
                            crate::json::lemma_view_arr_index(a@);
                            assert(aj@ == JsonV::Arr(crate::json::view_arr(a@)));
                        }
                        let ghost av = crate::json::view_arr(a@);
                        let mut out: Vec<Attachment> = Vec::new();
                        let mut i: usize = 0;
                        while i < a.len()
                            invariant
                                i <= a@.len(),
                                av == crate::json::view_arr(a@),
                                av.len() == a@.len(),
                                obj_get(view_obj(o@), "attachments"@) == Option::Some(
                                    JsonV::Arr(av),
                                ),
                                forall|k: int| 0 <= k < a@.len() ==> #[trigger] av[k] == a@[k]@,
                                out@.len() == i,
                                forall|k: int|
                                    0 <= k < i ==> out_att_matches(av[k], #[trigger] out@[k]),
                            decreases a.len() - i,
                        {
                            match attachment_from_json(&a[i]) {
                                Option::Some(att) => out.push(att),
                                Option::None => {
                                    proof {
                                        assert(av[i as int] == a@[i as int]@);
                                        assert(!arr_out_atts_ok(av)) by {
                                            if arr_out_atts_ok(av) {
                                                assert(out_att_shape_ok(av[i as int]));
                                            }
                                        }
                                    }
                                    return Option::None;
                                },
                            }
                            i = i + 1;
                        }
                        Option::Some(out)
                    },
                    _ => {
                        return Option::None;
                    },
                },
            };
            let body = match read_opt_str(o, "body") {
                Result::Ok(v) => v,
                Result::Err(_) => {
                    return Option::None;
                },
            };
            let conversation_id = match read_req_str(o, "conversation_id") {
                Result::Ok(v) => v,
                Result::Err(_) => {
                    return Option::None;
                },
            };
            let sent_at = match read_opt_i64(o, "sent_at") {
                Result::Ok(v) => v,
                Result::Err(_) => {
                    return Option::None;
                },
            };
            let received_at = match read_opt_i64(o, "received_at") {
                Result::Ok(v) => v,
                Result::Err(_) => {
                    return Option::None;
                },
            };
            let received_at_ms = match read_opt_i64(o, "received_at_ms") {
                Result::Ok(v) => v,
                Result::Err(_) => {
                    return Option::None;
                },
            };
            let recipients = match crate::json::obj_find(o, "recipients") {
                Option::None => Option::None,
                Option::Some(rj) => match rj {
                    Json::Arr(a) => {
                        proof {
                            crate::json::lemma_view_arr_index(a@);
                            assert(rj@ == JsonV::Arr(crate::json::view_arr(a@)));
                        }
                        let ghost av = crate::json::view_arr(a@);
                        let mut out: Vec<String> = Vec::new();
                        let mut i: usize = 0;
                        while i < a.len()
                            invariant
                                i <= a@.len(),
                                av == crate::json::view_arr(a@),
                                av.len() == a@.len(),
                                obj_get(view_obj(o@), "recipients"@) == Option::Some(
                                    JsonV::Arr(av),
                                ),
                                forall|k: int| 0 <= k < a@.len() ==> #[trigger] av[k] == a@[k]@,
                                out@.len() == i,
                                forall|k: int|
                                    0 <= k < i ==> av[k] == JsonV::Str(#[trigger] out@[k]@),
                            decreases a.len() - i,
                        {
                            match &a[i] {
                                Json::Str(t) => out.push(crate::text::string_of(t)),
                                _ => {
                                    proof {
                                        assert(av[i as int] == a@[i as int]@);
                                        assert(!arr_all_strs(av)) by {
                                            if arr_all_strs(av) {
                                                assert(av[i as int] is Str);
                                            }
                                        }
                                    }
                                    return Option::None;
                                },
                            }
                            i = i + 1;
                        }
                        proof {
                            assert(av =~= strs_shape(out@));
                        }
                        Option::Some(out)
                    },
                    _ => {
                        return Option::None;
                    },
                },
            };
            let has_attachments = match read_opt_i32(o, "has_attachments") {
                Result::Ok(v) => v,
                Result::Err(_) => {
                    return Option::None;
                },
            };
            let has_visual_media_attachments = match read_opt_i32(
                o,
                "has_visual_media_attachments",
            ) {
                Result::Ok(v) => v,
                Result::Err(_) => {
                    return Option::None;
                },
            };
            let destination = match read_opt_str(o, "destination") {
                Result::Ok(v) => v,
                Result::Err(_) => {
                    return Option::None;
                },
            };
            let from = match read_opt_str(o, "from") {
                Result::Ok(v) => v,
                Result::Err(_) => {
                    return Option::None;
                },
            };
            let msg_type = match read_opt_str(o, "type") {
                Result::Ok(v) => v,
                Result::Err(_) => {
                    return Option::None;
                },
            };
            let e164 = match read_opt_i64(o, "e164") {
                Result::Ok(v) => v,
                Result::Err(_) => {
                    return Option::None;
                },
            };
            let profile_name = match read_opt_str(o, "profile_name") {
                Result::Ok(v) => v,
                Result::Err(_) => {
                    return Option::None;
                },
            };
            let message_name = match read_opt_str(o, "message_name") {
                Result::Ok(v) => v,
                Result::Err(_) => {
                    return Option::None;
                },
            };
            let id = match read_req_str(o, "id") {
                Result::Ok(v) => v,
                Result::Err(_) => {
                    return Option::None;
                },
            };
            Option::Some(FullMessage {
                timestamp,
                attachments,
                body,
                conversation_id,
                sent_at,
                received_at,
                received_at_ms,
                recipients,
                has_attachments,
                has_visual_media_attachments,
                destination,
                from,
                msg_type,
                e164,
                profile_name,
                message_name,
                id,
            })
        },
        _ => Option::None,
    }
}

/// A value matching a thumbnail has the thumbnail output shape.
proof fn lemma_thumb_matches_shape(v: JsonV, t: Thumbnail)
    requires
        out_thumb_matches(v, t),
    ensures
        out_thumb_shape_ok(v),
{
}

/// A value matching an attachment has the attachment output shape.
proof fn lemma_att_matches_shape(v: JsonV, a: Attachment)
    requires
        out_att_matches(v, a),
    ensures
        out_att_shape_ok(v),
{
    let o = v->Obj_0;
    if a.thumbnail is Some {
        lemma_thumb_matches_shape(obj_get(o, "thumbnail"@)->0, a.thumbnail->0);
    }
}

/// A value matching a message record has the message output shape.
proof fn lemma_msg_matches_shape(v: JsonV, m: FullMessage)
    requires
        out_msg_matches(v, m),
    ensures
        out_msg_shape_ok(v),
{
    let o = v->Obj_0;
    if m.attachments is Some {
        let s = obj_get(o, "attachments"@)->0->Arr_0;
        assert forall|k: int| 0 <= k < s.len() implies out_att_shape_ok(#[trigger] s[k]) by {
            lemma_att_matches_shape(s[k], m.attachments->0@[k]);
        }
        assert(arr_out_atts_ok(s));
    }
    if m.recipients is Some {
        let rs = m.recipients->0;
        assert forall|k: int| 0 <= k < strs_shape(rs@).len() implies (#[trigger] strs_shape(
            rs@,
        )[k]) is Str by {
            assert(strs_shape(rs@)[k] == JsonV::Str(rs@[k]@));
        }
        assert(arr_all_strs(strs_shape(rs@)));
    }
}

/// Whether a JSON value has the top-level output shape of some conversation
/// aggregate.
pub open spec fn out_conv_shape_ok(v: JsonV) -> bool {
    match v {
        JsonV::Obj(o) => {
            &&& opt_str_slot_ok(obj_get(o, "profile_name"@))
            &&& obj_get(o, "conversation_id"@) matches Option::Some(JsonV::Str(_))
            &&& obj_get(o, "conv_type"@) matches Option::Some(JsonV::Str(_))
            &&& opt_i64_slot_ok(obj_get(o, "e164"@))
            &&& obj_get(o, "messages"@) matches Option::Some(JsonV::Arr(s)) && arr_out_msgs_ok(s)
        },
        _ => false,
    }
}

/// Reads a conversation aggregate back from its output JSON shape: one
/// comes back exactly when the shape is an aggregate's, and it carries that
/// shape.
#[verifier::spinoff_prover]
#[verifier::loop_isolation(false)]
pub fn conversation_from_output_json(j: &Json) -> (r: Option<ConversationOutput>)
    ensures
        match r {
            Option::Some(c) => out_conv_matches(j@, c) && out_conv_shape_ok(j@),
            Option::None => !out_conv_shape_ok(j@),
        },
{
    match j {
        Json::Obj(o) => {
            let profile_name = match read_opt_str(o, "profile_name") {
                Result::Ok(v) => v,
                Result::Err(_) => {
                    return Option::None;
                },
            };
            let conversation_id = match read_req_str(o, "conversation_id") {
                Result::Ok(v) => v,
                Result::Err(_) => {
                    return Option::None;
                },
            };
            let conv_type = match read_req_str(o, "conv_type") {
                Result::Ok(v) => v,
                Result::Err(_) => {
                    return Option::None;
                },
            };
            let e164 = match read_opt_i64(o, "e164") {
                Result::Ok(v) => v,
                Result::Err(_) => {
                    return Option::None;
                },
            };
            let messages = match crate::json::obj_find(o, "messages") {
                Option::None => {
                    return Option::None;
                },
                Option::Some(mj) => match mj {
                    Json::Arr(a) => {
                        proof {
                            crate::json::lemma_view_arr_index(a@);
                            assert(mj@ == JsonV::Arr(crate::json::view_arr(a@)));
                        }
                        let ghost av = crate::json::view_arr(a@);
                        let mut out: Vec<FullMessage> = Vec::new();
                        let mut i: usize = 0;
                        while i < a.len()
                            invariant
                                i <= a@.len(),
                                av == crate::json::view_arr(a@),
                                av.len() == a@.len(),
                                obj_get(view_obj(o@), "messages"@) == Option::Some(
                                    JsonV::Arr(av),
                                ),
                                forall|k: int| 0 <= k < a@.len() ==> #[trigger] av[k] == a@[k]@,
                                out@.len() == i,
                                forall|k: int|
                                    0 <= k < i ==> out_msg_matches(av[k], #[trigger] out@[k]),
                            decreases a.len() - i,
                        {
                            match message_from_output_json(&a[i]) {
                                Option::Some(m) => out.push(m),
                                Option::None => {
                                    proof {
                                        assert(av[i as int] == a@[i as int]@);
                                        assert(!arr_out_msgs_ok(av)) by {
                                            if arr_out_msgs_ok(av) {
                                                assert(out_msg_shape_ok(av[i as int]));
                                            }
                                        }
                                    }
                                    return Option::None;
                                },
                            }
                            i = i + 1;
                        }
                        proof {
                            assert forall|k: int| 0 <= k < av.len() implies out_msg_shape_ok(
                                #[trigger] av[k],
                            ) by {
                                lemma_msg_matches_shape(av[k], out@[k]);
                            }
                            assert(arr_out_msgs_ok(av));
                        }
                        out
                    },
                    _ => {
                        return Option::None;
                    },
                },
            };
            Option::Some(ConversationOutput {
                profile_name,
                conversation_id,
                conv_type,
                e164,
                messages,
            })
        },
        _ => {
            proof {
                assert(!(j@ is Obj));
            }
            Option::None
        },
    }
}

/// Field-for-field equality of two thumbnails, by content.
pub open spec fn thumb_fields_eq(x: Thumbnail, y: Thumbnail) -> bool {
    &&& x.path@ == y.path@
    &&& x.content_type@ == y.content_type@
    &&& x.width == y.width
    &&& x.height == y.height
}

/// Field-for-field equality of two attachments, by content.
pub open spec fn att_fields_eq(x: Attachment, y: Attachment) -> bool {
    &&& x.content_type@ == y.content_type@
    &&& x.path@ == y.path@
    &&& x.size == y.size
    &&& x.width == y.width
    &&& x.height == y.height
    &&& (x.thumbnail is Some <==> y.thumbnail is Some)
    &&& x.thumbnail is Some ==> thumb_fields_eq(x.thumbnail->0, y.thumbnail->0)
}

/// Field-for-field equality of two message records, by content: present
/// fields equal and absent fields absent on both sides.
pub open spec fn msg_fields_eq(x: FullMessage, y: FullMessage) -> bool {
    &&& x.timestamp == y.timestamp
    &&& (x.attachments is Some <==> y.attachments is Some)
    &&& x.attachments is Some ==> {
        &&& x.attachments->0@.len() == y.attachments->0@.len()
        &&& forall|k: int|
            0 <= k < x.attachments->0@.len() ==> att_fields_eq(
                #[trigger] x.attachments->0@[k],
                y.attachments->0@[k],
            )
    }
    &&& opt_str_shape(x.body) == opt_str_shape(y.body)
    &&& x.conversation_id@ == y.conversation_id@
    &&& x.sent_at == y.sent_at
    &&& x.received_at == y.received_at
    &&& x.received_at_ms == y.received_at_ms
    &&& (x.recipients is Some <==> y.recipients is Some)
    &&& x.recipients is Some ==> strs_shape(x.recipients->0@) == strs_shape(y.recipients->0@)
    &&& x.has_attachments == y.has_attachments
    &&& x.has_visual_media_attachments == y.has_visual_media_attachments
    &&& opt_str_shape(x.destination) == opt_str_shape(y.destination)
    &&& opt_str_shape(x.from) == opt_str_shape(y.from)
    &&& opt_str_shape(x.msg_type) == opt_str_shape(y.msg_type)
    &&& x.e164 == y.e164
    &&& opt_str_shape(x.profile_name) == opt_str_shape(y.profile_name)
    &&& opt_str_shape(x.message_name) == opt_str_shape(y.message_name)
    &&& x.id@ == y.id@
}

/// One output shape determines one message record: two records matching the
/// same rendered shape agree on every present field and on every absence, so
/// a record serialized to its output shape and parsed back is reproduced
/// exactly.
pub proof fn lemma_message_round_trip(v: JsonV, a: FullMessage, b: FullMessage)
    requires
        out_msg_matches(v, a),
        out_msg_matches(v, b),
    ensures
        msg_fields_eq(a, b),
{
    let o = v->Obj_0;
    if a.attachments is Some {
        let s = obj_get(o, "attachments"@)->0->Arr_0;
        assert forall|k: int| 0 <= k < a.attachments->0@.len() implies att_fields_eq(
            #[trigger] a.attachments->0@[k],
            b.attachments->0@[k],
        ) by {
            lemma_attachment_round_trip(s[k], a.attachments->0@[k], b.attachments->0@[k]);
        }
    }
}

/// One output shape determines one conversation aggregate, messages
/// included: serializing an aggregate to the output JSON shape and parsing
/// it back reproduces every present field exactly, and reproduces every
/// optional absence as absence.
pub proof fn lemma_conversation_round_trip(v: JsonV, a: ConversationOutput, b: ConversationOutput)
    requires
        out_conv_matches(v, a),
        out_conv_matches(v, b),
    ensures
        opt_str_shape(a.profile_name) == opt_str_shape(b.profile_name),
        a.conversation_id@ == b.conversation_id@,
        a.conv_type@ == b.conv_type@,
        a.e164 == b.e164,
        a.messages@.len() == b.messages@.len(),
        forall|k: int|
            0 <= k < a.messages@.len() ==> msg_fields_eq(
                #[trigger] a.messages@[k],
                b.messages@[k],
            ),
{
    let o = v->Obj_0;
    let s = obj_get(o, "messages"@)->0->Arr_0;
    assert forall|k: int| 0 <= k < a.messages@.len() implies msg_fields_eq(
        #[trigger] a.messages@[k],
        b.messages@[k],
    ) by {
        lemma_message_round_trip(s[k], a.messages@[k], b.messages@[k]);
    }
}

/// Derives the output file name for one aggregate: the profile name, falling
/// back to the conversation id when absent, with the `.json` extension.
pub fn output_filename(c: &ConversationOutput) -> (r: String)
    ensures
        r@ == match c.profile_name {
            Option::Some(p) => p@,
            Option::None => c.conversation_id@,
        } + ".json"@,
{
    let name = crate::payload::derive_display_name(&c.profile_name, &c.conversation_id);
    let mut out = chars_of(name.as_str());
    let ext = chars_of(".json");
    proof {
        assert(out@ =~= name@ + ".json"@.subrange(0, 0));
    }
    let mut i: usize = 0;
    while i < ext.len()
        invariant
            i <= ext.len(),
            ext@ == ".json"@,
            out@ == name@ + ".json"@.subrange(0, i as int),
        decreases ext.len() - i,
    {
        out.push(ext[i]);
        proof {
            assert(".json"@.subrange(0, (i + 1) as int) =~= ".json"@.subrange(0, i as int).push(
                ext@[i as int],
            ));
        }
        i = i + 1;
    }
    proof {
        assert(".json"@.subrange(0, ".json"@.len() as int) =~= ".json"@);
        assert(out@ == name@ + ".json"@);
    }
    crate::text::string_of(&out)
}

} // verus!
