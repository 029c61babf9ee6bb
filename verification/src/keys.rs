//! The key resolver's string side and the key-setup directive for the
//! encrypted store: stripping quote characters out of the resolved key and
//! wrapping what is left in the directive syntax the encryption extension
//! expects.

use vstd::prelude::*;
use crate::json::{get_field, parse_json, render_doc, render_json, spec_parse_doc, Json};
use crate::records::ExportError;
use crate::text::{chars_of, string_of};

verus! {

/// The key with every double-quote character removed.
pub open spec fn strip_quotes(s: Seq<char>) -> Seq<char>
    decreases s.len(),
{
    if s.len() == 0 {
        Seq::empty()
    } else {
        let p = strip_quotes(s.drop_last());
        if s.last() == '"' {
            p
        } else {
            p.push(s.last())
        }
    }
}

/// The full key-setup directive for a given (already stripped) key segment.
pub open spec fn key_pragma(key_segment: Seq<char>) -> Seq<char> {
    "PRAGMA key = \"x'"@ + key_segment + "'\";"@
}

/// No double-quote character survives the stripping: the directive's key
/// segment is quote-free for every input key.
pub proof fn lemma_strip_quotes_no_quotes(s: Seq<char>)
    ensures
        forall|i: int| 0 <= i < strip_quotes(s).len() ==> strip_quotes(s)[i] != '"',
    decreases s.len(),
{
    if s.len() > 0 {
        lemma_strip_quotes_no_quotes(s.drop_last());
        let p = strip_quotes(s.drop_last());
        if s.last() != '"' {
            assert(strip_quotes(s) == p.push(s.last()));
            assert forall|i: int| 0 <= i < strip_quotes(s).len() implies strip_quotes(s)[i]
                != '"' by {
                if i < p.len() {
                    assert(strip_quotes(s)[i] == p[i]);
                } else {
                    assert(strip_quotes(s)[i] == s.last());
                }
            }
        }
    }
}

/// Removes every double-quote character from the key string.
pub fn strip_quotes_exec(key: &str) -> (r: Vec<char>)
    ensures
        r@ == strip_quotes(key@),
{
    let chars = chars_of(key);
    let mut r: Vec<char> = Vec::new();
    let mut i: usize = 0;
    while i < chars.len()
        invariant
            i <= chars.len(),
            chars@ == key@,
            r@ == strip_quotes(key@.subrange(0, i as int)),
        decreases chars.len() - i,
    {
        let c = chars[i];
        proof {
            assert(key@.subrange(0, (i + 1) as int).drop_last() =~= key@.subrange(0, i as int));
            assert(key@.subrange(0, (i + 1) as int).last() == c);
        }
        if c != '"' {
            r.push(c);
        }
        i = i + 1;
    }
    proof {
        assert(key@.subrange(0, key@.len() as int) =~= key@);
    }
    r
}

/// Builds the key-setup directive from a resolved key string: strips every
/// double-quote character, then wraps the rest as `x'<key>'` inside the
/// directive syntax.
pub fn build_key_pragma(key: &str) -> (r: String)
    ensures
        r@ == key_pragma(strip_quotes(key@)),
{
    let stripped = strip_quotes_exec(key);
    let mut out = chars_of("PRAGMA key = \"x'");
    let mut i: usize = 0;
    while i < stripped.len()
        invariant
            i <= stripped.len(),
            stripped@ == strip_quotes(key@),
            out@ == "PRAGMA key = \"x'"@ + strip_quotes(key@).subrange(0, i as int),
        decreases stripped.len() - i,
    {
        out.push(stripped[i]);
        proof {
            assert(strip_quotes(key@).subrange(0, (i + 1) as int) =~= strip_quotes(
                key@,
            ).subrange(0, i as int).push(stripped@[i as int]));
        }
        i = i + 1;
    }
    let tail = chars_of("'\";");
    let mut j: usize = 0;
    while j < tail.len()
        invariant
            j <= tail.len(),
            tail@ == "'\";"@,
            stripped@ == strip_quotes(key@),
            out@ == "PRAGMA key = \"x'"@ + strip_quotes(key@) + "'\";"@.subrange(0, j as int),
        decreases tail.len() - j,
    {
        out.push(tail[j]);
        proof {
            assert("'\";"@.subrange(0, (j + 1) as int) =~= "'\";"@.subrange(0, j as int).push(
                tail@[j as int],
            ));
        }
        j = j + 1;
    }
    proof {
        assert(strip_quotes(key@).subrange(0, strip_quotes(key@).len() as int) =~= strip_quotes(
            key@,
        ));
        assert("'\";"@.subrange(0, "'\";"@.len() as int) =~= "'\";"@);
    }
    string_of(&out)
}

/// Extracts the key from a parsed configuration value: the rendered text of
/// its `key` field, whatever the value's kind, with any quoting the source
/// format imposes retained (the opener strips it).
pub fn key_from_config(j: &Json) -> (r: Result<String, ExportError>)
    ensures
        match r {
            Result::Ok(k) => get_field(j@, "key"@) matches Option::Some(v) && k@ == render_doc(v),
            Result::Err(e) => e is ConfigMalformed && get_field(j@, "key"@) is None,
        },
{
    match j {
        Json::Obj(o) => match crate::json::obj_find(o, "key") {
            Option::Some(kj) => Result::Ok(render_json(kj)),
            Option::None => Result::Err(ExportError::ConfigMalformed),
        },
        _ => Result::Err(ExportError::ConfigMalformed),
    }
}

/// Whether the configuration text reads as structured data carrying a `key`
/// member.
pub open spec fn config_has_key(s: Seq<char>) -> bool {
    spec_parse_doc(s) matches Option::Some(v) && get_field(v, "key"@) is Some
}

/// Resolves the key from the configuration artifact's text: the rendered
/// text of the document's `key` member, exactly when the text reads as
/// structured data carrying one; `ConfigMalformed` exactly otherwise.
pub fn extract_signal_key(contents: &str) -> (r: Result<String, ExportError>)
    ensures
        match r {
            Result::Ok(k) => spec_parse_doc(contents@) matches Option::Some(v) && get_field(
                v,
                "key"@,
            ) matches Option::Some(kv) && k@ == render_doc(kv),
            Result::Err(e) => e is ConfigMalformed && !config_has_key(contents@),
        },
{
    match parse_json(contents) {
        Option::Some(j) => key_from_config(&j),
        Option::None => Result::Err(ExportError::ConfigMalformed),
    }
}

} // verus!
