//! A small JSON model: the tree of values that payload blobs decode into and
//! that conversation aggregates are rendered from, with a text renderer and
//! a text parser.

use vstd::prelude::*;
use crate::text::{chars_of, string_of, str_eq};

verus! {

broadcast use vstd::std_specs::vec::group_vec_axioms, vstd::seq::group_seq_axioms;

/// One JSON value. A number that is not a plain 64-bit integer (a fraction,
/// an exponent, or an out-of-range magnitude) is kept as its literal text.
pub enum Json {
    Null,
    Bool(bool),
    Int(i64),
    NumText(Vec<char>),
    Str(Vec<char>),
    Arr(Vec<Json>),
    Obj(Vec<(Vec<char>, Json)>),
}

/// The mathematical shape of a JSON value.
pub enum JsonV {
    Null,
    Bool(bool),
    Int(i64),
    NumText(Seq<char>),
    Str(Seq<char>),
    Arr(Seq<JsonV>),
    Obj(Seq<(Seq<char>, JsonV)>),
}

impl View for Json {
    type V = JsonV;

    open spec fn view(&self) -> JsonV {
        view_of(*self)
    }
}

/// The shape of a JSON value.
pub open spec fn view_of(j: Json) -> JsonV
    decreases j,
{
    match j {
        Json::Null => JsonV::Null,
        Json::Bool(b) => JsonV::Bool(b),
        Json::Int(i) => JsonV::Int(i),
        Json::NumText(s) => JsonV::NumText(s@),
        Json::Str(s) => JsonV::Str(s@),
        Json::Arr(a) => JsonV::Arr(view_arr(a@)),
        Json::Obj(o) => JsonV::Obj(view_obj(o@)),
    }
}

/// The shapes of an array's elements.
pub open spec fn view_arr(a: Seq<Json>) -> Seq<JsonV>
    decreases a,
{
    if a.len() == 0 {
        Seq::empty()
    } else {
        view_arr(a.drop_last()).push(view_of(a.last()))
    }
}

/// The shapes of an object's members.
pub open spec fn view_obj(o: Seq<(Vec<char>, Json)>) -> Seq<(Seq<char>, JsonV)>
    decreases o,
{
    if o.len() == 0 {
        Seq::empty()
    } else {
        view_obj(o.drop_last()).push((o.last().0@, view_of(o.last().1)))
    }
}

/// Element-wise reading of an array's shape.
pub proof fn lemma_view_arr_index(a: Seq<Json>)
    ensures
        view_arr(a).len() == a.len(),
        forall|k: int| 0 <= k < a.len() ==> #[trigger] view_arr(a)[k] == view_of(a[k]),
    decreases a,
{
    if a.len() > 0 {
        lemma_view_arr_index(a.drop_last());
        assert forall|k: int| 0 <= k < a.len() implies #[trigger] view_arr(a)[k] == view_of(
            a[k],
        ) by {
            if k < a.len() - 1 {
                assert(a.drop_last()[k] == a[k]);
            }
        }
    }
}

/// Element-wise reading of an object's shape.
pub proof fn lemma_view_obj_index(o: Seq<(Vec<char>, Json)>)
    ensures
        view_obj(o).len() == o.len(),
        forall|k: int|
            0 <= k < o.len() ==> #[trigger] view_obj(o)[k] == (o[k].0@, view_of(o[k].1)),
    decreases o,
{
    if o.len() > 0 {
        lemma_view_obj_index(o.drop_last());
        assert forall|k: int| 0 <= k < o.len() implies #[trigger] view_obj(o)[k] == (
            o[k].0@,
            view_of(o[k].1),
        ) by {
            if k < o.len() - 1 {
                assert(o.drop_last()[k] == o[k]);
            }
        }
    }
}

/// Looks a key up among an object's members: the first member with that key.
pub open spec fn obj_get(o: Seq<(Seq<char>, JsonV)>, key: Seq<char>) -> Option<JsonV>
    decreases o.len(),
{
    if o.len() == 0 {
        Option::None
    } else if o[0].0 == key {
        Option::Some(o[0].1)
    } else {
        obj_get(o.drop_first(), key)
    }
}

/// Appending a member changes no lookup that already succeeds, and serves
/// the new key only when it was absent.
#[verifier::spinoff_prover]
proof fn lemma_obj_get_push(o: Seq<(Seq<char>, JsonV)>, p: (Seq<char>, JsonV), key: Seq<char>)
    ensures
        obj_get(o.push(p), key) == if obj_get(o, key) is Some {
            obj_get(o, key)
        } else if p.0 == key {
            Option::Some(p.1)
        } else {
            Option::None::<JsonV>
        },
    decreases o.len(),
{
    let r = o.push(p);
    if o.len() == 0 {
        assert(r[0] == p);
        assert(r.drop_first() =~= Seq::<(Seq<char>, JsonV)>::empty());
        assert(obj_get(r, key) == if p.0 == key {
            Option::Some(p.1)
        } else {
            obj_get(r.drop_first(), key)
        });
        assert(obj_get(o, key) is None);
    } else {
        assert(r[0] == o[0]);
        assert(r.drop_first() =~= o.drop_first().push(p));
        lemma_obj_get_push(o.drop_first(), p, key);
        if o[0].0 == key {
            assert(obj_get(r, key) == Option::Some(o[0].1));
            assert(obj_get(o, key) == Option::Some(o[0].1));
        } else {
            assert(obj_get(r, key) == obj_get(o.drop_first().push(p), key));
            assert(obj_get(o, key) == obj_get(o.drop_first(), key));
        }
    }
}

/// Appends one member to an object under construction: every lookup that
/// already succeeds is kept, and the new key is served only where it was
/// still absent.
pub fn push_member(members: &mut Vec<(Vec<char>, Json)>, key: &str, val: Json)
    ensures
        forall|q: Seq<char>| #[trigger] obj_get(view_obj(final(members)@), q) == if obj_get(
            view_obj(old(members)@),
            q,
        ) is Some {
            obj_get(view_obj(old(members)@), q)
        } else if q == key@ {
            Option::Some(val@)
        } else {
            Option::None::<JsonV>
        },
{
    let ghost pre = members@;
    let ghost vv = val@;
    let k = chars_of(key);
    let ghost kk = k@;
    members.push((k, val));
    proof {
        assert(members@.drop_last() =~= pre);
        assert(members@.last().0@ == kk && view_of(members@.last().1) == vv);
        assert(view_obj(members@) == view_obj(pre).push((kk, vv)));
        assert forall|q: Seq<char>| #[trigger] obj_get(view_obj(members@), q) == if obj_get(
            view_obj(pre),
            q,
        ) is Some {
            obj_get(view_obj(pre), q)
        } else if q == kk {
            Option::Some(vv)
        } else {
            Option::None::<JsonV>
        } by {
            lemma_obj_get_push(view_obj(pre), (kk, vv), q);
        }
    }
}

/// Field lookup on a whole value: `None` unless the value is an object with
/// that key.
pub open spec fn get_field(v: JsonV, key: Seq<char>) -> Option<JsonV> {
    match v {
        JsonV::Obj(o) => obj_get(o, key),
        _ => Option::None,
    }
}

/// Finds the first member with the given key, as the spec lookup does.
pub fn obj_find<'a>(o: &'a Vec<(Vec<char>, Json)>, key: &str) -> (r: Option<&'a Json>)
    ensures
        match r {
            Option::Some(j) => obj_get(view_obj(o@), key@) == Option::Some(j@),
            Option::None => obj_get(view_obj(o@), key@) is None,
        },
{
    let ghost m = view_obj(o@);
    proof {
        lemma_view_obj_index(o@);
        assert(m.skip(0) =~= m);
    }
    let mut i: usize = 0;
    while i < o.len()
        invariant
            i <= o.len(),
            m == view_obj(o@),
            m.len() == o@.len(),
            forall|k: int| 0 <= k < m.len() ==> #[trigger] m[k] == (o@[k].0@, o@[k].1@),
            obj_get(m, key@) == obj_get(m.skip(i as int), key@),
        decreases o.len() - i,
    {
        let ks = string_of(&o[i].0);
        if str_eq(ks.as_str(), key) {
            proof {
                assert(m.skip(i as int)[0] == m[i as int]);
                assert(obj_get(m.skip(i as int), key@) == Option::Some(m[i as int].1));
            }
            return Option::Some(&o[i].1);
        }
        proof {
            assert(m.skip(i as int)[0] == m[i as int]);
            assert(m.skip(i as int).drop_first() =~= m.skip(i as int + 1));
        }
        i = i + 1;
    }
    proof {
        assert(m.skip(o@.len() as int) =~= Seq::<(Seq<char>, JsonV)>::empty());
    }
    Option::None
}

/// The numeric reading of a digit sequence, most significant first.
pub open spec fn digits_value(s: Seq<char>) -> Option<int>
    decreases s.len(),
{
    if s.len() == 0 {
        Option::None
    } else {
        let d = digit_of(s.last());
        if d is None {
            Option::None
        } else if s.len() == 1 {
            Option::Some(d->0)
        } else {
            match digits_value(s.drop_last()) {
                Option::Some(hi) => Option::Some(hi * 10 + d->0),
                Option::None => Option::None,
            }
        }
    }
}

/// One decimal digit's value, if the character is one.
pub open spec fn digit_of(c: char) -> Option<int> {
    if c == '0' {
        Option::Some(0)
    } else if c == '1' {
        Option::Some(1)
    } else if c == '2' {
        Option::Some(2)
    } else if c == '3' {
        Option::Some(3)
    } else if c == '4' {
        Option::Some(4)
    } else if c == '5' {
        Option::Some(5)
    } else if c == '6' {
        Option::Some(6)
    } else if c == '7' {
        Option::Some(7)
    } else if c == '8' {
        Option::Some(8)
    } else if c == '9' {
        Option::Some(9)
    } else {
        Option::None
    }
}

/// Ten to the given power.
pub open spec fn pow10(n: nat) -> nat
    decreases n,
{
    if n == 0 {
        1
    } else {
        10 * pow10((n - 1) as nat)
    }
}

pub proof fn lemma_pow10_mono(a: nat, b: nat)
    requires
        a <= b,
    ensures
        pow10(a) <= pow10(b),
    decreases b,
{
    if a < b {
        lemma_pow10_mono(a, (b - 1) as nat);
    }
}

/// A leading zero adds nothing to a number's reading.
pub proof fn lemma_digits_leading_zero(s: Seq<char>)
    requires
        s.len() >= 2,
        s[0] == '0',
    ensures
        digits_value(s) == digits_value(s.subrange(1, s.len() as int)),
    decreases s.len(),
{
    let t = s.subrange(1, s.len() as int);
    if s.len() == 2 {
        assert(s.drop_last() =~= seq![s[0]]);
        assert(t =~= seq![s[1]]);
        assert(digits_value(seq![s[0]]) == Option::Some(0int));
    } else {
        let d = s.drop_last();
        lemma_digits_leading_zero(d);
        assert(d.subrange(1, d.len() as int) =~= t.drop_last());
        assert(t.last() == s.last());
    }
}

/// A number with twenty or more significant digits reads above the signed
/// 64-bit range (or not at all).
pub proof fn lemma_digits_big(s: Seq<char>)
    requires
        s.len() >= 20,
        digit_of(s[0]) is Some,
        s[0] != '0',
    ensures
        digits_value(s) is None || digits_value(s)->0 > i64::MAX + 1,
{
    if digits_value(s) is Some {
        lemma_digits_lower_bound(s);
        lemma_pow10_mono(19, (s.len() - 1) as nat);
        assert(pow10(19) == 10000000000000000000) by {
            reveal_with_fuel(pow10, 21);
        }
    }
}

/// A number whose first digit is not zero reads at least its power of ten.
pub proof fn lemma_digits_lower_bound(s: Seq<char>)
    requires
        s.len() >= 1,
        digit_of(s[0]) is Some,
        s[0] != '0',
        digits_value(s) is Some,
    ensures
        digits_value(s)->0 >= pow10((s.len() - 1) as nat),
    decreases s.len(),
{
    if s.len() == 1 {
        assert(digit_of(s[0])->0 >= 1);
    } else {
        let d = s.drop_last();
        assert(d[0] == s[0]);
        lemma_digits_lower_bound(d);
        assert(pow10((s.len() - 1) as nat) == 10 * pow10((s.len() - 2) as nat));
    }
}

/// A sequence with a non-digit in it reads as no number.
pub proof fn lemma_digits_value_all(s: Seq<char>, k: int)
    requires
        0 <= k < s.len(),
        digit_of(s[k]) is None,
    ensures
        digits_value(s) is None,
    decreases s.len(),
{
    if s.len() > 0 && digit_of(s.last()) is Some {
        assert(k < s.len() - 1);
        assert(s.drop_last()[k] == s[k]);
        lemma_digits_value_all(s.drop_last(), k);
    }
}

/// One decimal digit's character.
pub open spec fn dec_digit(d: nat) -> char {
    if d == 0 {
        '0'
    } else if d == 1 {
        '1'
    } else if d == 2 {
        '2'
    } else if d == 3 {
        '3'
    } else if d == 4 {
        '4'
    } else if d == 5 {
        '5'
    } else if d == 6 {
        '6'
    } else if d == 7 {
        '7'
    } else if d == 8 {
        '8'
    } else {
        '9'
    }
}

/// One hexadecimal digit's character, lower case.
pub open spec fn hex_char(d: nat) -> char {
    if d < 10 {
        dec_digit(d)
    } else if d == 10 {
        'a'
    } else if d == 11 {
        'b'
    } else if d == 12 {
        'c'
    } else if d == 13 {
        'd'
    } else if d == 14 {
        'e'
    } else {
        'f'
    }
}

/// The decimal digits of a magnitude, most significant first.
pub open spec fn dec_text(m: nat) -> Seq<char>
    decreases m,
{
    if m < 10 {
        seq![dec_digit(m)]
    } else {
        dec_text(m / 10).push(dec_digit(m % 10))
    }
}

/// The decimal rendering of a signed integer.
pub open spec fn int_text(i: int) -> Seq<char> {
    if i < 0 {
        seq!['-'] + dec_text((-i) as nat)
    } else {
        dec_text(i as nat)
    }
}

/// How one character of a string value is written: quote, backslash and the
/// named control characters by their short escapes, any other control
/// character as a four-digit escape, everything else as itself.
pub open spec fn escape_char(c: char) -> Seq<char> {
    if c == '"' {
        seq!['\\', '"']
    } else if c == '\\' {
        seq!['\\', '\\']
    } else if c == '\n' {
        seq!['\\', 'n']
    } else if c == '\r' {
        seq!['\\', 'r']
    } else if c == '\t' {
        seq!['\\', 't']
    } else if (c as u32) < 0x20 {
        seq!['\\', 'u', '0', '0', hex_char(((c as u32) / 16) as nat), hex_char(
            ((c as u32) % 16) as nat,
        )]
    } else {
        seq![c]
    }
}

/// A string value's characters, escaped in order.
pub open spec fn escaped_body(s: Seq<char>) -> Seq<char>
    decreases s.len(),
{
    if s.len() == 0 {
        Seq::empty()
    } else {
        escaped_body(s.drop_last()) + escape_char(s.last())
    }
}

/// The pretty rendering of a value. `ind` is the indentation of the
/// enclosing line; nested members get two more spaces.
pub open spec fn render_spec(j: JsonV, ind: Seq<char>) -> Seq<char>
    decreases j,
{
    match j {
        JsonV::Null => "null"@,
        JsonV::Bool(b) => if b {
            "true"@
        } else {
            "false"@
        },
        JsonV::Int(i) => int_text(i as int),
        JsonV::NumText(s) => s,
        JsonV::Str(s) => seq!['"'] + escaped_body(s) + seq!['"'],
        JsonV::Arr(a) => if a.len() == 0 {
            "[]"@
        } else {
            seq!['['] + arr_body(a, ind + seq![' ', ' ']) + seq!['\n'] + ind + seq![']']
        },
        JsonV::Obj(o) => if o.len() == 0 {
            "{}"@
        } else {
            seq!['{'] + obj_body(o, ind + seq![' ', ' ']) + seq!['\n'] + ind + seq!['}']
        },
    }
}

/// An array's elements, each on its own indented line.
pub open spec fn arr_body(a: Seq<JsonV>, ind: Seq<char>) -> Seq<char>
    decreases a,
{
    if a.len() == 0 {
        Seq::empty()
    } else {
        arr_body(a.drop_last(), ind) + (if a.len() == 1 {
            seq!['\n']
        } else {
            seq![',', '\n']
        }) + ind + render_spec(a.last(), ind)
    }
}

/// An object's members, each on its own indented line as `"key": value`.
pub open spec fn obj_body(o: Seq<(Seq<char>, JsonV)>, ind: Seq<char>) -> Seq<char>
    decreases o,
{
    if o.len() == 0 {
        Seq::empty()
    } else {
        obj_body(o.drop_last(), ind) + (if o.len() == 1 {
            seq!['\n']
        } else {
            seq![',', '\n']
        }) + ind + seq!['"'] + escaped_body(o.last().0) + seq!['"', ':', ' '] + render_spec(
            o.last().1,
            ind,
        )
    }
}

/// A whole document's text: its value rendered with no outer indentation.
pub open spec fn render_doc(j: JsonV) -> Seq<char> {
    render_spec(j, Seq::empty())
}

/// The decimal digit character for one digit value.
fn digit_char(d: u64) -> (c: char)
    requires
        d < 10,
    ensures
        c == dec_digit(d as nat),
{
    match d {
        0 => '0',
        1 => '1',
        2 => '2',
        3 => '3',
        4 => '4',
        5 => '5',
        6 => '6',
        7 => '7',
        8 => '8',
        _ => '9',
    }
}

/// Appends the decimal digits of a magnitude.
fn push_dec(out: &mut Vec<char>, m: u64)
    ensures
        final(out)@ == old(out)@ + dec_text(m as nat),
    decreases m,
{
    if m < 10 {
        let c = digit_char(m);
        out.push(c);
        proof {
            assert(final(out)@ =~= old(out)@ + dec_text(m as nat));
        }
    } else {
        push_dec(out, m / 10);
        let c = digit_char(m % 10);
        out.push(c);
        proof {
            assert(final(out)@ =~= old(out)@ + dec_text(m as nat));
        }
    }
}

/// Appends the decimal rendering of a signed integer.
fn push_int(out: &mut Vec<char>, i: i64)
    ensures
        final(out)@ == old(out)@ + int_text(i as int),
{
    if i < 0 {
        out.push('-');
        let mag: u64 = ((-(i + 1)) as u64) + 1;
        proof {
            assert(mag as int == -(i as int));
        }
        push_dec(out, mag);
        proof {
            assert(final(out)@ =~= old(out)@ + int_text(i as int));
        }
    } else {
        push_dec(out, i as u64);
    }
}

/// The hexadecimal digit character for one value.
fn hex_char_of(d: u32) -> (c: char)
    requires
        d < 16,
    ensures
        c == hex_char(d as nat),
{
    match d {
        0 => '0',
        1 => '1',
        2 => '2',
        3 => '3',
        4 => '4',
        5 => '5',
        6 => '6',
        7 => '7',
        8 => '8',
        9 => '9',
        10 => 'a',
        11 => 'b',
        12 => 'c',
        13 => 'd',
        14 => 'e',
        _ => 'f',
    }
}

/// Appends a string value with its quotes, escaping every character as the
/// format says.
#[verifier::loop_isolation(false)]
fn push_escaped(out: &mut Vec<char>, s: &Vec<char>)
    ensures
        final(out)@ == old(out)@ + seq!['"'] + escaped_body(s@) + seq!['"'],
{
    out.push('"');
    proof {
        assert(out@ =~= old(out)@ + seq!['"'] + escaped_body(s@.subrange(0, 0)));
    }
    let mut i: usize = 0;
    while i < s.len()
        invariant
            i <= s@.len(),
            out@ == old(out)@ + seq!['"'] + escaped_body(s@.subrange(0, i as int)),
        decreases s.len() - i,
    {
        let c = s[i];
        if c == '"' {
            out.push('\\');
            out.push('"');
        } else if c == '\\' {
            out.push('\\');
            out.push('\\');
        } else if c == '\n' {
            out.push('\\');
            out.push('n');
        } else if c == '\r' {
            out.push('\\');
            out.push('r');
        } else if c == '\t' {
            out.push('\\');
            out.push('t');
        } else if (c as u32) < 0x20 {
            out.push('\\');
            out.push('u');
            out.push('0');
            out.push('0');
            let h1 = hex_char_of((c as u32) / 16);
            out.push(h1);
            let h2 = hex_char_of((c as u32) % 16);
            out.push(h2);
        } else {
            out.push(c);
        }
        proof {
            assert(s@.subrange(0, i as int + 1).drop_last() =~= s@.subrange(0, i as int));
            assert(s@.subrange(0, i as int + 1).last() == c);
            assert(out@ =~= old(out)@ + seq!['"'] + escaped_body(s@.subrange(0, i as int + 1)));
        }
        i = i + 1;
    }
    proof {
        assert(s@.subrange(0, s@.len() as int) =~= s@);
    }
    out.push('"');
    proof {
        assert(out@ =~= old(out)@ + seq!['"'] + escaped_body(s@) + seq!['"']);
    }
}

#[verifier::loop_isolation(false)]
fn push_str_lit(out: &mut Vec<char>, s: &str)
    ensures
        final(out)@ == old(out)@ + s@,
{
    let cs = chars_of(s);
    let mut i: usize = 0;
    while i < cs.len()
        invariant
            i <= cs@.len(),
            out@ == old(out)@ + s@.subrange(0, i as int),
        decreases cs.len() - i,
    {
        out.push(cs[i]);
        proof {
            assert(s@.subrange(0, i as int + 1) =~= s@.subrange(0, i as int).push(cs@[i as int]));
            assert(out@ =~= old(out)@ + s@.subrange(0, i as int + 1));
        }
        i = i + 1;
    }
    proof {
        assert(s@.subrange(0, s@.len() as int) =~= s@);
    }
}

/// Two more spaces of indentation for one nesting level.
fn extend_indent(indent: &Vec<char>) -> (r: Vec<char>)
    ensures
        r@ == indent@ + seq![' ', ' '],
{
    let mut r: Vec<char> = Vec::new();
    let mut i: usize = 0;
    while i < indent.len()
        invariant
            i <= indent@.len(),
            r@ == indent@.subrange(0, i as int),
        decreases indent.len() - i,
    {
        r.push(indent[i]);
        proof {
            assert(indent@.subrange(0, i as int + 1) =~= indent@.subrange(0, i as int).push(
                indent@[i as int],
            ));
        }
        i = i + 1;
    }
    proof {
        assert(indent@.subrange(0, indent@.len() as int) =~= indent@);
    }
    r.push(' ');
    r.push(' ');
    proof {
        assert(r@ =~= indent@ + seq![' ', ' ']);
    }
    r
}

/// Appends the pretty rendering of a value. `indent` is the indentation of
/// the enclosing line; nested members get two more spaces.
#[verifier::loop_isolation(false)]
#[verifier::rlimit(100)]
#[verifier::spinoff_prover]
fn render_into(j: &Json, indent: &Vec<char>, out: &mut Vec<char>)
    ensures
        final(out)@ == old(out)@ + render_spec(j@, indent@),
    decreases j,
{
    match j {
        Json::Null => push_str_lit(out, "null"),
        Json::Bool(b) => {
            if *b {
                push_str_lit(out, "true")
            } else {
                push_str_lit(out, "false")
            }
        },
        Json::Int(i) => push_int(out, *i),
        Json::NumText(s) => {
            let mut i: usize = 0;
            proof {
                assert(out@ =~= old(out)@ + s@.subrange(0, 0));
            }
            while i < s.len()
                invariant
                    i <= s@.len(),
                    out@ == old(out)@ + s@.subrange(0, i as int),
                decreases s.len() - i,
            {
                out.push(s[i]);
                proof {
                    assert(s@.subrange(0, i as int + 1) =~= s@.subrange(0, i as int).push(
                        s@[i as int],
                    ));
                    assert(out@ =~= old(out)@ + s@.subrange(0, i as int + 1));
                }
                i = i + 1;
            }
            proof {
                assert(s@.subrange(0, s@.len() as int) =~= s@);
            }
        },
        Json::Str(s) => push_escaped(out, s),
        Json::Arr(a) => {
            if a.len() == 0 {
                push_str_lit(out, "[]");
            } else {
                let inner = extend_indent(indent);
                let ghost av = view_arr(a@);
                proof {
                    lemma_view_arr_index(a@);
                }
                out.push('[');
                proof {
                    assert(out@ =~= old(out)@ + seq!['['] + arr_body(
                        av.subrange(0, 0),
                        inner@,
                    ));
                }
                let mut i: usize = 0;
                while i < a.len()
                    invariant
                        i <= a@.len(),
                        out@ == old(out)@ + seq!['['] + arr_body(av.subrange(0, i as int), inner@),
                    decreases a.len() - i,
                {
                    if i > 0 {
                        out.push(',');
                    }
                    out.push('\n');
                    push_indent(out, &inner);
                    proof {
                        assert(*j == Json::Arr(*a));
                        assert(decreases_to!(*j => *a));
                        assert(decreases_to!(*a => a@));
                        assert(decreases_to!(a@ => a@[i as int]));
                    }
                    render_into(&a[i], &inner, out);
                    proof {
                        assert(av.subrange(0, i as int + 1).drop_last() =~= av.subrange(
                            0,
                            i as int,
                        ));
                        assert(av.subrange(0, i as int + 1).last() == av[i as int]);
                        assert(out@ =~= old(out)@ + seq!['['] + arr_body(
                            av.subrange(0, i as int + 1),
                            inner@,
                        ));
                    }
                    i = i + 1;
                }
                proof {
                    assert(av.subrange(0, av.len() as int) =~= av);
                }
                out.push('\n');
                push_indent(out, indent);
                out.push(']');
                proof {
                    assert(out@ =~= old(out)@ + render_spec(view_of(*j), indent@));
                }
            }
        },
        Json::Obj(o) => {
            if o.len() == 0 {
                push_str_lit(out, "{}");
            } else {
                let inner = extend_indent(indent);
                let ghost ov = view_obj(o@);
                proof {
                    lemma_view_obj_index(o@);
                }
                out.push('{');
                proof {
                    assert(out@ =~= old(out)@ + seq!['{'] + obj_body(
                        ov.subrange(0, 0),
                        inner@,
                    ));
                }
                let mut i: usize = 0;
                while i < o.len()
                    invariant
                        i <= o@.len(),
                        out@ == old(out)@ + seq!['{'] + obj_body(ov.subrange(0, i as int), inner@),
                    decreases o.len() - i,
                {
                    if i > 0 {
                        out.push(',');
                    }
                    out.push('\n');
                    push_indent(out, &inner);
                    push_escaped(out, &o[i].0);
                    out.push(':');
                    out.push(' ');
                    proof {
                        assert(*j == Json::Obj(*o));
                        assert(decreases_to!(*j => *o));
                        assert(decreases_to!(*o => o@));
                        assert(decreases_to!(o@ => o@[i as int]));
                        assert(decreases_to!(o@[i as int] => o@[i as int].1));
                    }
                    render_into(&o[i].1, &inner, out);
                    proof {
                        assert(ov.subrange(0, i as int + 1).drop_last() =~= ov.subrange(
                            0,
                            i as int,
                        ));
                        assert(ov.subrange(0, i as int + 1).last() == ov[i as int]);
                        assert(ov[i as int] == (o@[i as int].0@, view_of(o@[i as int].1)));
                        assert(out@ =~= old(out)@ + seq!['{'] + obj_body(
                            ov.subrange(0, i as int + 1),
                            inner@,
                        ));
                    }
                    i = i + 1;
                }
                proof {
                    assert(ov.subrange(0, ov.len() as int) =~= ov);
                }
                out.push('\n');
                push_indent(out, indent);
                out.push('}');
                proof {
                    assert(out@ =~= old(out)@ + render_spec(view_of(*j), indent@));
                }
            }
        },
    }
}

#[verifier::loop_isolation(false)]
fn push_indent(out: &mut Vec<char>, indent: &Vec<char>)
    ensures
        final(out)@ == old(out)@ + indent@,
{
    let mut i: usize = 0;
    proof {
        assert(out@ =~= old(out)@ + indent@.subrange(0, 0));
    }
    while i < indent.len()
        invariant
            i <= indent@.len(),
            out@ == old(out)@ + indent@.subrange(0, i as int),
        decreases indent.len() - i,
    {
        out.push(indent[i]);
        proof {
            assert(indent@.subrange(0, i as int + 1) =~= indent@.subrange(0, i as int).push(
                indent@[i as int],
            ));
            assert(out@ =~= old(out)@ + indent@.subrange(0, i as int + 1));
        }
        i = i + 1;
    }
    proof {
        assert(indent@.subrange(0, indent@.len() as int) =~= indent@);
    }
}

/// Renders a value as pretty-printed JSON text: exactly the format's
/// rendering of its shape.
pub fn render_json(j: &Json) -> (r: String)
    ensures
        r@ == render_doc(j@),
{
    let indent: Vec<char> = Vec::new();
    let mut out: Vec<char> = Vec::new();
    render_into(j, &indent, &mut out);
    proof {
        assert(out@ =~= render_spec(j@, Seq::<char>::empty()));
    }
    string_of(&out)
}

/// Whether a character is a blank the format skips between tokens.
pub open spec fn is_ws(c: char) -> bool {
    c == ' ' || c == '\n' || c == '\r' || c == '\t'
}

/// The first position at or after `i` that holds something besides blanks.
pub open spec fn ws_end(s: Seq<char>, i: int) -> int
    decreases s.len() - i,
{
    if 0 <= i < s.len() && is_ws(s[i]) {
        ws_end(s, i + 1)
    } else {
        i
    }
}

/// Whether the literal stands at the position.
pub open spec fn lit_at(s: Seq<char>, i: int, l: Seq<char>) -> bool {
    0 <= i && i + l.len() <= s.len() && s.subrange(i, i + l.len()) == l
}

/// The first position at or after `i` that holds no decimal digit.
pub open spec fn digits_end(s: Seq<char>, i: int) -> int
    decreases s.len() - i,
{
    if 0 <= i < s.len() && digit_of(s[i]) is Some {
        digits_end(s, i + 1)
    } else {
        i
    }
}

/// Whether a character can continue a numeric literal.
pub open spec fn is_num_char(c: char) -> bool {
    digit_of(c) is Some || c == '.' || c == 'e' || c == 'E' || c == '+' || c == '-'
}

/// The first position at or after `i` that cannot continue a numeric
/// literal.
pub open spec fn num_end(s: Seq<char>, i: int) -> int
    decreases s.len() - i,
{
    if 0 <= i < s.len() && is_num_char(s[i]) {
        num_end(s, i + 1)
    } else {
        i
    }
}

/// How a numeric literal at `i` reads: a plain integer in the signed 64-bit
/// range becomes a number; a fraction, an exponent or an out-of-range
/// magnitude keeps its text.
pub open spec fn spec_parse_number(s: Seq<char>, i: int) -> Option<(JsonV, int)> {
    let ds = if 0 <= i < s.len() && s[i] == '-' {
        i + 1
    } else {
        i
    };
    let de = digits_end(s, ds);
    if de == ds {
        Option::None
    } else {
        let ne = num_end(s, de);
        let raw = s.subrange(i, ne);
        match digits_value(s.subrange(ds, de)) {
            Option::Some(v) => if ne == de && ds == i && v <= i64::MAX {
                Option::Some((JsonV::Int(v as i64), ne))
            } else if ne == de && ds != i && v <= i64::MAX + 1 {
                Option::Some((JsonV::Int((0 - v) as i64), ne))
            } else {
                Option::Some((JsonV::NumText(raw), ne))
            },
            Option::None => Option::Some((JsonV::NumText(raw), ne)),
        }
    }
}

/// One hexadecimal digit's value, either case.
pub open spec fn hexdigit_of(c: char) -> Option<int> {
    if digit_of(c) is Some {
        digit_of(c)
    } else if c == 'a' || c == 'A' {
        Option::Some(10int)
    } else if c == 'b' || c == 'B' {
        Option::Some(11int)
    } else if c == 'c' || c == 'C' {
        Option::Some(12int)
    } else if c == 'd' || c == 'D' {
        Option::Some(13int)
    } else if c == 'e' || c == 'E' {
        Option::Some(14int)
    } else if c == 'f' || c == 'F' {
        Option::Some(15int)
    } else {
        Option::None
    }
}

/// Four hexadecimal digits at `j`, read as one number.
pub open spec fn hex4_at(s: Seq<char>, j: int) -> Option<int> {
    if !(0 <= j && j + 4 <= s.len()) {
        Option::None
    } else {
        match (hexdigit_of(s[j]), hexdigit_of(s[j + 1]), hexdigit_of(s[j + 2]), hexdigit_of(
            s[j + 3],
        )) {
            (Option::Some(a), Option::Some(b), Option::Some(c), Option::Some(d)) => Option::Some(
                ((a * 16 + b) * 16 + c) * 16 + d,
            ),
            _ => Option::None,
        }
    }
}

/// A character's scalar value.
pub open spec fn code_of(ch: char) -> int {
    ch as int
}

/// The character with the given scalar value.
pub open spec fn char_of_code(c: int) -> char {
    choose|ch: char| #[trigger] code_of(ch) == c
}

/// One decoded character prepended to the rest of a string body.
pub open spec fn str_cons(c: char, rest: Option<(Seq<char>, int)>) -> Option<(Seq<char>, int)> {
    match rest {
        Option::Some(p) => Option::Some((seq![c] + p.0, p.1)),
        Option::None => Option::None,
    }
}

/// How a string body reads from `j` (just after the opening quote) to its
/// closing quote: plain characters as themselves, short escapes, four-digit
/// escapes, and a surrogate pair as one combined character.
pub open spec fn spec_str_body(s: Seq<char>, j: int) -> Option<(Seq<char>, int)>
    decreases s.len() - j,
{
    if !(0 <= j < s.len()) {
        Option::None
    } else if s[j] == '"' {
        Option::Some((Seq::empty(), j + 1))
    } else if s[j] == '\\' {
        if j + 1 >= s.len() {
            Option::None
        } else {
            let e = s[j + 1];
            if e == '"' {
                str_cons('"', spec_str_body(s, j + 2))
            } else if e == '\\' {
                str_cons('\\', spec_str_body(s, j + 2))
            } else if e == '/' {
                str_cons('/', spec_str_body(s, j + 2))
            } else if e == 'n' {
                str_cons('\n', spec_str_body(s, j + 2))
            } else if e == 'r' {
                str_cons('\r', spec_str_body(s, j + 2))
            } else if e == 't' {
                str_cons('\t', spec_str_body(s, j + 2))
            } else if e == 'b' {
                str_cons('\u{0008}', spec_str_body(s, j + 2))
            } else if e == 'f' {
                str_cons('\u{000c}', spec_str_body(s, j + 2))
            } else if e == 'u' {
                if j + 6 > s.len() {
                    Option::None
                } else {
                    match hex4_at(s, j + 2) {
                        Option::None => Option::None,
                        Option::Some(code) => if 0xD800 <= code < 0xDC00 {
                            if j + 12 > s.len() {
                                Option::None
                            } else if s[j + 6] != '\\' || s[j + 7] != 'u' {
                                Option::None
                            } else {
                                match hex4_at(s, j + 8) {
                                    Option::None => Option::None,
                                    Option::Some(low) => if !(0xDC00 <= low < 0xE000) {
                                        Option::None
                                    } else {
                                        str_cons(
                                            char_of_code(
                                                0x10000 + (code - 0xD800) * 0x400 + (low - 0xDC00),
                                            ),
                                            spec_str_body(s, j + 12),
                                        )
                                    },
                                }
                            }
                        } else if 0xDC00 <= code < 0xE000 {
                            Option::None
                        } else {
                            str_cons(char_of_code(code), spec_str_body(s, j + 6))
                        },
                    }
                }
            } else {
                Option::None
            }
        }
    } else {
        str_cons(s[j], spec_str_body(s, j + 1))
    }
}

/// How a quoted string at `i` reads: its decoded characters and the position
/// after the closing quote.
pub open spec fn spec_parse_string(s: Seq<char>, i: int) -> Option<(Seq<char>, int)> {
    if 0 <= i < s.len() && s[i] == '"' {
        spec_str_body(s, i + 1)
    } else {
        Option::None
    }
}

/// One parsed element prepended to the rest of an array body.
pub open spec fn cons_item(v: JsonV, rest: Option<(Seq<JsonV>, int)>) -> Option<(Seq<JsonV>, int)> {
    match rest {
        Option::Some(q) => Option::Some((seq![v] + q.0, q.1)),
        Option::None => Option::None,
    }
}

/// One parsed member prepended to the rest of an object body.
pub open spec fn cons_member(
    kv: (Seq<char>, JsonV),
    rest: Option<(Seq<(Seq<char>, JsonV)>, int)>,
) -> Option<(Seq<(Seq<char>, JsonV)>, int)> {
    match rest {
        Option::Some(q) => Option::Some((seq![kv] + q.0, q.1)),
        Option::None => Option::None,
    }
}

/// How one value reads at `i` (blanks already skipped): a literal, a string,
/// an array, an object or a number, with the position after it.
pub open spec fn spec_parse_value(s: Seq<char>, i: int) -> Option<(JsonV, int)>
    decreases s.len() - i, 0int,
{
    if !(0 <= i < s.len()) {
        Option::None
    } else {
        let c = s[i];
        if c == 'n' {
            if lit_at(s, i, "null"@) {
                Option::Some((JsonV::Null, i + "null"@.len()))
            } else {
                Option::None
            }
        } else if c == 't' {
            if lit_at(s, i, "true"@) {
                Option::Some((JsonV::Bool(true), i + "true"@.len()))
            } else {
                Option::None
            }
        } else if c == 'f' {
            if lit_at(s, i, "false"@) {
                Option::Some((JsonV::Bool(false), i + "false"@.len()))
            } else {
                Option::None
            }
        } else if c == '"' {
            match spec_parse_string(s, i) {
                Option::Some(p) => Option::Some((JsonV::Str(p.0), p.1)),
                Option::None => Option::None,
            }
        } else if c == '[' {
            spec_parse_array(s, i + 1)
        } else if c == '{' {
            spec_parse_object(s, i + 1)
        } else {
            spec_parse_number(s, i)
        }
    }
}

/// How an array body reads, from just after `[`.
pub open spec fn spec_parse_array(s: Seq<char>, i: int) -> Option<(JsonV, int)>
    decreases s.len() - i, 2int,
{
    if !(0 <= i <= s.len()) {
        Option::None
    } else {
        let cur = ws_end(s, i);
        if !(i <= cur <= s.len()) {
            Option::None
        } else if cur < s.len() && s[cur] == ']' {
            Option::Some((JsonV::Arr(Seq::empty()), cur + 1))
        } else {
            match spec_arr_items(s, cur) {
                Option::Some(p) => Option::Some((JsonV::Arr(p.0), p.1)),
                Option::None => Option::None,
            }
        }
    }
}

/// How one or more comma-separated elements read, ending at `]`.
pub open spec fn spec_arr_items(s: Seq<char>, i: int) -> Option<(Seq<JsonV>, int)>
    decreases s.len() - i, 1int,
{
    if !(0 <= i <= s.len()) {
        Option::None
    } else {
        match spec_parse_value(s, i) {
            Option::None => Option::None,
            Option::Some(p) => {
                let j = p.1;
                if !(i < j <= s.len()) {
                    Option::None
                } else {
                    let k = ws_end(s, j);
                    if !(j <= k <= s.len()) {
                        Option::None
                    } else if k >= s.len() {
                        Option::None
                    } else if s[k] == ']' {
                        Option::Some((seq![p.0], k + 1))
                    } else if s[k] != ',' {
                        Option::None
                    } else {
                        let n = ws_end(s, k + 1);
                        if !(k < n <= s.len()) {
                            Option::None
                        } else {
                            cons_item(p.0, spec_arr_items(s, n))
                        }
                    }
                }
            },
        }
    }
}

/// How an object body reads, from just after `{`.
pub open spec fn spec_parse_object(s: Seq<char>, i: int) -> Option<(JsonV, int)>
    decreases s.len() - i, 2int,
{
    if !(0 <= i <= s.len()) {
        Option::None
    } else {
        let cur = ws_end(s, i);
        if !(i <= cur <= s.len()) {
            Option::None
        } else if cur < s.len() && s[cur] == '}' {
            Option::Some((JsonV::Obj(Seq::empty()), cur + 1))
        } else {
            match spec_obj_items(s, cur) {
                Option::Some(p) => Option::Some((JsonV::Obj(p.0), p.1)),
                Option::None => Option::None,
            }
        }
    }
}

/// How one or more comma-separated `"key": value` members read, ending at
/// `}`.
pub open spec fn spec_obj_items(s: Seq<char>, i: int) -> Option<(Seq<(Seq<char>, JsonV)>, int)>
    decreases s.len() - i, 1int,
{
    if !(0 <= i <= s.len()) {
        Option::None
    } else {
        match spec_parse_string(s, i) {
            Option::None => Option::None,
            Option::Some(kp) => {
                let j = kp.1;
                if !(i < j <= s.len()) {
                    Option::None
                } else {
                    let co = ws_end(s, j);
                    if !(j <= co <= s.len()) {
                        Option::None
                    } else if co >= s.len() || s[co] != ':' {
                        Option::None
                    } else {
                        let vs = ws_end(s, co + 1);
                        if !(co < vs <= s.len()) {
                            Option::None
                        } else {
                            match spec_parse_value(s, vs) {
                                Option::None => Option::None,
                                Option::Some(p) => {
                                    let a = p.1;
                                    if !(vs < a <= s.len()) {
                                        Option::None
                                    } else {
                                        let k = ws_end(s, a);
                                        if !(a <= k <= s.len()) {
                                            Option::None
                                        } else if k >= s.len() {
                                            Option::None
                                        } else if s[k] == '}' {
                                            Option::Some((seq![(kp.0, p.0)], k + 1))
                                        } else if s[k] != ',' {
                                            Option::None
                                        } else {
                                            let n = ws_end(s, k + 1);
                                            if !(k < n <= s.len()) {
                                                Option::None
                                            } else {
                                                cons_member((kp.0, p.0), spec_obj_items(s, n))
                                            }
                                        }
                                    }
                                },
                            }
                        }
                    }
                }
            },
        }
    }
}

/// How a whole document reads: one value with nothing but blanks around it.
pub open spec fn spec_parse_doc(s: Seq<char>) -> Option<JsonV> {
    let st = ws_end(s, 0);
    match spec_parse_value(s, st) {
        Option::Some(p) => if ws_end(s, p.1) == s.len() {
            Option::Some(p.0)
        } else {
            Option::None
        },
        Option::None => Option::None,
    }
}

/// Skips blanks, returning the first position at or after `i` that holds
/// something else.
fn skip_ws(s: &Vec<char>, i: usize) -> (r: usize)
    requires
        i <= s.len(),
    ensures
        i <= r <= s@.len(),
        r as int == ws_end(s@, i as int),
    decreases s.len() - i,
{
    if i < s.len() {
        let c = s[i];
        if c == ' ' || c == '\n' || c == '\r' || c == '\t' {
            return skip_ws(s, i + 1);
        }
    }
    i
}

/// Consumes the given literal at the position, if it is there.
fn eat_lit(s: &Vec<char>, i: usize, lit: &str) -> (r: Option<usize>)
    requires
        i <= s.len(),
    ensures
        match r {
            Option::Some(j) => i < j <= s@.len() && j == i + lit@.len() && lit_at(
                s@,
                i as int,
                lit@,
            ),
            Option::None => !lit_at(s@, i as int, lit@) || lit@.len() == 0,
        },
{
    let l = chars_of(lit);
    if l.len() == 0 || s.len() - i < l.len() {
        return Option::None;
    }
    let mut k: usize = 0;
    while k < l.len()
        invariant
            i + l@.len() <= s@.len(),
            s@.len() <= usize::MAX,
            l@.len() > 0,
            k <= l@.len(),
            l@ == lit@,
            forall|t: int| 0 <= t < k ==> s@[i + t] == l@[t],
        decreases l.len() - k,
    {
        if s[i + k] != l[k] {
            proof {
                assert(!lit_at(s@, i as int, lit@)) by {
                    if lit_at(s@, i as int, lit@) {
                        assert(s@.subrange(i as int, i + lit@.len())[k as int] == s@[i + k]);
                    }
                }
            }
            return Option::None;
        }
        k = k + 1;
    }
    proof {
        assert(s@.subrange(i as int, i + lit@.len()) =~= lit@);
    }
    Option::Some(i + l.len())
}

fn is_digit(c: char) -> (r: bool)
    ensures
        r == (digit_of(c) is Some),
{
    c == '0' || c == '1' || c == '2' || c == '3' || c == '4' || c == '5' || c == '6' || c == '7'
        || c == '8' || c == '9'
}

fn digit_val(c: char) -> (d: u64)
    ensures
        d < 10,
        digit_of(c) matches Option::Some(dd) ==> d as int == dd,
{
    match c {
        '0' => 0,
        '1' => 1,
        '2' => 2,
        '3' => 3,
        '4' => 4,
        '5' => 5,
        '6' => 6,
        '7' => 7,
        '8' => 8,
        _ => 9,
    }
}

/// Parses a number starting at `i`, as the format says: a plain integer in
/// the signed 64-bit range becomes a number, anything else keeps its text.
#[verifier::loop_isolation(false)]
#[verifier::rlimit(100)]
#[verifier::spinoff_prover]
fn parse_number(s: &Vec<char>, i: usize) -> (r: Option<(Json, usize)>)
    requires
        i <= s.len(),
    ensures
        match r {
            Option::Some(p) => i < p.1 <= s@.len() && spec_parse_number(s@, i as int)
                == Option::Some((p.0@, p.1 as int)),
            Option::None => spec_parse_number(s@, i as int) is None,
        },
    decreases s.len() - i,
{
    let mut ds: usize = i;
    if i < s.len() && s[i] == '-' {
        ds = i + 1;
    }
    let ghost neg = ds != i;
    let mut de: usize = ds;
    while de < s.len() && is_digit(s[de])
        invariant
            ds <= de <= s@.len(),
            digits_end(s@, ds as int) == digits_end(s@, de as int),
        decreases s.len() - de,
    {
        de = de + 1;
    }
    proof {
        assert(digits_end(s@, de as int) == de as int);
    }
    if de == ds {
        return Option::None;
    }
    let mut ne: usize = de;
    while ne < s.len() && (is_digit(s[ne]) || s[ne] == '.' || s[ne] == 'e' || s[ne] == 'E'
        || s[ne] == '+' || s[ne] == '-')
        invariant
            de <= ne <= s@.len(),
            num_end(s@, de as int) == num_end(s@, ne as int),
        decreases s.len() - ne,
    {
        ne = ne + 1;
    }
    proof {
        assert(num_end(s@, ne as int) == ne as int);
    }
    if ne == de {
        let mut z: usize = ds;
        while z + 1 < de && s[z] == '0'
            invariant
                ds <= z < de,
                digits_end(s@, z as int) == de as int,
                digits_value(s@.subrange(ds as int, de as int)) == digits_value(
                    s@.subrange(z as int, de as int),
                ),
            decreases de - z,
        {
            proof {
                let cur = s@.subrange(z as int, de as int);
                lemma_digits_leading_zero(cur);
                assert(cur.subrange(1, cur.len() as int) =~= s@.subrange(
                    z as int + 1,
                    de as int,
                ));
            }
            z = z + 1;
        }
        if de - z < 20 {
            let mut acc: u64 = 0;
            let mut q: usize = z;
            while q < de
                invariant
                    z <= q <= de <= s@.len(),
                    de - z < 20,
                    digits_end(s@, q as int) == de as int,
                    acc < pow10((q - z) as nat),
                    q > z ==> digits_value(s@.subrange(z as int, q as int)) == Option::Some(
                        acc as int,
                    ),
                    q == z ==> acc == 0,
                decreases de - q,
            {
                let ghost pre = s@.subrange(z as int, q as int);
                let d = digit_val(s[q]);
                proof {
                    assert(digit_of(s@[q as int]) is Some);
                    lemma_pow10_mono((q - z) as nat, 18);
                    assert(pow10(18) == 1000000000000000000) by {
                        reveal_with_fuel(pow10, 20);
                    }
                    assert(s@.subrange(z as int, q as int + 1).drop_last() =~= pre);
                    assert(s@.subrange(z as int, q as int + 1).last() == s@[q as int]);
                }
                acc = acc * 10 + d;
                q = q + 1;
                proof {
                    assert(pow10((q - z) as nat) == 10 * pow10((q - 1 - z) as nat));
                }
            }
            let ghost v = digits_value(s@.subrange(ds as int, de as int))->0;
            proof {
                assert(digits_value(s@.subrange(z as int, de as int)) == Option::Some(acc as int));
                assert(v == acc as int);
            }
            if ds == i && acc <= 9223372036854775807 {
                return Option::Some((Json::Int(acc as i64), ne));
            }
            if ds != i && acc <= 9223372036854775807 {
                let w: i64 = -(acc as i64);
                return Option::Some((Json::Int(w), ne));
            }
            if ds != i && acc == 9223372036854775808 {
                return Option::Some((Json::Int(i64::MIN), ne));
            }
        } else {
            proof {
                let cur = s@.subrange(z as int, de as int);
                assert(cur[0] == s@[z as int]);
                assert(digit_of(s@[z as int]) is Some);
                assert(s@[z as int] != '0');
                lemma_digits_big(cur);
            }
        }
    }
    let mut raw: Vec<char> = Vec::new();
    let mut t: usize = i;
    proof {
        assert(raw@ =~= s@.subrange(i as int, i as int));
    }
    while t < ne
        invariant
            i <= t <= ne <= s@.len(),
            raw@ == s@.subrange(i as int, t as int),
        decreases ne - t,
    {
        raw.push(s[t]);
        proof {
            assert(s@.subrange(i as int, t as int + 1) =~= s@.subrange(i as int, t as int).push(
                s@[t as int],
            ));
        }
        t = t + 1;
    }
    Option::Some((Json::NumText(raw), ne))
}

/// A string body's characters accumulate left to right.
pub open spec fn str_chain(prefix: Seq<char>, rest: Option<(Seq<char>, int)>) -> Option<
    (Seq<char>, int),
> {
    match rest {
        Option::Some(p) => Option::Some((prefix + p.0, p.1)),
        Option::None => Option::None,
    }
}

proof fn lemma_str_chain_empty(rest: Option<(Seq<char>, int)>)
    ensures
        str_chain(Seq::empty(), rest) == rest,
{
    if rest is Some {
        let q = rest->0;
        assert(Seq::empty() + q.0 =~= q.0);
    }
}

proof fn lemma_str_chain_cons(prefix: Seq<char>, c: char, rest: Option<(Seq<char>, int)>)
    ensures
        str_chain(prefix, str_cons(c, rest)) == str_chain(prefix.push(c), rest),
{
    if rest is Some {
        let q = rest->0;
        assert(prefix + (seq![c] + q.0) =~= prefix.push(c) + q.0);
    }
}

/// Parses a quoted string starting at the opening quote, as the format says.
#[verifier::loop_isolation(false)]
#[verifier::rlimit(100)]
#[verifier::spinoff_prover]
fn parse_string(s: &Vec<char>, i: usize) -> (r: Option<(Vec<char>, usize)>)
    requires
        i <= s.len(),
    ensures
        match r {
            Option::Some(p) => i < p.1 <= s@.len() && spec_parse_string(s@, i as int)
                == Option::Some((p.0@, p.1 as int)),
            Option::None => spec_parse_string(s@, i as int) is None,
        },
    decreases s.len() - i,
{
    if i >= s.len() || s[i] != '"' {
        return Option::None;
    }
    let mut out: Vec<char> = Vec::new();
    let mut j: usize = i + 1;
    proof {
        lemma_str_chain_empty(spec_str_body(s@, j as int));
    }
    while j < s.len()
        invariant
            i < j <= s@.len(),
            spec_str_body(s@, i as int + 1) == str_chain(out@, spec_str_body(s@, j as int)),
        decreases s.len() - j,
    {
        let c = s[j];
        if c == '"' {
            proof {
                assert(out@ + Seq::<char>::empty() =~= out@);
            }
            return Option::Some((out, j + 1));
        }
        if c == '\\' {
            if j + 1 >= s.len() {
                return Option::None;
            }
            let e = s[j + 1];
            if e == '"' {
                proof {
                    lemma_str_chain_cons(out@, '"', spec_str_body(s@, j as int + 2));
                }
                out.push('"');
            } else if e == '\\' {
                proof {
                    lemma_str_chain_cons(out@, '\\', spec_str_body(s@, j as int + 2));
                }
                out.push('\\');
            } else if e == '/' {
                proof {
                    lemma_str_chain_cons(out@, '/', spec_str_body(s@, j as int + 2));
                }
                out.push('/');
            } else if e == 'n' {
                proof {
                    lemma_str_chain_cons(out@, '\n', spec_str_body(s@, j as int + 2));
                }
                out.push('\n');
            } else if e == 'r' {
                proof {
                    lemma_str_chain_cons(out@, '\r', spec_str_body(s@, j as int + 2));
                }
                out.push('\r');
            } else if e == 't' {
                proof {
                    lemma_str_chain_cons(out@, '\t', spec_str_body(s@, j as int + 2));
                }
                out.push('\t');
            } else if e == 'b' {
                proof {
                    lemma_str_chain_cons(out@, '\u{0008}', spec_str_body(s@, j as int + 2));
                }
                out.push('\u{0008}');
            } else if e == 'f' {
                proof {
                    lemma_str_chain_cons(out@, '\u{000c}', spec_str_body(s@, j as int + 2));
                }
                out.push('\u{000c}');
            } else if e == 'u' {
                if s.len() - j <= 5 {
                    return Option::None;
                }
                let h0 = match hex_val(s[j + 2]) {
                    Option::Some(v) => v,
                    Option::None => return Option::None,
                };
                let h1 = match hex_val(s[j + 3]) {
                    Option::Some(v) => v,
                    Option::None => return Option::None,
                };
                let h2 = match hex_val(s[j + 4]) {
                    Option::Some(v) => v,
                    Option::None => return Option::None,
                };
                let h3 = match hex_val(s[j + 5]) {
                    Option::Some(v) => v,
                    Option::None => return Option::None,
                };
                let code: u32 = ((h0 * 16 + h1) * 16 + h2) * 16 + h3;
                proof {
                    assert(hex4_at(s@, j as int + 2) == Option::Some(code as int));
                }
                if 0xD800 <= code && code < 0xDC00 {
                    if s.len() - j <= 11 {
                        return Option::None;
                    }
                    if s[j + 6] != '\\' || s[j + 7] != 'u' {
                        return Option::None;
                    }
                    let l0 = match hex_val(s[j + 8]) {
                        Option::Some(v) => v,
                        Option::None => return Option::None,
                    };
                    let l1 = match hex_val(s[j + 9]) {
                        Option::Some(v) => v,
                        Option::None => return Option::None,
                    };
                    let l2 = match hex_val(s[j + 10]) {
                        Option::Some(v) => v,
                        Option::None => return Option::None,
                    };
                    let l3 = match hex_val(s[j + 11]) {
                        Option::Some(v) => v,
                        Option::None => return Option::None,
                    };
                    let low: u32 = ((l0 * 16 + l1) * 16 + l2) * 16 + l3;
                    proof {
                        assert(hex4_at(s@, j as int + 8) == Option::Some(low as int));
                    }
                    if !(0xDC00 <= low && low < 0xE000) {
                        return Option::None;
                    }
                    let combined: u32 = 0x10000 + (code - 0xD800) * 0x400 + (low - 0xDC00);
                    match char_from_u32(combined) {
                        Option::Some(u) => {
                            proof {
                                assert(code_of(u) == combined as int);
                                assert(char_of_code(combined as int) == u) by {
                                    let w = char_of_code(combined as int);
                                    assert(code_of(w) == combined as int);
                                    assert(w as int == u as int);
                                }
                                lemma_str_chain_cons(out@, u, spec_str_body(s@, j as int + 12));
                            }
                            out.push(u);
                        },
                        Option::None => {
                            proof {
                                assert(false);
                            }
                            return Option::None;
                        },
                    }
                    j = j + 12;
                    continue ;
                }
                match char_from_u32(code) {
                    Option::Some(u) => {
                        proof {
                            assert(code_of(u) == code as int);
                            assert(char_of_code(code as int) == u) by {
                                let w = char_of_code(code as int);
                                assert(code_of(w) == code as int);
                                assert(w as int == u as int);
                            }
                            lemma_str_chain_cons(out@, u, spec_str_body(s@, j as int + 6));
                        }
                        out.push(u);
                    },
                    Option::None => return Option::None,
                }
                j = j + 6;
                continue ;
            } else {
                return Option::None;
            }
            j = j + 2;
        } else {
            proof {
                lemma_str_chain_cons(out@, c, spec_str_body(s@, j as int + 1));
            }
            out.push(c);
            j = j + 1;
        }
    }
    Option::None
}

/// One hexadecimal digit's value.
fn hex_val(c: char) -> (r: Option<u32>)
    ensures
        match r {
            Option::Some(v) => v < 16 && hexdigit_of(c) == Option::Some(v as int),
            Option::None => hexdigit_of(c) is None,
        },
{
    if is_digit(c) {
        Option::Some(digit_val(c) as u32)
    } else if c == 'a' || c == 'A' {
        Option::Some(10)
    } else if c == 'b' || c == 'B' {
        Option::Some(11)
    } else if c == 'c' || c == 'C' {
        Option::Some(12)
    } else if c == 'd' || c == 'D' {
        Option::Some(13)
    } else if c == 'e' || c == 'E' {
        Option::Some(14)
    } else if c == 'f' || c == 'F' {
        Option::Some(15)
    } else {
        Option::None
    }
}

/// Relies on `char::from_u32`: `Some` exactly on scalar values, carrying
/// that value.
#[verifier::external_body]
fn char_from_u32(code: u32) -> (r: Option<char>)
    ensures
        r is Some <==> (code < 0xD800 || (0xE000 <= code && code <= 0x10FFFF)),
        r matches Option::Some(c) ==> c as int == code as int,
{
    char::from_u32(code)
}

/// An array body's elements accumulate left to right.
pub open spec fn arr_chain(prefix: Seq<JsonV>, rest: Option<(Seq<JsonV>, int)>) -> Option<
    (JsonV, int),
> {
    match rest {
        Option::Some(q) => Option::Some((JsonV::Arr(prefix + q.0), q.1)),
        Option::None => Option::None,
    }
}

proof fn lemma_arr_chain_empty(rest: Option<(Seq<JsonV>, int)>)
    ensures
        arr_chain(Seq::empty(), rest) == match rest {
            Option::Some(q) => Option::Some((JsonV::Arr(q.0), q.1)),
            Option::None => Option::None::<(JsonV, int)>,
        },
{
    if rest is Some {
        let q = rest->0;
        assert(Seq::empty() + q.0 =~= q.0);
    }
}

proof fn lemma_arr_chain_cons(prefix: Seq<JsonV>, v: JsonV, rest: Option<(Seq<JsonV>, int)>)
    ensures
        arr_chain(prefix, cons_item(v, rest)) == arr_chain(prefix.push(v), rest),
{
    if rest is Some {
        let q = rest->0;
        assert(prefix + (seq![v] + q.0) =~= prefix.push(v) + q.0);
    }
}

/// An object body's members accumulate left to right.
pub open spec fn obj_chain(
    prefix: Seq<(Seq<char>, JsonV)>,
    rest: Option<(Seq<(Seq<char>, JsonV)>, int)>,
) -> Option<(JsonV, int)> {
    match rest {
        Option::Some(q) => Option::Some((JsonV::Obj(prefix + q.0), q.1)),
        Option::None => Option::None,
    }
}

proof fn lemma_obj_chain_empty(rest: Option<(Seq<(Seq<char>, JsonV)>, int)>)
    ensures
        obj_chain(Seq::empty(), rest) == match rest {
            Option::Some(q) => Option::Some((JsonV::Obj(q.0), q.1)),
            Option::None => Option::None::<(JsonV, int)>,
        },
{
    if rest is Some {
        let q = rest->0;
        assert(Seq::empty() + q.0 =~= q.0);
    }
}

proof fn lemma_obj_chain_cons(
    prefix: Seq<(Seq<char>, JsonV)>,
    kv: (Seq<char>, JsonV),
    rest: Option<(Seq<(Seq<char>, JsonV)>, int)>,
)
    ensures
        obj_chain(prefix, cons_member(kv, rest)) == obj_chain(prefix.push(kv), rest),
{
    if rest is Some {
        let q = rest->0;
        assert(prefix + (seq![kv] + q.0) =~= prefix.push(kv) + q.0);
    }
}

/// Parses one JSON value starting at `i` (blanks already skipped), as the
/// format says, returning it with the position after it.
#[verifier::rlimit(100)]
#[verifier::spinoff_prover]
fn parse_value(s: &Vec<char>, i: usize) -> (r: Option<(Json, usize)>)
    requires
        i <= s.len(),
    ensures
        match r {
            Option::Some(p) => i < p.1 <= s@.len() && spec_parse_value(s@, i as int)
                == Option::Some((p.0@, p.1 as int)),
            Option::None => spec_parse_value(s@, i as int) is None,
        },
    decreases s.len() - i, 0int,
{
    proof {
        reveal_strlit("null");
        reveal_strlit("true");
        reveal_strlit("false");
    }
    if i >= s.len() {
        return Option::None;
    }
    let c = s[i];
    if c == 'n' {
        return match eat_lit(s, i, "null") {
            Option::Some(j) => Option::Some((Json::Null, j)),
            Option::None => Option::None,
        };
    }
    if c == 't' {
        return match eat_lit(s, i, "true") {
            Option::Some(j) => Option::Some((Json::Bool(true), j)),
            Option::None => Option::None,
        };
    }
    if c == 'f' {
        return match eat_lit(s, i, "false") {
            Option::Some(j) => Option::Some((Json::Bool(false), j)),
            Option::None => Option::None,
        };
    }
    if c == '"' {
        return match parse_string(s, i) {
            Option::Some((t, j)) => Option::Some((Json::Str(t), j)),
            Option::None => Option::None,
        };
    }
    if c == '[' {
        return parse_array(s, i + 1);
    }
    if c == '{' {
        return parse_object(s, i + 1);
    }
    parse_number(s, i)
}

/// Parses the rest of an array, starting just after `[`, as the format says.
#[verifier::loop_isolation(false)]
#[verifier::rlimit(100)]
#[verifier::spinoff_prover]
fn parse_array(s: &Vec<char>, i: usize) -> (r: Option<(Json, usize)>)
    requires
        i <= s.len(),
    ensures
        match r {
            Option::Some(p) => i - 1 < p.1 <= s@.len() && spec_parse_array(s@, i as int)
                == Option::Some((p.0@, p.1 as int)),
            Option::None => spec_parse_array(s@, i as int) is None,
        },
    decreases s.len() - i, 2int,
{
    let mut elems: Vec<Json> = Vec::new();
    let mut cur = skip_ws(s, i);
    if cur < s.len() && s[cur] == ']' {
        proof {
            assert(view_arr(elems@) =~= Seq::<JsonV>::empty());
        }
        return Option::Some((Json::Arr(elems), cur + 1));
    }
    proof {
        lemma_arr_chain_empty(spec_arr_items(s@, cur as int));
        assert(view_arr(elems@) =~= Seq::<JsonV>::empty());
    }
    loop
        invariant
            i <= cur <= s@.len(),
            spec_parse_array(s@, i as int) == arr_chain(
                view_arr(elems@),
                spec_arr_items(s@, cur as int),
            ),
        decreases s.len() - cur, 1int,
    {
        let v = match parse_value(s, cur) {
            Option::Some(p) => p,
            Option::None => {
                return Option::None;
            },
        };
        let ghost pre = elems@;
        let ghost vv = v.0@;
        elems.push(v.0);
        proof {
            assert(elems@.drop_last() =~= pre);
            assert(view_arr(elems@) == view_arr(pre).push(vv));
        }
        cur = skip_ws(s, v.1);
        if cur >= s.len() {
            return Option::None;
        }
        if s[cur] == ']' {
            proof {
                assert(view_arr(pre) + seq![vv] =~= view_arr(elems@));
            }
            return Option::Some((Json::Arr(elems), cur + 1));
        }
        if s[cur] != ',' {
            return Option::None;
        }
        cur = skip_ws(s, cur + 1);
        proof {
            lemma_arr_chain_cons(view_arr(pre), vv, spec_arr_items(s@, cur as int));
        }
    }
}

/// Parses the rest of an object, starting just after `{`, as the format
/// says.
#[verifier::loop_isolation(false)]
#[verifier::rlimit(100)]
#[verifier::spinoff_prover]
fn parse_object(s: &Vec<char>, i: usize) -> (r: Option<(Json, usize)>)
    requires
        i <= s.len(),
    ensures
        match r {
            Option::Some(p) => i - 1 < p.1 <= s@.len() && spec_parse_object(s@, i as int)
                == Option::Some((p.0@, p.1 as int)),
            Option::None => spec_parse_object(s@, i as int) is None,
        },
    decreases s.len() - i, 2int,
{
    let mut members: Vec<(Vec<char>, Json)> = Vec::new();
    let mut cur = skip_ws(s, i);
    if cur < s.len() && s[cur] == '}' {
        proof {
            assert(view_obj(members@) =~= Seq::<(Seq<char>, JsonV)>::empty());
        }
        return Option::Some((Json::Obj(members), cur + 1));
    }
    proof {
        lemma_obj_chain_empty(spec_obj_items(s@, cur as int));
        assert(view_obj(members@) =~= Seq::<(Seq<char>, JsonV)>::empty());
    }
    loop
        invariant
            i <= cur <= s@.len(),
            spec_parse_object(s@, i as int) == obj_chain(
                view_obj(members@),
                spec_obj_items(s@, cur as int),
            ),
        decreases s.len() - cur, 1int,
    {
        let k = match parse_string(s, cur) {
            Option::Some(p) => p,
            Option::None => {
                return Option::None;
            },
        };
        cur = skip_ws(s, k.1);
        if cur >= s.len() || s[cur] != ':' {
            return Option::None;
        }
        cur = skip_ws(s, cur + 1);
        let v = match parse_value(s, cur) {
            Option::Some(p) => p,
            Option::None => {
                return Option::None;
            },
        };
        let ghost pre = members@;
        let ghost kv = (k.0@, v.0@);
        members.push((k.0, v.0));
        proof {
            assert(members@.drop_last() =~= pre);
            assert(view_obj(members@) == view_obj(pre).push(kv));
        }
        cur = skip_ws(s, v.1);
        if cur >= s.len() {
            return Option::None;
        }
        if s[cur] == '}' {
            proof {
                assert(view_obj(pre) + seq![kv] =~= view_obj(members@));
            }
            return Option::Some((Json::Obj(members), cur + 1));
        }
        if s[cur] != ',' {
            return Option::None;
        }
        cur = skip_ws(s, cur + 1);
        proof {
            lemma_obj_chain_cons(view_obj(pre), kv, spec_obj_items(s@, cur as int));
        }
    }
}

/// Parses a whole JSON document, as the format says: one value with nothing
/// but blanks around it, or nothing at all where the text reads as no
/// document.
pub fn parse_json(text: &str) -> (r: Option<Json>)
    ensures
        match r {
            Option::Some(j) => spec_parse_doc(text@) == Option::Some(j@),
            Option::None => spec_parse_doc(text@) is None,
        },
{
    let s = chars_of(text);
    let start: usize = skip_ws(&s, 0);
    match parse_value(&s, start) {
        Option::Some((j, after)) => {
            let end: usize = skip_ws(&s, after);
            if end == s.len() {
                Option::Some(j)
            } else {
                Option::None
            }
        },
        Option::None => Option::None,
    }
}

} // verus!
