//! The library's JSON value type.  Templates, render contexts, task
//! configuration and task results are all JSON shaped; this type carries them
//! as a tagged variant with the six JSON shapes.  A number is carried as its
//! decimal text, which keeps its value exact.

use vstd::prelude::*;

verus! {

broadcast use vstd::std_specs::vec::group_vec_axioms;

use crate::text::chars_to_string;
use crate::text::str_to_chars;

/// The mathematical shape of a JSON value.
#[verifier::ext_equal]
pub enum JsonV {
    Null,
    Bool(bool),
    Num(Seq<char>),
    Str(Seq<char>),
    Arr(Seq<JsonV>),
    Obj(Seq<(Seq<char>, JsonV)>),
}

/// A JSON value.  An object keeps its entries in insertion order.
#[derive(Debug, PartialEq)]
pub enum Json {
    Null,
    Bool(bool),
    Num(String),
    Str(String),
    Arr(Vec<Json>),
    Obj(Vec<(String, Json)>),
}

/// The view of a sequence of array elements.
pub open spec fn arr_view(s: Seq<Json>) -> Seq<JsonV>
    decreases s,
{
    if s.len() == 0 {
        Seq::empty()
    } else {
        arr_view(s.drop_last()).push(s.last()@)
    }
}

/// The view of a sequence of object entries.
pub open spec fn obj_view(s: Seq<(String, Json)>) -> Seq<(Seq<char>, JsonV)>
    decreases s,
{
    if s.len() == 0 {
        Seq::empty()
    } else {
        obj_view(s.drop_last()).push((s.last().0@, s.last().1@))
    }
}

impl View for Json {
    type V = JsonV;

    open spec fn view(&self) -> JsonV
        decreases self,
    {
        match self {
            Json::Null => JsonV::Null,
            Json::Bool(b) => JsonV::Bool(*b),
            Json::Num(s) => JsonV::Num(s@),
            Json::Str(s) => JsonV::Str(s@),
            Json::Arr(v) => JsonV::Arr(arr_view(v@)),
            Json::Obj(v) => JsonV::Obj(obj_view(v@)),
        }
    }
}

/// The view of an array value, element by element.
pub proof fn lemma_arr_view(s: Seq<Json>)
    ensures
        arr_view(s).len() == s.len(),
        forall|k: int| 0 <= k < s.len() ==> #[trigger] arr_view(s)[k] == s[k]@,
    decreases s,
{
    if s.len() > 0 {
        lemma_arr_view(s.drop_last());
        assert(arr_view(s) == arr_view(s.drop_last()).push(s.last()@));
        assert(arr_view(s.drop_last()).len() == s.len() - 1);
        assert(arr_view(s).len() == s.len());
        assert forall|k: int| 0 <= k < s.len() implies #[trigger] arr_view(s)[k] == s[k]@ by {
            if k < s.len() - 1 {
                assert(arr_view(s)[k] == arr_view(s.drop_last())[k]);
                assert(s.drop_last()[k] == s[k]);
            } else {
                assert(arr_view(s)[k] == s.last()@);
            }
        }
    }
}

/// The view of an object value, entry by entry.
pub proof fn lemma_obj_view(s: Seq<(String, Json)>)
    ensures
        obj_view(s).len() == s.len(),
        forall|k: int| 0 <= k < s.len() ==> #[trigger] obj_view(s)[k] == (s[k].0@, s[k].1@),
    decreases s,
{
    if s.len() > 0 {
        lemma_obj_view(s.drop_last());
        assert forall|k: int|
            0 <= k < s.len() implies #[trigger] obj_view(s)[k] == (s[k].0@, s[k].1@) by {
            if k < s.len() - 1 {
                assert(obj_view(s)[k] == obj_view(s.drop_last())[k]);
                assert(s.drop_last()[k] == s[k]);
            } else {
                assert(obj_view(s)[k] == (s.last().0@, s.last().1@));
            }
        }
    }
}

/// A deep copy of a JSON value, with the same view.
#[verifier::loop_isolation(false)]
fn duplicate_json(j: &Json) -> (r: Json)
    ensures
        r@ == j@,
    decreases j,
{
    match j {
        Json::Null => Json::Null,
        Json::Bool(b) => Json::Bool(*b),
        Json::Num(s) => Json::Num(s.clone()),
        Json::Str(s) => Json::Str(s.clone()),
        Json::Arr(v) => {
            let mut out: Vec<Json> = Vec::new();
            let mut i: usize = 0;
            while i < v.len()
                invariant
                    i <= v@.len(),
                    out@.len() == i,
                    forall|k: int| 0 <= k < i ==> #[trigger] out@[k]@ == v@[k]@,
                decreases v@.len() - i,
            {
                out.push(duplicate_json(&v[i]));
                i = i + 1;
            }
            proof {
                lemma_arr_view(out@);
                lemma_arr_view(v@);
            }
            let r = Json::Arr(out);
            proof {
                assert(r@->Arr_0 =~= j@->Arr_0);
                assert(r@ =~= j@);
            }
            r
        },
        Json::Obj(v) => {
            let mut out: Vec<(String, Json)> = Vec::new();
            let mut i: usize = 0;
            while i < v.len()
                invariant
                    i <= v@.len(),
                    out@.len() == i,
                    forall|k: int|
                        0 <= k < i ==> (#[trigger] out@[k].0@ == v@[k].0@) && out@[k].1@
                            == v@[k].1@,
                decreases v@.len() - i,
            {
                let key = v[i].0.clone();
                let val = duplicate_json(&v[i].1);
                out.push((key, val));
                i = i + 1;
            }
            proof {
                lemma_obj_view(out@);
                lemma_obj_view(v@);
            }
            let r = Json::Obj(out);
            proof {
                assert forall|k: int| 0 <= k < v@.len() implies r@->Obj_0[k] == j@->Obj_0[k] by {
                    assert(r@->Obj_0[k] == (out@[k].0@, out@[k].1@));
                    assert(j@->Obj_0[k] == (v@[k].0@, v@[k].1@));
                }
                assert(r@->Obj_0 =~= j@->Obj_0);
                assert(r@ =~= j@);
            }
            r
        },
    }
}

impl Clone for Json {
    /// A deep copy with the same view.
    fn clone(&self) -> (r: Json)
        ensures
            r@ == self@,
    {
        duplicate_json(self)
    }
}

impl Json {
    /// A number value from its decimal text.
    pub fn num_from(text: &str) -> (r: Json)
        ensures
            r@ == JsonV::Num(text@),
    {
        Json::Num(text.to_owned())
    }

    /// A string value.
    pub fn str_from(text: &str) -> (r: Json)
        ensures
            r@ == JsonV::Str(text@),
    {
        Json::Str(text.to_owned())
    }
}

// ---------- serialization ----------

/// One hexadecimal digit, lower case.
pub open spec fn hex_digit(n: int) -> char {
    if n == 0 {
        '0'
    } else if n == 1 {
        '1'
    } else if n == 2 {
        '2'
    } else if n == 3 {
        '3'
    } else if n == 4 {
        '4'
    } else if n == 5 {
        '5'
    } else if n == 6 {
        '6'
    } else if n == 7 {
        '7'
    } else if n == 8 {
        '8'
    } else if n == 9 {
        '9'
    } else if n == 10 {
        'a'
    } else if n == 11 {
        'b'
    } else if n == 12 {
        'c'
    } else if n == 13 {
        'd'
    } else if n == 14 {
        'e'
    } else {
        'f'
    }
}

/// The escape of one character inside a JSON string literal.
pub open spec fn escape_char(c: char) -> Seq<char> {
    if c == '"' {
        seq!['\\', '"']
    } else if c == '\\' {
        seq!['\\', '\\']
    } else if c as u32 == 0x8 {
        seq!['\\', 'b']
    } else if c as u32 == 0x9 {
        seq!['\\', 't']
    } else if c as u32 == 0xa {
        seq!['\\', 'n']
    } else if c as u32 == 0xc {
        seq!['\\', 'f']
    } else if c as u32 == 0xd {
        seq!['\\', 'r']
    } else if (c as u32) < 0x20 {
        seq!['\\', 'u', '0', '0', hex_digit(c as u32 as int / 16), hex_digit(
            c as u32 as int % 16,
        )]
    } else {
        seq![c]
    }
}

pub open spec fn escape_seq(s: Seq<char>) -> Seq<char>
    decreases s.len(),
{
    if s.len() == 0 {
        Seq::empty()
    } else {
        escape_seq(s.drop_last()) + escape_char(s.last())
    }
}

/// The compact JSON text of a value: no added white space, object entries in
/// their stored order.
pub open spec fn json_text(v: JsonV) -> Seq<char>
    decreases v,
{
    match v {
        JsonV::Null => "null"@,
        JsonV::Bool(b) => if b {
            "true"@
        } else {
            "false"@
        },
        JsonV::Num(s) => s,
        JsonV::Str(s) => seq!['"'] + escape_seq(s) + seq!['"'],
        JsonV::Arr(es) => seq!['['] + arr_items_text(es) + seq![']'],
        JsonV::Obj(es) => seq!['{'] + obj_items_text(es) + seq!['}'],
    }
}

pub open spec fn arr_items_text(es: Seq<JsonV>) -> Seq<char>
    decreases es,
{
    if es.len() == 0 {
        Seq::empty()
    } else if es.len() == 1 {
        json_text(es[0])
    } else {
        arr_items_text(es.drop_last()) + seq![','] + json_text(es.last())
    }
}

pub open spec fn obj_entry_text(e: (Seq<char>, JsonV)) -> Seq<char>
    decreases e,
{
    seq!['"'] + escape_seq(e.0) + seq!['"', ':'] + json_text(e.1)
}

pub open spec fn obj_items_text(es: Seq<(Seq<char>, JsonV)>) -> Seq<char>
    decreases es,
{
    if es.len() == 0 {
        Seq::empty()
    } else if es.len() == 1 {
        obj_entry_text(es[0])
    } else {
        obj_items_text(es.drop_last()) + seq![','] + obj_entry_text(es.last())
    }
}

fn push_hex_digit(out: &mut Vec<char>, n: u32)
    requires
        n < 16,
    ensures
        final(out)@ == old(out)@.push(hex_digit(n as int)),
{
    let c: char = if n == 0 {
        '0'
    } else if n == 1 {
        '1'
    } else if n == 2 {
        '2'
    } else if n == 3 {
        '3'
    } else if n == 4 {
        '4'
    } else if n == 5 {
        '5'
    } else if n == 6 {
        '6'
    } else if n == 7 {
        '7'
    } else if n == 8 {
        '8'
    } else if n == 9 {
        '9'
    } else if n == 10 {
        'a'
    } else if n == 11 {
        'b'
    } else if n == 12 {
        'c'
    } else if n == 13 {
        'd'
    } else if n == 14 {
        'e'
    } else {
        'f'
    };
    out.push(c);
}

fn push_escaped(out: &mut Vec<char>, c: char)
    ensures
        final(out)@ == old(out)@ + escape_char(c),
{
    let u = c as u32;
    if c == '"' {
        out.push('\\');
        out.push('"');
    } else if c == '\\' {
        out.push('\\');
        out.push('\\');
    } else if u == 0x8 {
        out.push('\\');
        out.push('b');
    } else if u == 0x9 {
        out.push('\\');
        out.push('t');
    } else if u == 0xa {
        out.push('\\');
        out.push('n');
    } else if u == 0xc {
        out.push('\\');
        out.push('f');
    } else if u == 0xd {
        out.push('\\');
        out.push('r');
    } else if u < 0x20 {
        out.push('\\');
        out.push('u');
        out.push('0');
        out.push('0');
        push_hex_digit(out, u / 16);
        push_hex_digit(out, u % 16);
    } else {
        out.push(c);
    }
    proof {
        assert(out@ =~= old(out)@ + escape_char(c));
    }
}

#[verifier::loop_isolation(false)]
fn push_escaped_str(out: &mut Vec<char>, s: &String)
    ensures
        final(out)@ == old(out)@ + escape_seq(s@),
{
    let cs = str_to_chars(s.as_str());
    let mut i: usize = 0;
    proof {
        assert(cs@.subrange(0, 0) =~= Seq::<char>::empty());
        assert(out@ =~= old(out)@ + escape_seq(cs@.subrange(0, 0)));
    }
    while i < cs.len()
        invariant
            i <= cs@.len(),
            out@ == old(out)@ + escape_seq(cs@.subrange(0, i as int)),
        decreases cs@.len() - i,
    {
        push_escaped(out, cs[i]);
        i = i + 1;
        proof {
            let t = cs@.subrange(0, i as int);
            assert(t.drop_last() =~= cs@.subrange(0, i as int - 1));
            assert(t.last() == cs@[i as int - 1]);
            assert(out@ =~= old(out)@ + escape_seq(t));
        }
    }
    proof {
        assert(cs@.subrange(0, cs@.len() as int) =~= s@);
    }
}

fn push_str_chars(out: &mut Vec<char>, s: &str)
    ensures
        final(out)@ == old(out)@ + s@,
{
    let cs = str_to_chars(s);
    let mut i: usize = 0;
    while i < cs.len()
        invariant
            i <= cs@.len(),
            cs@ == s@,
            out@ == old(out)@ + s@.subrange(0, i as int),
        decreases cs@.len() - i,
    {
        out.push(cs[i]);
        i = i + 1;
        proof {
            assert(old(out)@ + s@.subrange(0, i as int) =~= (old(out)@ + s@.subrange(
                0,
                i as int - 1,
            )).push(s@[i as int - 1]));
        }
    }
    proof {
        assert(s@.subrange(0, s@.len() as int) =~= s@);
        assert(out@ =~= old(out)@ + s@);
    }
}

/// The compact JSON text of `j`, appended to `out`.
#[verifier::loop_isolation(false)]
fn push_json_text(j: &Json, out: &mut Vec<char>)
    ensures
        final(out)@ == old(out)@ + json_text(j@),
    decreases j,
{
    match j {
        Json::Null => {
            push_str_chars(out, "null");
        },
        Json::Bool(b) => {
            if *b {
                push_str_chars(out, "true");
            } else {
                push_str_chars(out, "false");
            }
        },
        Json::Num(s) => {
            push_str_chars(out, s.as_str());
        },
        Json::Str(s) => {
            out.push('"');
            push_escaped_str(out, s);
            out.push('"');
            proof {
                assert(out@ =~= old(out)@ + json_text(j@));
            }
        },
        Json::Arr(items) => {
            proof {
                lemma_arr_view(items@);
            }
            out.push('[');
            let ghost es = j@->Arr_0;
            let mut i: usize = 0;
            proof {
                assert(es.subrange(0, 0) =~= Seq::<JsonV>::empty());
            }
            while i < items.len()
                invariant
                    i <= items@.len(),
                    out@ == old(out)@ + seq!['['] + arr_items_text(es.subrange(0, i as int)),
                decreases items@.len() - i,
            {
                if i > 0 {
                    out.push(',');
                }
                push_json_text(&items[i], out);
                i = i + 1;
                proof {
                    let t = es.subrange(0, i as int);
                    assert(t.drop_last() =~= es.subrange(0, i as int - 1));
                    assert(t.last() == es[i as int - 1]);
                    assert(es[i as int - 1] == items@[i as int - 1]@);
                    assert(out@ =~= old(out)@ + seq!['['] + arr_items_text(t));
                }
            }
            out.push(']');
            proof {
                assert(es.subrange(0, es.len() as int) =~= es);
                assert(out@ =~= old(out)@ + json_text(j@));
            }
        },
        Json::Obj(entries) => {
            proof {
                lemma_obj_view(entries@);
            }
            out.push('{');
            let ghost es = j@->Obj_0;
            let mut i: usize = 0;
            proof {
                assert(es.subrange(0, 0) =~= Seq::<(Seq<char>, JsonV)>::empty());
            }
            while i < entries.len()
                invariant
                    i <= entries@.len(),
                    out@ == old(out)@ + seq!['{'] + obj_items_text(es.subrange(0, i as int)),
                decreases entries@.len() - i,
            {
                if i > 0 {
                    out.push(',');
                }
                out.push('"');
                push_escaped_str(out, &entries[i].0);
                out.push('"');
                out.push(':');
                push_json_text(&entries[i].1, out);
                i = i + 1;
                proof {
                    let t = es.subrange(0, i as int);
                    assert(t.drop_last() =~= es.subrange(0, i as int - 1));
                    assert(t.last() == es[i as int - 1]);
                    assert(es[i as int - 1] == (entries@[i as int - 1].0@, entries@[i as int
                        - 1].1@));
                    assert(obj_entry_text(t.last()) == seq!['"'] + escape_seq(t.last().0) + seq![
                        '"',
                        ':',
                    ] + json_text(t.last().1));
                    assert(out@ =~= old(out)@ + seq!['{'] + obj_items_text(t));
                }
            }
            out.push('}');
            proof {
                assert(es.subrange(0, es.len() as int) =~= es);
                assert(out@ =~= old(out)@ + json_text(j@));
            }
        },
    }
}

impl Json {
    /// The compact JSON text of this value.
    pub fn to_text(&self) -> (r: String)
        ensures
            r@ == json_text(self@),
    {
        let mut out: Vec<char> = Vec::new();
        push_json_text(self, &mut out);
        chars_to_string(&out)
    }
}

// ---------- parsing, through serde_json ----------

/// What `serde_json` parses a text to, carried over into the library's value
/// type: `None` where the text is not JSON.  The result is a function of the
/// text alone.
pub uninterp spec fn json_parse_of(s: Seq<char>) -> Option<JsonV>;

/// The parsed value that `serde_json` hands back; opaque to the library,
/// which converts it at once into its own value type.
#[verifier::external_type_specification]
#[verifier::external_body]
pub struct ExValue(serde_json::Value);

/// Converts a `serde_json` value into the library's value type, one arm per
/// variant, moving fields only; a number becomes the text `serde_json` prints
/// for it.  Part of the trusted boundary of `parse_json` below.
#[verifier::external_body]
fn json_of_value(v: &serde_json::Value) -> Json {
    match v {
        serde_json::Value::Null => Json::Null,
        serde_json::Value::Bool(b) => Json::Bool(*b),
        serde_json::Value::Number(n) => Json::Num(n.to_string()),
        serde_json::Value::String(s) => Json::Str(s.clone()),
        serde_json::Value::Array(a) => Json::Arr(a.iter().map(json_of_value).collect()),
        serde_json::Value::Object(m) => Json::Obj(
            m.iter().map(|(k, x)| (k.clone(), json_of_value(x))).collect(),
        ),
    }
}

/// Relies on `serde_json::from_str::<serde_json::Value>`: parses a text as
/// JSON, returning its value, or `None` where the text is not JSON.  The
/// outcome depends on the text alone, which is what lets it carry the name
/// `json_parse_of`.
#[verifier::external_body]
pub fn parse_json(s: &str) -> (r: Option<Json>)
    ensures
        match r {
            Some(j) => json_parse_of(s@) == Some(j@),
            None => json_parse_of(s@) is None,
        },
{
    serde_json::from_str::<serde_json::Value>(s).ok().map(|v| json_of_value(&v))
}

} // verus!

