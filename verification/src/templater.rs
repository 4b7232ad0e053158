//! The template engine: JSON-shaped templates whose string leaves carry
//! `{{path}}` placeholders, rendered against a JSON context, with typed
//! validation of the substituted values.

use vstd::prelude::*;

verus! {

use crate::json::Json;
use crate::json::JsonV;
use crate::json::json_text;
use crate::json::json_parse_of;
use crate::json::obj_view;
use crate::json::arr_view;
use crate::json::lemma_obj_view;
use crate::json::lemma_arr_view;
use crate::json::parse_json;
use crate::text::find_from;
use crate::text::find_char_from;
use crate::text::find_in_chars;
use crate::text::find_char_in;
use crate::text::lemma_find_from_props;
use crate::text::lemma_find_char_from_props;
use crate::text::match_at;
use crate::text::trim_seq;
use crate::text::trim_start_seq;
use crate::text::trim_end_seq;
use crate::text::chars_match_at;
use crate::text::trim_chars;
use crate::text::split_char;
use crate::text::split_char_from;
use crate::text::append_chars;
use crate::text::split_chars;
use crate::text::subrange_chars;
use crate::text::parse_index;
use crate::text::parse_index_chars;
use crate::text::is_decimal_float;
use crate::text::overflows_f64;
use crate::text::normalize_decimal;
use crate::text::check_decimal_float;
use crate::text::check_overflows_f64;
use crate::text::normalize_decimal_chars;
use crate::text::str_eq_chars;
use crate::text::str_to_chars;
use crate::text::chars_to_string;
use vstd::string::StrSliceExecFns;
use vstd::string::StringExecFns;

// ---------- declared field types for validation ----------

/// The type a rendered value is validated against, keyed by the second dotted
/// segment of its path.
#[derive(Debug, Clone, Copy, PartialEq, Eq, Structural)]
pub enum ValidationFieldType {
    String,
    Number,
    Boolean,
    Object,
    Array,
    Null,
    Unknown,
}

/// The declared types, keyed by context field name; a later entry for the
/// same name replaces an earlier one.
pub struct Validations {
    entries: Vec<(String, ValidationFieldType)>,
}

/// The view of the validation entries.
pub open spec fn vals_view(s: Seq<(String, ValidationFieldType)>) -> Seq<
    (Seq<char>, ValidationFieldType),
>
    decreases s,
{
    if s.len() == 0 {
        Seq::empty()
    } else {
        vals_view(s.drop_last()).push((s.last().0@, s.last().1))
    }
}

/// The declared type for a name: the latest entry wins.
pub open spec fn vals_lookup(
    vs: Seq<(Seq<char>, ValidationFieldType)>,
    key: Seq<char>,
) -> Option<ValidationFieldType>
    decreases vs.len(),
{
    if vs.len() == 0 {
        None
    } else if vs.last().0 == key {
        Some(vs.last().1)
    } else {
        vals_lookup(vs.drop_last(), key)
    }
}

impl View for Validations {
    type V = Seq<(Seq<char>, ValidationFieldType)>;

    closed spec fn view(&self) -> Seq<(Seq<char>, ValidationFieldType)> {
        vals_view(self.entries@)
    }
}

impl Validations {
    pub fn new() -> (r: Validations)
        ensures
            r@ == Seq::<(Seq<char>, ValidationFieldType)>::empty(),
    {
        let r = Validations { entries: Vec::new() };
        proof {
            assert(r@ =~= Seq::<(Seq<char>, ValidationFieldType)>::empty());
        }
        r
    }

    /// Declare the type of a context field.
    pub fn insert(&mut self, name: &str, t: ValidationFieldType)
        ensures
            final(self)@ == old(self)@.push((name@, t)),
    {
        self.entries.push((name.to_owned(), t));
        proof {
            let ne = self.entries@;
            assert(ne.drop_last() =~= old(self).entries@);
            assert(vals_view(ne) == vals_view(ne.drop_last()).push((ne.last().0@, ne.last().1)));
        }
    }

    /// The declared type of `key`, if any.
    #[verifier::loop_isolation(false)]
    fn get(&self, key: &Vec<char>) -> (r: Option<ValidationFieldType>)
        ensures
            r == vals_lookup(self@, key@),
    {
        let ghost whole = vals_lookup(self@, key@);
        let mut i: usize = self.entries.len();
        proof {
            assert(self.entries@.subrange(0, i as int) =~= self.entries@);
        }
        while i > 0
            invariant
                i <= self.entries@.len(),
                whole == vals_lookup(vals_view(self.entries@.subrange(0, i as int)), key@),
            decreases i,
        {
            i = i - 1;
            proof {
                let t = self.entries@.subrange(0, i as int + 1);
                lemma_vals_view(t);
                lemma_vals_view(self.entries@.subrange(0, i as int));
                assert(t.drop_last() =~= self.entries@.subrange(0, i as int));
                assert(t.last() == self.entries@[i as int]);
                assert(vals_view(t) == vals_view(t.drop_last()).push((t.last().0@, t.last().1)));
                assert(vals_view(t).last() == (self.entries@[i as int].0@, self.entries@[
                    i as int].1));
                assert(vals_view(t).drop_last() =~= vals_view(
                    self.entries@.subrange(0, i as int),
                ));
            }
            if str_eq_chars(self.entries[i].0.as_str(), key) {
                return Some(self.entries[i].1);
            }
        }
        proof {
            assert(self.entries@.subrange(0, 0) =~= Seq::<(String, ValidationFieldType)>::empty());
        }
        None
    }
}

/// The view of validation entries, entry by entry.
pub proof fn lemma_vals_view(s: Seq<(String, ValidationFieldType)>)
    ensures
        vals_view(s).len() == s.len(),
        forall|k: int| 0 <= k < s.len() ==> #[trigger] vals_view(s)[k] == (s[k].0@, s[k].1),
    decreases s,
{
    if s.len() > 0 {
        lemma_vals_view(s.drop_last());
        assert(vals_view(s) == vals_view(s.drop_last()).push((s.last().0@, s.last().1)));
        assert forall|k: int|
            0 <= k < s.len() implies #[trigger] vals_view(s)[k] == (s[k].0@, s[k].1) by {
            if k < s.len() - 1 {
                assert(vals_view(s)[k] == vals_view(s.drop_last())[k]);
                assert(s.drop_last()[k] == s[k]);
            }
        }
    }
}

// ---------- template errors ----------

/// The shape of a template error: what went wrong, and the variable or text
/// it went wrong for.
#[verifier::ext_equal]
pub ghost struct TemplateErrorV {
    pub message: Seq<char>,
    pub variable: Seq<char>,
}

/// A failed render or extraction: `variable` names the offending path (or
/// carries the offending text), `message` says what went wrong.
#[derive(Debug)]
pub struct TemplateError {
    pub message: String,
    pub variable: String,
}

impl View for TemplateError {
    type V = TemplateErrorV;

    open spec fn view(&self) -> TemplateErrorV {
        TemplateErrorV { message: self.message@, variable: self.variable@ }
    }
}

pub open spec fn err_unclosed(text: Seq<char>) -> TemplateErrorV {
    TemplateErrorV { message: "Unclosed template variable"@, variable: text }
}

pub open spec fn err_not_found(variable: Seq<char>) -> TemplateErrorV {
    TemplateErrorV { message: "Variable not found in context"@, variable }
}

pub open spec fn err_template_missing(name: Seq<char>) -> TemplateErrorV {
    TemplateErrorV { message: "Template not found"@, variable: name }
}

pub open spec fn err_expected(kind: Seq<char>, got: JsonV, variable: Seq<char>) -> TemplateErrorV {
    TemplateErrorV { message: "Expected "@ + kind + ", got: "@ + json_text(got), variable }
}

pub open spec fn err_cannot_convert(
    kind: Seq<char>,
    text: Seq<char>,
    variable: Seq<char>,
) -> TemplateErrorV {
    TemplateErrorV { message: "Cannot convert value to "@ + kind + ": "@ + text, variable }
}

// ---------- lookups within a context value ----------

/// The value of the first entry named `key`.
pub open spec fn obj_lookup(es: Seq<(Seq<char>, JsonV)>, key: Seq<char>) -> Option<JsonV>
    decreases es.len(),
{
    if es.len() == 0 {
        None
    } else if es[0].0 == key {
        Some(es[0].1)
    } else {
        obj_lookup(es.drop_first(), key)
    }
}

/// Descending one object key: `None` on anything but an object with that key.
pub open spec fn json_get(v: JsonV, key: Seq<char>) -> Option<JsonV> {
    match v {
        JsonV::Obj(es) => obj_lookup(es, key),
        _ => None,
    }
}

/// Descending one array index: `None` on anything but an array that is long
/// enough.
pub open spec fn json_index(v: JsonV, i: int) -> Option<JsonV> {
    match v {
        JsonV::Arr(es) => if 0 <= i < es.len() {
            Some(es[i])
        } else {
            None
        },
        _ => None,
    }
}

/// One path segment applied to a value.  A segment `key[N]` descends by the
/// key and then requires an array to index; `]` missing has the index text
/// run to the segment's end; a malformed segment resolves to nothing.
pub open spec fn descend(cur: JsonV, part: Seq<char>) -> Option<JsonV> {
    match find_char_from(part, '[', 0) {
        Some(b) => {
            let key = part.subrange(0, b);
            let iend = match find_char_from(part, ']', 0) {
                Some(e) => e,
                None => part.len() as int,
            };
            if iend < b + 1 {
                None
            } else {
                match parse_index(part.subrange(b + 1, iend)) {
                    Some(ix) => match json_get(cur, key) {
                        Some(inner) => json_index(inner, ix),
                        None => None,
                    },
                    None => None,
                }
            }
        },
        None => json_get(cur, part),
    }
}

/// Path resolution over the remaining segments, with JSON-in-string
/// re-entry: a string met along the way that parses as JSON is traversed as
/// that JSON; one met at the end is returned parsed.
pub open spec fn resolve_parts(cur: JsonV, parts: Seq<Seq<char>>) -> Option<JsonV>
    decreases parts.len(),
{
    if parts.len() == 0 {
        Some(cur)
    } else {
        match descend(cur, parts[0]) {
            None => None,
            Some(next) => match next {
                JsonV::Str(s) => match json_parse_of(s) {
                    Some(parsed) => if parts.len() > 1 {
                        resolve_parts(parsed, parts.drop_first())
                    } else {
                        Some(parsed)
                    },
                    None => resolve_parts(next, parts.drop_first()),
                },
                _ => resolve_parts(next, parts.drop_first()),
            },
        }
    }
}

/// What a dot-separated path resolves to in a context.
pub open spec fn resolve_path(ctx: JsonV, path: Seq<char>) -> Option<JsonV> {
    resolve_parts(ctx, split_char(path, '.'))
}

/// The object entry named `key`, if any.
#[verifier::loop_isolation(false)]
fn get_key<'a>(j: &'a Json, key: &Vec<char>) -> (r: Option<&'a Json>)
    ensures
        match r {
            Some(v) => json_get(j@, key@) == Some(v@),
            None => json_get(j@, key@) is None,
        },
{
    match j {
        Json::Obj(entries) => {
            proof {
                lemma_obj_view(entries@);
            }
            let ghost es = obj_view(entries@);
            let mut i: usize = 0;
            proof {
                assert(es.subrange(0, es.len() as int) =~= es);
            }
            while i < entries.len()
                invariant
                    i <= entries@.len(),
                    obj_lookup(es, key@) == obj_lookup(
                        es.subrange(i as int, es.len() as int),
                        key@,
                    ),
                decreases entries@.len() - i,
            {
                proof {
                    let t = es.subrange(i as int, es.len() as int);
                    assert(t[0] == es[i as int]);
                    assert(t.drop_first() =~= es.subrange(i as int + 1, es.len() as int));
                }
                if str_eq_chars(entries[i].0.as_str(), key) {
                    return Some(&entries[i].1);
                }
                i = i + 1;
            }
            None
        },
        _ => None,
    }
}

/// One path segment applied to a value.
#[verifier::loop_isolation(false)]
fn descend_exec(cur: &Json, part: &Vec<char>) -> (r: Option<Json>)
    ensures
        match r {
            Some(v) => descend(cur@, part@) == Some(v@),
            None => descend(cur@, part@) is None,
        },
{
    let n = part.len();
    match find_char_in(part, '[', 0) {
        Some(b) => {
            let key = subrange_chars(part, 0, b);
            let iend: usize = match find_char_in(part, ']', 0) {
                Some(e) => e,
                None => n,
            };
            if iend < b + 1 {
                return None;
            }
            let idx_text = subrange_chars(part, b + 1, iend);
            match parse_index_chars(&idx_text) {
                Some(ix) => match get_key(cur, &key) {
                    Some(inner) => match inner {
                        Json::Arr(items) => {
                            proof {
                                lemma_arr_view(items@);
                            }
                            if ix < items.len() {
                                Some(items[ix].clone())
                            } else {
                                None
                            }
                        },
                        _ => None,
                    },
                    None => None,
                },
                None => None,
            }
        },
        None => match get_key(cur, part) {
            Some(v) => Some(v.clone()),
            None => None,
        },
    }
}

/// What a path resolves to in a context; the resolved value is handed back
/// as a copy of its place in the context (or freshly parsed, after a
/// JSON-in-string re-entry).
#[verifier::loop_isolation(false)]
pub fn get_value_from_path(context: &Json, path: &Vec<char>) -> (r: Option<Json>)
    ensures
        match r {
            Some(v) => resolve_path(context@, path@) == Some(v@),
            None => resolve_path(context@, path@) is None,
        },
{
    let parts = split_chars(path, '.');
    let ghost whole = resolve_path(context@, path@);
    let mut cur: Json = context.clone();
    let mut i: usize = 0;
    proof {
        assert(Seq::new((parts@.len() - 0) as nat, |k: int| parts@[0 + k]@) =~= split_char(
            path@,
            '.',
        ));
    }
    while i < parts.len()
        invariant
            i <= parts@.len(),
            whole == resolve_parts(
                cur@,
                Seq::new((parts@.len() - i) as nat, |k: int| parts@[i + k]@),
            ),
        decreases parts@.len() - i,
    {
        let ghost rest = Seq::new((parts@.len() - i) as nat, |k: int| parts@[i + k]@);
        proof {
            assert(rest[0] == parts@[i as int]@);
            assert(rest.drop_first() =~= Seq::new(
                (parts@.len() - (i + 1)) as nat,
                |k: int| parts@[i + 1 + k]@,
            ));
        }
        let next = match descend_exec(&cur, &parts[i]) {
            Some(n) => n,
            None => {
                return None;
            },
        };
        let is_last = i + 1 == parts.len();
        match &next {
            Json::Str(s) => {
                match parse_json(s.as_str()) {
                    Some(parsed) => {
                        if is_last {
                            proof {
                                assert(rest.len() == 1);
                            }
                            return Some(parsed);
                        }
                        cur = parsed;
                    },
                    None => {
                        cur = next;
                    },
                }
            },
            _ => {
                cur = next;
            },
        }
        i = i + 1;
    }
    proof {
        assert(Seq::new((parts@.len() - i) as nat, |k: int| parts@[i + k]@).len() == 0);
    }
    Some(cur)
}


// ---------- variable extraction ----------

/// The trimmed paths between `{{` and `}}` in `s` from position `from` on,
/// in occurrence order, duplicates kept; `None` where a `{{` has no `}}`
/// after it.
pub open spec fn extract_str(s: Seq<char>, from: int) -> Option<Seq<Seq<char>>>
    decreases s.len() + 2 - from,
    via extract_str_decreases
{
    if from < 0 || from > s.len() {
        Some(Seq::empty())
    } else {
        match find_from(s, "{{"@, from) {
            None => Some(Seq::empty()),
            Some(o) => match find_from(s, "}}"@, o) {
                None => None,
                Some(c) => match extract_str(s, c + 2) {
                    None => None,
                    Some(rest) => Some(seq![trim_seq(s.subrange(o + 2, c))] + rest),
                },
            },
        }
    }
}

#[via_fn]
proof fn extract_str_decreases(s: Seq<char>, from: int) {
    reveal_strlit("{{");
    reveal_strlit("}}");
    if 0 <= from <= s.len() {
        lemma_find_from_props(s, "{{"@, from);
        match find_from(s, "{{"@, from) {
            Some(o) => {
                lemma_find_from_props(s, "}}"@, o);
            },
            None => {},
        }
    }
}

/// Every path that appears between `{{` and `}}` in the template, by
/// depth-first walk: object values and array elements in stored order, then
/// inside string leaves left to right.
pub open spec fn extract_json(v: JsonV) -> Result<Seq<Seq<char>>, TemplateErrorV>
    decreases v,
{
    match v {
        JsonV::Obj(es) => extract_entries(es),
        JsonV::Arr(es) => extract_items(es),
        JsonV::Str(s) => match extract_str(s, 0) {
            Some(vars) => Ok(vars),
            None => Err(err_unclosed(s)),
        },
        _ => Ok(Seq::empty()),
    }
}

pub open spec fn extract_entries(es: Seq<(Seq<char>, JsonV)>) -> Result<
    Seq<Seq<char>>,
    TemplateErrorV,
>
    decreases es,
{
    if es.len() == 0 {
        Ok(Seq::empty())
    } else {
        match extract_entries(es.drop_last()) {
            Err(e) => Err(e),
            Ok(pre) => match extract_json(es.last().1) {
                Err(e) => Err(e),
                Ok(l) => Ok(pre + l),
            },
        }
    }
}

pub open spec fn extract_items(es: Seq<JsonV>) -> Result<Seq<Seq<char>>, TemplateErrorV>
    decreases es,
{
    if es.len() == 0 {
        Ok(Seq::empty())
    } else {
        match extract_items(es.drop_last()) {
            Err(e) => Err(e),
            Ok(pre) => match extract_json(es.last()) {
                Err(e) => Err(e),
                Ok(l) => Ok(pre + l),
            },
        }
    }
}

// ---------- validation and coercion ----------

/// The second dotted segment of a path (its field under the top-level
/// namespace), or the whole path where it has no second segment.
pub open spec fn second_segment(v: Seq<char>) -> Seq<char> {
    let ps = split_char(v, '.');
    if ps.len() >= 2 {
        ps[1]
    } else {
        v
    }
}

/// What validation makes of a resolved value: strings stringify other
/// shapes; a number is read out of a string that is itself a JSON number,
/// and a boolean out of `true`/`false`; objects and arrays are required as
/// they are; `null` clears; `unknown` passes through.
pub open spec fn validate_value(
    val: JsonV,
    t: ValidationFieldType,
    variable: Seq<char>,
) -> Result<JsonV, TemplateErrorV> {
    match t {
        ValidationFieldType::String => match val {
            JsonV::Str(_) => Ok(val),
            _ => Ok(JsonV::Str(json_text(val))),
        },
        ValidationFieldType::Number => match val {
            JsonV::Num(_) => Ok(val),
            JsonV::Str(s) => if is_decimal_float(s) && !overflows_f64(s) {
                Ok(JsonV::Num(normalize_decimal(s)))
            } else {
                Err(err_cannot_convert("number"@, s, variable))
            },
            _ => Err(err_expected("number"@, val, variable)),
        },
        ValidationFieldType::Boolean => match val {
            JsonV::Bool(_) => Ok(val),
            JsonV::Str(s) => if s == "true"@ {
                Ok(JsonV::Bool(true))
            } else if s == "false"@ {
                Ok(JsonV::Bool(false))
            } else {
                Err(err_cannot_convert("boolean"@, s, variable))
            },
            _ => Err(err_expected("boolean"@, val, variable)),
        },
        ValidationFieldType::Object => match val {
            JsonV::Obj(_) => Ok(val),
            _ => Err(err_expected("object"@, val, variable)),
        },
        ValidationFieldType::Array => match val {
            JsonV::Arr(_) => Ok(val),
            _ => Err(err_expected("array"@, val, variable)),
        },
        ValidationFieldType::Null => Ok(JsonV::Null),
        ValidationFieldType::Unknown => Ok(val),
    }
}

// ---------- rendering ----------

/// What a resolved value is spliced in as, in interpolation mode: the string
/// itself, or any other shape's JSON text.
pub open spec fn replacement_of(v: JsonV) -> Seq<char> {
    match v {
        JsonV::Str(t) => t,
        _ => json_text(v),
    }
}

/// Interpolation over `s` from position `from` on, with `acc` already
/// rendered: each `{{path}}` is replaced by what its path resolves and
/// validates to; an unresolved path or an unclosed `{{` fails.
pub open spec fn interp_from(
    acc: Seq<char>,
    s: Seq<char>,
    from: int,
    ctx: JsonV,
    vals: Seq<(Seq<char>, ValidationFieldType)>,
) -> Result<Seq<char>, TemplateErrorV>
    decreases s.len() + 2 - from,
    via interp_from_decreases
{
    if from < 0 || from > s.len() {
        Ok(acc)
    } else {
        match find_from(s, "{{"@, from) {
            None => Ok(acc + s.subrange(from, s.len() as int)),
            Some(o) => match find_from(s, "}}"@, o) {
                None => Err(err_unclosed(acc + s.subrange(from, s.len() as int))),
                Some(c) => {
                    let var = trim_seq(s.subrange(o + 2, c));
                    match resolve_path(ctx, var) {
                        None => Err(err_not_found(var)),
                        Some(value) => {
                            let vres = match vals_lookup(vals, second_segment(var)) {
                                Some(t) => validate_value(value, t, var),
                                None => Ok(value),
                            };
                            match vres {
                                Err(e) => Err(e),
                                Ok(v2) => interp_from(
                                    acc + s.subrange(from, o) + replacement_of(v2),
                                    s,
                                    c + 2,
                                    ctx,
                                    vals,
                                ),
                            }
                        },
                    }
                },
            },
        }
    }
}

#[via_fn]
proof fn interp_from_decreases(
    acc: Seq<char>,
    s: Seq<char>,
    from: int,
    ctx: JsonV,
    vals: Seq<(Seq<char>, ValidationFieldType)>,
) {
    reveal_strlit("{{");
    reveal_strlit("}}");
    if 0 <= from <= s.len() {
        lemma_find_from_props(s, "{{"@, from);
        match find_from(s, "{{"@, from) {
            Some(o) => {
                lemma_find_from_props(s, "}}"@, o);
            },
            None => {},
        }
    }
}

pub open spec fn interp_result(
    s: Seq<char>,
    ctx: JsonV,
    vals: Seq<(Seq<char>, ValidationFieldType)>,
) -> Result<JsonV, TemplateErrorV> {
    match interp_from(Seq::empty(), s, 0, ctx, vals) {
        Ok(txt) => Ok(JsonV::Str(txt)),
        Err(e) => Err(e),
    }
}

/// A string leaf rendered.  A string that is, after trimming, exactly one
/// whole `{{path}}` placeholder — it opens with `{{` and its first `}}` is
/// its final two characters — keeps the resolved value's own JSON shape;
/// every other string goes through interpolation, where values are spliced
/// in as text.  A whole placeholder whose path resolves to nothing falls
/// back to interpolation, which then reports it.
pub open spec fn render_string(
    s: Seq<char>,
    ctx: JsonV,
    vals: Seq<(Seq<char>, ValidationFieldType)>,
) -> Result<JsonV, TemplateErrorV> {
    let t = trim_seq(s);
    let whole = t.len() >= 2 && t.subrange(0, 2) == "{{"@ && find_from(t, "}}"@, 0) == Some(
        t.len() - 2,
    );
    if whole {
        let var = trim_seq(t.subrange(2, t.len() - 2));
        match vals_lookup(vals, second_segment(var)) {
            Some(ty) => match resolve_path(ctx, var) {
                Some(value) => validate_value(value, ty, var),
                None => interp_result(s, ctx, vals),
            },
            None => match resolve_path(ctx, var) {
                Some(v) => Ok(v),
                None => interp_result(s, ctx, vals),
            },
        }
    } else {
        interp_result(s, ctx, vals)
    }
}

/// A template value rendered against a context: objects and arrays are
/// rendered leaf by leaf in stored order, the first failure wins; string
/// leaves go through `render_string`; other scalars stay as they are.
pub open spec fn render_json(
    t: JsonV,
    ctx: JsonV,
    vals: Seq<(Seq<char>, ValidationFieldType)>,
) -> Result<JsonV, TemplateErrorV>
    decreases t,
{
    match t {
        JsonV::Obj(es) => match render_entries(es, ctx, vals) {
            Ok(res) => Ok(JsonV::Obj(res)),
            Err(e) => Err(e),
        },
        JsonV::Arr(es) => match render_items(es, ctx, vals) {
            Ok(res) => Ok(JsonV::Arr(res)),
            Err(e) => Err(e),
        },
        JsonV::Str(s) => render_string(s, ctx, vals),
        _ => Ok(t),
    }
}

pub open spec fn render_entries(
    es: Seq<(Seq<char>, JsonV)>,
    ctx: JsonV,
    vals: Seq<(Seq<char>, ValidationFieldType)>,
) -> Result<Seq<(Seq<char>, JsonV)>, TemplateErrorV>
    decreases es,
{
    if es.len() == 0 {
        Ok(Seq::empty())
    } else {
        match render_entries(es.drop_last(), ctx, vals) {
            Err(e) => Err(e),
            Ok(pre) => match render_json(es.last().1, ctx, vals) {
                Err(e) => Err(e),
                Ok(v) => Ok(pre.push((es.last().0, v))),
            },
        }
    }
}

pub open spec fn render_items(
    es: Seq<JsonV>,
    ctx: JsonV,
    vals: Seq<(Seq<char>, ValidationFieldType)>,
) -> Result<Seq<JsonV>, TemplateErrorV>
    decreases es,
{
    if es.len() == 0 {
        Ok(Seq::empty())
    } else {
        match render_items(es.drop_last(), ctx, vals) {
            Err(e) => Err(e),
            Ok(pre) => match render_json(es.last(), ctx, vals) {
                Err(e) => Err(e),
                Ok(v) => Ok(pre.push(v)),
            },
        }
    }
}

// ---------- the template store ----------

/// The stored templates: a later `add_template` under the same name replaces
/// the earlier one.
pub open spec fn tmpl_lookup(ts: Seq<(Seq<char>, JsonV)>, name: Seq<char>) -> Option<JsonV>
    decreases ts.len(),
{
    if ts.len() == 0 {
        None
    } else if ts.last().0 == name {
        Some(ts.last().1)
    } else {
        tmpl_lookup(ts.drop_last(), name)
    }
}

/// Holds named JSON templates and renders them against a context.
pub struct Templater {
    templates: Vec<(String, Json)>,
}

impl View for Templater {
    type V = Seq<(Seq<char>, JsonV)>;

    closed spec fn view(&self) -> Seq<(Seq<char>, JsonV)> {
        obj_view(self.templates@)
    }
}

impl Templater {
    pub fn new() -> (r: Templater)
        ensures
            r@ == Seq::<(Seq<char>, JsonV)>::empty(),
    {
        let r = Templater { templates: Vec::new() };
        proof {
            assert(r@ =~= Seq::<(Seq<char>, JsonV)>::empty());
        }
        r
    }

    /// Store a template under a name.
    pub fn add_template(&mut self, name: &str, template: Json)
        ensures
            final(self)@ == old(self)@.push((name@, template@)),
    {
        self.templates.push((name.to_owned(), template));
        proof {
            let ne = self.templates@;
            assert(ne.drop_last() =~= old(self).templates@);
            assert(obj_view(ne) == obj_view(ne.drop_last()).push((ne.last().0@, ne.last().1@)));
        }
    }

    /// The stored template of that name, if any.
    #[verifier::loop_isolation(false)]
    fn find_template(&self, name: &str) -> (r: Option<&Json>)
        ensures
            match r {
                Some(t) => tmpl_lookup(self@, name@) == Some(t@),
                None => tmpl_lookup(self@, name@) is None,
            },
    {
        let ghost whole = tmpl_lookup(self@, name@);
        let nm = str_to_chars(name);
        let mut i: usize = self.templates.len();
        proof {
            assert(self.templates@.subrange(0, i as int) =~= self.templates@);
        }
        while i > 0
            invariant
                i <= self.templates@.len(),
                whole == tmpl_lookup(obj_view(self.templates@.subrange(0, i as int)), name@),
            decreases i,
        {
            i = i - 1;
            proof {
                let t = self.templates@.subrange(0, i as int + 1);
                lemma_obj_view(t);
                lemma_obj_view(self.templates@.subrange(0, i as int));
                assert(t.drop_last() =~= self.templates@.subrange(0, i as int));
                assert(t.last() == self.templates@[i as int]);
                assert(obj_view(t) == obj_view(t.drop_last()).push((t.last().0@, t.last().1@)));
                assert(obj_view(t).last() == (self.templates@[i as int].0@, self.templates@[
                    i as int].1@));
                assert(obj_view(t).drop_last() =~= obj_view(
                    self.templates@.subrange(0, i as int),
                ));
            }
            if str_eq_chars(self.templates[i].0.as_str(), &nm) {
                return Some(&self.templates[i].1);
            }
        }
        proof {
            assert(self.templates@.subrange(0, 0) =~= Seq::<(String, Json)>::empty());
        }
        None
    }
}


// ---------- executable extraction ----------

/// The views of a vector of strings.
pub open spec fn strs_view(s: Seq<String>) -> Seq<Seq<char>>
    decreases s,
{
    if s.len() == 0 {
        Seq::empty()
    } else {
        strs_view(s.drop_last()).push(s.last()@)
    }
}

pub proof fn lemma_strs_view(s: Seq<String>)
    ensures
        strs_view(s).len() == s.len(),
        forall|k: int| 0 <= k < s.len() ==> #[trigger] strs_view(s)[k] == s[k]@,
    decreases s,
{
    if s.len() > 0 {
        lemma_strs_view(s.drop_last());
        assert(strs_view(s) == strs_view(s.drop_last()).push(s.last()@));
        assert forall|k: int| 0 <= k < s.len() implies #[trigger] strs_view(s)[k] == s[k]@ by {
            if k < s.len() - 1 {
                assert(strs_view(s)[k] == strs_view(s.drop_last())[k]);
                assert(s.drop_last()[k] == s[k]);
            }
        }
    }
}

fn mk_unclosed(text: String) -> (r: TemplateError)
    ensures
        r@ == err_unclosed(text@),
{
    TemplateError { message: String::from_str("Unclosed template variable"), variable: text }
}

fn mk_not_found(variable: String) -> (r: TemplateError)
    ensures
        r@ == err_not_found(variable@),
{
    TemplateError { message: String::from_str("Variable not found in context"), variable }
}

fn mk_template_missing(name: String) -> (r: TemplateError)
    ensures
        r@ == err_template_missing(name@),
{
    TemplateError { message: String::from_str("Template not found"), variable: name }
}

fn mk_expected(kind: &str, got: &Json, variable: String) -> (r: TemplateError)
    ensures
        r@ == err_expected(kind@, got@, variable@),
{
    let text = got.to_text();
    let message = String::from_str("Expected ").concat(kind).concat(", got: ").concat(
        text.as_str(),
    );
    TemplateError { message, variable }
}

fn mk_cannot_convert(kind: &str, text: &str, variable: String) -> (r: TemplateError)
    ensures
        r@ == err_cannot_convert(kind@, text@, variable@),
{
    let message = String::from_str("Cannot convert value to ").concat(kind).concat(": ").concat(
        text,
    );
    TemplateError { message, variable }
}

/// After `{{` at `o` and `}}` at `c`, the closing brace pair stands at least
/// two characters past the opening one, and both fit in the text.
proof fn lemma_open_close_gap(s: Seq<char>, from: int, o: int, c: int)
    requires
        0 <= from,
        find_from(s, "{{"@, from) == Some(o),
        find_from(s, "}}"@, o) == Some(c),
    ensures
        from <= o,
        o + 2 <= c,
        c + 2 <= s.len(),
{
    reveal_strlit("{{");
    reveal_strlit("}}");
    lemma_find_from_props(s, "{{"@, from);
    lemma_find_from_props(s, "}}"@, o);
    assert(s.subrange(o, o + 2) == "{{"@);
    assert(s.subrange(c, c + 2) == "}}"@);
    assert(s[o] == '{') by {
        assert(s.subrange(o, o + 2)[0] == s[o]);
    }
    assert(s[o + 1] == '{') by {
        assert(s.subrange(o, o + 2)[1] == s[o + 1]);
    }
    assert(s[c] == '}') by {
        assert(s.subrange(c, c + 2)[0] == s[c]);
    }
}

/// A first error among the entries decides the whole extraction.
proof fn lemma_extract_entries_extend(es: Seq<(Seq<char>, JsonV)>, i: int)
    requires
        0 <= i <= es.len(),
        extract_entries(es.subrange(0, i)) is Err,
    ensures
        extract_entries(es) == extract_entries(es.subrange(0, i)),
    decreases es.len() - i,
{
    if i == es.len() {
        assert(es.subrange(0, i) =~= es);
    } else {
        let t = es.subrange(0, i + 1);
        assert(t.drop_last() =~= es.subrange(0, i));
        assert(extract_entries(t) == extract_entries(es.subrange(0, i)));
        lemma_extract_entries_extend(es, i + 1);
    }
}

proof fn lemma_extract_items_extend(es: Seq<JsonV>, i: int)
    requires
        0 <= i <= es.len(),
        extract_items(es.subrange(0, i)) is Err,
    ensures
        extract_items(es) == extract_items(es.subrange(0, i)),
    decreases es.len() - i,
{
    if i == es.len() {
        assert(es.subrange(0, i) =~= es);
    } else {
        let t = es.subrange(0, i + 1);
        assert(t.drop_last() =~= es.subrange(0, i));
        assert(extract_items(t) == extract_items(es.subrange(0, i)));
        lemma_extract_items_extend(es, i + 1);
    }
}

/// The paths between `{{` and `}}` in one string leaf, appended to `out`.
#[verifier::loop_isolation(false)]
fn extract_from_chars(s: &Vec<char>, out: &mut Vec<String>) -> (r: Result<(), TemplateError>)
    ensures
        match extract_str(s@, 0) {
            Some(vars) => r is Ok && strs_view(final(out)@) == strs_view(old(out)@) + vars,
            None => (match r {
                Err(e) => e@ == err_unclosed(s@),
                Ok(_) => false,
            }),
        },
{
    let n = s.len();
    let open_pat = str_to_chars("{{");
    let close_pat = str_to_chars("}}");
    let mut cur: usize = 0;
    let ghost mut done: Seq<Seq<char>> = Seq::empty();
    proof {
        assert(strs_view(out@) =~= strs_view(old(out)@) + done);
    }
    loop
        invariant
            cur <= s@.len() + 2,
            open_pat@ == "{{"@,
            close_pat@ == "}}"@,
            strs_view(out@) == strs_view(old(out)@) + done,
            match extract_str(s@, cur as int) {
                Some(rest) => extract_str(s@, 0) == Some(done + rest),
                None => extract_str(s@, 0) is None,
            },
        decreases s@.len() + 2 - cur,
    {
        proof {
            reveal_strlit("{{");
            reveal_strlit("}}");
        }
        match find_in_chars(s, &open_pat, cur) {
            None => {
                proof {
                    assert(extract_str(s@, cur as int) == Some(Seq::<Seq<char>>::empty()));
                    assert(done + Seq::<Seq<char>>::empty() =~= done);
                }
                return Ok(());
            },
            Some(o) => {
                match find_in_chars(s, &close_pat, o) {
                    None => {
                        proof {
                            assert(extract_str(s@, cur as int) is None);
                        }
                        return Err(mk_unclosed(chars_to_string(s)));
                    },
                    Some(c) => {
                        proof {
                            lemma_open_close_gap(s@, cur as int, o as int, c as int);
                        }
                        let piece = subrange_chars(s, o + 2, c);
                        let var = trim_chars(&piece);
                        let ghost out0 = out@;
                        out.push(chars_to_string(&var));
                        proof {
                            let ne = out@;
                            assert(ne.drop_last() =~= out0);
                            assert(strs_view(ne) == strs_view(ne.drop_last()).push(ne.last()@));
                            done = done.push(var@);
                        }
                        proof {
                            assert(strs_view(out@) =~= strs_view(old(out)@) + done);
                            match extract_str(s@, c + 2) {
                                Some(rest) => {
                                    assert(extract_str(s@, cur as int) == Some(
                                        seq![var@] + rest,
                                    ));
                                    assert(done.drop_last() + (seq![var@] + rest) =~= done + rest);
                                },
                                None => {},
                            }
                        }
                        cur = c + 2;
                    },
                }
            },
        }
    }
}

/// Every placeholder path in a template value, appended to `out` in
/// occurrence order.
#[verifier::loop_isolation(false)]
fn extract_value(v: &Json, out: &mut Vec<String>) -> (r: Result<(), TemplateError>)
    ensures
        match extract_json(v@) {
            Ok(vars) => r is Ok && strs_view(final(out)@) == strs_view(old(out)@) + vars,
            Err(e) => (match r {
                Err(te) => te@ == e,
                Ok(_) => false,
            }),
        },
    decreases v,
{
    match v {
        Json::Obj(entries) => {
            proof {
                lemma_obj_view(entries@);
            }
            let ghost es = obj_view(entries@);
            let mut i: usize = 0;
            proof {
                assert(es.subrange(0, 0) =~= Seq::<(Seq<char>, JsonV)>::empty());
                assert(strs_view(old(out)@) + Seq::<Seq<char>>::empty() =~= strs_view(old(out)@));
            }
            while i < entries.len()
                invariant
                    i <= entries@.len(),
                    extract_entries(es.subrange(0, i as int)) matches Ok(pre) && strs_view(out@)
                        == strs_view(old(out)@) + pre,
                decreases entries@.len() - i,
            {
                let ghost pre = extract_entries(es.subrange(0, i as int))->Ok_0;
                match extract_value(&entries[i].1, out) {
                    Err(te) => {
                        proof {
                            let t = es.subrange(0, i as int + 1);
                            assert(t.drop_last() =~= es.subrange(0, i as int));
                            assert(t.last() == es[i as int]);
                            assert(es[i as int].1 == entries@[i as int].1@);
                            assert(extract_entries(t) == extract_json(entries@[i as int].1@));
                            lemma_extract_entries_extend(es, i as int + 1);
                        }
                        return Err(te);
                    },
                    Ok(_) => {
                        proof {
                            let t = es.subrange(0, i as int + 1);
                            assert(t.drop_last() =~= es.subrange(0, i as int));
                            assert(t.last() == es[i as int]);
                            assert(es[i as int].1 == entries@[i as int].1@);
                            let l = extract_json(entries@[i as int].1@)->Ok_0;
                            assert(extract_entries(t) == Ok::<_, TemplateErrorV>(pre + l));
                        }
                        i = i + 1;
                    },
                }
            }
            proof {
                assert(es.subrange(0, i as int) =~= es);
            }
            Ok(())
        },
        Json::Arr(items) => {
            proof {
                lemma_arr_view(items@);
            }
            let ghost es = arr_view(items@);
            let mut i: usize = 0;
            proof {
                assert(es.subrange(0, 0) =~= Seq::<JsonV>::empty());
                assert(strs_view(old(out)@) + Seq::<Seq<char>>::empty() =~= strs_view(old(out)@));
            }
            while i < items.len()
                invariant
                    i <= items@.len(),
                    extract_items(es.subrange(0, i as int)) matches Ok(pre) && strs_view(out@)
                        == strs_view(old(out)@) + pre,
                decreases items@.len() - i,
            {
                let ghost pre = extract_items(es.subrange(0, i as int))->Ok_0;
                match extract_value(&items[i], out) {
                    Err(te) => {
                        proof {
                            let t = es.subrange(0, i as int + 1);
                            assert(t.drop_last() =~= es.subrange(0, i as int));
                            assert(t.last() == es[i as int]);
                            assert(es[i as int] == items@[i as int]@);
                            lemma_extract_items_extend(es, i as int + 1);
                        }
                        return Err(te);
                    },
                    Ok(_) => {
                        proof {
                            let t = es.subrange(0, i as int + 1);
                            assert(t.drop_last() =~= es.subrange(0, i as int));
                            assert(t.last() == es[i as int]);
                            assert(es[i as int] == items@[i as int]@);
                            let l = extract_json(items@[i as int]@)->Ok_0;
                            assert(extract_items(t) == Ok::<_, TemplateErrorV>(pre + l));
                        }
                        i = i + 1;
                    },
                }
            }
            proof {
                assert(es.subrange(0, i as int) =~= es);
            }
            Ok(())
        },
        Json::Str(st) => {
            let cs = str_to_chars(st.as_str());
            extract_from_chars(&cs, out)
        },
        _ => {
            proof {
                assert(strs_view(out@) + Seq::<Seq<char>>::empty() =~= strs_view(out@));
            }
            Ok(())
        },
    }
}

// ---------- executable validation and rendering ----------

/// Validation applied to a resolved value, as `validate_value` says.
fn validate_and_convert_value(
    value: Json,
    expected_type: ValidationFieldType,
    variable: &Vec<char>,
) -> (r: Result<Json, TemplateError>)
    ensures
        match validate_value(value@, expected_type, variable@) {
            Ok(v) => (match r {
                Ok(rv) => rv@ == v,
                Err(_) => false,
            }),
            Err(e) => (match r {
                Err(te) => te@ == e,
                Ok(_) => false,
            }),
        },
{
    match expected_type {
        ValidationFieldType::String => match &value {
            Json::Str(_) => Ok(value),
            _ => Ok(Json::Str(value.to_text())),
        },
        ValidationFieldType::Number => match &value {
            Json::Num(_) => Ok(value),
            Json::Str(st) => {
                let cs = str_to_chars(st.as_str());
                if check_decimal_float(&cs) && !check_overflows_f64(&cs) {
                    let text = normalize_decimal_chars(&cs);
                    Ok(Json::Num(chars_to_string(&text)))
                } else {
                    Err(mk_cannot_convert("number", st.as_str(), chars_to_string(variable)))
                }
            },
            _ => Err(mk_expected("number", &value, chars_to_string(variable))),
        },
        ValidationFieldType::Boolean => match &value {
            Json::Bool(_) => Ok(value),
            Json::Str(st) => {
                let cs = str_to_chars(st.as_str());
                if str_eq_chars("true", &cs) {
                    proof {
                        assert(st@ == "true"@);
                    }
                    Ok(Json::Bool(true))
                } else if str_eq_chars("false", &cs) {
                    Ok(Json::Bool(false))
                } else {
                    Err(mk_cannot_convert("boolean", st.as_str(), chars_to_string(variable)))
                }
            },
            _ => Err(mk_expected("boolean", &value, chars_to_string(variable))),
        },
        ValidationFieldType::Object => match &value {
            Json::Obj(_) => Ok(value),
            _ => Err(mk_expected("object", &value, chars_to_string(variable))),
        },
        ValidationFieldType::Array => match &value {
            Json::Arr(_) => Ok(value),
            _ => Err(mk_expected("array", &value, chars_to_string(variable))),
        },
        ValidationFieldType::Null => Ok(Json::Null),
        ValidationFieldType::Unknown => Ok(value),
    }
}

/// The second dotted segment of the path, or the whole path without one.
#[verifier::loop_isolation(false)]
fn second_segment_exec(var: &Vec<char>) -> (r: Vec<char>)
    ensures
        r@ == second_segment(var@),
{
    let parts = split_chars(var, '.');
    proof {
        assert(split_char(var@, '.').len() >= 1) by {
            assert(split_char(var@, '.') == split_char_from(var@, '.', 0));
        }
    }
    if parts.len() >= 2 {
        let p = &parts[1];
        subrange_chars(p, 0, p.len())
    } else {
        subrange_chars(var, 0, var.len())
    }
}

/// Interpolation over one string leaf.
#[verifier::loop_isolation(false)]
fn interp_exec(s: &Vec<char>, context: &Json, validations: &Validations) -> (r: Result<
    Json,
    TemplateError,
>)
    ensures
        match interp_result(s@, context@, validations@) {
            Ok(v) => (match r {
                Ok(rv) => rv@ == v,
                Err(_) => false,
            }),
            Err(e) => (match r {
                Err(te) => te@ == e,
                Ok(_) => false,
            }),
        },
{
    let n = s.len();
    let open_pat = str_to_chars("{{");
    let close_pat = str_to_chars("}}");
    let mut acc: Vec<char> = Vec::new();
    let mut cur: usize = 0;
    let ghost whole = interp_from(Seq::empty(), s@, 0, context@, validations@);
    proof {
        assert(acc@ =~= Seq::<char>::empty());
        reveal_strlit("{{");
        reveal_strlit("}}");
    }
    loop
        invariant
            cur <= s@.len(),
            open_pat@ == "{{"@,
            close_pat@ == "}}"@,
            whole == interp_from(acc@, s@, cur as int, context@, validations@),
        decreases s@.len() + 2 - cur,
    {
        match find_in_chars(s, &open_pat, cur) {
            None => {
                let tail = subrange_chars(s, cur, s.len());
                let mut full = acc;
                append_chars(&mut full, &tail);
                return Ok(Json::Str(chars_to_string(&full)));
            },
            Some(o) => {
                match find_in_chars(s, &close_pat, o) {
                    None => {
                        let tail = subrange_chars(s, cur, s.len());
                        let mut full = acc;
                        append_chars(&mut full, &tail);
                        return Err(mk_unclosed(chars_to_string(&full)));
                    },
                    Some(c) => {
                        proof {
                            lemma_open_close_gap(s@, cur as int, o as int, c as int);
                        }
                        let piece = subrange_chars(s, o + 2, c);
                        let var = trim_chars(&piece);
                        match get_value_from_path(context, &var) {
                            None => {
                                return Err(mk_not_found(chars_to_string(&var)));
                            },
                            Some(value) => {
                                let key2 = second_segment_exec(&var);
                                let v2 = match validations.get(&key2) {
                                    Some(ty) => match validate_and_convert_value(
                                        value,
                                        ty,
                                        &var,
                                    ) {
                                        Ok(v) => v,
                                        Err(te) => {
                                            return Err(te);
                                        },
                                    },
                                    None => value,
                                };
                                let ghost acc0 = acc@;
                                let pre = subrange_chars(s, cur, o);
                                append_chars(&mut acc, &pre);
                                match &v2 {
                                    Json::Str(txt) => {
                                        let txt_chars = str_to_chars(txt.as_str());
                                        append_chars(&mut acc, &txt_chars);
                                    },
                                    _ => {
                                        let txt = v2.to_text();
                                        let txt_chars = str_to_chars(txt.as_str());
                                        append_chars(&mut acc, &txt_chars);
                                    },
                                }
                                proof {
                                    assert(acc@ =~= acc0 + s@.subrange(cur as int, o as int)
                                        + replacement_of(v2@));
                                }
                                cur = c + 2;
                            },
                        }
                    },
                }
            },
        }
    }
}

/// A first error among the rendered entries decides the whole render.
proof fn lemma_render_entries_extend(
    es: Seq<(Seq<char>, JsonV)>,
    i: int,
    ctx: JsonV,
    vals: Seq<(Seq<char>, ValidationFieldType)>,
)
    requires
        0 <= i <= es.len(),
        render_entries(es.subrange(0, i), ctx, vals) is Err,
    ensures
        render_entries(es, ctx, vals) == render_entries(es.subrange(0, i), ctx, vals),
    decreases es.len() - i,
{
    if i == es.len() {
        assert(es.subrange(0, i) =~= es);
    } else {
        let t = es.subrange(0, i + 1);
        assert(t.drop_last() =~= es.subrange(0, i));
        assert(render_entries(t, ctx, vals) == render_entries(es.subrange(0, i), ctx, vals));
        lemma_render_entries_extend(es, i + 1, ctx, vals);
    }
}

proof fn lemma_render_items_extend(
    es: Seq<JsonV>,
    i: int,
    ctx: JsonV,
    vals: Seq<(Seq<char>, ValidationFieldType)>,
)
    requires
        0 <= i <= es.len(),
        render_items(es.subrange(0, i), ctx, vals) is Err,
    ensures
        render_items(es, ctx, vals) == render_items(es.subrange(0, i), ctx, vals),
    decreases es.len() - i,
{
    if i == es.len() {
        assert(es.subrange(0, i) =~= es);
    } else {
        let t = es.subrange(0, i + 1);
        assert(t.drop_last() =~= es.subrange(0, i));
        assert(render_items(t, ctx, vals) == render_items(es.subrange(0, i), ctx, vals));
        lemma_render_items_extend(es, i + 1, ctx, vals);
    }
}

/// One string leaf rendered, as `render_string` says.
#[verifier::loop_isolation(false)]
fn render_string_exec(s: &Vec<char>, context: &Json, validations: &Validations) -> (r: Result<
    Json,
    TemplateError,
>)
    ensures
        match render_string(s@, context@, validations@) {
            Ok(v) => (match r {
                Ok(rv) => rv@ == v,
                Err(_) => false,
            }),
            Err(e) => (match r {
                Err(te) => te@ == e,
                Ok(_) => false,
            }),
        },
{
    let open_pat = str_to_chars("{{");
    let close_pat = str_to_chars("}}");
    proof {
        reveal_strlit("{{");
        reveal_strlit("}}");
    }
    let t = trim_chars(s);
    let tn = t.len();
    let whole = tn >= 2 && chars_match_at(&t, &open_pat, 0) && (match find_in_chars(
        &t,
        &close_pat,
        0,
    ) {
        Some(c) => c == tn - 2,
        None => false,
    });
    if whole {
        proof {
            assert(t@.subrange(0, 2) == "{{"@);
            assert(find_from(t@, "{{"@, 0) == Some(0int));
            lemma_open_close_gap(t@, 0, 0, tn - 2);
            assert(tn >= 4);
        }
        let inner = subrange_chars(&t, 2, tn - 2);
        let var = trim_chars(&inner);
        let key2 = second_segment_exec(&var);
        match validations.get(&key2) {
            Some(ty) => {
                match get_value_from_path(context, &var) {
                    Some(value) => {
                        return validate_and_convert_value(value, ty, &var);
                    },
                    None => {},
                }
            },
            None => {
                match get_value_from_path(context, &var) {
                    Some(value) => {
                        return Ok(value);
                    },
                    None => {},
                }
            },
        }
    }
    interp_exec(s, context, validations)
}

/// A template value rendered against a context, as `render_json` says.
#[verifier::loop_isolation(false)]
fn render_value(value: &Json, context: &Json, validations: &Validations) -> (r: Result<
    Json,
    TemplateError,
>)
    ensures
        match render_json(value@, context@, validations@) {
            Ok(v) => (match r {
                Ok(rv) => rv@ == v,
                Err(_) => false,
            }),
            Err(e) => (match r {
                Err(te) => te@ == e,
                Ok(_) => false,
            }),
        },
    decreases value,
{
    match value {
        Json::Obj(entries) => {
            proof {
                lemma_obj_view(entries@);
            }
            let ghost es = obj_view(entries@);
            let mut out: Vec<(String, Json)> = Vec::new();
            let mut i: usize = 0;
            proof {
                assert(es.subrange(0, 0) =~= Seq::<(Seq<char>, JsonV)>::empty());
                assert(obj_view(out@) =~= Seq::<(Seq<char>, JsonV)>::empty());
            }
            while i < entries.len()
                invariant
                    i <= entries@.len(),
                    render_entries(es.subrange(0, i as int), context@, validations@) == Ok::<
                        _,
                        TemplateErrorV,
                    >(obj_view(out@)),
                decreases entries@.len() - i,
            {
                match render_value(&entries[i].1, context, validations) {
                    Err(te) => {
                        proof {
                            let t = es.subrange(0, i as int + 1);
                            assert(t.drop_last() =~= es.subrange(0, i as int));
                            assert(t.last() == es[i as int]);
                            assert(es[i as int].1 == entries@[i as int].1@);
                            lemma_render_entries_extend(
                                es,
                                i as int + 1,
                                context@,
                                validations@,
                            );
                        }
                        return Err(te);
                    },
                    Ok(v) => {
                        let key = entries[i].0.clone();
                        let ghost out0 = out@;
                        out.push((key, v));
                        proof {
                            let t = es.subrange(0, i as int + 1);
                            assert(t.drop_last() =~= es.subrange(0, i as int));
                            assert(t.last() == es[i as int]);
                            assert(es[i as int] == (entries@[i as int].0@, entries@[
                                i as int].1@));
                            let ne = out@;
                            assert(ne.drop_last() =~= out0);
                            assert(obj_view(ne) == obj_view(ne.drop_last()).push(
                                (ne.last().0@, ne.last().1@),
                            ));
                        }
                        i = i + 1;
                    },
                }
            }
            proof {
                assert(es.subrange(0, i as int) =~= es);
            }
            Ok(Json::Obj(out))
        },
        Json::Arr(items) => {
            proof {
                lemma_arr_view(items@);
            }
            let ghost es = arr_view(items@);
            let mut out: Vec<Json> = Vec::new();
            let mut i: usize = 0;
            proof {
                assert(es.subrange(0, 0) =~= Seq::<JsonV>::empty());
                assert(arr_view(out@) =~= Seq::<JsonV>::empty());
            }
            while i < items.len()
                invariant
                    i <= items@.len(),
                    render_items(es.subrange(0, i as int), context@, validations@) == Ok::<
                        _,
                        TemplateErrorV,
                    >(arr_view(out@)),
                decreases items@.len() - i,
            {
                match render_value(&items[i], context, validations) {
                    Err(te) => {
                        proof {
                            let t = es.subrange(0, i as int + 1);
                            assert(t.drop_last() =~= es.subrange(0, i as int));
                            assert(t.last() == es[i as int]);
                            assert(es[i as int] == items@[i as int]@);
                            lemma_render_items_extend(es, i as int + 1, context@, validations@);
                        }
                        return Err(te);
                    },
                    Ok(v) => {
                        let ghost out0 = out@;
                        out.push(v);
                        proof {
                            let t = es.subrange(0, i as int + 1);
                            assert(t.drop_last() =~= es.subrange(0, i as int));
                            assert(t.last() == es[i as int]);
                            assert(es[i as int] == items@[i as int]@);
                            let ne = out@;
                            assert(ne.drop_last() =~= out0);
                            assert(arr_view(ne) == arr_view(ne.drop_last()).push(ne.last()@));
                        }
                        i = i + 1;
                    },
                }
            }
            proof {
                assert(es.subrange(0, i as int) =~= es);
            }
            Ok(Json::Arr(out))
        },
        Json::Str(st) => {
            let cs = str_to_chars(st.as_str());
            render_string_exec(&cs, context, validations)
        },
        _ => Ok(value.clone()),
    }
}

impl Templater {
    /// Every placeholder path in the named template, between `{{` and `}}`,
    /// in occurrence order, duplicates kept.
    pub fn get_template_variables(&self, template_name: &str) -> (r: Result<
        Vec<String>,
        TemplateError,
    >)
        ensures
            match tmpl_lookup(self@, template_name@) {
                None => (match r {
                    Err(e) => e@ == err_template_missing(template_name@),
                    Ok(_) => false,
                }),
                Some(t) => match extract_json(t) {
                    Ok(vars) => (match r {
                        Ok(out) => strs_view(out@) == vars,
                        Err(_) => false,
                    }),
                    Err(e) => (match r {
                        Err(te) => te@ == e,
                        Ok(_) => false,
                    }),
                },
            },
    {
        match self.find_template(template_name) {
            None => Err(mk_template_missing(template_name.to_owned())),
            Some(t) => {
                let mut out: Vec<String> = Vec::new();
                proof {
                    assert(strs_view(out@) =~= Seq::<Seq<char>>::empty());
                }
                match extract_value(t, &mut out) {
                    Ok(_) => {
                        proof {
                            match extract_json(t@) {
                                Ok(vars) => {
                                    assert(Seq::<Seq<char>>::empty() + vars =~= vars);
                                },
                                Err(_) => {},
                            }
                        }
                        Ok(out)
                    },
                    Err(te) => Err(te),
                }
            },
        }
    }

    /// The named template rendered against a context, with the declared
    /// validations applied.
    pub fn render(&self, template_name: &str, context: &Json, validations: &Validations) -> (r:
        Result<Json, TemplateError>)
        ensures
            match tmpl_lookup(self@, template_name@) {
                None => (match r {
                    Err(e) => e@ == err_template_missing(template_name@),
                    Ok(_) => false,
                }),
                Some(t) => match render_json(t, context@, validations@) {
                    Ok(v) => (match r {
                        Ok(rv) => rv@ == v,
                        Err(_) => false,
                    }),
                    Err(e) => (match r {
                        Err(te) => te@ == e,
                        Ok(_) => false,
                    }),
                },
            },
    {
        match self.find_template(template_name) {
            None => Err(mk_template_missing(template_name.to_owned())),
            Some(t) => render_value(t, context, validations),
        }
    }
}

// ---------- stated laws of rendering ----------

/// Rendering is a structural homomorphism outside string leaves: an object
/// or array renders by rendering each value in place, in order, the first
/// failure deciding; a string leaf renders through `render_string`; every
/// other scalar renders to itself.
pub proof fn lemma_render_structural(
    t: JsonV,
    ctx: JsonV,
    vals: Seq<(Seq<char>, ValidationFieldType)>,
)
    ensures
        t is Obj ==> render_json(t, ctx, vals) == (match render_entries(t->Obj_0, ctx, vals) {
            Ok(res) => Ok::<JsonV, TemplateErrorV>(JsonV::Obj(res)),
            Err(e) => Err(e),
        }),
        t is Arr ==> render_json(t, ctx, vals) == (match render_items(t->Arr_0, ctx, vals) {
            Ok(res) => Ok::<JsonV, TemplateErrorV>(JsonV::Arr(res)),
            Err(e) => Err(e),
        }),
        t is Str ==> render_json(t, ctx, vals) == render_string(t->Str_0, ctx, vals),
        t is Null || t is Bool || t is Num ==> render_json(t, ctx, vals) == Ok::<
            JsonV,
            TemplateErrorV,
        >(t),
{
}

/// Rendered object entries, leaf by leaf: the render succeeds exactly when
/// every value renders, and then keeps each key with its rendered value, in
/// order.
pub proof fn lemma_render_entries_pointwise(
    es: Seq<(Seq<char>, JsonV)>,
    ctx: JsonV,
    vals: Seq<(Seq<char>, ValidationFieldType)>,
)
    ensures
        render_entries(es, ctx, vals) is Ok <==> (forall|k: int|
            0 <= k < es.len() ==> render_json(#[trigger] es[k].1, ctx, vals) is Ok),
        render_entries(es, ctx, vals) matches Ok(res) ==> res.len() == es.len() && forall|k: int|
            0 <= k < es.len() ==> #[trigger] res[k] == (
                es[k].0,
                render_json(es[k].1, ctx, vals)->Ok_0,
            ),
    decreases es,
{
    if es.len() > 0 {
        lemma_render_entries_pointwise(es.drop_last(), ctx, vals);
        assert forall|k: int| 0 <= k < es.len() - 1 implies es.drop_last()[k] == es[k] by {}
        if render_entries(es, ctx, vals) is Ok {
            assert forall|k: int|
                0 <= k < es.len() implies render_json(#[trigger] es[k].1, ctx, vals) is Ok by {
                if k < es.len() - 1 {
                    assert(render_json(es.drop_last()[k].1, ctx, vals) is Ok);
                }
            }
        }
        if forall|k: int| 0 <= k < es.len() ==> render_json(#[trigger] es[k].1, ctx, vals) is Ok {
            assert(render_json(es.last().1, ctx, vals) is Ok);
            assert forall|k: int|
                0 <= k < es.len() - 1 implies render_json(
                #[trigger] es.drop_last()[k].1,
                ctx,
                vals,
            ) is Ok by {
                assert(es.drop_last()[k] == es[k]);
                assert(render_json(es[k].1, ctx, vals) is Ok);
            }
            assert(render_entries(es.drop_last(), ctx, vals) is Ok);
        }
    }
}

/// Rendered array items, leaf by leaf.
pub proof fn lemma_render_items_pointwise(
    es: Seq<JsonV>,
    ctx: JsonV,
    vals: Seq<(Seq<char>, ValidationFieldType)>,
)
    ensures
        render_items(es, ctx, vals) is Ok <==> (forall|k: int|
            0 <= k < es.len() ==> render_json(#[trigger] es[k], ctx, vals) is Ok),
        render_items(es, ctx, vals) matches Ok(res) ==> res.len() == es.len() && forall|k: int|
            0 <= k < es.len() ==> #[trigger] res[k] == render_json(es[k], ctx, vals)->Ok_0,
    decreases es,
{
    if es.len() > 0 {
        lemma_render_items_pointwise(es.drop_last(), ctx, vals);
        assert forall|k: int| 0 <= k < es.len() - 1 implies es.drop_last()[k] == es[k] by {}
        if render_items(es, ctx, vals) is Ok {
            assert forall|k: int|
                0 <= k < es.len() implies render_json(#[trigger] es[k], ctx, vals) is Ok by {
                if k < es.len() - 1 {
                    assert(render_json(es.drop_last()[k], ctx, vals) is Ok);
                }
            }
        }
        if forall|k: int| 0 <= k < es.len() ==> render_json(#[trigger] es[k], ctx, vals) is Ok {
            assert(render_json(es.last(), ctx, vals) is Ok);
            assert forall|k: int|
                0 <= k < es.len() - 1 implies render_json(
                #[trigger] es.drop_last()[k],
                ctx,
                vals,
            ) is Ok by {
                assert(es.drop_last()[k] == es[k]);
                assert(render_json(es[k], ctx, vals) is Ok);
            }
            assert(render_items(es.drop_last(), ctx, vals) is Ok);
        }
    }
}

// ---------- templates without placeholders render to themselves ----------

/// No `{{` anywhere in the rendered leaves of the value.
pub open spec fn no_open(v: JsonV) -> bool
    decreases v,
{
    match v {
        JsonV::Str(s) => find_from(s, "{{"@, 0) is None,
        JsonV::Arr(es) => no_open_items(es),
        JsonV::Obj(es) => no_open_entries(es),
        _ => true,
    }
}

pub open spec fn no_open_items(es: Seq<JsonV>) -> bool
    decreases es,
{
    if es.len() == 0 {
        true
    } else {
        no_open_items(es.drop_last()) && no_open(es.last())
    }
}

pub open spec fn no_open_entries(es: Seq<(Seq<char>, JsonV)>) -> bool
    decreases es,
{
    if es.len() == 0 {
        true
    } else {
        no_open_entries(es.drop_last()) && no_open(es.last().1)
    }
}

/// What is trimmed is a contiguous piece of the text.
proof fn lemma_trim_start_suffix(s: Seq<char>)
    ensures
        exists|a: int|
            0 <= a <= s.len() && trim_start_seq(s) == s.subrange(a, s.len() as int),
    decreases s.len(),
{
    if s.len() > 0 && crate::text::is_space_char(s[0]) {
        lemma_trim_start_suffix(s.drop_first());
        let a = choose|a: int|
            0 <= a <= s.drop_first().len() && trim_start_seq(s.drop_first()) == s.drop_first()
                .subrange(a, s.drop_first().len() as int);
        assert(s.drop_first().subrange(a, s.drop_first().len() as int) =~= s.subrange(
            a + 1,
            s.len() as int,
        ));
        assert(trim_start_seq(s) == s.subrange(a + 1, s.len() as int));
    } else {
        assert(s.subrange(0, s.len() as int) =~= s);
    }
}

proof fn lemma_trim_end_prefix(s: Seq<char>)
    ensures
        exists|b: int| 0 <= b <= s.len() && trim_end_seq(s) == s.subrange(0, b),
    decreases s.len(),
{
    if s.len() > 0 && crate::text::is_space_char(s.last()) {
        lemma_trim_end_prefix(s.drop_last());
        let b = choose|b: int|
            0 <= b <= s.drop_last().len() && trim_end_seq(s.drop_last()) == s.drop_last()
                .subrange(0, b);
        assert(s.drop_last().subrange(0, b) =~= s.subrange(0, b));
        assert(trim_end_seq(s) == s.subrange(0, b));
    } else {
        assert(s.subrange(0, s.len() as int) =~= s);
    }
}

proof fn lemma_trim_is_subrange(s: Seq<char>)
    ensures
        exists|a: int, b: int|
            0 <= a <= b <= s.len() && trim_seq(s) == s.subrange(a, b),
{
    lemma_trim_start_suffix(s);
    let a = choose|a: int|
        0 <= a <= s.len() && trim_start_seq(s) == s.subrange(a, s.len() as int);
    lemma_trim_end_prefix(trim_start_seq(s));
    let b = choose|b: int|
        0 <= b <= trim_start_seq(s).len() && trim_end_seq(trim_start_seq(s)) == trim_start_seq(
            s,
        ).subrange(0, b);
    assert(s.subrange(a, s.len() as int).subrange(0, b) =~= s.subrange(a, a + b));
    assert(trim_seq(s) == s.subrange(a, a + b));
}

/// A string with no `{{` renders to itself.
proof fn lemma_render_string_no_open(
    s: Seq<char>,
    ctx: JsonV,
    vals: Seq<(Seq<char>, ValidationFieldType)>,
)
    requires
        find_from(s, "{{"@, 0) is None,
    ensures
        render_string(s, ctx, vals) == Ok::<JsonV, TemplateErrorV>(JsonV::Str(s)),
{
    reveal_strlit("{{");
    lemma_find_from_props(s, "{{"@, 0);
    let t = trim_seq(s);
    if t.len() >= 2 && t.subrange(0, 2) == "{{"@ {
        lemma_trim_is_subrange(s);
        let (a, b) = choose|a: int, b: int|
            0 <= a <= b <= s.len() && trim_seq(s) == s.subrange(a, b);
        assert(s.subrange(a, a + 2) =~= t.subrange(0, 2)) by {
            assert forall|k: int| 0 <= k < 2 implies s.subrange(a, a + 2)[k] == t.subrange(
                0,
                2,
            )[k] by {
                assert(t[k] == s[a + k]);
            }
        }
        assert(match_at(s, "{{"@, a));
        assert(false);
    }
    assert(interp_from(Seq::empty(), s, 0, ctx, vals) == Ok::<Seq<char>, TemplateErrorV>(
        Seq::empty() + s.subrange(0, s.len() as int),
    ));
    assert(Seq::empty() + s.subrange(0, s.len() as int) =~= s);
}

/// A template with no `{{` renders to itself, whatever the context.
pub proof fn lemma_render_no_placeholders(
    t: JsonV,
    ctx: JsonV,
    vals: Seq<(Seq<char>, ValidationFieldType)>,
)
    requires
        no_open(t),
    ensures
        render_json(t, ctx, vals) == Ok::<JsonV, TemplateErrorV>(t),
    decreases t,
{
    match t {
        JsonV::Str(s) => {
            lemma_render_string_no_open(s, ctx, vals);
        },
        JsonV::Arr(es) => {
            lemma_render_no_placeholders_items(es, ctx, vals);
            assert(render_items(es, ctx, vals) == Ok::<Seq<JsonV>, TemplateErrorV>(es));
        },
        JsonV::Obj(es) => {
            lemma_render_no_placeholders_entries(es, ctx, vals);
            assert(render_entries(es, ctx, vals) == Ok::<
                Seq<(Seq<char>, JsonV)>,
                TemplateErrorV,
            >(es));
        },
        _ => {},
    }
}

proof fn lemma_render_no_placeholders_items(
    es: Seq<JsonV>,
    ctx: JsonV,
    vals: Seq<(Seq<char>, ValidationFieldType)>,
)
    requires
        no_open_items(es),
    ensures
        render_items(es, ctx, vals) == Ok::<Seq<JsonV>, TemplateErrorV>(es),
    decreases es,
{
    if es.len() > 0 {
        lemma_render_no_placeholders_items(es.drop_last(), ctx, vals);
        lemma_render_no_placeholders(es.last(), ctx, vals);
        assert(es.drop_last().push(es.last()) =~= es);
    } else {
        assert(es =~= Seq::<JsonV>::empty());
    }
}

proof fn lemma_render_no_placeholders_entries(
    es: Seq<(Seq<char>, JsonV)>,
    ctx: JsonV,
    vals: Seq<(Seq<char>, ValidationFieldType)>,
)
    requires
        no_open_entries(es),
    ensures
        render_entries(es, ctx, vals) == Ok::<Seq<(Seq<char>, JsonV)>, TemplateErrorV>(es),
    decreases es,
{
    if es.len() > 0 {
        lemma_render_no_placeholders_entries(es.drop_last(), ctx, vals);
        lemma_render_no_placeholders(es.last().1, ctx, vals);
        assert(es.drop_last().push((es.last().0, es.last().1)) =~= es);
    } else {
        assert(es =~= Seq::<(Seq<char>, JsonV)>::empty());
    }
}

// ---------- whole-string placeholders keep the value's shape ----------

/// The path of a string that is, after trimming, exactly one whole
/// placeholder: it opens with `{{` and its first `}}` is its final two
/// characters.
pub open spec fn whole_placeholder_var(s: Seq<char>) -> Option<Seq<char>> {
    let t = trim_seq(s);
    if t.len() >= 2 && t.subrange(0, 2) == "{{"@ && find_from(t, "}}"@, 0) == Some(t.len() - 2) {
        Some(trim_seq(t.subrange(2, t.len() - 2)))
    } else {
        None
    }
}

/// A whole-string placeholder whose path resolves keeps the resolved value
/// exactly — its JSON shape included — when no validation narrows it, when
/// the declared type is `unknown`, and when an object is declared `object`.
pub proof fn lemma_whole_placeholder_preserves(
    s: Seq<char>,
    ctx: JsonV,
    vals: Seq<(Seq<char>, ValidationFieldType)>,
    v: JsonV,
)
    requires
        (whole_placeholder_var(s) is Some),
        resolve_path(ctx, whole_placeholder_var(s)->Some_0) == Some(v),
    ensures
        vals_lookup(vals, second_segment(whole_placeholder_var(s)->Some_0)) is None
            ==> render_string(s, ctx, vals) == Ok::<JsonV, TemplateErrorV>(v),
        vals_lookup(vals, second_segment(whole_placeholder_var(s)->Some_0)) == Some(
            ValidationFieldType::Unknown,
        ) ==> render_string(s, ctx, vals) == Ok::<JsonV, TemplateErrorV>(v),
        vals_lookup(vals, second_segment(whole_placeholder_var(s)->Some_0)) == Some(
            ValidationFieldType::Object,
        ) && v is Obj ==> render_string(s, ctx, vals) == Ok::<JsonV, TemplateErrorV>(v),
{
}

} // verus!