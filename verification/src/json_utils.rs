use vstd::prelude::*;
use vstd::string::StrSliceExecFns;

use crate::err::{agrees, g_cut, g_fatal, g_label, g_mis, Ctx, PRes, ParseError};
use crate::scan::{
    digits_end, has_lit, is_space, lemma_scan_end, match_lit, scan_digits, scan_sp, sp_end,
};

verus! {

/// A JSON-like document value, as decoded from the inside of a
/// `jsonencode(...)` property value.
///
/// A number keeps the text of its decimal literal (optional sign, integer
/// part, optional fraction, optional exponent); consumers convert it to a
/// machine float outside this crate. An object keeps one entry per key, in
/// first-insertion order; a later duplicate key silently overwrites the
/// value of the earlier one.
#[derive(Debug, PartialEq)]
pub enum JsonValue {
    Null,
    Str(String),
    Boolean(bool),
    Num(String),
    Array(Vec<JsonValue>),
    Object(Vec<(String, JsonValue)>),
}

/// The mathematical model of a `JsonValue`.
pub enum JsonV {
    Null,
    Str(Seq<char>),
    Boolean(bool),
    Num(Seq<char>),
    Array(Seq<JsonV>),
    Object(Seq<(Seq<char>, JsonV)>),
}

impl JsonValue {
    pub open spec fn view(self) -> JsonV
        decreases self,
    {
        match self {
            JsonValue::Null => JsonV::Null,
            JsonValue::Str(s) => JsonV::Str(s@),
            JsonValue::Boolean(b) => JsonV::Boolean(b),
            JsonValue::Num(t) => JsonV::Num(t@),
            JsonValue::Array(items) => JsonV::Array(JsonValue::view_list(items@)),
            JsonValue::Object(entries) => JsonV::Object(JsonValue::view_entries(entries@)),
        }
    }

    pub open spec fn view_list(s: Seq<JsonValue>) -> Seq<JsonV>
        decreases s,
    {
        if s.len() == 0 {
            Seq::empty()
        } else {
            JsonValue::view_list(s.drop_last()).push(s.last().view())
        }
    }

    pub open spec fn view_entries(s: Seq<(String, JsonValue)>) -> Seq<(Seq<char>, JsonV)>
        decreases s,
    {
        if s.len() == 0 {
            Seq::empty()
        } else {
            JsonValue::view_entries(s.drop_last()).push((s.last().0@, s.last().1.view()))
        }
    }
}

pub proof fn lemma_view_entries(s: Seq<(String, JsonValue)>)
    ensures
        JsonValue::view_entries(s).len() == s.len(),
        forall|j: int|
            0 <= j < s.len() ==> #[trigger] JsonValue::view_entries(s)[j] == (
                s[j].0@,
                s[j].1.view(),
            ),
    decreases s,
{
    if s.len() > 0 {
        lemma_view_entries(s.drop_last());
    }
}

/// A character that may follow a backslash inside a JSON string.
pub open spec fn is_escapable(c: char) -> bool {
    c == '"' || c == 'n' || c == '\\'
}

/// Where the body of a JSON string starting at `i` ends: the scan stops at
/// the closing quote, at the end of the input, or at a backslash that does
/// not begin one of the allowed escapes `\"`, `\n`, `\\`.
pub open spec fn str_body_end(s: Seq<char>, i: int) -> int
    decreases s.len() - i,
{
    if 0 <= i < s.len() {
        if s[i] == '"' {
            i
        } else if s[i] == '\\' {
            if i + 1 < s.len() && is_escapable(s[i + 1]) {
                str_body_end(s, i + 2)
            } else {
                i
            }
        } else {
            str_body_end(s, i + 1)
        }
    } else {
        i
    }
}

pub proof fn lemma_str_body_end(s: Seq<char>, i: int)
    ensures
        i <= str_body_end(s, i),
        0 <= i <= s.len() ==> str_body_end(s, i) <= s.len(),
        0 <= i <= s.len() ==> (str_body_end(s, i) == s.len() || s[str_body_end(s, i)] == '"'
            || s[str_body_end(s, i)] == '\\'),
    decreases s.len() - i,
{
    if 0 <= i < s.len() {
        if s[i] == '"' {
        } else if s[i] == '\\' {
            if i + 1 < s.len() && is_escapable(s[i + 1]) {
                lemma_str_body_end(s, i + 2);
            }
        } else {
            lemma_str_body_end(s, i + 1);
        }
    }
}

/// The body of a JSON string: the verbatim character run up to the closing
/// quote, escape sequences included and undecoded. A backslash that begins
/// an unknown escape is a mismatch at the backslash.
pub open spec fn spec_parse_str(s: Seq<char>, i: int) -> PRes<Seq<char>> {
    let j = str_body_end(s, i);
    if 0 <= j < s.len() && s[j] == '\\' {
        g_mis(j)
    } else {
        PRes::Found(j, s.subrange(i, j))
    }
}

/// `true` or `false`.
pub open spec fn spec_boolean(s: Seq<char>, i: int) -> PRes<bool> {
    if has_lit(s, i, "true"@) {
        PRes::Found(i + 4, true)
    } else if has_lit(s, i, "false"@) {
        PRes::Found(i + 5, false)
    } else {
        g_mis(i)
    }
}

/// The literal `null`.
pub open spec fn spec_null(s: Seq<char>, i: int) -> PRes<()> {
    if has_lit(s, i, "null"@) {
        PRes::Found(i + 4, ())
    } else {
        g_mis(i)
    }
}

/// A quoted JSON string. Once the opening quote is seen the production is
/// committed: a bad escape or a missing closing quote is fatal, labelled
/// with the `string` rule.
pub open spec fn spec_string(s: Seq<char>, i: int) -> PRes<Seq<char>> {
    if 0 <= i < s.len() && s[i] == '"' {
        match spec_parse_str(s, i + 1) {
            PRes::Found(j, content) => if j < s.len() && s[j] == '"' {
                PRes::Found(j + 1, content)
            } else {
                PRes::Fail(true, j, seq![Ctx::InString])
            },
            PRes::Fail(_, p, _) => PRes::Fail(true, p, seq![Ctx::InString]),
        }
    } else {
        PRes::Fail(false, i, seq![Ctx::InString])
    }
}

pub proof fn lemma_spec_string(s: Seq<char>, i: int)
    ensures
        spec_string(s, i) matches PRes::Found(q, v) ==> i + 2 <= q <= s.len(),
{
    if 0 <= i < s.len() && s[i] == '"' {
        lemma_str_body_end(s, i + 1);
    }
}

/// End of an optional exponent part at `f`: `e` or `E`, an optional sign,
/// then at least one digit; if the digits are missing the exponent is not
/// taken at all.
pub open spec fn spec_exp_end(s: Seq<char>, f: int) -> int {
    if 0 <= f < s.len() && (s[f] == 'e' || s[f] == 'E') {
        let k = if f + 1 < s.len() && (s[f + 1] == '+' || s[f + 1] == '-') {
            f + 2
        } else {
            f + 1
        };
        if digits_end(s, k) == k {
            f
        } else {
            digits_end(s, k)
        }
    } else {
        f
    }
}

/// A decimal number literal: an optional sign, a non-empty integer part,
/// an optional fraction (a dot and any digits), an optional exponent.
/// The value is the verbatim text of the literal.
pub open spec fn spec_number(s: Seq<char>, i: int) -> PRes<Seq<char>> {
    let j = if 0 <= i < s.len() && (s[i] == '+' || s[i] == '-') {
        i + 1
    } else {
        i
    };
    let d = digits_end(s, j);
    if d == j {
        g_mis(i)
    } else {
        let f = if 0 <= d < s.len() && s[d] == '.' {
            digits_end(s, d + 1)
        } else {
            d
        };
        let e = spec_exp_end(s, f);
        PRes::Found(e, s.subrange(i, e))
    }
}

/// First index of `k` among the keys of `es`, or `es.len()` if absent.
pub open spec fn key_index(es: Seq<(Seq<char>, JsonV)>, k: Seq<char>) -> int
    decreases es.len(),
{
    if es.len() == 0 {
        0
    } else if es[0].0 == k {
        0
    } else {
        1 + key_index(es.subrange(1, es.len() as int), k)
    }
}

pub proof fn lemma_key_index(es: Seq<(Seq<char>, JsonV)>, k: Seq<char>)
    ensures
        0 <= key_index(es, k) <= es.len(),
        key_index(es, k) < es.len() ==> es[key_index(es, k)].0 == k,
        forall|j: int| 0 <= j < key_index(es, k) ==> (#[trigger] es[j]).0 != k,
    decreases es.len(),
{
    if es.len() > 0 && es[0].0 != k {
        lemma_key_index(es.subrange(1, es.len() as int), k);
        assert forall|j: int| 0 <= j < key_index(es, k) implies (#[trigger] es[j]).0 != k by {
            if j > 0 {
                assert(es.subrange(1, es.len() as int)[j - 1] == es[j]);
            }
        }
    }
}

/// Add an object entry: a later duplicate key overwrites the value of the
/// earlier entry in place; a new key is appended.
pub open spec fn upsert(es: Seq<(Seq<char>, JsonV)>, k: Seq<char>, v: JsonV) -> Seq<
    (Seq<char>, JsonV),
> {
    let j = key_index(es, k);
    if j < es.len() {
        es.update(j, (k, v))
    } else {
        es.push((k, v))
    }
}

/// A JSON value: leading whitespace, then the first of object, array,
/// string, number, boolean, null that matches.
pub open spec fn spec_json_value(s: Seq<char>, i: int) -> PRes<JsonV>
    decreases s.len() - i, 4int,
{
    let j = sp_end(s, i);
    proof {
        lemma_scan_end(s, i, |c: char| is_space(c));
    }
    match spec_hash(s, j) {
        PRes::Found(p, v) => PRes::Found(p, JsonV::Object(v)),
        PRes::Fail(f1, p1, ls1) => if f1 {
            PRes::Fail(f1, p1, ls1)
        } else {
            match spec_array(s, j) {
                PRes::Found(p, v) => PRes::Found(p, JsonV::Array(v)),
                PRes::Fail(f2, p2, ls2) => if f2 {
                    PRes::Fail(f2, p2, ls2)
                } else {
                    match spec_string(s, j) {
                        PRes::Found(p, v) => PRes::Found(p, JsonV::Str(v)),
                        PRes::Fail(f3, p3, ls3) => if f3 {
                            PRes::Fail(f3, p3, ls3)
                        } else {
                            match spec_number(s, j) {
                                PRes::Found(p, v) => PRes::Found(p, JsonV::Num(v)),
                                PRes::Fail(..) => match spec_boolean(s, j) {
                                    PRes::Found(p, b) => PRes::Found(p, JsonV::Boolean(b)),
                                    PRes::Fail(..) => match spec_null(s, j) {
                                        PRes::Found(p, _) => PRes::Found(p, JsonV::Null),
                                        PRes::Fail(..) => g_mis(j),
                                    },
                                },
                            }
                        },
                    }
                },
            }
        },
    }
}

/// The elements of a JSON array, starting just after the `[`.
pub open spec fn spec_arr_items(s: Seq<char>, k: int) -> PRes<Seq<JsonV>>
    decreases s.len() - k, 5int,
{
    match spec_json_value(s, k) {
        PRes::Fail(f, p, ls) => if f {
            PRes::Fail(f, p, ls)
        } else {
            PRes::Found(k, Seq::empty())
        },
        PRes::Found(p, v) => if !(k < p <= s.len()) {
            g_fatal(p)
        } else {
            spec_arr_more(s, p, seq![v])
        },
    }
}

/// Further comma-separated array elements after a first element ending at
/// `p`. When a comma is not followed by an element, the comma is not
/// consumed and the elements so far stand.
pub open spec fn spec_arr_more(s: Seq<char>, p: int, acc: Seq<JsonV>) -> PRes<Seq<JsonV>>
    decreases s.len() - p, 5int,
{
    let t = sp_end(s, p);
    proof {
        lemma_scan_end(s, p, |c: char| is_space(c));
    }
    if t < s.len() && s[t] == ',' {
        match spec_json_value(s, t + 1) {
            PRes::Fail(f, q, ls) => if f {
                PRes::Fail(f, q, ls)
            } else {
                PRes::Found(p, acc)
            },
            PRes::Found(q, v) => if !(t + 1 < q <= s.len()) {
                g_fatal(q)
            } else {
                spec_arr_more(s, q, acc.push(v))
            },
        }
    } else {
        PRes::Found(p, acc)
    }
}

/// A JSON array. Once the `[` is seen the production is committed: every
/// further failure is fatal and labelled with the `array` rule.
pub open spec fn spec_array(s: Seq<char>, i: int) -> PRes<Seq<JsonV>>
    decreases s.len() - i, 1int,
{
    if 0 <= i < s.len() && s[i] == '[' {
        let r = match spec_arr_items(s, i + 1) {
            PRes::Fail(f, p, ls) => PRes::Fail(f, p, ls),
            PRes::Found(p, items) => {
                let t = sp_end(s, p);
                if t < s.len() && s[t] == ']' {
                    PRes::Found(t + 1, items)
                } else {
                    PRes::Fail(false, t, Seq::empty())
                }
            },
        };
        g_label(g_cut(r), Ctx::InArray)
    } else {
        PRes::Fail(false, i, seq![Ctx::InArray])
    }
}

/// One `"key": value` object member.
pub open spec fn spec_key_value(s: Seq<char>, k: int) -> PRes<(Seq<char>, JsonV)>
    decreases s.len() - k, 3int,
{
    let m = sp_end(s, k);
    proof {
        lemma_scan_end(s, k, |c: char| is_space(c));
        lemma_spec_string(s, m);
        lemma_scan_end(s, m, |c: char| is_space(c));
    }
    match spec_string(s, m) {
        PRes::Fail(f, p, ls) => PRes::Fail(f, p, ls),
        PRes::Found(q, key) => {
            let t = sp_end(s, q);
            proof {
                lemma_scan_end(s, q, |c: char| is_space(c));
            }
            if t < s.len() && s[t] == ':' {
                match spec_json_value(s, t + 1) {
                    PRes::Found(p2, v) => PRes::Found(p2, (key, v)),
                    PRes::Fail(_, p2, ls2) => PRes::Fail(true, p2, ls2),
                }
            } else {
                PRes::Fail(true, t, Seq::empty())
            }
        },
    }
}

/// The members of a JSON object, starting just after the `{`.
pub open spec fn spec_obj_items(s: Seq<char>, k: int) -> PRes<Seq<(Seq<char>, JsonV)>>
    decreases s.len() - k, 5int,
{
    match spec_key_value(s, k) {
        PRes::Fail(f, p, ls) => if f {
            PRes::Fail(f, p, ls)
        } else {
            PRes::Found(k, Seq::empty())
        },
        PRes::Found(p, kv) => if !(k < p <= s.len()) {
            g_fatal(p)
        } else {
            spec_obj_more(s, p, upsert(Seq::empty(), kv.0, kv.1))
        },
    }
}

/// Further comma-separated object members after a member ending at `p`.
pub open spec fn spec_obj_more(
    s: Seq<char>,
    p: int,
    acc: Seq<(Seq<char>, JsonV)>,
) -> PRes<Seq<(Seq<char>, JsonV)>>
    decreases s.len() - p, 5int,
{
    let t = sp_end(s, p);
    proof {
        lemma_scan_end(s, p, |c: char| is_space(c));
    }
    if t < s.len() && s[t] == ',' {
        match spec_key_value(s, t + 1) {
            PRes::Fail(f, q, ls) => if f {
                PRes::Fail(f, q, ls)
            } else {
                PRes::Found(p, acc)
            },
            PRes::Found(q, kv) => if !(t + 1 < q <= s.len()) {
                g_fatal(q)
            } else {
                spec_obj_more(s, q, upsert(acc, kv.0, kv.1))
            },
        }
    } else {
        PRes::Found(p, acc)
    }
}

/// A JSON object. Once the `{` is seen the production is committed: every
/// further failure is fatal and labelled with the `map` rule.
pub open spec fn spec_hash(s: Seq<char>, i: int) -> PRes<Seq<(Seq<char>, JsonV)>>
    decreases s.len() - i, 1int,
{
    if 0 <= i < s.len() && s[i] == '{' {
        let r = match spec_obj_items(s, i + 1) {
            PRes::Fail(f, p, ls) => PRes::Fail(f, p, ls),
            PRes::Found(p, entries) => {
                let t = sp_end(s, p);
                if t < s.len() && s[t] == '}' {
                    PRes::Found(t + 1, entries)
                } else {
                    PRes::Fail(false, t, Seq::empty())
                }
            },
        };
        g_label(g_cut(r), Ctx::InMap)
    } else {
        PRes::Fail(false, i, seq![Ctx::InMap])
    }
}

/// The root of a JSON document: an object, an array, or `null`, with
/// surrounding whitespace skipped. Text after the value is left unconsumed.
pub open spec fn spec_root(s: Seq<char>, i: int) -> PRes<JsonV> {
    let j = sp_end(s, i);
    match spec_hash(s, j) {
        PRes::Found(p, v) => PRes::Found(sp_end(s, p), JsonV::Object(v)),
        PRes::Fail(f1, p1, ls1) => if f1 {
            PRes::Fail(f1, p1, ls1)
        } else {
            match spec_array(s, j) {
                PRes::Found(p, v) => PRes::Found(sp_end(s, p), JsonV::Array(v)),
                PRes::Fail(f2, p2, ls2) => if f2 {
                    PRes::Fail(f2, p2, ls2)
                } else {
                    match spec_null(s, j) {
                        PRes::Found(p, _) => PRes::Found(sp_end(s, p), JsonV::Null),
                        PRes::Fail(..) => g_mis(j),
                    }
                },
            }
        },
    }
}

pub proof fn lemma_view_list_push(es: Seq<JsonValue>, x: JsonValue)
    ensures
        JsonValue::view_list(es.push(x)) == JsonValue::view_list(es).push(x.view()),
{
    assert(es.push(x).drop_last() =~= es);
}

pub proof fn lemma_view_entries_push(es: Seq<(String, JsonValue)>, x: (String, JsonValue))
    ensures
        JsonValue::view_entries(es.push(x)) == JsonValue::view_entries(es).push((x.0@, x.1.view())),
{
    assert(es.push(x).drop_last() =~= es);
}

pub proof fn lemma_view_entries_update(es: Seq<(String, JsonValue)>, i: int, x: (String, JsonValue))
    requires
        0 <= i < es.len(),
    ensures
        JsonValue::view_entries(es.update(i, x)) == JsonValue::view_entries(es).update(
            i,
            (x.0@, x.1.view()),
        ),
{
    lemma_view_entries(es);
    lemma_view_entries(es.update(i, x));
    assert(JsonValue::view_entries(es.update(i, x)) =~= JsonValue::view_entries(es).update(
        i,
        (x.0@, x.1.view()),
    ));
}

/// The body of a JSON string, scanned up to the closing quote; escape
/// sequences are checked but kept verbatim.
pub fn parse_str(s: &str, pos: usize) -> (r: Result<(usize, String), ParseError>)
    requires
        pos <= s@.len(),
    ensures
        agrees(r, spec_parse_str(s@, pos as int), |ev: String, gv: Seq<char>| ev@ == gv),
        r matches Ok((rp, _)) ==> pos <= rp <= s@.len(),
{
    let n = s.unicode_len();
    let mut p = pos;
    loop
        invariant
            pos <= p <= n,
            n == s@.len(),
            str_body_end(s@, pos as int) == str_body_end(s@, p as int),
        ensures
            pos <= p <= n,
            str_body_end(s@, pos as int) == p,
        decreases n - p,
    {
        if p == n {
            break;
        }
        let c = s.get_char(p);
        if c == '"' {
            break;
        }
        if c == '\\' {
            if p + 1 < n {
                let c2 = s.get_char(p + 1);
                if c2 == '"' || c2 == 'n' || c2 == '\\' {
                    p = p + 2;
                } else {
                    break;
                }
            } else {
                break;
            }
        } else {
            p = p + 1;
        }
    }
    if p < n && s.get_char(p) == '\\' {
        Err(ParseError::mismatch(p))
    } else {
        Ok((p, s.substring_char(pos, p).to_owned()))
    }
}

/// The literals `true` and `false`.
pub fn boolean(s: &str, pos: usize) -> (r: Result<(usize, bool), ParseError>)
    requires
        pos <= s@.len(),
    ensures
        agrees(r, spec_boolean(s@, pos as int), |ev: bool, gv: bool| ev == gv),
        r matches Ok((rp, _)) ==> pos <= rp <= s@.len(),
{
    proof {
        reveal_strlit("true");
        reveal_strlit("false");
    }
    let n = s.unicode_len();
    if match_lit(s, pos, "true") {
        Ok((pos + 4, true))
    } else if match_lit(s, pos, "false") {
        Ok((pos + 5, false))
    } else {
        Err(ParseError::mismatch(pos))
    }
}

/// The literal `null`.
fn null(s: &str, pos: usize) -> (r: Result<(usize, ()), ParseError>)
    requires
        pos <= s@.len(),
    ensures
        agrees(r, spec_null(s@, pos as int), |ev: (), gv: ()| true),
        r matches Ok((rp, _)) ==> pos <= rp <= s@.len(),
{
    proof {
        reveal_strlit("null");
    }
    let n = s.unicode_len();
    if match_lit(s, pos, "null") {
        Ok((pos + 4, ()))
    } else {
        Err(ParseError::mismatch(pos))
    }
}

/// A quoted JSON string.
pub fn string(s: &str, pos: usize) -> (r: Result<(usize, String), ParseError>)
    requires
        pos <= s@.len(),
    ensures
        agrees(r, spec_string(s@, pos as int), |ev: String, gv: Seq<char>| ev@ == gv),
        r matches Ok((rp, _)) ==> pos <= rp <= s@.len(),
{
    let n = s.unicode_len();
    if pos == n {
        return Err(ParseError::mismatch(pos).label(Ctx::InString));
    }
    if s.get_char(pos) != '"' {
        return Err(ParseError::mismatch(pos).label(Ctx::InString));
    }
    match parse_str(s, pos + 1) {
        Ok((j, content)) => {
            if j < n {
                if s.get_char(j) == '"' {
                    return Ok((j + 1, content));
                }
            }
            Err(ParseError::fatal_at(j).label(Ctx::InString))
        },
        Err(e) => Err(ParseError::fatal_at(e.pos).label(Ctx::InString)),
    }
}

/// A decimal number literal, kept as its verbatim text.
fn number(s: &str, pos: usize) -> (r: Result<(usize, String), ParseError>)
    requires
        pos <= s@.len(),
    ensures
        agrees(r, spec_number(s@, pos as int), |ev: String, gv: Seq<char>| ev@ == gv),
        r matches Ok((rp, _)) ==> pos <= rp <= s@.len(),
{
    let n = s.unicode_len();
    let mut j = pos;
    if pos < n {
        let c = s.get_char(pos);
        if c == '+' || c == '-' {
            j = pos + 1;
        }
    }
    let d = scan_digits(s, j);
    if d == j {
        return Err(ParseError::mismatch(pos));
    }
    let mut f = d;
    if d < n {
        if s.get_char(d) == '.' {
            f = scan_digits(s, d + 1);
        }
    }
    let mut e = f;
    if f < n {
        let c = s.get_char(f);
        if c == 'e' || c == 'E' {
            let mut k = f + 1;
            if f + 1 < n {
                let c2 = s.get_char(f + 1);
                if c2 == '+' || c2 == '-' {
                    k = f + 2;
                }
            }
            let d2 = scan_digits(s, k);
            if d2 != k {
                e = d2;
            }
        }
    }
    Ok((e, s.substring_char(pos, e).to_owned()))
}

/// First index of `k` among the keys of `entries`, or the length if absent.
fn find_key(entries: &Vec<(String, JsonValue)>, k: &String) -> (idx: usize)
    ensures
        idx as int == key_index(JsonValue::view_entries(entries@), k@),
{
    let ghost ges = JsonValue::view_entries(entries@);
    proof {
        lemma_view_entries(entries@);
        lemma_key_index(ges, k@);
    }
    let mut i: usize = 0;
    while i < entries.len()
        invariant
            0 <= i <= entries@.len(),
            ges == JsonValue::view_entries(entries@),
            ges.len() == entries@.len(),
            forall|j: int| 0 <= j < entries@.len() ==> #[trigger] ges[j] == (
                entries@[j].0@,
                entries@[j].1.view(),
            ),
            0 <= key_index(ges, k@) <= ges.len(),
            key_index(ges, k@) < ges.len() ==> ges[key_index(ges, k@)].0 == k@,
            forall|j: int| 0 <= j < key_index(ges, k@) ==> (#[trigger] ges[j]).0 != k@,
            forall|j: int| 0 <= j < i ==> (#[trigger] ges[j]).0 != k@,
        decreases entries@.len() - i,
    {
        if entries[i].0 == *k {
            proof {
                assert(ges[i as int].0 == k@);
                if key_index(ges, k@) < i {
                    assert(ges[key_index(ges, k@)].0 == k@);
                }
            }
            return i;
        }
        i = i + 1;
    }
    proof {
        if key_index(ges, k@) < ges.len() {
            assert(ges[key_index(ges, k@)].0 == k@);
        }
    }
    i
}

/// Add one object entry, a later duplicate key overwriting the earlier
/// value in place.
fn insert_entry(entries: Vec<(String, JsonValue)>, key: String, value: JsonValue) -> (r: Vec<
    (String, JsonValue),
>)
    ensures
        JsonValue::view_entries(r@) == upsert(
            JsonValue::view_entries(entries@),
            key@,
            value.view(),
        ),
{
    let ghost ges = JsonValue::view_entries(entries@);
    let idx = find_key(&entries, &key);
    let mut entries = entries;
    proof {
        lemma_key_index(ges, key@);
        lemma_view_entries(entries@);
    }
    if idx < entries.len() {
        proof {
            lemma_view_entries_update(entries@, idx as int, (key, value));
        }
        entries.set(idx, (key, value));
    } else {
        proof {
            lemma_view_entries_push(entries@, (key, value));
        }
        entries.push((key, value));
    }
    entries
}

/// A JSON value: leading whitespace, then the first of object, array,
/// string, number, boolean, null that matches.
pub fn json_value(s: &str, pos: usize) -> (r: Result<(usize, JsonValue), ParseError>)
    requires
        pos <= s@.len(),
    ensures
        agrees(r, spec_json_value(s@, pos as int), |ev: JsonValue, gv: JsonV| ev.view() == gv),
        r matches Ok((rp, _)) ==> pos <= rp <= s@.len(),
    decreases s@.len() - pos, 4int,
{
    let j = scan_sp(s, pos);
    match hash(s, j) {
        Ok((p, entries)) => Ok((p, JsonValue::Object(entries))),
        Err(e1) => if e1.fatal {
            Err(e1)
        } else {
            match array(s, j) {
                Ok((p, items)) => Ok((p, JsonValue::Array(items))),
                Err(e2) => if e2.fatal {
                    Err(e2)
                } else {
                    match string(s, j) {
                        Ok((p, st)) => Ok((p, JsonValue::Str(st))),
                        Err(e3) => if e3.fatal {
                            Err(e3)
                        } else {
                            match number(s, j) {
                                Ok((p, t)) => Ok((p, JsonValue::Num(t))),
                                Err(_) => match boolean(s, j) {
                                    Ok((p, b)) => Ok((p, JsonValue::Boolean(b))),
                                    Err(_) => match null(s, j) {
                                        Ok((p, _)) => Ok((p, JsonValue::Null)),
                                        Err(_) => Err(ParseError::mismatch(j)),
                                    },
                                },
                            }
                        },
                    }
                },
            }
        },
    }
}

/// The elements of a JSON array, starting just after the `[`.
fn arr_items(s: &str, pos: usize) -> (r: Result<(usize, Vec<JsonValue>), ParseError>)
    requires
        pos <= s@.len(),
    ensures
        agrees(
            r,
            spec_arr_items(s@, pos as int),
            |ev: Vec<JsonValue>, gv: Seq<JsonV>| JsonValue::view_list(ev@) == gv,
        ),
        r matches Ok((rp, _)) ==> pos <= rp <= s@.len(),
    decreases s@.len() - pos, 5int,
{
    let n = s.unicode_len();
    match json_value(s, pos) {
        Err(e) => if e.fatal {
            Err(e)
        } else {
            Ok((pos, Vec::new()))
        },
        Ok((p, v)) => {
            if !(pos < p && p <= n) {
                return Err(ParseError::fatal_at(p));
            }
            let mut acc: Vec<JsonValue> = Vec::new();
            proof {
                lemma_view_list_push(acc@, v);
            }
            acc.push(v);
            arr_more(s, p, acc)
        },
    }
}

/// Further comma-separated array elements after an element ending at `pos`.
fn arr_more(s: &str, pos: usize, acc: Vec<JsonValue>) -> (r: Result<
    (usize, Vec<JsonValue>),
    ParseError,
>)
    requires
        pos <= s@.len(),
    ensures
        agrees(
            r,
            spec_arr_more(s@, pos as int, JsonValue::view_list(acc@)),
            |ev: Vec<JsonValue>, gv: Seq<JsonV>| JsonValue::view_list(ev@) == gv,
        ),
        r matches Ok((rp, _)) ==> pos <= rp <= s@.len(),
    decreases s@.len() - pos, 5int,
{
    let n = s.unicode_len();
    let t = scan_sp(s, pos);
    if t < n {
        if s.get_char(t) == ',' {
            match json_value(s, t + 1) {
                Err(e) => {
                    if e.fatal {
                        return Err(e);
                    }
                    return Ok((pos, acc));
                },
                Ok((q, v)) => {
                    if !(t + 1 < q && q <= n) {
                        return Err(ParseError::fatal_at(q));
                    }
                    let mut acc2 = acc;
                    proof {
                        lemma_view_list_push(acc2@, v);
                    }
                    acc2.push(v);
                    return arr_more(s, q, acc2);
                },
            }
        }
    }
    Ok((pos, acc))
}

/// A JSON array.
pub fn array(s: &str, pos: usize) -> (r: Result<(usize, Vec<JsonValue>), ParseError>)
    requires
        pos <= s@.len(),
    ensures
        agrees(
            r,
            spec_array(s@, pos as int),
            |ev: Vec<JsonValue>, gv: Seq<JsonV>| JsonValue::view_list(ev@) == gv,
        ),
        r matches Ok((rp, _)) ==> pos <= rp <= s@.len(),
    decreases s@.len() - pos, 1int,
{
    let n = s.unicode_len();
    if pos == n {
        return Err(ParseError::mismatch(pos).label(Ctx::InArray));
    }
    if s.get_char(pos) != '[' {
        return Err(ParseError::mismatch(pos).label(Ctx::InArray));
    }
    match arr_items(s, pos + 1) {
        Err(e) => Err(e.escalate().label(Ctx::InArray)),
        Ok((p, items)) => {
            let t = scan_sp(s, p);
            if t < n {
                if s.get_char(t) == ']' {
                    return Ok((t + 1, items));
                }
            }
            Err(ParseError::fatal_at(t).label(Ctx::InArray))
        },
    }
}

/// One `"key": value` object member.
fn key_value(s: &str, pos: usize) -> (r: Result<(usize, (String, JsonValue)), ParseError>)
    requires
        pos <= s@.len(),
    ensures
        agrees(
            r,
            spec_key_value(s@, pos as int),
            |ev: (String, JsonValue), gv: (Seq<char>, JsonV)| ev.0@ == gv.0 && ev.1.view() == gv.1,
        ),
        r matches Ok((rp, _)) ==> pos <= rp <= s@.len(),
    decreases s@.len() - pos, 3int,
{
    let n = s.unicode_len();
    let m = scan_sp(s, pos);
    match string(s, m) {
        Err(e) => Err(e),
        Ok((q, key)) => {
            let t = scan_sp(s, q);
            if t < n {
                if s.get_char(t) == ':' {
                    return match json_value(s, t + 1) {
                        Ok((p2, v)) => Ok((p2, (key, v))),
                        Err(e2) => Err(e2.escalate()),
                    };
                }
            }
            Err(ParseError::fatal_at(t))
        },
    }
}

/// The members of a JSON object, starting just after the `{`.
fn obj_items(s: &str, pos: usize) -> (r: Result<
    (usize, Vec<(String, JsonValue)>),
    ParseError,
>)
    requires
        pos <= s@.len(),
    ensures
        agrees(
            r,
            spec_obj_items(s@, pos as int),
            |ev: Vec<(String, JsonValue)>, gv: Seq<(Seq<char>, JsonV)>|
                JsonValue::view_entries(ev@) == gv,
        ),
        r matches Ok((rp, _)) ==> pos <= rp <= s@.len(),
    decreases s@.len() - pos, 5int,
{
    let n = s.unicode_len();
    match key_value(s, pos) {
        Err(e) => if e.fatal {
            Err(e)
        } else {
            Ok((pos, Vec::new()))
        },
        Ok((p, kv)) => {
            if !(pos < p && p <= n) {
                return Err(ParseError::fatal_at(p));
            }
            let acc: Vec<(String, JsonValue)> = Vec::new();
            let acc = insert_entry(acc, kv.0, kv.1);
            obj_more(s, p, acc)
        },
    }
}

/// Further comma-separated object members after a member ending at `pos`.
fn obj_more(s: &str, pos: usize, acc: Vec<(String, JsonValue)>) -> (r: Result<
    (usize, Vec<(String, JsonValue)>),
    ParseError,
>)
    requires
        pos <= s@.len(),
    ensures
        agrees(
            r,
            spec_obj_more(s@, pos as int, JsonValue::view_entries(acc@)),
            |ev: Vec<(String, JsonValue)>, gv: Seq<(Seq<char>, JsonV)>|
                JsonValue::view_entries(ev@) == gv,
        ),
        r matches Ok((rp, _)) ==> pos <= rp <= s@.len(),
    decreases s@.len() - pos, 5int,
{
    let n = s.unicode_len();
    let t = scan_sp(s, pos);
    if t < n {
        if s.get_char(t) == ',' {
            match key_value(s, t + 1) {
                Err(e) => {
                    if e.fatal {
                        return Err(e);
                    }
                    return Ok((pos, acc));
                },
                Ok((q, kv)) => {
                    if !(t + 1 < q && q <= n) {
                        return Err(ParseError::fatal_at(q));
                    }
                    let acc2 = insert_entry(acc, kv.0, kv.1);
                    return obj_more(s, q, acc2);
                },
            }
        }
    }
    Ok((pos, acc))
}

/// A JSON object.
fn hash(s: &str, pos: usize) -> (r: Result<(usize, Vec<(String, JsonValue)>), ParseError>)
    requires
        pos <= s@.len(),
    ensures
        agrees(
            r,
            spec_hash(s@, pos as int),
            |ev: Vec<(String, JsonValue)>, gv: Seq<(Seq<char>, JsonV)>|
                JsonValue::view_entries(ev@) == gv,
        ),
        r matches Ok((rp, _)) ==> pos <= rp <= s@.len(),
    decreases s@.len() - pos, 1int,
{
    let n = s.unicode_len();
    if pos == n {
        return Err(ParseError::mismatch(pos).label(Ctx::InMap));
    }
    if s.get_char(pos) != '{' {
        return Err(ParseError::mismatch(pos).label(Ctx::InMap));
    }
    match obj_items(s, pos + 1) {
        Err(e) => Err(e.escalate().label(Ctx::InMap)),
        Ok((p, entries)) => {
            let t = scan_sp(s, p);
            if t < n {
                if s.get_char(t) == '}' {
                    return Ok((t + 1, entries));
                }
            }
            Err(ParseError::fatal_at(t).label(Ctx::InMap))
        },
    }
}

/// The root of a JSON document: an object, an array, or `null`, with
/// surrounding whitespace skipped.
pub fn root(s: &str, pos: usize) -> (r: Result<(usize, JsonValue), ParseError>)
    requires
        pos <= s@.len(),
    ensures
        agrees(r, spec_root(s@, pos as int), |ev: JsonValue, gv: JsonV| ev.view() == gv),
        r matches Ok((rp, _)) ==> pos <= rp <= s@.len(),
{
    let j = scan_sp(s, pos);
    match hash(s, j) {
        Ok((p, entries)) => {
            let t = scan_sp(s, p);
            Ok((t, JsonValue::Object(entries)))
        },
        Err(e1) => if e1.fatal {
            Err(e1)
        } else {
            match array(s, j) {
                Ok((p, items)) => {
                    let t = scan_sp(s, p);
                    Ok((t, JsonValue::Array(items)))
                },
                Err(e2) => if e2.fatal {
                    Err(e2)
                } else {
                    match null(s, j) {
                        Ok((p, _)) => {
                            let t = scan_sp(s, p);
                            Ok((t, JsonValue::Null))
                        },
                        Err(_) => Err(ParseError::mismatch(j)),
                    }
                },
            }
        },
    }
}

/// The keys of a JSON object model are pairwise distinct.
pub open spec fn obj_keys_unique(es: Seq<(Seq<char>, JsonV)>) -> bool {
    forall|i: int, j: int| 0 <= i < j < es.len() ==> (#[trigger] es[i]).0 != (#[trigger] es[j]).0
}

/// Adding an entry by overwrite keeps the keys pairwise distinct.
pub proof fn lemma_upsert_unique(es: Seq<(Seq<char>, JsonV)>, k: Seq<char>, v: JsonV)
    requires
        obj_keys_unique(es),
    ensures
        obj_keys_unique(upsert(es, k, v)),
{
    lemma_key_index(es, k);
    let ki = key_index(es, k);
    let r = upsert(es, k, v);
    if ki < es.len() {
        assert forall|i: int, j: int| 0 <= i < j < r.len() implies (#[trigger] r[i]).0 != (
        #[trigger] r[j]).0 by {
            if i != ki && j != ki {
                assert(r[i] == es[i] && r[j] == es[j]);
            } else if i == ki {
                assert(es[ki].0 == k);
                assert(r[j] == es[j]);
                assert(es[j].0 != k);
            } else {
                assert(es[ki].0 == k);
                assert(r[i] == es[i]);
                assert(es[i].0 != k);
            }
        }
    } else {
        assert forall|i: int, j: int| 0 <= i < j < r.len() implies (#[trigger] r[i]).0 != (
        #[trigger] r[j]).0 by {
            if j == es.len() as int {
                assert(r[i] == es[i]);
                assert(es[i].0 != k);
            } else {
                assert(r[i] == es[i] && r[j] == es[j]);
            }
        }
    }
}

/// Every object the member list builds has pairwise distinct keys: a later
/// duplicate key overwrites the earlier entry instead of standing beside
/// it.
pub proof fn lemma_obj_more_unique(s: Seq<char>, p: int, acc: Seq<(Seq<char>, JsonV)>)
    requires
        obj_keys_unique(acc),
    ensures
        spec_obj_more(s, p, acc) matches PRes::Found(q, es) ==> obj_keys_unique(es),
    decreases s.len() - p,
{
    lemma_scan_end(s, p, |c: char| is_space(c));
    let t = sp_end(s, p);
    if t < s.len() && s[t] == ',' {
        match spec_key_value(s, t + 1) {
            PRes::Found(q, kv) => {
                if t + 1 < q <= s.len() {
                    lemma_upsert_unique(acc, kv.0, kv.1);
                    lemma_obj_more_unique(s, q, upsert(acc, kv.0, kv.1));
                }
            },
            PRes::Fail(..) => {},
        }
    }
}

/// A parsed JSON object never carries two entries with the same key.
pub proof fn lemma_hash_keys_unique(s: Seq<char>, i: int)
    ensures
        spec_hash(s, i) matches PRes::Found(p, es) ==> obj_keys_unique(es),
{
    if 0 <= i < s.len() && s[i] == '{' {
        match spec_key_value(s, i + 1) {
            PRes::Found(p, kv) => {
                if i + 1 < p <= s.len() {
                    let acc0 = upsert(Seq::empty(), kv.0, kv.1);
                    lemma_upsert_unique(Seq::empty(), kv.0, kv.1);
                    lemma_obj_more_unique(s, p, acc0);
                }
            },
            PRes::Fail(..) => {},
        }
    }
}

} // verus!
