use vstd::prelude::*;
use vstd::string::StrSliceExecFns;

use crate::ast::{
    lemma_view_props_push, lemma_view_resources_push, lemma_view_strs_push, view_props,
    view_resources, view_strs, PropV, Resource, ResourcePropertyValue, ResourceV,
};
use crate::err::{agrees, g_fatal, g_mis, Ctx, PRes, ParseError};
use crate::json_utils::{root, spec_root, JsonV, JsonValue};
use crate::scan::{
    has_lit, is_space, key_end, lemma_key_end_at, lemma_quote_end_at, lemma_scan_end,
    lemma_sp_end_at, match_lit, nonws_end, quote_end, scan_key, scan_nonws, scan_quote, scan_seg,
    scan_sp, seg_end, sp_end,
};

verus! {

/// A double-quoted identifier with surrounding whitespace: `"<type>"` or
/// `"<name>"` of a resource block. Once the opening quote is seen, a
/// missing closing quote is fatal. The content may be empty.
pub open spec fn spec_identifier(s: Seq<char>, i: int) -> PRes<Seq<char>> {
    let j = sp_end(s, i);
    if 0 <= j < s.len() && s[j] == '"' {
        let e = quote_end(s, j + 1);
        if 0 <= e < s.len() {
            PRes::Found(sp_end(s, e + 1), s.subrange(j + 1, e))
        } else {
            PRes::Fail(true, e, Seq::empty())
        }
    } else {
        PRes::Fail(false, j, Seq::empty())
    }
}

/// A property key: a run of characters other than space and `=`, trimmed
/// of surrounding whitespace. Always matches (the run may be empty).
pub open spec fn spec_prop_key(s: Seq<char>, i: int) -> PRes<Seq<char>> {
    let j = sp_end(s, i);
    let e = key_end(s, j);
    PRes::Found(sp_end(s, e), s.subrange(j, e))
}

/// The property value `null`.
pub open spec fn spec_vnull(s: Seq<char>, i: int) -> PRes<()> {
    let j = sp_end(s, i);
    if has_lit(s, j, "null"@) {
        PRes::Found(sp_end(s, j + 4), ())
    } else {
        g_mis(j)
    }
}

/// The property values `true` and `false`.
pub open spec fn spec_vbool(s: Seq<char>, i: int) -> PRes<bool> {
    let j = sp_end(s, i);
    if has_lit(s, j, "true"@) {
        PRes::Found(sp_end(s, j + 4), true)
    } else if has_lit(s, j, "false"@) {
        PRes::Found(sp_end(s, j + 5), false)
    } else {
        g_mis(j)
    }
}

/// A double-quoted property string: a non-empty verbatim run of non-quote
/// characters, no escape processing. An empty content is a mismatch; a
/// missing closing quote is fatal, the production having committed at the
/// opening quote.
pub open spec fn spec_parse_string(s: Seq<char>, i: int) -> PRes<Seq<char>> {
    let j = sp_end(s, i);
    if 0 <= j < s.len() && s[j] == '"' {
        let e = quote_end(s, j + 1);
        if e == j + 1 {
            PRes::Fail(false, j + 1, Seq::empty())
        } else if 0 <= e < s.len() {
            PRes::Found(sp_end(s, e + 1), s.subrange(j + 1, e))
        } else {
            PRes::Fail(true, e, Seq::empty())
        }
    } else {
        PRes::Fail(false, j, Seq::empty())
    }
}

/// A `jsonencode(<json document>)` property value. The keyword commits the
/// production: a failing document or a missing `)` is fatal.
pub open spec fn spec_vjson(s: Seq<char>, i: int) -> PRes<JsonV> {
    let j = sp_end(s, i);
    if has_lit(s, j, "jsonencode("@) {
        match spec_root(s, j + 11) {
            PRes::Found(p, v) => if 0 <= p < s.len() && s[p] == ')' {
                PRes::Found(sp_end(s, p + 1), v)
            } else {
                PRes::Fail(true, p, Seq::empty())
            },
            PRes::Fail(_, p, ls) => PRes::Fail(true, p, ls),
        }
    } else {
        PRes::Fail(false, j, Seq::empty())
    }
}

/// Further comma-separated quoted strings of a `toset` array, after an
/// element ending at `k`.
pub open spec fn spec_set_items(s: Seq<char>, k: int, acc: Seq<Seq<char>>) -> PRes<Seq<Seq<char>>>
    decreases s.len() - k,
{
    let t = sp_end(s, k);
    proof {
        lemma_scan_end(s, k, |c: char| is_space(c));
    }
    if t < s.len() && s[t] == ',' {
        match spec_parse_string(s, t + 1) {
            PRes::Fail(f, p, ls) => if f {
                PRes::Fail(f, p, ls)
            } else {
                PRes::Found(k, acc)
            },
            PRes::Found(q, st) => if !(t + 1 < q <= s.len()) {
                g_fatal(q)
            } else {
                spec_set_items(s, q, acc.push(st))
            },
        }
    } else {
        PRes::Found(k, acc)
    }
}

/// A bracketed array of quoted strings, as the argument of `toset`.
pub open spec fn spec_set_array(s: Seq<char>, k: int) -> PRes<Seq<Seq<char>>> {
    let m = sp_end(s, k);
    if 0 <= m < s.len() && s[m] == '[' {
        let items_r = match spec_parse_string(s, m + 1) {
            PRes::Fail(f, p, ls) => if f {
                PRes::Fail(f, p, ls)
            } else {
                PRes::Found(m + 1, Seq::empty())
            },
            PRes::Found(p, st) => if !(m + 1 < p <= s.len()) {
                g_fatal(p)
            } else {
                spec_set_items(s, p, seq![st])
            },
        };
        match items_r {
            PRes::Fail(f, p, ls) => PRes::Fail(f, p, ls),
            PRes::Found(p, items) => {
                let t = sp_end(s, p);
                if t < s.len() && s[t] == ']' {
                    PRes::Found(sp_end(s, t + 1), items)
                } else {
                    PRes::Fail(false, t, Seq::empty())
                }
            },
        }
    } else {
        PRes::Fail(false, m, Seq::empty())
    }
}

/// A `toset([...])` property value. The keyword commits the production:
/// every failure inside the parentheses is fatal.
pub open spec fn spec_vset(s: Seq<char>, i: int) -> PRes<Seq<Seq<char>>> {
    let j = sp_end(s, i);
    if has_lit(s, j, "toset("@) {
        match spec_set_array(s, j + 6) {
            PRes::Found(p, items) => if 0 <= p < s.len() && s[p] == ')' {
                PRes::Found(sp_end(s, p + 1), items)
            } else {
                PRes::Fail(true, p, Seq::empty())
            },
            PRes::Fail(_, p, ls) => PRes::Fail(true, p, ls),
        }
    } else {
        PRes::Fail(false, j, Seq::empty())
    }
}

/// The literal placeholder token `each.key`.
pub open spec fn spec_veach(s: Seq<char>, i: int) -> PRes<()> {
    let j = sp_end(s, i);
    if has_lit(s, j, "each.key"@) {
        PRes::Found(sp_end(s, j + 8), ())
    } else {
        g_mis(j)
    }
}

/// A dotted reference `segment.segment<trailing>`: two runs of characters
/// without dots or whitespace around a dot, then a discarded run of
/// non-whitespace characters.
pub open spec fn spec_vref(s: Seq<char>, i: int) -> PRes<(Seq<char>, Seq<char>)> {
    let j = sp_end(s, i);
    let e1 = seg_end(s, j);
    if 0 <= e1 < s.len() && s[e1] == '.' {
        let e2 = seg_end(s, e1 + 1);
        let tr = nonws_end(s, e2);
        PRes::Found(sp_end(s, tr), (s.subrange(j, e1), s.subrange(e1 + 1, e2)))
    } else {
        PRes::Fail(false, e1, Seq::empty())
    }
}

/// A property value: the first of `jsonencode(...)`, `toset([...])`, a
/// quoted string, the `each.key` placeholder, a dotted reference, a
/// boolean, `null` that matches. The placeholder is recognised before the
/// reference form, which would otherwise split `each.key` into a
/// reference. When no alternative matches, the failure is fatal for the
/// enclosing resource block: no other reading of the property is tried.
pub open spec fn spec_prop_value(s: Seq<char>, i: int) -> PRes<PropV> {
    match spec_vjson(s, i) {
        PRes::Found(p, v) => PRes::Found(p, PropV::VJson(v)),
        PRes::Fail(f1, p1, ls1) => if f1 {
            PRes::Fail(f1, p1, ls1)
        } else {
            match spec_vset(s, i) {
                PRes::Found(p, items) => PRes::Found(p, PropV::VSet(items)),
                PRes::Fail(f2, p2, ls2) => if f2 {
                    PRes::Fail(f2, p2, ls2)
                } else {
                    match spec_parse_string(s, i) {
                        PRes::Found(p, st) => PRes::Found(p, PropV::VString(st)),
                        PRes::Fail(f3, p3, ls3) => if f3 {
                            PRes::Fail(f3, p3, ls3)
                        } else {
                            match spec_veach(s, i) {
                                PRes::Found(p, _) => PRes::Found(p, PropV::VEach),
                                PRes::Fail(f4, p4, ls4) => if f4 {
                                    PRes::Fail(f4, p4, ls4)
                                } else {
                                    match spec_vref(s, i) {
                                        PRes::Found(p, rr) => PRes::Found(
                                            p,
                                            PropV::VReference { res_type: rr.0, res_name: rr.1 },
                                        ),
                                        PRes::Fail(f5, p5, ls5) => if f5 {
                                            PRes::Fail(f5, p5, ls5)
                                        } else {
                                            match spec_vbool(s, i) {
                                                PRes::Found(p, b) => PRes::Found(
                                                    p,
                                                    PropV::VBoolean(b),
                                                ),
                                                PRes::Fail(f6, p6, ls6) => if f6 {
                                                    PRes::Fail(f6, p6, ls6)
                                                } else {
                                                    match spec_vnull(s, i) {
                                                        PRes::Found(p, _) => PRes::Found(
                                                            p,
                                                            PropV::VNull,
                                                        ),
                                                        PRes::Fail(f7, p7, ls7) => if f7 {
                                                            PRes::Fail(f7, p7, ls7)
                                                        } else {
                                                            g_fatal(sp_end(s, i))
                                                        },
                                                    }
                                                },
                                            }
                                        },
                                    }
                                },
                            }
                        },
                    }
                },
            }
        },
    }
}

/// One `key = value` property. A missing `=` means the text does not start
/// a property: a mismatch that ends the property list. A failing value is
/// fatal.
pub open spec fn spec_property(s: Seq<char>, i: int) -> PRes<(Seq<char>, PropV)> {
    match spec_prop_key(s, i) {
        PRes::Fail(f, p, ls) => PRes::Fail(f, p, ls),
        PRes::Found(p, key) => if 0 <= p < s.len() && s[p] == '=' {
            match spec_prop_value(s, p + 1) {
                PRes::Found(q, v) => PRes::Found(q, (key, v)),
                PRes::Fail(f, q, ls) => PRes::Fail(f, q, ls),
            }
        } else {
            PRes::Fail(false, p, Seq::empty())
        },
    }
}

/// The properties of a resource block, matched greedily until the text no
/// longer starts a property. Every parsed property is appended: duplicate
/// keys are kept, in source order, never merged.
pub open spec fn spec_properties(s: Seq<char>, k: int, acc: Seq<(Seq<char>, PropV)>) -> PRes<
    Seq<(Seq<char>, PropV)>,
>
    decreases s.len() - k,
{
    match spec_property(s, k) {
        PRes::Fail(f, p, ls) => if f {
            PRes::Fail(f, p, ls)
        } else {
            PRes::Found(k, acc)
        },
        PRes::Found(p, pr) => if !(k < p <= s.len()) {
            g_fatal(p)
        } else {
            spec_properties(s, p, acc.push(pr))
        },
    }
}

/// The `{ ... }` definition of a committed resource block: every required
/// token is mandatory, so a missing `{` or `}` is fatal.
pub open spec fn spec_res_def(s: Seq<char>, i: int) -> PRes<Seq<(Seq<char>, PropV)>> {
    let m = sp_end(s, i);
    if 0 <= m < s.len() && s[m] == '{' {
        match spec_properties(s, m + 1, Seq::empty()) {
            PRes::Fail(f, p, ls) => PRes::Fail(f, p, ls),
            PRes::Found(p, props) => {
                let t = sp_end(s, p);
                if t < s.len() && s[t] == '}' {
                    PRes::Found(sp_end(s, t + 1), props)
                } else {
                    PRes::Fail(true, t, Seq::empty())
                }
            },
        }
    } else {
        PRes::Fail(true, m, Seq::empty())
    }
}

/// One resource block. Until the `resource` keyword and the first quoted
/// identifier have matched, a failure is a mismatch: the text simply does
/// not start a block. From then on the block is committed and every
/// further failure is fatal.
pub open spec fn spec_resource(s: Seq<char>, i: int) -> PRes<ResourceV> {
    let j = sp_end(s, i);
    if has_lit(s, j, "resource"@) {
        match spec_identifier(s, j + 8) {
            PRes::Fail(f, p, ls) => PRes::Fail(f, p, ls),
            PRes::Found(p1, ty) => match spec_identifier(s, p1) {
                PRes::Fail(_, p, ls) => PRes::Fail(true, p, ls),
                PRes::Found(p2, name) => match spec_res_def(s, p2) {
                    PRes::Fail(_, p, ls) => PRes::Fail(true, p, ls),
                    PRes::Found(p3, props) => PRes::Found(
                        p3,
                        ResourceV { res_type: ty, res_def: props, res_name: name },
                    ),
                },
            },
        }
    } else {
        PRes::Fail(false, j, Seq::empty())
    }
}

/// The first position at or after `i` where the literal `resource`
/// occurs, or the end of the input if it occurs nowhere.
pub open spec fn find_res(s: Seq<char>, i: int) -> int
    decreases s.len() - i,
{
    if has_lit(s, i, "resource"@) {
        i
    } else if 0 <= i < s.len() {
        find_res(s, i + 1)
    } else {
        i
    }
}

/// A maximal run of consecutive resource blocks from `k`. A mismatch ends
/// the run; a fatal failure inside a committed block is passed through.
pub open spec fn spec_res_list(s: Seq<char>, k: int, acc: Seq<ResourceV>) -> PRes<Seq<ResourceV>>
    decreases s.len() - k,
{
    match spec_resource(s, k) {
        PRes::Fail(f, p, ls) => if f {
            PRes::Fail(f, p, ls)
        } else {
            PRes::Found(k, acc)
        },
        PRes::Found(p, r) => if !(k < p <= s.len()) {
            g_fatal(p)
        } else {
            spec_res_list(s, p, acc.push(r))
        },
    }
}

/// The whole driver: discard everything before the first occurrence of the
/// literal `resource`, then collect the maximal contiguous run of resource
/// blocks. When the literal occurs nowhere, the driver mismatches at the
/// start of the input.
pub open spec fn spec_resources(s: Seq<char>) -> PRes<Seq<ResourceV>> {
    let a = find_res(s, 0);
    if has_lit(s, a, "resource"@) {
        spec_res_list(s, a, Seq::empty())
    } else {
        PRes::Fail(false, 0, Seq::empty())
    }
}

/// Find the first occurrence of the literal `resource` at or after `pos`.
fn find_resource_kw(s: &str, pos: usize) -> (r: usize)
    requires
        pos <= s@.len(),
    ensures
        r == find_res(s@, pos as int),
        pos <= r <= s@.len(),
{
    let n = s.unicode_len();
    let mut p = pos;
    loop
        invariant
            pos <= p <= n,
            n == s@.len(),
            find_res(s@, pos as int) == find_res(s@, p as int),
        ensures
            pos <= p <= n,
            find_res(s@, pos as int) == p,
        decreases n - p,
    {
        if match_lit(s, p, "resource") {
            break;
        }
        if p == n {
            break;
        }
        p = p + 1;
    }
    p
}

/// A double-quoted identifier of a resource block.
pub fn parse_resource_identifier(s: &str, pos: usize) -> (r: Result<(usize, String), ParseError>)
    requires
        pos <= s@.len(),
    ensures
        agrees(r, spec_identifier(s@, pos as int), |ev: String, gv: Seq<char>| ev@ == gv),
        r matches Ok((rp, _)) ==> pos <= rp <= s@.len(),
{
    let n = s.unicode_len();
    let j = scan_sp(s, pos);
    if j == n {
        return Err(ParseError::mismatch(j));
    }
    if s.get_char(j) != '"' {
        return Err(ParseError::mismatch(j));
    }
    let e = scan_quote(s, j + 1);
    if e < n {
        let t = scan_sp(s, e + 1);
        Ok((t, s.substring_char(j + 1, e).to_owned()))
    } else {
        Err(ParseError::fatal_at(e))
    }
}

/// A property key, trimmed of surrounding whitespace; it may be empty.
fn parse_resource_property_key(s: &str, pos: usize) -> (r: (usize, String))
    requires
        pos <= s@.len(),
    ensures
        spec_prop_key(s@, pos as int) == PRes::Found(r.0 as int, r.1@),
        pos <= r.0 <= s@.len(),
{
    let j = scan_sp(s, pos);
    let e = scan_key(s, j);
    let t = scan_sp(s, e);
    (t, s.substring_char(j, e).to_owned())
}

/// The property value `null`.
fn parse_vnull(s: &str, pos: usize) -> (r: Result<(usize, ()), ParseError>)
    requires
        pos <= s@.len(),
    ensures
        agrees(r, spec_vnull(s@, pos as int), |ev: (), gv: ()| true),
        r matches Ok((rp, _)) ==> pos <= rp <= s@.len(),
{
    proof {
        reveal_strlit("null");
    }
    let _n = s.unicode_len();
    let j = scan_sp(s, pos);
    if match_lit(s, j, "null") {
        Ok((scan_sp(s, j + 4), ()))
    } else {
        Err(ParseError::mismatch(j))
    }
}

/// The property values `true` and `false`.
fn parse_vbool(s: &str, pos: usize) -> (r: Result<(usize, bool), ParseError>)
    requires
        pos <= s@.len(),
    ensures
        agrees(r, spec_vbool(s@, pos as int), |ev: bool, gv: bool| ev == gv),
        r matches Ok((rp, _)) ==> pos <= rp <= s@.len(),
{
    proof {
        reveal_strlit("true");
        reveal_strlit("false");
    }
    let _n = s.unicode_len();
    let j = scan_sp(s, pos);
    if match_lit(s, j, "true") {
        Ok((scan_sp(s, j + 4), true))
    } else if match_lit(s, j, "false") {
        Ok((scan_sp(s, j + 5), false))
    } else {
        Err(ParseError::mismatch(j))
    }
}

/// A double-quoted property string with non-empty verbatim content.
fn parse_string(s: &str, pos: usize) -> (r: Result<(usize, String), ParseError>)
    requires
        pos <= s@.len(),
    ensures
        agrees(r, spec_parse_string(s@, pos as int), |ev: String, gv: Seq<char>| ev@ == gv),
        r matches Ok((rp, _)) ==> pos <= rp <= s@.len(),
{
    let n = s.unicode_len();
    let j = scan_sp(s, pos);
    if j == n {
        return Err(ParseError::mismatch(j));
    }
    if s.get_char(j) != '"' {
        return Err(ParseError::mismatch(j));
    }
    let e = scan_quote(s, j + 1);
    if e == j + 1 {
        return Err(ParseError::mismatch(j + 1));
    }
    if e < n {
        let t = scan_sp(s, e + 1);
        Ok((t, s.substring_char(j + 1, e).to_owned()))
    } else {
        Err(ParseError::fatal_at(e))
    }
}

/// A `VString` property value.
fn parse_vstring(s: &str, pos: usize) -> (r: Result<(usize, String), ParseError>)
    requires
        pos <= s@.len(),
    ensures
        agrees(r, spec_parse_string(s@, pos as int), |ev: String, gv: Seq<char>| ev@ == gv),
        r matches Ok((rp, _)) ==> pos <= rp <= s@.len(),
{
    parse_string(s, pos)
}

/// A `jsonencode(<json document>)` property value.
fn parse_vjson(s: &str, pos: usize) -> (r: Result<(usize, JsonValue), ParseError>)
    requires
        pos <= s@.len(),
    ensures
        agrees(r, spec_vjson(s@, pos as int), |ev: JsonValue, gv: JsonV| ev.view() == gv),
        r matches Ok((rp, _)) ==> pos <= rp <= s@.len(),
{
    proof {
        reveal_strlit("jsonencode(");
    }
    let n = s.unicode_len();
    let j = scan_sp(s, pos);
    if !match_lit(s, j, "jsonencode(") {
        return Err(ParseError::mismatch(j));
    }
    match root(s, j + 11) {
        Ok((p, v)) => {
            if p < n {
                if s.get_char(p) == ')' {
                    return Ok((scan_sp(s, p + 1), v));
                }
            }
            Err(ParseError::fatal_at(p))
        },
        Err(e) => Err(e.escalate()),
    }
}

/// Further comma-separated quoted strings of a `toset` array.
fn set_more(s: &str, pos: usize, acc: Vec<String>) -> (r: Result<(usize, Vec<String>), ParseError>)
    requires
        pos <= s@.len(),
    ensures
        agrees(
            r,
            spec_set_items(s@, pos as int, view_strs(acc@)),
            |ev: Vec<String>, gv: Seq<Seq<char>>| view_strs(ev@) == gv,
        ),
        r matches Ok((rp, _)) ==> pos <= rp <= s@.len(),
    decreases s@.len() - pos,
{
    let n = s.unicode_len();
    let t = scan_sp(s, pos);
    if t < n {
        if s.get_char(t) == ',' {
            match parse_string(s, t + 1) {
                Err(e) => {
                    if e.fatal {
                        return Err(e);
                    }
                    return Ok((pos, acc));
                },
                Ok((q, st)) => {
                    if !(t + 1 < q && q <= n) {
                        return Err(ParseError::fatal_at(q));
                    }
                    let mut acc2 = acc;
                    proof {
                        lemma_view_strs_push(acc2@, st);
                    }
                    acc2.push(st);
                    return set_more(s, q, acc2);
                },
            }
        }
    }
    Ok((pos, acc))
}

/// A bracketed array of quoted strings, as the argument of `toset`.
fn parse_array(s: &str, pos: usize) -> (r: Result<(usize, Vec<String>), ParseError>)
    requires
        pos <= s@.len(),
    ensures
        agrees(
            r,
            spec_set_array(s@, pos as int),
            |ev: Vec<String>, gv: Seq<Seq<char>>| view_strs(ev@) == gv,
        ),
        r matches Ok((rp, _)) ==> pos <= rp <= s@.len(),
{
    let n = s.unicode_len();
    let m = scan_sp(s, pos);
    if m == n {
        return Err(ParseError::mismatch(m));
    }
    if s.get_char(m) != '[' {
        return Err(ParseError::mismatch(m));
    }
    match parse_string(s, m + 1) {
        Err(e) => {
            if e.fatal {
                return Err(e);
            }
            let t = scan_sp(s, m + 1);
            if t < n {
                if s.get_char(t) == ']' {
                    return Ok((scan_sp(s, t + 1), Vec::new()));
                }
            }
            Err(ParseError::mismatch(t))
        },
        Ok((p, st)) => {
            if !(m + 1 < p && p <= n) {
                return Err(ParseError::fatal_at(p));
            }
            let mut acc: Vec<String> = Vec::new();
            proof {
                lemma_view_strs_push(acc@, st);
            }
            acc.push(st);
            match set_more(s, p, acc) {
                Err(e) => Err(e),
                Ok((p2, items)) => {
                    let t = scan_sp(s, p2);
                    if t < n {
                        if s.get_char(t) == ']' {
                            return Ok((scan_sp(s, t + 1), items));
                        }
                    }
                    Err(ParseError::mismatch(t))
                },
            }
        },
    }
}

/// A `toset([...])` property value.
fn parse_vset(s: &str, pos: usize) -> (r: Result<(usize, Vec<String>), ParseError>)
    requires
        pos <= s@.len(),
    ensures
        agrees(
            r,
            spec_vset(s@, pos as int),
            |ev: Vec<String>, gv: Seq<Seq<char>>| view_strs(ev@) == gv,
        ),
        r matches Ok((rp, _)) ==> pos <= rp <= s@.len(),
{
    proof {
        reveal_strlit("toset(");
    }
    let n = s.unicode_len();
    let j = scan_sp(s, pos);
    if !match_lit(s, j, "toset(") {
        return Err(ParseError::mismatch(j));
    }
    match parse_array(s, j + 6) {
        Ok((p, items)) => {
            if p < n {
                if s.get_char(p) == ')' {
                    return Ok((scan_sp(s, p + 1), items));
                }
            }
            Err(ParseError::fatal_at(p))
        },
        Err(e) => Err(e.escalate()),
    }
}

/// The literal placeholder token `each.key`.
fn parse_veach(s: &str, pos: usize) -> (r: Result<(usize, ()), ParseError>)
    requires
        pos <= s@.len(),
    ensures
        agrees(r, spec_veach(s@, pos as int), |ev: (), gv: ()| true),
        r matches Ok((rp, _)) ==> pos <= rp <= s@.len(),
{
    proof {
        reveal_strlit("each.key");
    }
    let _n = s.unicode_len();
    let j = scan_sp(s, pos);
    if match_lit(s, j, "each.key") {
        Ok((scan_sp(s, j + 8), ()))
    } else {
        Err(ParseError::mismatch(j))
    }
}

/// A dotted reference `segment.segment<trailing>`.
fn parse_vreference(s: &str, pos: usize) -> (r: Result<(usize, (String, String)), ParseError>)
    requires
        pos <= s@.len(),
    ensures
        agrees(
            r,
            spec_vref(s@, pos as int),
            |ev: (String, String), gv: (Seq<char>, Seq<char>)| ev.0@ == gv.0 && ev.1@ == gv.1,
        ),
        r matches Ok((rp, _)) ==> pos <= rp <= s@.len(),
{
    let n = s.unicode_len();
    let j = scan_sp(s, pos);
    let e1 = scan_seg(s, j);
    if e1 < n {
        if s.get_char(e1) == '.' {
            let e2 = scan_seg(s, e1 + 1);
            let tr = scan_nonws(s, e2);
            let t = scan_sp(s, tr);
            let a = s.substring_char(j, e1).to_owned();
            let b = s.substring_char(e1 + 1, e2).to_owned();
            return Ok((t, (a, b)));
        }
    }
    Err(ParseError::mismatch(e1))
}

/// A property value: the ordered choice over the seven value forms.
pub fn parse_resource_property_value(s: &str, pos: usize) -> (r: Result<
    (usize, ResourcePropertyValue),
    ParseError,
>)
    requires
        pos <= s@.len(),
    ensures
        agrees(
            r,
            spec_prop_value(s@, pos as int),
            |ev: ResourcePropertyValue, gv: PropV| ev.view() == gv,
        ),
        r matches Ok((rp, _)) ==> pos <= rp <= s@.len(),
{
    match parse_vjson(s, pos) {
        Ok((p, v)) => return Ok((p, ResourcePropertyValue::VJson(v))),
        Err(e1) => {
            if e1.fatal {
                return Err(e1);
            }
        },
    }
    match parse_vset(s, pos) {
        Ok((p, items)) => return Ok((p, ResourcePropertyValue::VSet(items))),
        Err(e2) => {
            if e2.fatal {
                return Err(e2);
            }
        },
    }
    match parse_vstring(s, pos) {
        Ok((p, st)) => return Ok((p, ResourcePropertyValue::VString(st))),
        Err(e3) => {
            if e3.fatal {
                return Err(e3);
            }
        },
    }
    match parse_veach(s, pos) {
        Ok((p, _)) => return Ok((p, ResourcePropertyValue::VEach)),
        Err(e4) => {
            if e4.fatal {
                return Err(e4);
            }
        },
    }
    match parse_vreference(s, pos) {
        Ok((p, rr)) => return Ok(
            (p, ResourcePropertyValue::VReference { res_type: rr.0, res_name: rr.1 }),
        ),
        Err(e5) => {
            if e5.fatal {
                return Err(e5);
            }
        },
    }
    match parse_vbool(s, pos) {
        Ok((p, b)) => return Ok((p, ResourcePropertyValue::VBoolean(b))),
        Err(e6) => {
            if e6.fatal {
                return Err(e6);
            }
        },
    }
    match parse_vnull(s, pos) {
        Ok((p, _)) => return Ok((p, ResourcePropertyValue::VNull)),
        Err(e7) => {
            if e7.fatal {
                return Err(e7);
            }
        },
    }
    Err(ParseError::fatal_at(scan_sp(s, pos)))
}

/// One `key = value` property.
fn parse_resource_definition_property(s: &str, pos: usize) -> (r: Result<
    (usize, (String, ResourcePropertyValue)),
    ParseError,
>)
    requires
        pos <= s@.len(),
    ensures
        agrees(
            r,
            spec_property(s@, pos as int),
            |ev: (String, ResourcePropertyValue), gv: (Seq<char>, PropV)|
                ev.0@ == gv.0 && ev.1.view() == gv.1,
        ),
        r matches Ok((rp, _)) ==> pos <= rp <= s@.len(),
{
    let n = s.unicode_len();
    let (p, key) = parse_resource_property_key(s, pos);
    if p < n {
        if s.get_char(p) == '=' {
            return match parse_resource_property_value(s, p + 1) {
                Ok((q, v)) => Ok((q, (key, v))),
                Err(e) => Err(e),
            };
        }
    }
    Err(ParseError::mismatch(p))
}

/// The properties of a block, matched greedily; every parsed property is
/// appended, duplicate keys included.
fn props_more(s: &str, pos: usize, acc: Vec<(String, ResourcePropertyValue)>) -> (r: Result<
    (usize, Vec<(String, ResourcePropertyValue)>),
    ParseError,
>)
    requires
        pos <= s@.len(),
    ensures
        agrees(
            r,
            spec_properties(s@, pos as int, view_props(acc@)),
            |ev: Vec<(String, ResourcePropertyValue)>, gv: Seq<(Seq<char>, PropV)>|
                view_props(ev@) == gv,
        ),
        r matches Ok((rp, _)) ==> pos <= rp <= s@.len(),
    decreases s@.len() - pos,
{
    let n = s.unicode_len();
    match parse_resource_definition_property(s, pos) {
        Err(e) => if e.fatal {
            Err(e)
        } else {
            Ok((pos, acc))
        },
        Ok((p, pr)) => {
            if !(pos < p && p <= n) {
                return Err(ParseError::fatal_at(p));
            }
            let mut acc2 = acc;
            proof {
                lemma_view_props_push(acc2@, pr);
            }
            acc2.push(pr);
            props_more(s, p, acc2)
        },
    }
}

/// The `{ ... }` definition of a committed resource block.
fn parse_resource_definition(s: &str, pos: usize) -> (r: Result<
    (usize, Vec<(String, ResourcePropertyValue)>),
    ParseError,
>)
    requires
        pos <= s@.len(),
    ensures
        agrees(
            r,
            spec_res_def(s@, pos as int),
            |ev: Vec<(String, ResourcePropertyValue)>, gv: Seq<(Seq<char>, PropV)>|
                view_props(ev@) == gv,
        ),
        r matches Ok((rp, _)) ==> pos <= rp <= s@.len(),
{
    let n = s.unicode_len();
    let m = scan_sp(s, pos);
    if m == n {
        return Err(ParseError::fatal_at(m));
    }
    if s.get_char(m) != '{' {
        return Err(ParseError::fatal_at(m));
    }
    match props_more(s, m + 1, Vec::new()) {
        Err(e) => Err(e),
        Ok((p, props)) => {
            let t = scan_sp(s, p);
            if t < n {
                if s.get_char(t) == '}' {
                    return Ok((scan_sp(s, t + 1), props));
                }
            }
            Err(ParseError::fatal_at(t))
        },
    }
}

/// One resource block.
fn parse_resource(s: &str, pos: usize) -> (r: Result<(usize, Resource), ParseError>)
    requires
        pos <= s@.len(),
    ensures
        agrees(r, spec_resource(s@, pos as int), |ev: Resource, gv: ResourceV| ev.view() == gv),
        r matches Ok((rp, _)) ==> pos <= rp <= s@.len(),
{
    proof {
        reveal_strlit("resource");
    }
    let _n = s.unicode_len();
    let j = scan_sp(s, pos);
    if !match_lit(s, j, "resource") {
        return Err(ParseError::mismatch(j));
    }
    match parse_resource_identifier(s, j + 8) {
        Err(e) => Err(e),
        Ok((p1, ty)) => match parse_resource_identifier(s, p1) {
            Err(e) => Err(e.escalate()),
            Ok((p2, name)) => match parse_resource_definition(s, p2) {
                Err(e) => Err(e.escalate()),
                Ok((p3, props)) => Ok(
                    (p3, Resource { res_type: ty, res_def: props, res_name: name }),
                ),
            },
        },
    }
}

/// A maximal run of consecutive resource blocks.
fn resource_list(s: &str, pos: usize, acc: Vec<Resource>) -> (r: Result<
    (usize, Vec<Resource>),
    ParseError,
>)
    requires
        pos <= s@.len(),
    ensures
        agrees(
            r,
            spec_res_list(s@, pos as int, view_resources(acc@)),
            |ev: Vec<Resource>, gv: Seq<ResourceV>| view_resources(ev@) == gv,
        ),
        r matches Ok((rp, _)) ==> pos <= rp <= s@.len(),
    decreases s@.len() - pos,
{
    let n = s.unicode_len();
    match parse_resource(s, pos) {
        Err(e) => if e.fatal {
            Err(e)
        } else {
            Ok((pos, acc))
        },
        Ok((p, rsc)) => {
            if !(pos < p && p <= n) {
                return Err(ParseError::fatal_at(p));
            }
            let mut acc2 = acc;
            proof {
                lemma_view_resources_push(acc2@, rsc);
            }
            acc2.push(rsc);
            resource_list(s, p, acc2)
        },
    }
}

/// The entry point: discard everything before the first occurrence of the
/// literal `resource`, collect the maximal contiguous run of resource
/// blocks, and hand back the unconsumed remainder with the blocks in
/// source order. When the literal occurs nowhere the driver mismatches;
/// a fatal failure inside a committed block is passed through unchanged.
pub fn parse_resources<'a>(i: &'a str) -> (r: Result<(&'a str, Vec<Resource>), ParseError>)
    ensures
        spec_resources(i@) matches PRes::Found(p, rs) ==> (r matches Ok(pair) && pair.0@
            == i@.subrange(p, i@.len() as int) && view_resources(pair.1@) == rs),
        spec_resources(i@) matches PRes::Fail(f, p, ls) ==> (r matches Err(e) && e.fatal == f
            && e.pos as int == p && e.labels@ == ls),
{
    proof {
        reveal_strlit("resource");
    }
    let a = find_resource_kw(i, 0);
    if match_lit(i, a, "resource") {
        match resource_list(i, a, Vec::new()) {
            Ok((p, v)) => {
                let n = i.unicode_len();
                let rem = i.substring_char(p, n);
                Ok((rem, v))
            },
            Err(e) => Err(e),
        }
    } else {
        Err(ParseError::mismatch(0))
    }
}

/// How the property-list accumulator composes: the final list is always
/// the accumulator followed by whatever a fresh run collects.
pub proof fn lemma_properties_acc(s: Seq<char>, k: int, acc: Seq<(Seq<char>, PropV)>)
    ensures
        spec_properties(s, k, Seq::empty()) matches PRes::Found(q, r0) ==> spec_properties(
            s,
            k,
            acc,
        ) == PRes::<Seq<(Seq<char>, PropV)>>::Found(q, acc + r0),
        spec_properties(s, k, Seq::empty()) matches PRes::Fail(f, p, ls) ==> spec_properties(
            s,
            k,
            acc,
        ) == PRes::<Seq<(Seq<char>, PropV)>>::Fail(f, p, ls),
    decreases s.len() - k,
{
    match spec_property(s, k) {
        PRes::Fail(f, p, ls) => {
            if !f {
                assert(acc + Seq::<(Seq<char>, PropV)>::empty() =~= acc);
            }
        },
        PRes::Found(p, pr) => {
            if k < p <= s.len() {
                lemma_properties_acc(s, p, acc.push(pr));
                lemma_properties_acc(s, p, Seq::<(Seq<char>, PropV)>::empty().push(pr));
                match spec_properties(s, p, Seq::<(Seq<char>, PropV)>::empty()) {
                    PRes::Found(q, r1) => {
                        assert(acc.push(pr) + r1 =~= acc + (Seq::<
                            (Seq<char>, PropV),
                        >::empty().push(pr) + r1));
                    },
                    PRes::Fail(..) => {},
                }
            }
        },
    }
}

/// Duplicate property keys are kept: when one property has been parsed and
/// the rest of the block yields a further list, the block's list is that
/// property followed by the rest, whatever the keys are. No entry is
/// dropped or merged, so two properties with the same key both appear, in
/// source order.
pub proof fn lemma_properties_keep_duplicates(
    s: Seq<char>,
    k: int,
    pr: (Seq<char>, PropV),
    p: int,
)
    requires
        spec_property(s, k) == PRes::<(Seq<char>, PropV)>::Found(p, pr),
        k < p <= s.len(),
    ensures
        spec_properties(s, p, Seq::empty()) matches PRes::Found(q, rest) ==> spec_properties(
            s,
            k,
            Seq::empty(),
        ) == PRes::<Seq<(Seq<char>, PropV)>>::Found(q, seq![pr] + rest),
{
    lemma_properties_acc(s, p, Seq::<(Seq<char>, PropV)>::empty().push(pr));
    match spec_properties(s, p, Seq::<(Seq<char>, PropV)>::empty()) {
        PRes::Found(q, rest) => {
            assert(Seq::<(Seq<char>, PropV)>::empty().push(pr) + rest =~= seq![pr] + rest);
        },
        PRes::Fail(..) => {},
    }
}

/// A successful resource run never loses what was already collected.
pub proof fn lemma_res_list_len(s: Seq<char>, k: int, acc: Seq<ResourceV>)
    ensures
        spec_res_list(s, k, acc) matches PRes::Found(q, rs) ==> rs.len() >= acc.len(),
    decreases s.len() - k,
{
    match spec_resource(s, k) {
        PRes::Fail(..) => {},
        PRes::Found(p, r) => {
            if k < p <= s.len() {
                lemma_res_list_len(s, p, acc.push(r));
            }
        },
    }
}

/// Re-running the driver is a pure function of the text it is given, and
/// when it collects no resource it stops exactly at the first occurrence
/// of the `resource` literal: on a remainder that begins at such an
/// anchor, the remainder comes back unchanged.
pub proof fn lemma_resources_stop(s: Seq<char>)
    ensures
        spec_resources(s) matches PRes::Found(p, rs) ==> (rs.len() == 0 ==> p == find_res(
            s,
            0,
        )),
{
    let a = find_res(s, 0);
    if has_lit(s, a, "resource"@) {
        match spec_resource(s, a) {
            PRes::Fail(..) => {},
            PRes::Found(p1, r) => {
                if a < p1 <= s.len() {
                    lemma_res_list_len(s, p1, seq![r]);
                }
            },
        }
    }
}

/// The document built for `lemma_single_empty_block`.
pub open spec fn empty_block_doc(ty: Seq<char>, name: Seq<char>) -> Seq<char> {
    "resource \""@ + ty + "\" \""@ + name + "\" { }"@
}

proof fn lemma_empty_block_chars(ty: Seq<char>, name: Seq<char>)
    ensures
        ({
            let s = empty_block_doc(ty, name);
            let tl = ty.len() as int;
            let nl = name.len() as int;
            &&& s.len() == 18 + tl + nl
            &&& s.subrange(0, 8) == "resource"@
            &&& s[8] == ' ' && s[9] == '"'
            &&& (forall|m: int| 10 <= m < 10 + tl ==> s[m] == ty[m - 10])
            &&& s.subrange(10, 10 + tl) == ty
            &&& s[10 + tl] == '"' && s[11 + tl] == ' ' && s[12 + tl] == '"'
            &&& (forall|m: int| 13 + tl <= m < 13 + tl + nl ==> s[m] == name[m - 13 - tl])
            &&& s.subrange(13 + tl, 13 + tl + nl) == name
            &&& s[13 + tl + nl] == '"' && s[14 + tl + nl] == ' ' && s[15 + tl + nl] == '{'
            &&& s[16 + tl + nl] == ' ' && s[17 + tl + nl] == '}'
        }),
{
    reveal_strlit("resource \"");
    reveal_strlit("\" \"");
    reveal_strlit("\" { }");
    reveal_strlit("resource");
    let a = "resource \""@;
    let b = "\" \""@;
    let c = "\" { }"@;
    let s = empty_block_doc(ty, name);
    let tl = ty.len() as int;
    let nl = name.len() as int;
    assert forall|m: int| 0 <= m < 10 implies s[m] == a[m] by {}
    assert forall|m: int| 10 <= m < 10 + tl implies s[m] == ty[m - 10] by {}
    assert forall|m: int| 10 + tl <= m < 13 + tl implies s[m] == b[m - 10 - tl] by {}
    assert forall|m: int| 13 + tl <= m < 13 + tl + nl implies s[m] == name[m - 13 - tl] by {}
    assert forall|m: int| 13 + tl + nl <= m < 18 + tl + nl implies s[m] == c[m - 13 - tl - nl] by {}
    assert(s.subrange(0, 8) =~= "resource"@);
    assert(s.subrange(10, 10 + tl) =~= ty);
    assert(s.subrange(13 + tl, 13 + tl + nl) =~= name);
}

proof fn lemma_empty_block_ids(ty: Seq<char>, name: Seq<char>)
    requires
        forall|m: int| 0 <= m < ty.len() ==> ty[m] != '"',
        forall|m: int| 0 <= m < name.len() ==> name[m] != '"',
    ensures
        ({
            let s = empty_block_doc(ty, name);
            let tl = ty.len() as int;
            let nl = name.len() as int;
            &&& spec_identifier(s, 8) == PRes::<Seq<char>>::Found(12 + tl, ty)
            &&& spec_identifier(s, 12 + tl) == PRes::<Seq<char>>::Found(15 + tl + nl, name)
        }),
{
    lemma_empty_block_chars(ty, name);
    let s = empty_block_doc(ty, name);
    let tl = ty.len() as int;
    let nl = name.len() as int;
    lemma_sp_end_at(s, 8, 9);
    lemma_quote_end_at(s, 10, 10 + tl);
    lemma_sp_end_at(s, 11 + tl, 12 + tl);
    lemma_sp_end_at(s, 12 + tl, 12 + tl);
    lemma_quote_end_at(s, 13 + tl, 13 + tl + nl);
    lemma_sp_end_at(s, 14 + tl + nl, 15 + tl + nl);
}

proof fn lemma_empty_block_chars_lite(ty: Seq<char>, name: Seq<char>)
    ensures
        ({
            let s = empty_block_doc(ty, name);
            let tl = ty.len() as int;
            let nl = name.len() as int;
            &&& s.len() == 18 + tl + nl
            &&& s.subrange(0, 8) == "resource"@
            &&& s[0] == 'r'
            &&& s[15 + tl + nl] == '{'
            &&& s[16 + tl + nl] == ' '
            &&& s[17 + tl + nl] == '}'
        }),
{
    lemma_empty_block_chars(ty, name);
    reveal_strlit("resource");
    let s = empty_block_doc(ty, name);
    assert(s[0] == s.subrange(0, 8)[0]);
}

/// A definition `{ }` whose brace pair closes the input: the single
/// property attempt reads the `}` run, finds no `=`, and the list stays
/// empty.
proof fn lemma_res_def_shape(s: Seq<char>, q: int)
    requires
        0 <= q,
        q + 3 == s.len(),
        sp_end(s, q) == q,
        s[q] == '{',
        sp_end(s, q + 1) == q + 2,
        s[q + 2] == '}',
        key_end(s, q + 2) == s.len(),
        sp_end(s, s.len() as int) == s.len(),
    ensures
        spec_res_def(s, q) == PRes::<Seq<(Seq<char>, PropV)>>::Found(
            s.len() as int,
            Seq::empty(),
        ),
{
    let n = s.len() as int;
    assert(spec_prop_key(s, q + 1) == PRes::<Seq<char>>::Found(n, s.subrange(q + 2, n)));
    assert(spec_property(s, q + 1) == PRes::<(Seq<char>, PropV)>::Fail(false, n, Seq::empty()));
    assert(spec_properties(s, q + 1, Seq::empty()) == PRes::<Seq<(Seq<char>, PropV)>>::Found(
        q + 1,
        Seq::empty(),
    ));
    assert(sp_end(s, q + 1) == q + 2);
}

/// Assemble one block from its committed pieces.
proof fn lemma_resource_shape(
    s: Seq<char>,
    i: int,
    p1: int,
    p2: int,
    p3: int,
    ty: Seq<char>,
    name: Seq<char>,
    props: Seq<(Seq<char>, PropV)>,
)
    requires
        sp_end(s, i) == i,
        has_lit(s, i, "resource"@),
        spec_identifier(s, i + 8) == PRes::<Seq<char>>::Found(p1, ty),
        spec_identifier(s, p1) == PRes::<Seq<char>>::Found(p2, name),
        spec_res_def(s, p2) == PRes::<Seq<(Seq<char>, PropV)>>::Found(p3, props),
    ensures
        spec_resource(s, i) == PRes::<ResourceV>::Found(
            p3,
            ResourceV { res_type: ty, res_def: props, res_name: name },
        ),
{
    reveal_strlit("resource");
}

/// At the very end of the input no further block can start.
proof fn lemma_resource_none_at_end(s: Seq<char>)
    ensures
        spec_resource(s, s.len() as int) == PRes::<ResourceV>::Fail(
            false,
            s.len() as int,
            Seq::empty(),
        ),
{
    let n = s.len() as int;
    assert(sp_end(s, n) == n);
    reveal_strlit("resource");
    assert(!has_lit(s, n, "resource"@));
}

/// Assemble the driver's run when exactly one block spans the whole input.
proof fn lemma_driver_shape(s: Seq<char>, rv: ResourceV)
    requires
        s.len() > 0,
        find_res(s, 0) == 0,
        has_lit(s, 0, "resource"@),
        spec_resource(s, 0) == PRes::<ResourceV>::Found(s.len() as int, rv),
        spec_resource(s, s.len() as int) == PRes::<ResourceV>::Fail(
            false,
            s.len() as int,
            Seq::empty(),
        ),
    ensures
        spec_resources(s) == PRes::<Seq<ResourceV>>::Found(s.len() as int, seq![rv]),
{
    let n = s.len() as int;
    assert(Seq::<ResourceV>::empty().push(rv) =~= seq![rv]);
    assert(spec_res_list(s, n, seq![rv]) == PRes::<Seq<ResourceV>>::Found(n, seq![rv]));
    assert(spec_res_list(s, 0, Seq::empty()) == PRes::<Seq<ResourceV>>::Found(n, seq![rv]));
}

/// For every type text and name text without a quote character, the
/// document `resource "<type>" "<name>" { }` parses to exactly one
/// resource with that type and name and an empty definition, and nothing
/// of the input is left over.
#[verifier::rlimit(100)]
pub proof fn lemma_single_empty_block(ty: Seq<char>, name: Seq<char>)
    requires
        forall|m: int| 0 <= m < ty.len() ==> ty[m] != '"',
        forall|m: int| 0 <= m < name.len() ==> name[m] != '"',
    ensures
        ({
            let s = empty_block_doc(ty, name);
            spec_resources(s) == PRes::<Seq<ResourceV>>::Found(
                s.len() as int,
                seq![ResourceV { res_type: ty, res_def: Seq::empty(), res_name: name }],
            )
        }),
{
    lemma_empty_block_chars_lite(ty, name);
    lemma_empty_block_ids(ty, name);
    let s = empty_block_doc(ty, name);
    let tl = ty.len() as int;
    let nl = name.len() as int;
    let n = s.len() as int;
    reveal_strlit("resource");
    assert(has_lit(s, 0, "resource"@));
    assert(find_res(s, 0) == 0);
    lemma_sp_end_at(s, 0, 0);
    lemma_sp_end_at(s, 15 + tl + nl, 15 + tl + nl);
    lemma_sp_end_at(s, 16 + tl + nl, 17 + tl + nl);
    lemma_key_end_at(s, 17 + tl + nl, n);
    lemma_sp_end_at(s, n, n);
    lemma_res_def_shape(s, 15 + tl + nl);
    lemma_resource_shape(
        s,
        0,
        12 + tl,
        15 + tl + nl,
        n,
        ty,
        name,
        Seq::<(Seq<char>, PropV)>::empty(),
    );
    lemma_resource_none_at_end(s);
    lemma_driver_shape(s, ResourceV { res_type: ty, res_def: Seq::empty(), res_name: name });
}

/// The document for `lemma_string_property_verbatim`: a content between
/// two double quotes.
pub open spec fn quoted_doc(c: Seq<char>) -> Seq<char> {
    "\""@ + c + "\""@
}

proof fn lemma_quoted_chars(c: Seq<char>)
    ensures
        ({
            let s = quoted_doc(c);
            let cl = c.len() as int;
            &&& s.len() == cl + 2
            &&& s[0] == '"'
            &&& (forall|m: int| 1 <= m < 1 + cl ==> s[m] == c[m - 1])
            &&& s[cl + 1] == '"'
            &&& s.subrange(1, 1 + cl) == c
        }),
{
    reveal_strlit("\"");
    let s = quoted_doc(c);
    let cl = c.len() as int;
    assert forall|m: int| 1 <= m < 1 + cl implies s[m] == c[m - 1] by {}
    assert(s.subrange(1, 1 + cl) =~= c);
}

/// The quoted-string form wins the ordered choice as soon as the two
/// call-forms mismatch recoverably and the string itself matches.
proof fn lemma_prop_value_string_shape(s: Seq<char>, i: int, p: int, c: Seq<char>)
    requires
        spec_vjson(s, i) matches PRes::Fail(f1, _p1, _l1) && !f1,
        spec_vset(s, i) matches PRes::Fail(f2, _p2, _l2) && !f2,
        spec_parse_string(s, i) == PRes::<Seq<char>>::Found(p, c),
    ensures
        spec_prop_value(s, i) == PRes::<PropV>::Found(p, PropV::VString(c)),
{
}

/// A quoted string property keeps its content exactly as written: for
/// every non-empty content without a quote character, the property value
/// `"<content>"` is `VString` of precisely that content, with no escape
/// decoding of any kind.
pub proof fn lemma_string_property_verbatim(c: Seq<char>)
    requires
        c.len() > 0,
        forall|m: int| 0 <= m < c.len() ==> c[m] != '"',
    ensures
        ({
            let s = quoted_doc(c);
            spec_prop_value(s, 0) == PRes::<PropV>::Found(s.len() as int, PropV::VString(c))
        }),
{
    lemma_quoted_chars(c);
    let s = quoted_doc(c);
    let cl = c.len() as int;
    lemma_sp_end_at(s, 0, 0);

    // no call-form keyword begins with a quote character
    assert(!has_lit(s, 0, "jsonencode("@)) by {
        reveal_strlit("jsonencode(");
        if has_lit(s, 0, "jsonencode("@) {
            assert(s.subrange(0, 11)[0] == s[0]);
        }
    }
    assert(!has_lit(s, 0, "toset("@)) by {
        reveal_strlit("toset(");
        if has_lit(s, 0, "toset("@) {
            assert(s.subrange(0, 6)[0] == s[0]);
        }
    }
    assert(spec_vjson(s, 0) == PRes::<JsonV>::Fail(false, 0, Seq::empty()));
    assert(spec_vset(s, 0) == PRes::<Seq<Seq<char>>>::Fail(false, 0, Seq::empty()));

    // the quoted string itself: content verbatim, both quotes consumed
    lemma_quote_end_at(s, 1, 1 + cl);
    lemma_sp_end_at(s, cl + 2, cl + 2);
    assert(spec_parse_string(s, 0) == PRes::<Seq<char>>::Found(cl + 2, c));

    lemma_prop_value_string_shape(s, 0, cl + 2, c);
}

/// A fatal failure inside `jsonencode(...)` is the whole property value's
/// failure: the ordered choice does not fall back to the string form or
/// any other alternative.
pub proof fn lemma_fatal_json_no_fallback(s: Seq<char>, i: int)
    ensures
        spec_vjson(s, i) matches PRes::Fail(f, p, ls) ==> (f ==> spec_prop_value(s, i)
            == PRes::<PropV>::Fail(true, p, ls)),
{
}

} // verus!