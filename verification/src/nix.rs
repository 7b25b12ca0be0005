//! Reading a `.nix` config that is plain literal data (an attrset of
//! strings, numbers, booleans, `null`, lists and nested attrsets) as JSON
//! without running `nix`. Anything that uses the Nix language beyond that is
//! classified out (`None`), to be handed to `nix eval`; the choice is made by
//! syntax alone.
//!
//! The syntax tree is read as a [`NixExpr`], which holds what the
//! conversion looks at.

use rnix::ast::{Attr, Entry, Expr, HasEntry, InterpolPart, LiteralKind, UnaryOpKind};
use vstd::prelude::*;

use crate::settings::Json;
use crate::text::{chars_of, dec, push_char, push_dec, push_str, str_eq, trim, trimmed};

verus! {

broadcast use vstd::string::group_string_axioms;

/// A unary operator.
#[derive(Clone, Copy, Debug, PartialEq, Eq, Structural)]
pub enum NixUnary {
    Invert,
    Negate,
}

/// A piece of a string: literal text, or an interpolation.
#[derive(Debug)]
pub enum NixStrPart {
    Literal(String),
    Interpolation,
}

/// A string: its source text and its pieces (indentation already stripped
/// from `''` strings).
#[derive(Debug)]
pub struct NixStr {
    pub source: String,
    pub parts: Vec<NixStrPart>,
}

/// A literal: an integer (`None` when it does not fit an `i64`), a float as
/// written, or a URI.
#[derive(Debug)]
pub enum NixLiteral {
    Integer(Option<i64>),
    Float(String),
    Uri,
}

/// The name of an attribute: an identifier (`None` when the token is
/// missing), a string, or a dynamic `${..}` name.
#[derive(Debug)]
pub enum NixAttr {
    Ident(Option<String>),
    Str(NixStr),
    Dynamic,
}

/// An entry of an attrset: `inherit ..;`, or `path = value;` (either part
/// missing in a malformed entry).
#[derive(Debug)]
pub enum NixEntry {
    Inherit,
    AttrpathValue(Option<Vec<NixAttr>>, Option<NixExpr>),
}

/// An expression, as far as the conversion tells kinds apart.
#[derive(Debug)]
pub enum NixExpr {
    AttrSet { rec: bool, entries: Vec<NixEntry> },
    List(Vec<NixExpr>),
    Str(NixStr),
    Literal(NixLiteral),
    UnaryOp(Option<NixUnary>, Option<Box<NixExpr>>),
    Ident(Option<String>),
    Other,
}

/// A JSON value as a mathematical object.
pub ghost enum JsonV {
    Null,
    Bool(bool),
    Number(Seq<char>),
    Str(Seq<char>),
    Array(Seq<JsonV>),
    Object(Seq<(Seq<char>, JsonV)>),
}

/// The mathematical value of a [`Json`].
pub open spec fn json_view(j: Json) -> JsonV
    decreases j,
{
    match j {
        Json::Null => JsonV::Null,
        Json::Bool(b) => JsonV::Bool(b),
        Json::Number(t) => JsonV::Number(t@),
        Json::Str(s) => JsonV::Str(s@),
        Json::Array(v) => {
            proof {
                assert(decreases_to!(j => v));
                assert(decreases_to!(v => v@));
            }
            JsonV::Array(items_view(v@))
        },
        Json::Object(es) => {
            proof {
                assert(decreases_to!(j => es));
                assert(decreases_to!(es => es@));
            }
            JsonV::Object(entries_view(es@))
        },
    }
}

/// The values of a sequence of [`Json`]s.
pub open spec fn items_view(s: Seq<Json>) -> Seq<JsonV>
    decreases s,
{
    if s.len() == 0 {
        Seq::empty()
    } else {
        seq![json_view(s[0])] + items_view(s.drop_first())
    }
}

/// The entries of a [`Json`] object, as values.
pub open spec fn entries_view(s: Seq<(String, Json)>) -> Seq<(Seq<char>, JsonV)>
    decreases s,
{
    if s.len() == 0 {
        Seq::empty()
    } else {
        proof {
            assert(decreases_to!(s => s[0]));
            assert(decreases_to!(s[0] => s[0].1));
        }
        seq![(s[0].0@, json_view(s[0].1))] + entries_view(s.drop_first())
    }
}

/// Where `key` stands among the entries `m`.
pub open spec fn key_index(m: Seq<(Seq<char>, JsonV)>, key: Seq<char>) -> Option<int>
    decreases m.len(),
{
    if m.len() == 0 {
        None
    } else if m.last().0 == key {
        Some(m.len() - 1)
    } else {
        key_index(m.drop_last(), key)
    }
}

/// Sets `keys` (a path of attribute names) to `v` in the object `m`, as Nix
/// merges attrsets: missing objects along the path are created, an object
/// set where an object stands is merged into it key by key, and any other
/// collision (or an empty path) is refused with `None`.
pub open spec fn insert_spec(m: Seq<(Seq<char>, JsonV)>, keys: Seq<Seq<char>>, v: JsonV) -> Option<Seq<(Seq<char>, JsonV)>>
    decreases v, keys.len(),
{
    if keys.len() == 0 {
        None
    } else if keys.len() == 1 {
        match key_index(m, keys[0]) {
            None => Some(m.push((keys[0], v))),
            Some(i) => match (m[i].1, v) {
                (JsonV::Object(existing), JsonV::Object(new)) => {
                    proof {
                        assert(decreases_to!(v => new));
                    }
                    match merge_spec(existing, new) {
                        Some(merged) => Some(m.update(i, (keys[0], JsonV::Object(merged)))),
                        None => None,
                    }
                },
                _ => None,
            },
        }
    } else {
        match key_index(m, keys[0]) {
            None => match insert_spec(Seq::empty(), keys.drop_first(), v) {
                Some(child) => Some(m.push((keys[0], JsonV::Object(child)))),
                None => None,
            },
            Some(i) => match m[i].1 {
                JsonV::Object(child) => match insert_spec(child, keys.drop_first(), v) {
                    Some(c) => Some(m.update(i, (keys[0], JsonV::Object(c)))),
                    None => None,
                },
                _ => None,
            },
        }
    }
}

/// The entries `new` set one by one into `existing`.
pub open spec fn merge_spec(existing: Seq<(Seq<char>, JsonV)>, new: Seq<(Seq<char>, JsonV)>) -> Option<Seq<(Seq<char>, JsonV)>>
    decreases new, 0nat,
{
    if new.len() == 0 {
        Some(existing)
    } else {
        proof {
            assert(decreases_to!(new => new[0]));
            assert(decreases_to!(new[0] => new[0].1));
        }
        match insert_spec(existing, seq![new[0].0], new[0].1) {
            Some(m) => merge_spec(m, new.drop_first()),
            None => None,
        }
    }
}

/// The decimal text of an integer.
pub open spec fn int_text(i: int) -> Seq<char> {
    if i < 0 {
        seq!['-'] + dec((-i) as nat)
    } else {
        dec(i as nat)
    }
}

/// The text of a plain string: `None` for a `''` string (whose indentation
/// rules are left to `nix`) and for one with an interpolation.
pub open spec fn str_lit(s: NixStr) -> Option<Seq<char>> {
    if s.source@.len() >= 2 && s.source@.subrange(0, 2) == "''"@ {
        None
    } else if s.parts@.len() == 0 {
        Some(Seq::empty())
    } else if s.parts@.len() == 1 {
        match s.parts@[0] {
            NixStrPart::Literal(t) => Some(t@),
            NixStrPart::Interpolation => None,
        }
    } else {
        None
    }
}

/// The name an attribute stands for, when it is written out.
pub open spec fn attr_name_spec(a: NixAttr) -> Option<Seq<char>> {
    match a {
        NixAttr::Ident(Some(t)) => Some(t@),
        NixAttr::Ident(None) => None,
        NixAttr::Str(s) => str_lit(s),
        NixAttr::Dynamic => None,
    }
}

/// The names of an attribute path, when all are written out.
pub open spec fn attr_names(p: Seq<NixAttr>) -> Option<Seq<Seq<char>>>
    decreases p.len(),
{
    if p.len() == 0 {
        Some(Seq::empty())
    } else {
        match (attr_names(p.drop_last()), attr_name_spec(p.last())) {
            (Some(ns), Some(n)) => Some(ns.push(n)),
            _ => None,
        }
    }
}

/// A literal as JSON, negated when `negate`: an integer's decimal text, a
/// float's text as written. A URI is no data.
pub open spec fn lit_json(l: NixLiteral, negate: bool) -> Option<JsonV> {
    match l {
        NixLiteral::Integer(Some(v)) => Some(JsonV::Number(int_text(if negate { -v } else { v as int }))),
        NixLiteral::Integer(None) => None,
        NixLiteral::Float(t) => Some(JsonV::Number(if negate { seq!['-'] + t@ } else { t@ })),
        NixLiteral::Uri => None,
    }
}

/// An expression as JSON, when it is literal data: an attrset that is not
/// `rec`, a list, a plain string, a literal or a negated literal, or one of
/// the names `true`, `false`, `null`.
pub open spec fn expr_json(e: NixExpr) -> Option<JsonV>
    decreases e,
{
    match e {
        NixExpr::AttrSet { rec, entries } => if rec {
            None
        } else {
            proof {
                assert(decreases_to!(e => entries));
                assert(decreases_to!(entries => entries@));
            }
            match entries_json(Seq::empty(), entries@) {
                Some(m) => Some(JsonV::Object(m)),
                None => None,
            }
        },
        NixExpr::List(items) => {
            proof {
                assert(decreases_to!(e => items));
                assert(decreases_to!(items => items@));
            }
            match items_json(items@) {
                Some(vs) => Some(JsonV::Array(vs)),
                None => None,
            }
        },
        NixExpr::Str(s) => match str_lit(s) {
            Some(t) => Some(JsonV::Str(t)),
            None => None,
        },
        NixExpr::Literal(l) => lit_json(l, false),
        NixExpr::UnaryOp(op, operand) => match (op, operand) {
            (Some(NixUnary::Negate), Some(b)) => match *b {
                NixExpr::Literal(l) => lit_json(l, true),
                _ => None,
            },
            _ => None,
        },
        NixExpr::Ident(Some(t)) => if t@ == "true"@ {
            Some(JsonV::Bool(true))
        } else if t@ == "false"@ {
            Some(JsonV::Bool(false))
        } else if t@ == "null"@ {
            Some(JsonV::Null)
        } else {
            None
        },
        NixExpr::Ident(None) => None,
        NixExpr::Other => None,
    }
}

/// The items of a list as JSON, when all are literal data.
pub open spec fn items_json(items: Seq<NixExpr>) -> Option<Seq<JsonV>>
    decreases items,
{
    if items.len() == 0 {
        Some(Seq::empty())
    } else {
        match (expr_json(items[0]), items_json(items.drop_first())) {
            (Some(v), Some(vs)) => Some(seq![v] + vs),
            _ => None,
        }
    }
}

/// The entries of an attrset set one after another into the object `m`;
/// `inherit`, a name that is not written out, a value that is not literal
/// data, and a refused collision all give `None`.
pub open spec fn entries_json(m: Seq<(Seq<char>, JsonV)>, es: Seq<NixEntry>) -> Option<Seq<(Seq<char>, JsonV)>>
    decreases es,
{
    if es.len() == 0 {
        Some(m)
    } else {
        match entry_json(m, es[0]) {
            Some(m2) => entries_json(m2, es.drop_first()),
            None => None,
        }
    }
}

/// One entry of an attrset set into `m`.
pub open spec fn entry_json(m: Seq<(Seq<char>, JsonV)>, e: NixEntry) -> Option<Seq<(Seq<char>, JsonV)>>
    decreases e,
{
    match e {
        NixEntry::Inherit => None,
        NixEntry::AttrpathValue(path, value) => match (path, value) {
            (Some(p), Some(v)) => match (attr_names(p@), expr_json(v)) {
                (Some(keys), Some(j)) => insert_spec(m, keys, j),
                _ => None,
            },
            _ => None,
        },
    }
}

/// The entries' values, one by one.
pub proof fn lemma_entries_view(s: Seq<(String, Json)>)
    ensures
        entries_view(s).len() == s.len(),
        forall|i: int| 0 <= i < s.len() ==> #[trigger] entries_view(s)[i] == (s[i].0@, json_view(s[i].1)),
    decreases s.len(),
{
    if s.len() > 0 {
        lemma_entries_view(s.drop_first());
        assert forall|i: int| 0 <= i < s.len() implies #[trigger] entries_view(s)[i] == (s[i].0@, json_view(s[i].1)) by {
            if i > 0 {
                assert(s.drop_first()[i - 1] == s[i]);
            }
        }
    }
}

/// The items' values, one by one.
pub proof fn lemma_items_view(s: Seq<Json>)
    ensures
        items_view(s).len() == s.len(),
        forall|i: int| 0 <= i < s.len() ==> #[trigger] items_view(s)[i] == json_view(s[i]),
    decreases s.len(),
{
    if s.len() > 0 {
        lemma_items_view(s.drop_first());
        assert forall|i: int| 0 <= i < s.len() implies #[trigger] items_view(s)[i] == json_view(s[i]) by {
            if i > 0 {
                assert(s.drop_first()[i - 1] == s[i]);
            }
        }
    }
}

/// Two entry sequences with the same keys and values have the same view.
proof fn lemma_entries_view_ext(a: Seq<(String, Json)>, b: Seq<(Seq<char>, JsonV)>)
    requires
        a.len() == b.len(),
        forall|i: int| 0 <= i < a.len() ==> #[trigger] b[i] == (a[i].0@, json_view(a[i].1)),
    ensures
        entries_view(a) == b,
{
    lemma_entries_view(a);
    assert(entries_view(a) =~= b);
}

/// `key_index` finds the last entry named `key`.
proof fn lemma_key_index(m: Seq<(Seq<char>, JsonV)>, key: Seq<char>, i: int)
    requires
        -1 <= i < m.len(),
        forall|j: int| i < j < m.len() ==> #[trigger] m[j].0 != key,
        i >= 0 ==> m[i].0 == key,
    ensures
        key_index(m, key) == if i >= 0 { Some(i) } else { None::<int> },
    decreases m.len(),
{
    if m.len() > 0 && i < m.len() - 1 {
        assert forall|j: int| i < j < m.drop_last().len() implies #[trigger] m.drop_last()[j].0 != key by {
            assert(m.drop_last()[j] == m[j]);
        }
        lemma_key_index(m.drop_last(), key, i);
    }
}

/// Where `key` stands among the entries of `m`: the last entry so named.
fn key_position(m: &Vec<(String, Json)>, key: &str) -> (r: Option<usize>)
    ensures
        key_index(entries_view(m@), key@) == match r {
            Some(i) => Some(i as int),
            None => None::<int>,
        },
        r matches Some(i) ==> i < m@.len() && m@[i as int].0@ == key@,
{
    proof {
        lemma_entries_view(m@);
    }
    let mut i: usize = m.len();
    while i > 0
        invariant
            i <= m@.len(),
            entries_view(m@).len() == m@.len(),
            forall|j: int| 0 <= j < m@.len() ==> #[trigger] entries_view(m@)[j] == (m@[j].0@, json_view(m@[j].1)),
            forall|j: int| i <= j < m@.len() ==> #[trigger] entries_view(m@)[j].0 != key@,
        decreases i,
    {
        if crate::text::str_eq(m[i - 1].0.as_str(), key) {
            proof {
                lemma_key_index(entries_view(m@), key@, i - 1);
            }
            return Some(i - 1);
        }
        i = i - 1;
    }
    proof {
        lemma_key_index(entries_view(m@), key@, -1);
    }
    None
}

/// The names `keys[from..]`.
pub open spec fn names_from(keys: Seq<String>, from: int) -> Seq<Seq<char>> {
    keys.subrange(from, keys.len() as int).map_values(|k: String| k@)
}

/// Sets the path `keys[from..]` to `value` in the object `map`; see
/// [`insert_spec`]. On `None` the map is left part-way.
fn insert_at(map: &mut Vec<(String, Json)>, keys: &Vec<String>, from: usize, value: Json) -> (r: Option<()>)
    requires
        from <= keys@.len(),
    ensures
        match insert_spec(entries_view(old(map)@), names_from(keys@, from as int), json_view(value)) {
            Some(m2) => r is Some && entries_view(final(map)@) == m2,
            None => r is None,
        },
    decreases value, keys@.len() - from,
{
    proof {
        lemma_entries_view(map@);
    }
    let ghost ks = names_from(keys@, from as int);
    let ghost jv = json_view(value);
    let ghost m0 = entries_view(map@);
    if from >= keys.len() {
        return None;
    }
    let head = &keys[from];
    assert(ks[0] == head@);
    if keys.len() - from == 1 {
        assert(ks.len() == 1);
        match key_position(map, head.as_str()) {
            None => {
                let k = head.clone();
                map.push((k, value));
                proof {
                    lemma_entries_view_ext(map@, m0.push((ks[0], jv)));
                }
                Some(())
            },
            Some(i) => {
                match value {
                    Json::Object(new) => {
                        proof {
                            assert(decreases_to!(value => new));
                            assert(decreases_to!(new => new@));
                        }
                        let (k, old_v) = map.remove(i);
                        assert(k@ == ks[0]);
                        match old_v {
                            Json::Object(mut existing) => {
                                let ghost ex0 = existing@;
                                let r = merge_into(&mut existing, new);
                                let ghost ex1 = existing@;
                                map.insert(i, (k, Json::Object(existing)));
                                proof {
                                    assert(m0[i as int].1 == JsonV::Object(entries_view(ex0)));
                                    assert(jv == JsonV::Object(entries_view(new@)));
                                    if r is Some {
                                        let target = m0.update(i as int, (ks[0], JsonV::Object(entries_view(ex1))));
                                        assert forall|j: int| 0 <= j < map@.len() implies #[trigger] target[j] == (
                                            map@[j].0@,
                                            json_view(map@[j].1),
                                        ) by {}
                                        lemma_entries_view_ext(map@, target);
                                    }
                                }
                                r
                            },
                            other => {
                                assert(m0[i as int].1 == json_view(other));
                                None
                            },
                        }
                    },
                    _ => None,
                }
            },
        }
    } else {
        assert(names_from(keys@, from + 1) =~= ks.drop_first());
        match key_position(map, head.as_str()) {
            None => {
                let mut child: Vec<(String, Json)> = Vec::new();
                proof {
                    lemma_entries_view(child@);
                    assert(entries_view(child@) =~= Seq::<(Seq<char>, JsonV)>::empty());
                }
                match insert_at(&mut child, keys, from + 1, value) {
                    Some(()) => {
                        let ghost c1 = child@;
                        let k = head.clone();
                        map.push((k, Json::Object(child)));
                        proof {
                            lemma_entries_view_ext(map@, m0.push((ks[0], JsonV::Object(entries_view(c1)))));
                        }
                        Some(())
                    },
                    None => None,
                }
            },
            Some(i) => {
                let (k, old_v) = map.remove(i);
                assert(k@ == ks[0]);
                match old_v {
                    Json::Object(mut child) => {
                        let ghost c0 = child@;
                        let r = insert_at(&mut child, keys, from + 1, value);
                        let ghost c1 = child@;
                        map.insert(i, (k, Json::Object(child)));
                        proof {
                            assert(m0[i as int].1 == JsonV::Object(entries_view(c0)));
                            if r is Some {
                                let target = m0.update(i as int, (ks[0], JsonV::Object(entries_view(c1))));
                                assert forall|j: int| 0 <= j < map@.len() implies #[trigger] target[j] == (
                                    map@[j].0@,
                                    json_view(map@[j].1),
                                ) by {}
                                lemma_entries_view_ext(map@, target);
                            }
                        }
                        r
                    },
                    other => {
                        assert(m0[i as int].1 == json_view(other));
                        None
                    },
                }
            },
        }
    }
}

/// Sets the entries of `new` one by one into `existing`; see [`merge_spec`].
fn merge_into(existing: &mut Vec<(String, Json)>, new: Vec<(String, Json)>) -> (r: Option<()>)
    ensures
        match merge_spec(entries_view(old(existing)@), entries_view(new@)) {
            Some(m) => r is Some && entries_view(final(existing)@) == m,
            None => r is None,
        },
    decreases new@, 0nat,
{
    let ghost n0 = new@;
    let mut rest = new;
    if rest.len() == 0 {
        return Some(());
    }
    proof {
        lemma_entries_view(n0);
    }
    let (k, v) = rest.remove(0);
    let mut ks: Vec<String> = Vec::new();
    ks.push(k);
    assert(names_from(ks@, 0) =~= seq![n0[0].0@]);
    proof {
        assert(decreases_to!(n0 => n0[0]));
        assert(decreases_to!(n0[0] => n0[0].1));
        assert(entries_view(n0).drop_first() == entries_view(rest@));
    }
    match insert_at(existing, &ks, 0, v) {
        Some(()) => merge_into(existing, rest),
        None => None,
    }
}

/// The decimal text of `v`, negated when `negate`.
fn int_json_text(v: i64, negate: bool) -> (r: String)
    ensures
        r@ == int_text(if negate { -v } else { v as int }),
{
    let w: i128 = if negate {
        -(v as i128)
    } else {
        v as i128
    };
    let mut s = String::new();
    if w < 0 {
        push_char(&mut s, '-');
        push_dec(&mut s, (-w) as u64);
    } else {
        push_dec(&mut s, w as u64);
    }
    s
}

/// The text of a plain string; see [`str_lit`].
pub fn str_literal(s: &NixStr) -> (r: Option<String>)
    ensures
        match str_lit(*s) {
            Some(t) => r is Some && r->0@ == t,
            None => r is None,
        },
{
    let src = chars_of(s.source.as_str());
    if src.len() >= 2 && src[0] == '\'' && src[1] == '\'' {
        proof {
            reveal_strlit("''");
            assert(s.source@.subrange(0, 2) =~= "''"@);
        }
        return None;
    }
    proof {
        reveal_strlit("''");
        if s.source@.len() >= 2 && s.source@.subrange(0, 2) == "''"@ {
            assert(s.source@.subrange(0, 2)[0] == src@[0]);
            assert(s.source@.subrange(0, 2)[1] == src@[1]);
            assert(false);
        }
    }
    if s.parts.len() == 0 {
        return Some(String::new());
    }
    if s.parts.len() == 1 {
        return match &s.parts[0] {
            NixStrPart::Literal(t) => Some(t.clone()),
            NixStrPart::Interpolation => None,
        };
    }
    None
}

/// The name an attribute stands for; see [`attr_name_spec`].
pub fn attr_name(a: &NixAttr) -> (r: Option<String>)
    ensures
        match attr_name_spec(*a) {
            Some(t) => r is Some && r->0@ == t,
            None => r is None,
        },
{
    match a {
        NixAttr::Ident(Some(t)) => Some(t.clone()),
        NixAttr::Ident(None) => None,
        NixAttr::Str(s) => str_literal(s),
        NixAttr::Dynamic => None,
    }
}

/// The names of an attribute path; see [`attr_names`].
fn path_names(p: &Vec<NixAttr>) -> (r: Option<Vec<String>>)
    ensures
        match attr_names(p@) {
            Some(ns) => r is Some && names_from(r->0@, 0) == ns,
            None => r is None,
        },
{
    let mut out: Vec<String> = Vec::new();
    let mut i: usize = 0;
    while i < p.len()
        invariant
            i <= p@.len(),
            attr_names(p@.take(i as int)) == Some(names_from(out@, 0)),
        decreases p@.len() - i,
    {
        assert(p@.take(i + 1).drop_last() =~= p@.take(i as int));
        assert(p@.take(i + 1).last() == p@[i as int]);
        match attr_name(&p[i]) {
            Some(n) => {
                let ghost before = out@;
                out.push(n);
                assert(names_from(out@, 0) =~= names_from(before, 0).push(n@));
            },
            None => {
                proof {
                    lemma_attr_names_none(p@, i as int + 1);
                }
                return None;
            },
        }
        i = i + 1;
    }
    assert(p@.take(i as int) =~= p@);
    Some(out)
}

/// A path with a name that is not written out has no names.
proof fn lemma_attr_names_none(p: Seq<NixAttr>, i: int)
    requires
        0 < i <= p.len(),
        attr_names(p.take(i)) is None,
    ensures
        attr_names(p) is None,
    decreases p.len() - i,
{
    if i < p.len() {
        assert(p.take(i + 1).drop_last() =~= p.take(i));
        lemma_attr_names_none(p, i + 1);
    } else {
        assert(p.take(i) =~= p);
    }
}

/// A literal as JSON; see [`lit_json`].
pub fn literal_to_json(l: &NixLiteral, negate: bool) -> (r: Option<Json>)
    ensures
        match lit_json(*l, negate) {
            Some(j) => r is Some && json_view(r->0) == j,
            None => r is None,
        },
{
    match l {
        NixLiteral::Integer(Some(v)) => Some(Json::Number(int_json_text(*v, negate))),
        NixLiteral::Integer(None) => None,
        NixLiteral::Float(t) => {
            let mut s = String::new();
            if negate {
                push_char(&mut s, '-');
            }
            push_str(&mut s, t.as_str());
            Some(Json::Number(s))
        },
        NixLiteral::Uri => None,
    }
}

/// A list whose items all convert converts to their values.
proof fn lemma_items_json_all(s: Seq<NixExpr>, out: Seq<Json>)
    requires
        s.len() == out.len(),
        forall|j: int| 0 <= j < s.len() ==> #[trigger] expr_json(s[j]) == Some(json_view(out[j])),
    ensures
        items_json(s) == Some(items_view(out)),
    decreases s.len(),
{
    if s.len() > 0 {
        assert forall|j: int| 0 <= j < s.drop_first().len() implies #[trigger] expr_json(s.drop_first()[j]) == Some(
            json_view(out.drop_first()[j]),
        ) by {
            assert(s.drop_first()[j] == s[j + 1]);
            assert(out.drop_first()[j] == out[j + 1]);
        }
        lemma_items_json_all(s.drop_first(), out.drop_first());
        assert(expr_json(s[0]) == Some(json_view(out[0])));
    }
}

/// A list with an item that does not convert does not convert.
proof fn lemma_items_json_none(s: Seq<NixExpr>, k: int)
    requires
        0 <= k < s.len(),
        expr_json(s[k]) is None,
    ensures
        items_json(s) is None,
    decreases s.len(),
{
    if k > 0 {
        assert(s.drop_first()[k - 1] == s[k]);
        lemma_items_json_none(s.drop_first(), k - 1);
    }
}

/// An expression as JSON, when it is literal data; see [`expr_json`].
pub fn expr_to_json(e: &NixExpr) -> (r: Option<Json>)
    ensures
        match expr_json(*e) {
            Some(j) => r is Some && json_view(r->0) == j,
            None => r is None,
        },
    decreases e,
{
    match e {
        NixExpr::AttrSet { rec, entries } => {
            if *rec {
                return None;
            }
            proof {
                assert(decreases_to!(e => entries));
            }
            attrset_to_json(entries)
        },
        NixExpr::List(items) => {
            let mut out: Vec<Json> = Vec::new();
            let mut k: usize = 0;
            while k < items.len()
                invariant
                    *e == NixExpr::List(*items),
                    k <= items@.len(),
                    out@.len() == k,
                    forall|j: int| 0 <= j < k ==> #[trigger] expr_json(items@[j]) == Some(json_view(out@[j])),
                decreases items@.len() - k,
            {
                proof {
                    assert(decreases_to!(e => items));
                    assert(decreases_to!(items => items@));
                    assert(decreases_to!(items@ => items@[k as int]));
                }
                match expr_to_json(&items[k]) {
                    Some(j) => {
                        out.push(j);
                    },
                    None => {
                        proof {
                            lemma_items_json_none(items@, k as int);
                        }
                        return None;
                    },
                }
                k = k + 1;
            }
            proof {
                lemma_items_json_all(items@, out@);
            }
            Some(Json::Array(out))
        },
        NixExpr::Str(s) => match str_literal(s) {
            Some(t) => Some(Json::Str(t)),
            None => None,
        },
        NixExpr::Literal(l) => literal_to_json(l, false),
        NixExpr::UnaryOp(op, operand) => match op {
            Some(NixUnary::Negate) => match operand {
                Some(b) => match &**b {
                    NixExpr::Literal(l) => literal_to_json(l, true),
                    _ => None,
                },
                None => None,
            },
            _ => None,
        },
        NixExpr::Ident(Some(t)) => {
            proof {
                reveal_strlit("true");
                reveal_strlit("false");
                reveal_strlit("null");
            }
            if str_eq(t.as_str(), "true") {
                Some(Json::Bool(true))
            } else if str_eq(t.as_str(), "false") {
                Some(Json::Bool(false))
            } else if str_eq(t.as_str(), "null") {
                Some(Json::Null)
            } else {
                None
            }
        },
        NixExpr::Ident(None) => None,
        NixExpr::Other => None,
    }
}

/// The entries of a non-`rec` attrset set one by one into an object; see
/// [`entries_json`].
fn attrset_to_json(entries: &Vec<NixEntry>) -> (r: Option<Json>)
    ensures
        match entries_json(Seq::empty(), entries@) {
            Some(m) => r is Some && json_view(r->0) == JsonV::Object(m),
            None => r is None,
        },
    decreases entries,
{
    let mut out: Vec<(String, Json)> = Vec::new();
    proof {
        lemma_entries_view(out@);
        assert(entries_view(out@) =~= Seq::<(Seq<char>, JsonV)>::empty());
        assert(entries@.skip(0) =~= entries@);
    }
    let mut k: usize = 0;
    while k < entries.len()
        invariant
            k <= entries@.len(),
            entries_json(Seq::empty(), entries@) == entries_json(entries_view(out@), entries@.skip(k as int)),
        decreases entries@.len() - k,
    {
        let ghost cur = entries_view(out@);
        assert(entries@.skip(k as int)[0] == entries@[k as int]);
        assert(entries@.skip(k as int).drop_first() =~= entries@.skip(k + 1));
        match &entries[k] {
            NixEntry::Inherit => {
                assert(entry_json(cur, entries@[k as int]) is None);
                return None;
            },
            NixEntry::AttrpathValue(path, value) => {
                let p = match path {
                    Some(p) => p,
                    None => {
                        assert(entry_json(cur, entries@[k as int]) is None);
                        return None;
                    },
                };
                let v = match value {
                    Some(v) => v,
                    None => return None,
                };
                let names = match path_names(p) {
                    Some(n) => n,
                    None => return None,
                };
                proof {
                    assert(decreases_to!(entries => entries@));
                    assert(decreases_to!(entries@ => entries@[k as int]));
                    assert(decreases_to!(entries@[k as int] => *value));
                    assert(decreases_to!(*value => *v));
                }
                let j = match expr_to_json(v) {
                    Some(j) => j,
                    None => return None,
                };
                match insert_at(&mut out, &names, 0, j) {
                    Some(()) => {},
                    None => return None,
                }
            },
        }
        k = k + 1;
    }
    assert(entries@.skip(k as int) =~= Seq::<NixEntry>::empty());
    Some(Json::Object(out))
}

/// The syntax tree `rnix` parses from a source, read as a [`NixExpr`]:
/// `None` when the source does not parse cleanly or has no expression.
pub uninterp spec fn nix_syntax(src: Seq<char>) -> Option<NixExpr>;

/// An `rnix` expression node, opaque here.
#[verifier::external_type_specification]
#[verifier::external_body]
pub struct ExExpr(rnix::ast::Expr);

/// An `rnix` attrset node, opaque here.
#[verifier::external_type_specification]
#[verifier::external_body]
pub struct ExAttrSet(rnix::ast::AttrSet);

/// An `rnix` `path = value;` entry, opaque here.
#[verifier::external_type_specification]
#[verifier::external_body]
pub struct ExAttrpathValue(rnix::ast::AttrpathValue);

/// An `rnix` attribute name, opaque here.
#[verifier::external_type_specification]
#[verifier::external_body]
pub struct ExAttr(rnix::ast::Attr);

/// An `rnix` string node, opaque here.
#[verifier::external_type_specification]
#[verifier::external_body]
pub struct ExStr(rnix::ast::Str);

/// An `rnix` literal node, opaque here.
#[verifier::external_type_specification]
#[verifier::external_body]
pub struct ExLiteral(rnix::ast::Literal);

/// An `rnix` unary operation node, opaque here.
#[verifier::external_type_specification]
#[verifier::external_body]
pub struct ExUnaryOp(rnix::ast::UnaryOp);

/// An `rnix` identifier node, opaque here.
#[verifier::external_type_specification]
#[verifier::external_body]
pub struct ExIdent(rnix::ast::Ident);

/// An `rnix` list node, opaque here.
#[verifier::external_type_specification]
#[verifier::external_body]
pub struct ExList(rnix::ast::List);

/// `rnix::Root::parse`, then the root's expression: `None` when the parse
/// reports errors or there is no expression. The tree is read as a
/// [`NixExpr`]; claimed: the result depends on the source alone.
#[verifier::external_body]
fn parse_nix(src: &str) -> (r: Option<NixExpr>)
    ensures
        r == nix_syntax(src@),
{
    let parse = rnix::Root::parse(src);
    if !parse.errors().is_empty() {
        return None;
    }
    match parse.tree().expr() {
        Some(e) => Some(expr_of(&e)),
        None => None,
    }
}

/// An `rnix` expression read as a [`NixExpr`], one variant for each kind
/// the conversion tells apart.
#[verifier::external_body]
fn expr_of(e: &rnix::ast::Expr) -> NixExpr {
    match e {
        Expr::AttrSet(set) => attrset_of(set),
        Expr::List(list) => list_of(list),
        Expr::Str(s) => NixExpr::Str(str_of(s)),
        Expr::Literal(lit) => NixExpr::Literal(literal_of(lit)),
        Expr::UnaryOp(op) => unary_of(op),
        Expr::Ident(ident) => NixExpr::Ident(ident_of(ident)),
        _ => NixExpr::Other,
    }
}

/// `AttrSet::rec_token` and `HasEntry::entries`: whether the set is `rec`,
/// and its entries in order.
#[verifier::external_body]
fn attrset_of(set: &rnix::ast::AttrSet) -> NixExpr {
    let mut entries = Vec::new();
    for entry in set.entries() {
        entries.push(match entry {
            Entry::Inherit(_) => NixEntry::Inherit,
            Entry::AttrpathValue(av) => entry_of(&av),
        });
    }
    NixExpr::AttrSet { rec: set.rec_token().is_some(), entries }
}

/// `AttrpathValue::attrpath` (with `Attrpath::attrs`) and
/// `AttrpathValue::value`.
#[verifier::external_body]
fn entry_of(av: &rnix::ast::AttrpathValue) -> NixEntry {
    let path = match av.attrpath() {
        Some(p) => {
            let mut attrs = Vec::new();
            for a in p.attrs() {
                attrs.push(attr_of(&a));
            }
            Some(attrs)
        },
        None => None,
    };
    let value = match av.value() {
        Some(v) => Some(expr_of(&v)),
        None => None,
    };
    NixEntry::AttrpathValue(path, value)
}

/// An `rnix` attribute name, one variant for each of `Attr`'s.
#[verifier::external_body]
fn attr_of(a: &rnix::ast::Attr) -> NixAttr {
    match a {
        Attr::Ident(ident) => NixAttr::Ident(ident_of(ident)),
        Attr::Str(s) => NixAttr::Str(str_of(s)),
        Attr::Dynamic(_) => NixAttr::Dynamic,
    }
}

/// `Ident::ident_token`: the identifier's text.
#[verifier::external_body]
fn ident_of(ident: &rnix::ast::Ident) -> Option<String> {
    match ident.ident_token() {
        Some(t) => Some(t.text().to_owned()),
        None => None,
    }
}

/// A string's source text and `Str::normalized_parts`.
#[verifier::external_body]
fn str_of(s: &rnix::ast::Str) -> NixStr {
    let mut parts = Vec::new();
    for part in s.normalized_parts() {
        parts.push(match part {
            InterpolPart::Literal(t) => NixStrPart::Literal(t),
            InterpolPart::Interpolation(_) => NixStrPart::Interpolation,
        });
    }
    NixStr { source: s.to_string(), parts }
}

/// `Literal::kind`: an integer's `Integer::value`, a float's text, a URI.
#[verifier::external_body]
fn literal_of(lit: &rnix::ast::Literal) -> NixLiteral {
    match lit.kind() {
        LiteralKind::Integer(i) => NixLiteral::Integer(i.value().ok()),
        LiteralKind::Float(f) => NixLiteral::Float(f.to_string()),
        LiteralKind::Uri(_) => NixLiteral::Uri,
    }
}

/// `UnaryOp::operator` and `UnaryOp::expr`.
#[verifier::external_body]
fn unary_of(op: &rnix::ast::UnaryOp) -> NixExpr {
    let kind = match op.operator() {
        Some(UnaryOpKind::Negate) => Some(NixUnary::Negate),
        Some(UnaryOpKind::Invert) => Some(NixUnary::Invert),
        None => None,
    };
    let operand = match op.expr() {
        Some(e) => Some(Box::new(expr_of(&e))),
        None => None,
    };
    NixExpr::UnaryOp(kind, operand)
}

/// `List::items`, in order.
#[verifier::external_body]
fn list_of(list: &rnix::ast::List) -> NixExpr {
    let mut items = Vec::new();
    for item in list.items() {
        items.push(expr_of(&item));
    }
    NixExpr::List(items)
}

/// The JSON of a parsed root expression: an attrset that is literal data;
/// anything else (or no expression) is `None`.
pub open spec fn root_json(root: Option<NixExpr>) -> Option<JsonV> {
    match root {
        Some(e) => match e {
            NixExpr::AttrSet { .. } => expr_json(e),
            _ => None,
        },
        None => None,
    }
}

/// The JSON of a parsed root expression; see [`root_json`].
pub fn root_to_json(root: &Option<NixExpr>) -> (r: Option<Json>)
    ensures
        match root_json(*root) {
            Some(j) => r is Some && json_view(r->0) == j,
            None => r is None,
        },
{
    match root {
        Some(e) => match e {
            NixExpr::AttrSet { .. } => expr_to_json(e),
            _ => None,
        },
        None => None,
    }
}

/// The JSON of a `.nix` source that is plain literal data: an attrset of
/// literals, lists and nested attrsets; `None` for anything that needs Nix
/// evaluation, and for a source that does not parse.
pub fn pure_data_json(src: &str) -> (r: Option<Json>)
    ensures
        match root_json(nix_syntax(src@)) {
            Some(j) => r is Some && json_view(r->0) == j,
            None => r is None,
        },
{
    let root = parse_nix(src);
    root_to_json(&root)
}

/// `v` under the path `keys` of nested single-entry objects.
pub open spec fn nested(keys: Seq<Seq<char>>, v: JsonV) -> JsonV
    decreases keys.len(),
{
    if keys.len() == 0 {
        v
    } else {
        JsonV::Object(seq![(keys[0], nested(keys.drop_first(), v))])
    }
}

/// Law: a dotted attribute path sets what the nested attrsets it abbreviates
/// set: `a.b.c = v;` in an attrset is `a = { b = { c = v; }; };`, merged
/// into what `a` already holds (and refused where `a` holds a non-set).
pub proof fn law_dotted_path_is_nesting(m: Seq<(Seq<char>, JsonV)>, keys: Seq<Seq<char>>, v: JsonV)
    requires
        keys.len() >= 1,
    ensures
        insert_spec(m, keys, v) == insert_spec(m, seq![keys[0]], nested(keys.drop_first(), v)),
    decreases keys.len(),
{
    if keys.len() >= 2 {
        let k = keys[0];
        let rest = keys.drop_first();
        let inner = nested(rest.drop_first(), v);
        assert(seq![k][0] == k);
        law_dotted_path_is_nesting(Seq::empty(), rest, v);
        assert(key_index(Seq::<(Seq<char>, JsonV)>::empty(), rest[0]) is None);
        assert(insert_spec(Seq::empty(), seq![rest[0]], inner) == Some(seq![(rest[0], inner)]));
        match key_index(m, k) {
            None => {},
            Some(i) => match m[i].1 {
                JsonV::Object(child) => {
                    law_dotted_path_is_nesting(child, rest, v);
                    let single = seq![(rest[0], inner)];
                    assert(single.drop_first() =~= Seq::<(Seq<char>, JsonV)>::empty());
                    assert(single[0] == (rest[0], inner));
                    match insert_spec(child, seq![rest[0]], inner) {
                        Some(c) => {
                            assert(merge_spec(c, single.drop_first()) == Some(c));
                            assert(merge_spec(child, single) == Some(c));
                        },
                        None => {
                            assert(merge_spec(child, single) is None);
                        },
                    }
                },
                _ => {},
            },
        }
    }
}

/// No key occurs twice among the entries.
pub open spec fn keys_unique(m: Seq<(Seq<char>, JsonV)>) -> bool {
    forall|i: int, j: int| 0 <= i < j < m.len() ==> m[i].0 != m[j].0
}

/// No object within `v` holds a key twice.
pub open spec fn well_keyed(v: JsonV) -> bool
    decreases v,
{
    match v {
        JsonV::Object(es) => keys_unique(es) && values_well_keyed(es),
        JsonV::Array(vs) => items_well_keyed(vs),
        _ => true,
    }
}

/// Every value among the entries is well keyed.
pub open spec fn values_well_keyed(es: Seq<(Seq<char>, JsonV)>) -> bool
    decreases es,
{
    if es.len() == 0 {
        true
    } else {
        proof {
            assert(decreases_to!(es => es[0]));
            assert(decreases_to!(es[0] => es[0].1));
        }
        well_keyed(es[0].1) && values_well_keyed(es.drop_first())
    }
}

/// Every item is well keyed.
pub open spec fn items_well_keyed(vs: Seq<JsonV>) -> bool
    decreases vs,
{
    if vs.len() == 0 {
        true
    } else {
        well_keyed(vs[0]) && items_well_keyed(vs.drop_first())
    }
}

/// The values are well keyed exactly when each is.
proof fn lemma_values_well_keyed(es: Seq<(Seq<char>, JsonV)>)
    ensures
        values_well_keyed(es) == forall|i: int| 0 <= i < es.len() ==> #[trigger] well_keyed(es[i].1),
    decreases es.len(),
{
    if es.len() > 0 {
        lemma_values_well_keyed(es.drop_first());
        if forall|i: int| 0 <= i < es.drop_first().len() ==> #[trigger] well_keyed(es.drop_first()[i].1) {
            assert forall|i: int| 0 <= i < es.len() && well_keyed(es[0].1) implies #[trigger] well_keyed(es[i].1) by {
                if i > 0 {
                    assert(es.drop_first()[i - 1] == es[i]);
                }
            }
        }
        if forall|i: int| 0 <= i < es.len() ==> #[trigger] well_keyed(es[i].1) {
            assert forall|i: int| 0 <= i < es.drop_first().len() implies #[trigger] well_keyed(es.drop_first()[i].1) by {
                assert(es.drop_first()[i] == es[i + 1]);
            }
            assert(well_keyed(es[0].1));
        }
    }
}

/// Entries with distinct keys whose values are well keyed.
pub open spec fn entries_ok(m: Seq<(Seq<char>, JsonV)>) -> bool {
    keys_unique(m) && forall|i: int| 0 <= i < m.len() ==> #[trigger] well_keyed(m[i].1)
}

/// An object is well keyed when its entries are.
proof fn lemma_well_keyed_object(es: Seq<(Seq<char>, JsonV)>)
    ensures
        well_keyed(JsonV::Object(es)) == entries_ok(es),
{
    lemma_values_well_keyed(es);
}

/// What `key_index` finds is the key, and what it misses is absent.
proof fn lemma_key_index_facts(m: Seq<(Seq<char>, JsonV)>, k: Seq<char>)
    ensures
        key_index(m, k) matches Some(i) ==> 0 <= i < m.len() && m[i].0 == k,
        key_index(m, k) is None ==> forall|j: int| 0 <= j < m.len() ==> m[j].0 != k,
    decreases m.len(),
{
    if m.len() > 0 {
        lemma_key_index_facts(m.drop_last(), k);
        if key_index(m, k) is None {
            assert forall|j: int| 0 <= j < m.len() implies m[j].0 != k by {
                if j < m.len() - 1 {
                    assert(m.drop_last()[j] == m[j]);
                }
            }
        }
    }
}

/// Setting a well-keyed value into well-keyed entries keeps them so.
proof fn lemma_insert_ok(m: Seq<(Seq<char>, JsonV)>, keys: Seq<Seq<char>>, v: JsonV)
    requires
        entries_ok(m),
        well_keyed(v),
    ensures
        insert_spec(m, keys, v) matches Some(m2) ==> entries_ok(m2),
    decreases v, keys.len(),
{
    if keys.len() == 0 {
        return;
    }
    let k = keys[0];
    lemma_key_index_facts(m, k);
    if keys.len() == 1 {
        match key_index(m, k) {
            None => {
                let m2 = m.push((k, v));
                assert forall|i: int| 0 <= i < m2.len() implies #[trigger] well_keyed(m2[i].1) by {
                    if i < m.len() {
                        assert(well_keyed(m[i].1));
                    }
                }
                assert(keys_unique(m2));
            },
            Some(i) => match (m[i].1, v) {
                (JsonV::Object(existing), JsonV::Object(new)) => {
                    assert(m[i].1 == JsonV::Object(existing));
                    assert(well_keyed(m[i].1));
                    lemma_well_keyed_object(existing);
                    lemma_well_keyed_object(new);
                    assert(decreases_to!(v => new));
                    lemma_merge_ok(existing, new);
                    match merge_spec(existing, new) {
                        Some(merged) => {
                            let m2 = m.update(i, (k, JsonV::Object(merged)));
                            lemma_well_keyed_object(merged);
                            assert forall|j: int| 0 <= j < m2.len() implies #[trigger] well_keyed(m2[j].1) by {
                                if j != i {
                                    assert(well_keyed(m[j].1));
                                }
                            }
                            assert(keys_unique(m2));
                        },
                        None => {},
                    }
                },
                _ => {},
            },
        }
    } else {
        let rest = keys.drop_first();
        match key_index(m, k) {
            None => {
                assert(entries_ok(Seq::<(Seq<char>, JsonV)>::empty()));
                lemma_insert_ok(Seq::empty(), rest, v);
                match insert_spec(Seq::empty(), rest, v) {
                    Some(child) => {
                        let m2 = m.push((k, JsonV::Object(child)));
                        lemma_well_keyed_object(child);
                        assert forall|j: int| 0 <= j < m2.len() implies #[trigger] well_keyed(m2[j].1) by {
                            if j < m.len() {
                                assert(well_keyed(m[j].1));
                            }
                        }
                        assert(keys_unique(m2));
                    },
                    None => {},
                }
            },
            Some(i) => match m[i].1 {
                JsonV::Object(child) => {
                    assert(well_keyed(m[i].1));
                    lemma_well_keyed_object(child);
                    lemma_insert_ok(child, rest, v);
                    match insert_spec(child, rest, v) {
                        Some(c) => {
                            let m2 = m.update(i, (k, JsonV::Object(c)));
                            lemma_well_keyed_object(c);
                            assert forall|j: int| 0 <= j < m2.len() implies #[trigger] well_keyed(m2[j].1) by {
                                if j != i {
                                    assert(well_keyed(m[j].1));
                                }
                            }
                            assert(keys_unique(m2));
                        },
                        None => {},
                    }
                },
                _ => {},
            },
        }
    }
}

/// Merging well-keyed entries into well-keyed entries keeps them so.
proof fn lemma_merge_ok(existing: Seq<(Seq<char>, JsonV)>, new: Seq<(Seq<char>, JsonV)>)
    requires
        entries_ok(existing),
        forall|i: int| 0 <= i < new.len() ==> #[trigger] well_keyed(new[i].1),
    ensures
        merge_spec(existing, new) matches Some(m) ==> entries_ok(m),
    decreases new, 0nat,
{
    if new.len() > 0 {
        assert(decreases_to!(new => new[0]));
        assert(decreases_to!(new[0] => new[0].1));
        assert(well_keyed(new[0].1));
        lemma_insert_ok(existing, seq![new[0].0], new[0].1);
        match insert_spec(existing, seq![new[0].0], new[0].1) {
            Some(m) => {
                assert forall|i: int| 0 <= i < new.drop_first().len() implies #[trigger] well_keyed(
                    new.drop_first()[i].1,
                ) by {
                    assert(new.drop_first()[i] == new[i + 1]);
                }
                lemma_merge_ok(m, new.drop_first());
            },
            None => {},
        }
    }
}

/// Law: merging attribute paths never leaves a key twice in an object:
/// setting a value whose objects hold each key once into such an object
/// gives such an object (or is refused).
pub proof fn law_insert_keeps_keys_unique(m: Seq<(Seq<char>, JsonV)>, keys: Seq<Seq<char>>, v: JsonV)
    requires
        well_keyed(JsonV::Object(m)),
        well_keyed(v),
    ensures
        insert_spec(m, keys, v) matches Some(m2) ==> well_keyed(JsonV::Object(m2)),
{
    lemma_well_keyed_object(m);
    lemma_insert_ok(m, keys, v);
    if let Some(m2) = insert_spec(m, keys, v) {
        lemma_well_keyed_object(m2);
    }
}

/// The JSON of literal data is well keyed.
proof fn lemma_expr_well_keyed(e: NixExpr)
    ensures
        expr_json(e) matches Some(j) ==> well_keyed(j),
    decreases e,
{
    match e {
        NixExpr::AttrSet { rec, entries } => {
            if !rec {
                assert(decreases_to!(e => entries));
                assert(decreases_to!(entries => entries@));
                assert(entries_ok(Seq::<(Seq<char>, JsonV)>::empty())) by {
                    lemma_values_well_keyed(Seq::<(Seq<char>, JsonV)>::empty());
                }
                lemma_entries_well_keyed(Seq::empty(), entries@);
                if let Some(m) = entries_json(Seq::empty(), entries@) {
                    lemma_well_keyed_object(m);
                }
            }
        },
        NixExpr::List(items) => {
            assert(decreases_to!(e => items));
            assert(decreases_to!(items => items@));
            lemma_items_well_keyed(items@);
        },
        _ => {},
    }
}

/// The JSON of a list of literal data is well keyed item by item.
proof fn lemma_items_well_keyed(items: Seq<NixExpr>)
    ensures
        items_json(items) matches Some(vs) ==> items_well_keyed(vs),
    decreases items,
{
    if items.len() > 0 {
        lemma_expr_well_keyed(items[0]);
        lemma_items_well_keyed(items.drop_first());
        if let Some(vs) = items_json(items) {
            let rest = items_json(items.drop_first())->0;
            assert(vs == seq![expr_json(items[0])->0] + rest);
            assert(vs.drop_first() =~= rest);
        }
    }
}

/// Setting the entries of an attrset keeps an object well keyed.
proof fn lemma_entries_well_keyed(m: Seq<(Seq<char>, JsonV)>, es: Seq<NixEntry>)
    requires
        entries_ok(m),
    ensures
        entries_json(m, es) matches Some(m2) ==> entries_ok(m2),
    decreases es,
{
    if es.len() > 0 {
        lemma_entry_well_keyed(m, es[0]);
        if let Some(m1) = entry_json(m, es[0]) {
            lemma_entries_well_keyed(m1, es.drop_first());
        }
    }
}

/// Setting one entry keeps an object well keyed.
proof fn lemma_entry_well_keyed(m: Seq<(Seq<char>, JsonV)>, e: NixEntry)
    requires
        entries_ok(m),
    ensures
        entry_json(m, e) matches Some(m2) ==> entries_ok(m2),
    decreases e,
{
    if let NixEntry::AttrpathValue(Some(p), Some(v)) = e {
        assert(decreases_to!(e => v));
        lemma_expr_well_keyed(v);
        if let (Some(keys), Some(j)) = (attr_names(p@), expr_json(v)) {
            lemma_insert_ok(m, keys, j);
        }
    }
}

/// Law: the JSON read from literal data never holds a key twice in an
/// object, at any depth: attribute paths are merged, never duplicated.
pub proof fn law_data_json_well_keyed(root: Option<NixExpr>)
    ensures
        root_json(root) matches Some(j) ==> well_keyed(j),
{
    if let Some(e) = root {
        lemma_expr_well_keyed(e);
    }
}

/// What to do with the source of a `.nix` config.
#[derive(Debug)]
pub enum NixConfig {
    /// The source is blank, which Nix rejects with an unhelpful message;
    /// this one names the file.
    Empty(String),
    /// The source is plain literal data, with this JSON.
    Data(Json),
    /// The source needs `nix eval`.
    Evaluate,
}

/// The message for a blank config at `path`.
pub open spec fn empty_message(path: Seq<char>) -> Seq<char> {
    "Config file `"@ + path + "` is empty. Delete it to write a fresh default config, or fill in valid Nix."@
}

/// Classifies the source `src` of the config at `path` (shown in the
/// message): blank, plain data read in-process, or left to `nix eval`.
pub fn classify_config(path: &str, src: &str) -> (r: NixConfig)
    ensures
        trimmed(src@).len() == 0 ==> (r matches NixConfig::Empty(m) && m@ == empty_message(path@)),
        trimmed(src@).len() > 0 ==> match root_json(nix_syntax(src@)) {
            Some(j) => r matches NixConfig::Data(d) && json_view(d) == j,
            None => r is Evaluate,
        },
{
    let cs = chars_of(src);
    if trim(cs.as_slice()).len() == 0 {
        let mut m = "Config file `".to_owned();
        push_str(&mut m, path);
        push_str(&mut m, "` is empty. Delete it to write a fresh default config, or fill in valid Nix.");
        return NixConfig::Empty(m);
    }
    match pure_data_json(src) {
        Some(j) => NixConfig::Data(j),
        None => NixConfig::Evaluate,
    }
}

} // verus!
