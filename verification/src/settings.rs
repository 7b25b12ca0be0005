//! A NixOS-style options module generated from the JSON Schema of a settings
//! type: every field is declared with its type (and description), so a
//! configuration that imports the module is type-checked when evaluated. No
//! value defaults are baked in, except `default = null;` for optional fields.

use vstd::prelude::*;

use crate::text::{chars_eq, chars_of, chars_slice, join_strings, join_with, push_char, push_str, str_eq, string_from};

verus! {

broadcast use vstd::string::group_string_axioms;

/// A JSON value. Numbers are kept as their text; objects keep their entries
/// in order.
#[derive(Debug)]
pub enum Json {
    Null,
    Bool(bool),
    Number(String),
    Str(String),
    Array(Vec<Json>),
    Object(Vec<(String, Json)>),
}

/// Why a schema has no options module.
#[derive(Clone, Debug, PartialEq, Eq)]
pub enum NixError {
    /// A `$ref` that does not point into `#/$defs/`.
    UnsupportedRef(String),
    /// A `$ref` in a schema without `$defs`.
    NoDefs,
    /// A `$ref` to a definition that does not exist.
    DanglingRef(String),
    /// A `type` list holding only `"null"`.
    OnlyNull,
    /// An `enum` with a variant that is not a string.
    NonStringEnum,
    /// An array schema without `items`.
    NoItems,
    /// A `type` that has no Nix counterpart (or none at all).
    UnsupportedType(Option<String>),
    /// The top-level schema is not an object.
    NotObject,
}

/// The value of the first entry named `key`.
pub open spec fn entry_of(es: Seq<(String, Json)>, key: Seq<char>) -> Option<Json>
    decreases es.len(),
{
    if es.len() == 0 {
        None
    } else if es[0].0@ == key {
        Some(es[0].1)
    } else {
        entry_of(es.drop_first(), key)
    }
}

/// The member `key` of an object; nothing for other values.
pub open spec fn get(n: Json, key: Seq<char>) -> Option<Json> {
    match n {
        Json::Object(es) => entry_of(es@, key),
        _ => None,
    }
}

/// A member of a node whose `type` is read as `ovr` when that is given (a
/// node whose `type` list was narrowed to one entry).
pub open spec fn lookup(n: Json, ovr: Option<Json>, key: Seq<char>) -> Option<Json> {
    if key == "type"@ && ovr is Some {
        ovr
    } else {
        get(n, key)
    }
}

/// The text of a string value.
pub open spec fn str_of(v: Option<Json>) -> Option<Seq<char>> {
    match v {
        Some(Json::Str(s)) => Some(s@),
        _ => None,
    }
}

/// The `$defs` of a schema, when it is an object.
pub open spec fn defs_of(schema: Json) -> Option<Json> {
    match get(schema, "$defs"@) {
        Some(Json::Object(es)) => Some(Json::Object(es)),
        _ => None,
    }
}

/// The node a `$ref` points to, or the node itself when it has none.
pub open spec fn resolve_spec(n: Json, ovr: Option<Json>, defs: Option<Json>) -> Result<(Json, Option<Json>), NixError> {
    match get(n, "$ref"@) {
        Some(Json::Str(r)) => if r@.len() >= 8 && r@.subrange(0, 8) == "#/$defs/"@ {
            match defs {
                None => Err(NixError::NoDefs),
                Some(d) => match get(d, r@.subrange(8, r@.len() as int)) {
                    Some(v) => Ok((v, None)),
                    None => Err(NixError::DanglingRef(r)),
                },
            }
        } else {
            Err(NixError::UnsupportedRef(r))
        },
        _ => Ok((n, ovr)),
    }
}

/// The first entry of a `type` list that is not the string `"null"`.
pub open spec fn first_non_null(ts: Seq<Json>) -> Option<Json>
    decreases ts.len(),
{
    if ts.len() == 0 {
        None
    } else if str_of(Some(ts[0])) == Some("null"@) {
        first_non_null(ts.drop_first())
    } else {
        Some(ts[0])
    }
}

/// Whether every value is a string.
pub open spec fn all_strings(vs: Seq<Json>) -> bool {
    forall|i: int| 0 <= i < vs.len() ==> #[trigger] str_of(Some(vs[i])) is Some
}

/// The enumeration type of string variants: `lib.types.enum [ "a" "b" ]`.
pub open spec fn enum_spec(vs: Seq<Json>) -> Result<Seq<char>, NixError> {
    if all_strings(vs) {
        Ok("lib.types.enum [ "@ + join_with(vs.map_values(|v: Json| quote(str_of(Some(v))->Some_0)), " "@)
            + " ]"@)
    } else {
        Err(NixError::NonStringEnum)
    }
}

/// `"` + text + `"`.
pub open spec fn quote(s: Seq<char>) -> Seq<char> {
    seq!['"'] + s + seq!['"']
}

/// `n` spaces.
pub open spec fn spaces(n: nat) -> Seq<char> {
    Seq::new(n, |i: int| ' ')
}

/// The text with `\` and `"` escaped by a backslash, as a Nix string needs.
pub open spec fn escape(s: Seq<char>) -> Seq<char>
    decreases s.len(),
{
    if s.len() == 0 {
        Seq::empty()
    } else {
        let c = s.last();
        escape(s.drop_last()) + if c == '\\' {
            seq!['\\', '\\']
        } else if c == '"' {
            seq!['\\', '"']
        } else {
            seq![c]
        }
    }
}

/// Whether the object lists `field` among its `required` names.
pub open spec fn is_required(m: Json, field: Seq<char>) -> bool {
    match get(m, "required"@) {
        Some(Json::Array(a)) => exists|i: int| 0 <= i < a@.len() && #[trigger] str_of(Some(a@[i])) == Some(field),
        _ => false,
    }
}

/// The Nix type expression of a schema node, at indentation level `depth`.
/// `fuel` bounds the expansion; `None` means it ran out.
pub open spec fn nix_type_spec(n: Json, ovr: Option<Json>, defs: Option<Json>, depth: nat, fuel: nat)
    -> Option<Result<Seq<char>, NixError>>
    decreases fuel, 2nat, 0nat,
{
    if fuel == 0 {
        None
    } else {
        match resolve_spec(n, ovr, defs) {
            Err(e) => Some(Err(e)),
            Ok((m, mo)) => match lookup(m, mo, "type"@) {
                Some(Json::Array(arr)) => match first_non_null(arr@) {
                    None => Some(Err(NixError::OnlyNull)),
                    Some(inner) => match nix_type_spec(m, Some(inner), defs, depth, (fuel - 1) as nat) {
                        Some(Ok(t)) => Some(Ok("lib.types.nullOr "@ + t)),
                        other => other,
                    },
                },
                _ => match lookup(m, mo, "enum"@) {
                    Some(Json::Array(vs)) => Some(enum_spec(vs@)),
                    _ => match lookup(m, mo, "type"@) {
                        Some(Json::Str(t)) => if t@ == "string"@ {
                            Some(Ok("lib.types.str"@))
                        } else if t@ == "boolean"@ {
                            Some(Ok("lib.types.bool"@))
                        } else if t@ == "integer"@ {
                            Some(Ok("lib.types.int"@))
                        } else if t@ == "number"@ {
                            Some(Ok("lib.types.float"@))
                        } else if t@ == "array"@ {
                            match lookup(m, mo, "items"@) {
                                None => Some(Err(NixError::NoItems)),
                                Some(items) => match nix_type_spec(items, None, defs, depth, (fuel - 1) as nat) {
                                    Some(Ok(t)) => Some(Ok("lib.types.listOf "@ + t)),
                                    other => other,
                                },
                            }
                        } else if t@ == "object"@ {
                            match lookup(m, mo, "additionalProperties"@) {
                                Some(Json::Object(es)) => match nix_type_spec(
                                    Json::Object(es),
                                    None,
                                    defs,
                                    depth,
                                    (fuel - 1) as nat,
                                ) {
                                    Some(Ok(t)) => Some(Ok("lib.types.attrsOf "@ + t)),
                                    other => other,
                                },
                                _ => match options_spec(m, mo, defs, depth, fuel) {
                                    Some(Ok(o)) => Some(Ok("lib.types.submodule { options = "@ + o + "; }"@)),
                                    other => other,
                                },
                            }
                        } else {
                            Some(Err(NixError::UnsupportedType(Some(t))))
                        },
                        _ => Some(Err(NixError::UnsupportedType(None))),
                    },
                },
            },
        }
    }
}

/// The `{ field = lib.mkOption { ... }; ... }` block of an object node.
pub open spec fn options_spec(m: Json, mo: Option<Json>, defs: Option<Json>, depth: nat, fuel: nat)
    -> Option<Result<Seq<char>, NixError>>
    decreases fuel, 1nat, 0nat,
{
    match lookup(m, mo, "properties"@) {
        Some(Json::Object(props)) => match lines_spec(props@, m, defs, depth, fuel) {
            Some(Ok(lines)) => Some(Ok("{\n"@ + join_with(lines, "\n"@) + "\n"@ + spaces(2 * depth) + "}"@)),
            Some(Err(e)) => Some(Err(e)),
            None => None,
        },
        _ => Some(Ok("{ }"@)),
    }
}

/// The option line of one field: its type, its description (escaped) when
/// the schema has one, and `default = null;` when the field is optional.
pub open spec fn option_line(field: Seq<char>, ty: Seq<char>, desc: Option<Seq<char>>, optional: bool, depth: nat) -> Seq<char> {
    let parts = seq!["type = "@ + ty + ";"@] + (match desc {
        Some(d) => seq!["description = \""@ + escape(d) + "\";"@],
        None => Seq::empty(),
    }) + (if optional {
        seq!["default = null;"@]
    } else {
        Seq::empty()
    });
    spaces(2 * (depth + 1)) + field + " = lib.mkOption { "@ + join_with(parts, " "@) + " };"@
}

/// The option lines of the properties of object `m`, in order.
pub open spec fn lines_spec(props: Seq<(String, Json)>, m: Json, defs: Option<Json>, depth: nat, fuel: nat)
    -> Option<Result<Seq<Seq<char>>, NixError>>
    decreases fuel, 0nat, props.len(),
{
    if props.len() == 0 {
        Some(Ok(Seq::empty()))
    } else if fuel == 0 {
        None
    } else {
        match lines_spec(props.drop_last(), m, defs, depth, fuel) {
            None => None,
            Some(Err(e)) => Some(Err(e)),
            Some(Ok(ls)) => {
                let field = props.last().0@;
                let node = props.last().1;
                match nix_type_spec(node, None, defs, depth + 1, (fuel - 1) as nat) {
                    None => None,
                    Some(Err(e)) => Some(Err(e)),
                    Some(Ok(ty)) => match resolve_spec(node, None, defs) {
                        Err(e) => Some(Err(e)),
                        Ok((rn, ro)) => Some(Ok(ls.push(option_line(
                            field,
                            ty,
                            str_of(lookup(rn, ro, "description"@)),
                            !is_required(m, field),
                            depth,
                        )))),
                    },
                }
            },
        }
    }
}

/// The whole module: `{ lib, ... }:` and the options block of the schema.
pub open spec fn module_spec(schema: Json, fuel: nat) -> Option<Result<Seq<char>, NixError>> {
    if str_of(get(schema, "type"@)) != Some("object"@) {
        Some(Err(NixError::NotObject))
    } else {
        match options_spec(schema, None, defs_of(schema), 1, fuel) {
            Some(Ok(o)) => Some(Ok("{ lib, ... }:\n{\n  options = "@ + o + ";\n}\n"@)),
            other => other,
        }
    }
}

/// Whether an exec result holds a spec result.
pub open spec fn result_is(r: Result<String, NixError>, s: Result<Seq<char>, NixError>) -> bool {
    match (r, s) {
        (Ok(a), Ok(b)) => a@ == b,
        (Err(a), Err(b)) => a == b,
        _ => false,
    }
}

impl Json {
    /// The member `key` of an object; `None` for other values.
    pub fn get(&self, key: &str) -> (r: Option<&Json>)
        ensures
            match r {
                Some(v) => get(*self, key@) == Some(*v),
                None => get(*self, key@) is None,
            },
    {
        match self {
            Json::Object(es) => {
                proof {
                    lemma_entry_of_start(es@, key@);
                }
                let mut i: usize = 0;
                while i < es.len()
                    invariant
                        i <= es@.len(),
                        get(*self, key@) == entry_of(es@, key@),
                        entry_of(es@, key@) == entry_of(es@.subrange(i as int, es@.len() as int), key@),
                    decreases es@.len() - i,
                {
                    let ghost rest = es@.subrange(i as int, es@.len() as int);
                    assert(rest.drop_first() =~= es@.subrange(i + 1, es@.len() as int));
                    assert(rest[0] == es@[i as int]);
                    if str_eq(es[i].0.as_str(), key) {
                        assert(entry_of(rest, key@) == Some(rest[0].1));
                        return Some(&es[i].1);
                    }
                    i = i + 1;
                }
                None
            },
            _ => None,
        }
    }
}

proof fn lemma_entry_of_start(es: Seq<(String, Json)>, key: Seq<char>)
    ensures
        entry_of(es, key) == entry_of(es.subrange(0, es.len() as int), key),
{
    assert(es.subrange(0, es.len() as int) =~= es);
}

/// A member, with `type` read as `ovr` when that is given.
fn lookup_exec<'a>(n: &'a Json, ovr: Option<&'a Json>, key: &str) -> (r: Option<&'a Json>)
    ensures
        match r {
            Some(v) => lookup(*n, opt(ovr), key@) == Some(*v),
            None => lookup(*n, opt(ovr), key@) is None,
        },
{
    proof {
        reveal_strlit("type");
    }
    if str_eq(key, "type") {
        match ovr {
            Some(o) => {
                return Some(o);
            },
            None => {},
        }
    }
    n.get(key)
}

/// The value an optional reference holds.
pub open spec fn opt(o: Option<&Json>) -> Option<Json> {
    match o {
        Some(v) => Some(*v),
        None => None,
    }
}

/// Whether an exec result holds a spec result, when the spec has one.
pub open spec fn outcome_is(r: Option<Result<String, NixError>>, s: Option<Result<Seq<char>, NixError>>) -> bool {
    match (r, s) {
        (Some(a), Some(b)) => result_is(a, b),
        (None, None) => true,
        _ => false,
    }
}

/// The node a `$ref` points to, or the node itself.
fn resolve<'a>(n: &'a Json, ovr: Option<&'a Json>, defs: Option<&'a Json>) -> (r: Result<(&'a Json, Option<&'a Json>), NixError>)
    ensures
        match resolve_spec(*n, opt(ovr), opt(defs)) {
            Ok((m, mo)) => r is Ok && *r->Ok_0.0 == m && opt(r->Ok_0.1) == mo,
            Err(e) => r is Err && r->Err_0 == e,
        },
{
    match n.get("$ref") {
        Some(Json::Str(r)) => {
            let rc = chars_of(r.as_str());
            let prefix = chars_of("#/$defs/");
            proof {
                reveal_strlit("#/$defs/");
            }
            if rc.len() >= 8 && chars_eq(chars_slice(rc.as_slice(), 0, 8).as_slice(), prefix.as_slice()) {
                match defs {
                    None => Err(NixError::NoDefs),
                    Some(d) => {
                        let name = string_from(chars_slice(rc.as_slice(), 8, rc.len()).as_slice());
                        match d.get(name.as_str()) {
                            Some(v) => Ok((v, None)),
                            None => Err(NixError::DanglingRef(r.clone())),
                        }
                    },
                }
            } else {
                Err(NixError::UnsupportedRef(r.clone()))
            }
        },
        _ => Ok((n, ovr)),
    }
}

/// Whether a value is the string `"null"`.
fn is_null_name(v: &Json) -> (r: bool)
    ensures
        r == (str_of(Some(*v)) == Some("null"@)),
{
    match v {
        Json::Str(s) => str_eq(s.as_str(), "null"),
        _ => false,
    }
}

/// The enumeration type of string variants.
fn enum_type(vs: &Vec<Json>) -> (r: Result<String, NixError>)
    ensures
        result_is(r, enum_spec(vs@)),
{
    let ghost quoted = |v: Json| quote(str_of(Some(v))->Some_0);
    let mut items: Vec<String> = Vec::new();
    let mut i: usize = 0;
    while i < vs.len()
        invariant
            i <= vs@.len(),
            all_strings(vs@.subrange(0, i as int)),
            items@.len() == i,
            forall|k: int| 0 <= k < i ==> #[trigger] items@[k]@ == quote(str_of(Some(vs@[k]))->Some_0),
        decreases vs@.len() - i,
    {
        match &vs[i] {
            Json::Str(s) => {
                let mut q = String::new();
                push_char(&mut q, '"');
                push_str(&mut q, s.as_str());
                push_char(&mut q, '"');
                items.push(q);
                proof {
                    assert forall|k: int| 0 <= k < i + 1 implies #[trigger] str_of(Some(vs@.subrange(0, i + 1)[k])) is Some by {
                        if k < i {
                            assert(vs@.subrange(0, i + 1)[k] == vs@.subrange(0, i as int)[k]);
                        }
                    }
                }
            },
            _ => {
                assert(str_of(Some(vs@[i as int])) is None);
                return Err(NixError::NonStringEnum);
            },
        }
        i = i + 1;
    }
    assert(vs@.subrange(0, vs@.len() as int) =~= vs@);
    assert(items@.map_values(|p: String| p@) =~= vs@.map_values(|v: Json| quote(str_of(Some(v))->Some_0)));
    let mut s = "lib.types.enum [ ".to_owned();
    push_str(&mut s, join_strings(&items, " ").as_str());
    push_str(&mut s, " ]");
    Ok(s)
}

/// Appends `n` spaces.
fn push_spaces(s: &mut String, n: usize)
    ensures
        final(s)@ == old(s)@ + spaces(n as nat),
{
    let ghost start = s@;
    let mut i: usize = 0;
    while i < n
        invariant
            i <= n,
            s@ == start + spaces(i as nat),
        decreases n - i,
    {
        push_char(s, ' ');
        i = i + 1;
        assert(s@ =~= start + spaces(i as nat));
    }
}

/// The text with `\` and `"` escaped.
fn escape_exec(t: &str) -> (r: String)
    ensures
        r@ == escape(t@),
{
    let cs = chars_of(t);
    let mut s = String::new();
    let mut i: usize = 0;
    while i < cs.len()
        invariant
            i <= cs@.len(),
            cs@ == t@,
            s@ == escape(cs@.subrange(0, i as int)),
        decreases cs@.len() - i,
    {
        let c = cs[i];
        assert(cs@.subrange(0, i + 1).drop_last() =~= cs@.subrange(0, i as int));
        if c == '\\' {
            push_char(&mut s, '\\');
            push_char(&mut s, '\\');
        } else if c == '"' {
            push_char(&mut s, '\\');
            push_char(&mut s, '"');
        } else {
            push_char(&mut s, c);
        }
        i = i + 1;
        assert(s@ =~= escape(cs@.subrange(0, i as int)));
    }
    assert(cs@.subrange(0, cs@.len() as int) =~= cs@);
    s
}

/// Whether the object lists `field` as required.
fn required(m: &Json, field: &str) -> (r: bool)
    ensures
        r == is_required(*m, field@),
{
    match m.get("required") {
        Some(Json::Array(a)) => {
            let mut i: usize = 0;
            while i < a.len()
                invariant
                    i <= a@.len(),
                    get(*m, "required"@) == Some(Json::Array(*a)),
                    forall|k: int| 0 <= k < i ==> #[trigger] str_of(Some(a@[k])) != Some(field@),
                decreases a@.len() - i,
            {
                match &a[i] {
                    Json::Str(s) => {
                        if str_eq(s.as_str(), field) {
                            assert(str_of(Some(a@[i as int])) == Some(field@));
                            return true;
                        }
                    },
                    _ => {},
                }
                i = i + 1;
            }
            false
        },
        _ => false,
    }
}

/// The Nix type expression of a schema node; `None` when `fuel` runs out.
fn nix_type(n: &Json, ovr: Option<&Json>, defs: Option<&Json>, depth: usize, fuel: usize) -> (r: Option<Result<String, NixError>>)
    requires
        depth + fuel <= usize::MAX,
    ensures
        outcome_is(r, nix_type_spec(*n, opt(ovr), opt(defs), depth as nat, fuel as nat)),
    decreases fuel, 2nat, 0nat,
{
    if fuel == 0 {
        return None;
    }
    let (m, mo) = match resolve(n, ovr, defs) {
        Ok(p) => p,
        Err(e) => {
            return Some(Err(e));
        },
    };
    match lookup_exec(m, mo, "type") {
        Some(Json::Array(arr)) => {
            let mut i: usize = 0;
            assert(arr@.subrange(0, arr@.len() as int) =~= arr@);
            while i < arr.len() && is_null_name(&arr[i])
                invariant
                    i <= arr@.len(),
                    first_non_null(arr@) == first_non_null(arr@.subrange(i as int, arr@.len() as int)),
                decreases arr@.len() - i,
            {
                let ghost rest = arr@.subrange(i as int, arr@.len() as int);
                assert(rest.drop_first() =~= arr@.subrange(i + 1, arr@.len() as int));
                assert(rest[0] == arr@[i as int]);
                i = i + 1;
            }
            if i == arr.len() {
                return Some(Err(NixError::OnlyNull));
            }
            proof {
                let rest = arr@.subrange(i as int, arr@.len() as int);
                assert(rest[0] == arr@[i as int]);
            }
            match nix_type(m, Some(&arr[i]), defs, depth, fuel - 1) {
                Some(Ok(t)) => {
                    let mut s = "lib.types.nullOr ".to_owned();
                    push_str(&mut s, t.as_str());
                    Some(Ok(s))
                },
                other => other,
            }
        },
        _ => match lookup_exec(m, mo, "enum") {
            Some(Json::Array(vs)) => Some(enum_type(vs)),
            _ => match lookup_exec(m, mo, "type") {
                Some(Json::Str(t)) => {
                    if str_eq(t.as_str(), "string") {
                        Some(Ok("lib.types.str".to_owned()))
                    } else if str_eq(t.as_str(), "boolean") {
                        Some(Ok("lib.types.bool".to_owned()))
                    } else if str_eq(t.as_str(), "integer") {
                        Some(Ok("lib.types.int".to_owned()))
                    } else if str_eq(t.as_str(), "number") {
                        Some(Ok("lib.types.float".to_owned()))
                    } else if str_eq(t.as_str(), "array") {
                        match lookup_exec(m, mo, "items") {
                            None => Some(Err(NixError::NoItems)),
                            Some(items) => match nix_type(items, None, defs, depth, fuel - 1) {
                                Some(Ok(t)) => {
                                    let mut s = "lib.types.listOf ".to_owned();
                                    push_str(&mut s, t.as_str());
                                    Some(Ok(s))
                                },
                                other => other,
                            },
                        }
                    } else if str_eq(t.as_str(), "object") {
                        match lookup_exec(m, mo, "additionalProperties") {
                            Some(additional) => match additional {
                                Json::Object(_) => match nix_type(additional, None, defs, depth, fuel - 1) {
                                    Some(Ok(t)) => {
                                        let mut s = "lib.types.attrsOf ".to_owned();
                                        push_str(&mut s, t.as_str());
                                        Some(Ok(s))
                                    },
                                    other => other,
                                },
                                _ => submodule(m, mo, defs, depth, fuel),
                            },
                            None => submodule(m, mo, defs, depth, fuel),
                        }
                    } else {
                        Some(Err(NixError::UnsupportedType(Some(t.clone()))))
                    }
                },
                _ => Some(Err(NixError::UnsupportedType(None))),
            },
        },
    }
}

/// `lib.types.submodule { options = ...; }` of an object node.
fn submodule(m: &Json, mo: Option<&Json>, defs: Option<&Json>, depth: usize, fuel: usize) -> (r: Option<Result<String, NixError>>)
    requires
        depth + fuel <= usize::MAX,
    ensures
        outcome_is(r, match options_spec(*m, opt(mo), opt(defs), depth as nat, fuel as nat) {
            Some(Ok(o)) => Some(Ok("lib.types.submodule { options = "@ + o + "; }"@)),
            other => other,
        }),
    decreases fuel, 1nat, 1nat,
{
    match options_block(m, mo, defs, depth, fuel) {
        Some(Ok(o)) => {
            let mut s = "lib.types.submodule { options = ".to_owned();
            push_str(&mut s, o.as_str());
            push_str(&mut s, "; }");
            Some(Ok(s))
        },
        other => other,
    }
}

/// The options block of an object node.
fn options_block(m: &Json, mo: Option<&Json>, defs: Option<&Json>, depth: usize, fuel: usize) -> (r: Option<Result<String, NixError>>)
    requires
        depth + fuel <= usize::MAX,
    ensures
        outcome_is(r, options_spec(*m, opt(mo), opt(defs), depth as nat, fuel as nat)),
    decreases fuel, 1nat, 0nat,
{
    match lookup_exec(m, mo, "properties") {
        Some(Json::Object(props)) => match option_lines(props, m, defs, depth, fuel) {
            Some(Ok(lines)) => {
                let mut s = "{\n".to_owned();
                push_str(&mut s, join_strings(&lines, "\n").as_str());
                push_str(&mut s, "\n");
                push_spaces(&mut s, depth);
                push_spaces(&mut s, depth);
                push_str(&mut s, "}");
                proof {
                    assert(spaces(depth as nat) + spaces(depth as nat) =~= spaces(2 * depth as nat));
                    let sl = lines_spec(props@, *m, opt(defs), depth as nat, fuel as nat);
                    assert(sl matches Some(Ok(_)));
                    assert(lines@.map_values(|l: String| l@) == sl->Some_0->Ok_0);
                    assert(s@ =~= "{\n"@ + join_with(sl->Some_0->Ok_0, "\n"@) + "\n"@ + spaces(2 * depth as nat) + "}"@);
                }
                Some(Ok(s))
            },
            Some(Err(e)) => Some(Err(e)),
            None => None,
        },
        _ => Some(Ok("{ }".to_owned())),
    }
}

/// Whether exec lines hold spec lines.
pub open spec fn lines_are(r: Vec<String>, s: Seq<Seq<char>>) -> bool {
    r@.map_values(|l: String| l@) == s
}

/// The option lines of the properties of object `m`.
fn option_lines(props: &Vec<(String, Json)>, m: &Json, defs: Option<&Json>, depth: usize, fuel: usize)
    -> (r: Option<Result<Vec<String>, NixError>>)
    requires
        depth + fuel <= usize::MAX,
    ensures
        match (r, lines_spec(props@, *m, opt(defs), depth as nat, fuel as nat)) {
            (Some(Ok(a)), Some(Ok(b))) => lines_are(a, b),
            (Some(Err(a)), Some(Err(b))) => a == b,
            (None, None) => true,
            _ => false,
        },
    decreases fuel, 0nat, props@.len(),
{
    let mut lines: Vec<String> = Vec::new();
    let mut i: usize = 0;
    assert(props@.subrange(0, 0) =~= Seq::<(String, Json)>::empty());
    assert(lines@.map_values(|l: String| l@) =~= Seq::<Seq<char>>::empty());
    while i < props.len()
        invariant
            i <= props@.len(),
            depth + fuel <= usize::MAX,
            lines_spec(props@.subrange(0, i as int), *m, opt(defs), depth as nat, fuel as nat) is Some,
            lines_spec(props@.subrange(0, i as int), *m, opt(defs), depth as nat, fuel as nat)->Some_0 is Ok,
            lines_are(lines, lines_spec(props@.subrange(0, i as int), *m, opt(defs), depth as nat, fuel as nat)->Some_0->Ok_0),
        decreases props@.len() - i,
    {
        let ghost pre = props@.subrange(0, i as int);
        let ghost next = props@.subrange(0, i + 1);
        assert(next.drop_last() =~= pre);
        assert(next.last() == props@[i as int]);
        if fuel == 0 {
            proof {
                lemma_lines_none_sticks(props@, *m, opt(defs), depth as nat, fuel as nat, i + 1);
            }
            return None;
        }
        let field = &props[i].0;
        let node = &props[i].1;
        let ty = match nix_type(node, None, defs, depth + 1, fuel - 1) {
            Some(Ok(t)) => t,
            Some(Err(e)) => {
                proof {
                    lemma_lines_err_sticks(props@, *m, opt(defs), depth as nat, fuel as nat, i + 1);
                }
                return Some(Err(e));
            },
            None => {
                proof {
                    lemma_lines_none_sticks(props@, *m, opt(defs), depth as nat, fuel as nat, i + 1);
                }
                return None;
            },
        };
        let (rn, ro) = match resolve(node, None, defs) {
            Ok(p) => p,
            Err(e) => {
                proof {
                    lemma_lines_err_sticks(props@, *m, opt(defs), depth as nat, fuel as nat, i + 1);
                }
                return Some(Err(e));
            },
        };
        let mut parts: Vec<String> = Vec::new();
        let mut p0 = "type = ".to_owned();
        push_str(&mut p0, ty.as_str());
        push_str(&mut p0, ";");
        parts.push(p0);
        let desc = match lookup_exec(rn, ro, "description") {
            Some(Json::Str(d)) => {
                let mut p1 = "description = \"".to_owned();
                push_str(&mut p1, escape_exec(d.as_str()).as_str());
                push_str(&mut p1, "\";");
                parts.push(p1);
                true
            },
            _ => false,
        };
        let optional = !required(m, field.as_str());
        if optional {
            parts.push("default = null;".to_owned());
        }
        let mut line = String::new();
        push_spaces(&mut line, depth + 1);
        push_spaces(&mut line, depth + 1);
        push_str(&mut line, field.as_str());
        push_str(&mut line, " = lib.mkOption { ");
        push_str(&mut line, join_strings(&parts, " ").as_str());
        push_str(&mut line, " };");
        proof {
            let d = str_of(lookup(*rn, opt(ro), "description"@));
            let expected = option_line(field@, ty@, d, optional, depth as nat);
            let ps = seq!["type = "@ + ty@ + ";"@] + (match d {
                Some(d) => seq!["description = \""@ + escape(d) + "\";"@],
                None => Seq::empty(),
            }) + (if optional {
                seq!["default = null;"@]
            } else {
                Seq::empty()
            });
            assert(parts@.map_values(|p: String| p@) =~= ps);
            assert(spaces((depth + 1) as nat) + spaces((depth + 1) as nat) =~= spaces(2 * (depth + 1) as nat));
            assert(line@ =~= expected);
        }
        lines.push(line);
        proof {
            let sp = lines_spec(next, *m, opt(defs), depth as nat, fuel as nat);
            assert(lines@.map_values(|l: String| l@) =~= sp->Some_0->Ok_0);
        }
        i = i + 1;
    }
    assert(props@.subrange(0, props@.len() as int) =~= props@);
    Some(Ok(lines))
}

proof fn lemma_lines_err_sticks(props: Seq<(String, Json)>, m: Json, defs: Option<Json>, depth: nat, fuel: nat, i: int)
    requires
        0 <= i <= props.len(),
        lines_spec(props.subrange(0, i), m, defs, depth, fuel) matches Some(Err(_)),
    ensures
        lines_spec(props, m, defs, depth, fuel) == lines_spec(props.subrange(0, i), m, defs, depth, fuel),
    decreases props.len() - i,
{
    if i < props.len() {
        assert(props.subrange(0, i + 1).drop_last() =~= props.subrange(0, i));
        lemma_lines_err_sticks(props, m, defs, depth, fuel, i + 1);
    } else {
        assert(props.subrange(0, i) =~= props);
    }
}

proof fn lemma_lines_none_sticks(props: Seq<(String, Json)>, m: Json, defs: Option<Json>, depth: nat, fuel: nat, i: int)
    requires
        0 <= i <= props.len(),
        lines_spec(props.subrange(0, i), m, defs, depth, fuel) is None,
    ensures
        lines_spec(props, m, defs, depth, fuel) is None,
    decreases props.len() - i,
{
    if i < props.len() {
        assert(props.subrange(0, i + 1).drop_last() =~= props.subrange(0, i));
        lemma_lines_none_sticks(props, m, defs, depth, fuel, i + 1);
    } else {
        assert(props.subrange(0, i) =~= props);
    }
}

/// The options module of a schema, expanding `$ref`s at most `fuel` levels
/// deep; `None` when that is not enough.
pub fn nix_module_bounded(schema: &Json, fuel: usize) -> (r: Option<Result<String, NixError>>)
    requires
        fuel < usize::MAX,
    ensures
        outcome_is(r, module_spec(*schema, fuel as nat)),
{
    let is_object = match schema.get("type") {
        Some(Json::Str(t)) => str_eq(t.as_str(), "object"),
        _ => false,
    };
    if !is_object {
        return Some(Err(NixError::NotObject));
    }
    let defs = match schema.get("$defs") {
        Some(d) => match d {
            Json::Object(_) => Some(d),
            _ => None,
        },
        None => None,
    };
    assert(opt(defs) == defs_of(*schema));
    match options_block(schema, None, defs, 1, fuel) {
        Some(Ok(o)) => {
            let mut s = "{ lib, ... }:\n{\n  options = ".to_owned();
            push_str(&mut s, o.as_str());
            push_str(&mut s, ";\n}\n");
            Some(Ok(s))
        },
        other => other,
    }
}

/// Translates the JSON Schema of a settings type into a NixOS options module,
/// `{ lib, ... }: { options = { ... }; }`. A schema whose `$ref`s never bottom
/// out has no module (the expansion does not end), so it is left out.
pub fn schema_to_nix_module(schema: &Json) -> (r: Result<String, NixError>)
    requires
        module_spec(*schema, (usize::MAX - 1) as nat) is Some,
    ensures
        result_is(r, module_spec(*schema, (usize::MAX - 1) as nat)->Some_0),
{
    match nix_module_bounded(schema, usize::MAX - 1) {
        Some(r) => r,
        None => {
            assert(false);
            Err(NixError::NotObject)
        },
    }
}

} // verus!
