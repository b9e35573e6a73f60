//! The schema's wire form: how an [`Interface`] is written as JSON text
//! and read back. The writer is canonical — object members stand in a
//! fixed order and maps emit their entries in sorted key order — and the
//! reader accepts that grammar, with whitespace and string escapes as the
//! JSON layer allows them. A malformed text is a [`SchemaError`]; nothing
//! partial is ever produced.

use vstd::prelude::*;

use crate::json::{
    append_json, chars_eq_str, chars_to_string, lemma_view_json_pairs_index,
    lemma_view_json_pairs_push, lemma_view_json_seq_index, lemma_view_json_seq_push,
    parse_json_str, parse_text, print_json, str_to_chars, view_json, view_json_pairs,
    view_json_seq, Json, JsonV,
};
use crate::schema::{
    lemma_view_type_seq_index, lex_lt, map_has_key, view_type, view_type_seq, Function, FunctionV,
    Interface, InterfaceV, NamedMap, Parameter, ParameterV, Primitive, Type, TypeDefinition,
    TypeDefinitionV, TypeV, UnionDef,
};

verus! {

/// Why a schema text was rejected: it is not well-formed JSON of the
/// schema subset, or its JSON shape is not a well-formed interface.
#[derive(Debug, Clone, Copy, PartialEq, Eq, Structural)]
pub enum SchemaError {
    Syntax,
    Malformed,
}

/// The JSON name of a primitive.
pub open spec fn prim_name(p: Primitive) -> Seq<char> {
    match p {
        Primitive::Int => "int"@,
        Primitive::Float => "float"@,
        Primitive::Str => "str"@,
    }
}

/// The JSON form of a type expression: an object tagged by its `kind`
/// member, its other members in a fixed order.
pub open spec fn type_to_json(t: TypeV) -> JsonV
    decreases t, 0int,
{
    match t {
        TypeV::Primitive(p) => JsonV::JObj(
            seq![("kind"@, JsonV::JStr("primitive"@)), ("name"@, JsonV::JStr(prim_name(p)))],
        ),
        TypeV::NoneType => JsonV::JObj(seq![("kind"@, JsonV::JStr("none"@))]),
        TypeV::Ellipsis => JsonV::JObj(seq![("kind"@, JsonV::JStr("ellipsis"@))]),
        TypeV::Exception => JsonV::JObj(seq![("kind"@, JsonV::JStr("exception"@))]),
        TypeV::Tuple { tags } => JsonV::JObj(
            seq![
                ("kind"@, JsonV::JStr("tuple"@)),
                ("tags"@, JsonV::JArr(types_to_json(tags))),
            ],
        ),
        TypeV::List { element } => JsonV::JObj(
            seq![
                ("kind"@, JsonV::JStr("list"@)),
                ("inner"@, JsonV::JArr(seq![type_to_json(*element)])),
            ],
        ),
        TypeV::Dict { key, value } => JsonV::JObj(
            seq![
                ("kind"@, JsonV::JStr("dict"@)),
                ("inner"@, JsonV::JArr(seq![type_to_json(*key), type_to_json(*value)])),
            ],
        ),
        TypeV::UserDefined { module, name, supertype } => JsonV::JObj(
            seq![
                ("kind"@, JsonV::JStr("user_defined"@)),
                ("module"@, JsonV::JStr(module)),
                ("name"@, JsonV::JStr(name)),
                ("supertype"@, type_to_json(*supertype)),
            ],
        ),
        TypeV::Union { args } => JsonV::JObj(
            seq![
                ("kind"@, JsonV::JStr("union"@)),
                ("args"@, JsonV::JArr(types_to_json(args))),
            ],
        ),
        TypeV::Callable { args, ret } => JsonV::JObj(
            seq![
                ("kind"@, JsonV::JStr("callable"@)),
                ("args"@, JsonV::JArr(types_to_json(args))),
                ("return"@, type_to_json(*ret)),
            ],
        ),
    }
}

/// The JSON forms of a list of types.
pub open spec fn types_to_json(ts: Seq<TypeV>) -> Seq<JsonV>
    decreases ts, 1int,
{
    if ts.len() == 0 {
        Seq::empty()
    } else {
        types_to_json(ts.subrange(0, ts.len() - 1)).push(type_to_json(ts[ts.len() - 1]))
    }
}

/// Reads a type expression back from its JSON form; `Some` exactly on the
/// canonical shape [`type_to_json`] writes, with a union of fewer than two
/// branches rejected.
pub open spec fn json_to_type(j: JsonV) -> Option<TypeV>
    decreases j, 1int,
{
    if !(j is JObj) {
        Option::None
    } else {
        let o = j->JObj_0;
        if o.len() < 1 || o[0].0 != "kind"@ || !(o[0].1 is JStr) {
            Option::None
        } else {
            let k = o[0].1->JStr_0;
            if k == "none"@ {
                if o.len() == 1 {
                    Some(TypeV::NoneType)
                } else {
                    Option::None
                }
            } else if k == "ellipsis"@ {
                if o.len() == 1 {
                    Some(TypeV::Ellipsis)
                } else {
                    Option::None
                }
            } else if k == "exception"@ {
                if o.len() == 1 {
                    Some(TypeV::Exception)
                } else {
                    Option::None
                }
            } else if k == "primitive"@ {
                if o.len() == 2 && o[1].0 == "name"@ && o[1].1 is JStr {
                    let n = o[1].1->JStr_0;
                    if n == "int"@ {
                        Some(TypeV::Primitive(Primitive::Int))
                    } else if n == "float"@ {
                        Some(TypeV::Primitive(Primitive::Float))
                    } else if n == "str"@ {
                        Some(TypeV::Primitive(Primitive::Str))
                    } else {
                        Option::None
                    }
                } else {
                    Option::None
                }
            } else if k == "tuple"@ {
                if o.len() == 2 && o[1].0 == "tags"@ && o[1].1 is JArr {
                    match jsons_to_types(o[1].1->JArr_0) {
                        Some(ts) => Some(TypeV::Tuple { tags: ts }),
                        Option::None => Option::None,
                    }
                } else {
                    Option::None
                }
            } else if k == "list"@ {
                if o.len() == 2 && o[1].0 == "inner"@ && o[1].1 is JArr && o[1].1->JArr_0.len()
                    == 1 {
                    match json_to_type(o[1].1->JArr_0[0]) {
                        Some(e) => Some(TypeV::List { element: Box::new(e) }),
                        Option::None => Option::None,
                    }
                } else {
                    Option::None
                }
            } else if k == "dict"@ {
                if o.len() == 2 && o[1].0 == "inner"@ && o[1].1 is JArr && o[1].1->JArr_0.len()
                    == 2 {
                    match (json_to_type(o[1].1->JArr_0[0]), json_to_type(o[1].1->JArr_0[1])) {
                        (Some(kt), Some(vt)) => Some(
                            TypeV::Dict { key: Box::new(kt), value: Box::new(vt) },
                        ),
                        _ => Option::None,
                    }
                } else {
                    Option::None
                }
            } else if k == "user_defined"@ {
                if o.len() == 4 && o[1].0 == "module"@ && o[1].1 is JStr && o[2].0 == "name"@
                    && o[2].1 is JStr && o[3].0 == "supertype"@ {
                    match json_to_type(o[3].1) {
                        Some(st) => Some(
                            TypeV::UserDefined {
                                module: o[1].1->JStr_0,
                                name: o[2].1->JStr_0,
                                supertype: Box::new(st),
                            },
                        ),
                        Option::None => Option::None,
                    }
                } else {
                    Option::None
                }
            } else if k == "union"@ {
                if o.len() == 2 && o[1].0 == "args"@ && o[1].1 is JArr && o[1].1->JArr_0.len()
                    >= 2 {
                    match jsons_to_types(o[1].1->JArr_0) {
                        Some(ts) => Some(TypeV::Union { args: ts }),
                        Option::None => Option::None,
                    }
                } else {
                    Option::None
                }
            } else if k == "callable"@ {
                if o.len() == 3 && o[1].0 == "args"@ && o[1].1 is JArr && o[2].0 == "return"@ {
                    match (jsons_to_types(o[1].1->JArr_0), json_to_type(o[2].1)) {
                        (Some(ts), Some(rt)) => Some(
                            TypeV::Callable { args: ts, ret: Box::new(rt) },
                        ),
                        _ => Option::None,
                    }
                } else {
                    Option::None
                }
            } else {
                Option::None
            }
        }
    }
}

/// Reads a list of types back from their JSON forms.
pub open spec fn jsons_to_types(js: Seq<JsonV>) -> Option<Seq<TypeV>>
    decreases js, 2int,
{
    if js.len() == 0 {
        Some(Seq::empty())
    } else {
        match (jsons_to_types(js.subrange(0, js.len() - 1)), json_to_type(js[js.len() - 1])) {
            (Some(ts), Some(t)) => Some(ts.push(t)),
            _ => Option::None,
        }
    }
}

/// A type written and read back is itself.
pub proof fn lemma_type_round_trip(t: TypeV)
    requires
        crate::schema::wf_type(t),
    ensures
        json_to_type(type_to_json(t)) == Some(t),
    decreases t, 0int,
{
    match t {
        TypeV::Primitive(p) => {
            match p {
                Primitive::Int => {
                    lemma_distinct_kinds();
                },
                Primitive::Float => {
                    lemma_distinct_kinds();
                },
                Primitive::Str => {
                    lemma_distinct_kinds();
                },
            }
        },
        TypeV::NoneType => {
            lemma_distinct_kinds();
        },
        TypeV::Ellipsis => {
            lemma_distinct_kinds();
        },
        TypeV::Exception => {
            lemma_distinct_kinds();
        },
        TypeV::Tuple { tags } => {
            lemma_distinct_kinds();
            lemma_types_round_trip(tags);
        },
        TypeV::List { element } => {
            lemma_distinct_kinds();
            lemma_type_round_trip(*element);
        },
        TypeV::Dict { key, value } => {
            lemma_distinct_kinds();
            lemma_type_round_trip(*key);
            lemma_type_round_trip(*value);
        },
        TypeV::UserDefined { module, name, supertype } => {
            lemma_distinct_kinds();
            lemma_type_round_trip(*supertype);
        },
        TypeV::Union { args } => {
            lemma_distinct_kinds();
            lemma_types_round_trip(args);
            assert(forall|i: int|
                0 <= i < args.len() ==> crate::schema::wf_type(#[trigger] args[i]));
        },
        TypeV::Callable { args, ret } => {
            lemma_distinct_kinds();
            lemma_types_round_trip(args);
            lemma_type_round_trip(*ret);
        },
    }
}

/// A list of types written and read back is itself.
pub proof fn lemma_types_round_trip(ts: Seq<TypeV>)
    requires
        forall|i: int| 0 <= i < ts.len() ==> crate::schema::wf_type(#[trigger] ts[i]),
    ensures
        jsons_to_types(types_to_json(ts)) == Some(ts),
        types_to_json(ts).len() == ts.len(),
    decreases ts, 1int,
{
    if ts.len() == 0 {
        assert(types_to_json(ts) =~= Seq::<JsonV>::empty());
    } else {
        let init = ts.subrange(0, ts.len() - 1);
        lemma_types_round_trip(init);
        lemma_type_round_trip(ts[ts.len() - 1]);
        let js = types_to_json(ts);
        assert(js.subrange(0, js.len() - 1) =~= types_to_json(init));
        assert(js[js.len() - 1] == type_to_json(ts[ts.len() - 1]));
        assert(init.push(ts[ts.len() - 1]) =~= ts);
    }
}

/// The kind names of the type grammar are pairwise distinct character
/// sequences.
pub proof fn lemma_distinct_kinds()
    ensures
        "none"@ != "ellipsis"@ && "none"@ != "exception"@ && "none"@ != "primitive"@ && "none"@
            != "tuple"@ && "none"@ != "list"@ && "none"@ != "dict"@ && "none"@ != "user_defined"@
            && "none"@ != "union"@ && "none"@ != "callable"@,
        "ellipsis"@ != "exception"@ && "ellipsis"@ != "primitive"@ && "ellipsis"@ != "tuple"@
            && "ellipsis"@ != "list"@ && "ellipsis"@ != "dict"@ && "ellipsis"@ != "user_defined"@
            && "ellipsis"@ != "union"@ && "ellipsis"@ != "callable"@,
        "exception"@ != "primitive"@ && "exception"@ != "tuple"@ && "exception"@ != "list"@
            && "exception"@ != "dict"@ && "exception"@ != "user_defined"@ && "exception"@
            != "union"@ && "exception"@ != "callable"@,
        "primitive"@ != "tuple"@ && "primitive"@ != "list"@ && "primitive"@ != "dict"@
            && "primitive"@ != "user_defined"@ && "primitive"@ != "union"@ && "primitive"@
            != "callable"@,
        "tuple"@ != "list"@ && "tuple"@ != "dict"@ && "tuple"@ != "user_defined"@ && "tuple"@
            != "union"@ && "tuple"@ != "callable"@,
        "list"@ != "dict"@ && "list"@ != "user_defined"@ && "list"@ != "union"@ && "list"@
            != "callable"@,
        "dict"@ != "user_defined"@ && "dict"@ != "union"@ && "dict"@ != "callable"@,
        "user_defined"@ != "union"@ && "user_defined"@ != "callable"@,
        "union"@ != "callable"@,
        "int"@ != "float"@ && "int"@ != "str"@ && "float"@ != "str"@,
{
    broadcast use vstd::string::group_string_axioms;

    assert("none"@.len() == 4) by {
        reveal_strlit("none");
    }
    assert("ellipsis"@.len() == 8) by {
        reveal_strlit("ellipsis");
    }
    assert("exception"@.len() == 9) by {
        reveal_strlit("exception");
    }
    assert("primitive"@.len() == 9) by {
        reveal_strlit("primitive");
    }
    assert("tuple"@.len() == 5) by {
        reveal_strlit("tuple");
    }
    assert("list"@.len() == 4) by {
        reveal_strlit("list");
    }
    assert("dict"@.len() == 4) by {
        reveal_strlit("dict");
    }
    assert("user_defined"@.len() == 12) by {
        reveal_strlit("user_defined");
    }
    assert("union"@.len() == 5) by {
        reveal_strlit("union");
    }
    assert("callable"@.len() == 8) by {
        reveal_strlit("callable");
    }
    assert("int"@.len() == 3) by {
        reveal_strlit("int");
    }
    assert("float"@.len() == 5) by {
        reveal_strlit("float");
    }
    assert("str"@.len() == 3) by {
        reveal_strlit("str");
    }
    assert("none"@ != "list"@) by {
        reveal_strlit("none");
        reveal_strlit("list");
        assert("none"@[0] == 'n');
        assert("list"@[0] == 'l');
    }
    assert("none"@ != "dict"@) by {
        reveal_strlit("none");
        reveal_strlit("dict");
        assert("none"@[0] == 'n');
        assert("dict"@[0] == 'd');
    }
    assert("list"@ != "dict"@) by {
        reveal_strlit("list");
        reveal_strlit("dict");
        assert("list"@[0] == 'l');
        assert("dict"@[0] == 'd');
    }
    assert("tuple"@ != "union"@) by {
        reveal_strlit("tuple");
        reveal_strlit("union");
        assert("tuple"@[0] == 't');
        assert("union"@[0] == 'u');
    }
    assert("ellipsis"@ != "callable"@) by {
        reveal_strlit("ellipsis");
        reveal_strlit("callable");
        assert("ellipsis"@[0] == 'e');
        assert("callable"@[0] == 'c');
    }
    assert("exception"@ != "primitive"@) by {
        reveal_strlit("exception");
        reveal_strlit("primitive");
        assert("exception"@[0] == 'e');
        assert("primitive"@[0] == 'p');
    }
    assert("int"@ != "str"@) by {
        reveal_strlit("int");
        reveal_strlit("str");
        assert("int"@[0] == 'i');
        assert("str"@[0] == 's');
    }
    assert("tuple"@ != "float"@) by {
        reveal_strlit("tuple");
        reveal_strlit("float");
        assert("tuple"@[0] == 't');
        assert("float"@[0] == 'f');
    }
    assert("union"@ != "float"@) by {
        reveal_strlit("union");
        reveal_strlit("float");
        assert("union"@[0] == 'u');
        assert("float"@[0] == 'f');
    }
}


/// The JSON form of a parameter.
pub open spec fn parameter_to_json(p: ParameterV) -> JsonV {
    JsonV::JObj(seq![("name"@, JsonV::JStr(p.name)), ("type"@, type_to_json(p.ty))])
}

/// The JSON forms of a parameter list.
pub open spec fn params_to_json(ps: Seq<ParameterV>) -> Seq<JsonV>
    decreases ps,
{
    if ps.len() == 0 {
        Seq::empty()
    } else {
        params_to_json(ps.subrange(0, ps.len() - 1)).push(parameter_to_json(ps[ps.len() - 1]))
    }
}

/// The JSON form of a function.
pub open spec fn function_to_json(f: FunctionV) -> JsonV {
    JsonV::JObj(
        seq![
            ("name"@, JsonV::JStr(f.name)),
            ("parameters"@, JsonV::JArr(params_to_json(f.parameters))),
            ("return"@, type_to_json(f.ret)),
        ],
    )
}

/// The JSON form of a type definition.
pub open spec fn typedef_to_json(td: TypeDefinitionV) -> JsonV {
    JsonV::JObj(
        seq![
            ("module"@, JsonV::JStr(td.module)),
            ("name"@, JsonV::JStr(td.name)),
            ("supertype"@, type_to_json(td.supertype)),
        ],
    )
}

/// The JSON members of the function registry, in map order.
pub open spec fn fnmap_to_json(fs: Seq<(Seq<char>, FunctionV)>) -> Seq<(Seq<char>, JsonV)>
    decreases fs,
{
    if fs.len() == 0 {
        Seq::empty()
    } else {
        fnmap_to_json(fs.subrange(0, fs.len() - 1)).push(
            (fs[fs.len() - 1].0, function_to_json(fs[fs.len() - 1].1)),
        )
    }
}

/// The JSON members of the type-definition registry, in map order.
pub open spec fn tdmap_to_json(tds: Seq<(Seq<char>, TypeDefinitionV)>) -> Seq<(Seq<char>, JsonV)>
    decreases tds,
{
    if tds.len() == 0 {
        Seq::empty()
    } else {
        tdmap_to_json(tds.subrange(0, tds.len() - 1)).push(
            (tds[tds.len() - 1].0, typedef_to_json(tds[tds.len() - 1].1)),
        )
    }
}

/// The JSON members of the union registry, in map order: each union is the
/// array of its branch types.
pub open spec fn unmap_to_json(us: Seq<(Seq<char>, Seq<TypeV>)>) -> Seq<(Seq<char>, JsonV)>
    decreases us,
{
    if us.len() == 0 {
        Seq::empty()
    } else {
        unmap_to_json(us.subrange(0, us.len() - 1)).push(
            (us[us.len() - 1].0, JsonV::JArr(types_to_json(us[us.len() - 1].1))),
        )
    }
}

/// The JSON form of a whole interface: its three registries, the union
/// registry only when it holds something.
pub open spec fn interface_to_json(iv: InterfaceV) -> JsonV {
    JsonV::JObj(
        seq![
            ("functions"@, JsonV::JObj(fnmap_to_json(iv.functions))),
            ("type_definitions"@, JsonV::JObj(tdmap_to_json(iv.type_definitions))),
        ] + (if iv.unions.len() == 0 {
            Seq::<(Seq<char>, JsonV)>::empty()
        } else {
            seq![("unions"@, JsonV::JObj(unmap_to_json(iv.unions)))]
        }),
    )
}

/// The canonical text of a whole interface.
pub open spec fn serialize_text(iv: InterfaceV) -> Seq<char> {
    print_json(interface_to_json(iv))
}

/// Reads a parameter back; `Some` exactly on the canonical shape.
pub open spec fn json_to_parameter(j: JsonV) -> Option<ParameterV> {
    if !(j is JObj) {
        Option::None
    } else {
        let o = j->JObj_0;
        if o.len() == 2 && o[0].0 == "name"@ && o[0].1 is JStr && o[1].0 == "type"@ {
            match json_to_type(o[1].1) {
                Some(t) => Some(ParameterV { name: o[0].1->JStr_0, ty: t }),
                Option::None => Option::None,
            }
        } else {
            Option::None
        }
    }
}

/// Reads a parameter list back.
pub open spec fn jsons_to_params(js: Seq<JsonV>) -> Option<Seq<ParameterV>>
    decreases js,
{
    if js.len() == 0 {
        Some(Seq::empty())
    } else {
        match (jsons_to_params(js.subrange(0, js.len() - 1)), json_to_parameter(js[js.len() - 1])) {
            (Some(ps), Some(p)) => Some(ps.push(p)),
            _ => Option::None,
        }
    }
}

/// Reads a function back; `Some` exactly on the canonical shape.
pub open spec fn json_to_function(j: JsonV) -> Option<FunctionV> {
    if !(j is JObj) {
        Option::None
    } else {
        let o = j->JObj_0;
        if o.len() == 3 && o[0].0 == "name"@ && o[0].1 is JStr && o[1].0 == "parameters"@
            && o[1].1 is JArr && o[2].0 == "return"@ {
            match (jsons_to_params(o[1].1->JArr_0), json_to_type(o[2].1)) {
                (Some(ps), Some(rt)) => Some(
                    FunctionV { name: o[0].1->JStr_0, parameters: ps, ret: rt },
                ),
                _ => Option::None,
            }
        } else {
            Option::None
        }
    }
}

/// Reads a type definition back; `Some` exactly on the canonical shape.
pub open spec fn json_to_typedef(j: JsonV) -> Option<TypeDefinitionV> {
    if !(j is JObj) {
        Option::None
    } else {
        let o = j->JObj_0;
        if o.len() == 3 && o[0].0 == "module"@ && o[0].1 is JStr && o[1].0 == "name"@
            && o[1].1 is JStr && o[2].0 == "supertype"@ {
            match json_to_type(o[2].1) {
                Some(st) => Some(
                    TypeDefinitionV {
                        name: o[1].1->JStr_0,
                        module: o[0].1->JStr_0,
                        supertype: st,
                    },
                ),
                Option::None => Option::None,
            }
        } else {
            Option::None
        }
    }
}

/// Inserts a binding at its sorted position, keys strictly below it first.
pub open spec fn sorted_insert<T>(
    m: Seq<(Seq<char>, T)>,
    k: Seq<char>,
    v: T,
) -> Seq<(Seq<char>, T)>
    decreases m,
{
    if m.len() == 0 {
        seq![(k, v)]
    } else if lex_lt(k, m[0].0) {
        seq![(k, v)] + m
    } else {
        seq![m[0]] + sorted_insert(m.skip(1), k, v)
    }
}

/// Reads the function registry back from JSON members, inserting each
/// binding at its sorted position; a repeated name rejects the whole text.
pub open spec fn fnmap_from_json(ms: Seq<(Seq<char>, JsonV)>) -> Option<
    Seq<(Seq<char>, FunctionV)>,
>
    decreases ms,
{
    if ms.len() == 0 {
        Some(Seq::empty())
    } else {
        match fnmap_from_json(ms.subrange(0, ms.len() - 1)) {
            Option::None => Option::None,
            Some(acc) => match json_to_function(ms[ms.len() - 1].1) {
                Option::None => Option::None,
                Some(f) => if map_has_key(acc, ms[ms.len() - 1].0) {
                    Option::None
                } else {
                    Some(sorted_insert(acc, ms[ms.len() - 1].0, f))
                },
            },
        }
    }
}

/// Reads the type-definition registry back, as [`fnmap_from_json`] does.
pub open spec fn tdmap_from_json(ms: Seq<(Seq<char>, JsonV)>) -> Option<
    Seq<(Seq<char>, TypeDefinitionV)>,
>
    decreases ms,
{
    if ms.len() == 0 {
        Some(Seq::empty())
    } else {
        match tdmap_from_json(ms.subrange(0, ms.len() - 1)) {
            Option::None => Option::None,
            Some(acc) => match json_to_typedef(ms[ms.len() - 1].1) {
                Option::None => Option::None,
                Some(td) => if map_has_key(acc, ms[ms.len() - 1].0) {
                    Option::None
                } else {
                    Some(sorted_insert(acc, ms[ms.len() - 1].0, td))
                },
            },
        }
    }
}

/// Reads the union registry back: each member an array of at least two
/// branch types.
pub open spec fn unmap_from_json(ms: Seq<(Seq<char>, JsonV)>) -> Option<
    Seq<(Seq<char>, Seq<TypeV>)>,
>
    decreases ms,
{
    if ms.len() == 0 {
        Some(Seq::empty())
    } else {
        match unmap_from_json(ms.subrange(0, ms.len() - 1)) {
            Option::None => Option::None,
            Some(acc) => if !(ms[ms.len() - 1].1 is JArr) || ms[ms.len() - 1].1->JArr_0.len()
                < 2 {
                Option::None
            } else {
                match jsons_to_types(ms[ms.len() - 1].1->JArr_0) {
                    Option::None => Option::None,
                    Some(ts) => if map_has_key(acc, ms[ms.len() - 1].0) {
                        Option::None
                    } else {
                        Some(sorted_insert(acc, ms[ms.len() - 1].0, ts))
                    },
                }
            },
        }
    }
}

/// Reads a whole interface back; `Some` exactly on an object of the
/// `functions` and `type_definitions` registries, with `unions` optional.
pub open spec fn interface_from_json(j: JsonV) -> Option<InterfaceV> {
    if !(j is JObj) {
        Option::None
    } else {
        let o = j->JObj_0;
        if !(2 <= o.len() <= 3) || o[0].0 != "functions"@ || !(o[0].1 is JObj) || o[1].0
            != "type_definitions"@ || !(o[1].1 is JObj) {
            Option::None
        } else if o.len() == 3 && (o[2].0 != "unions"@ || !(o[2].1 is JObj)) {
            Option::None
        } else {
            let fm = fnmap_from_json(o[0].1->JObj_0);
            let tm = tdmap_from_json(o[1].1->JObj_0);
            let um = if o.len() == 3 {
                unmap_from_json(o[2].1->JObj_0)
            } else {
                Some(Seq::<(Seq<char>, Seq<TypeV>)>::empty())
            };
            match (fm, tm, um) {
                (Some(f), Some(t), Some(u)) => Some(
                    InterfaceV { functions: f, type_definitions: t, unions: u },
                ),
                _ => Option::None,
            }
        }
    }
}

/// What reading a schema text yields: a syntax failure when the text is
/// not JSON of the subset, a malformedness failure when its JSON shape is
/// not an interface, the interface otherwise.
pub open spec fn deserialize_text(s: Seq<char>) -> Result<InterfaceV, SchemaError> {
    match parse_text(s) {
        Option::None => Err(SchemaError::Syntax),
        Some(j) => match interface_from_json(j) {
            Option::None => Err(SchemaError::Malformed),
            Some(iv) => Ok(iv),
        },
    }
}


/// A parameter written and read back is itself.
pub proof fn lemma_parameter_round_trip(p: ParameterV)
    requires
        crate::schema::wf_type(p.ty),
    ensures
        json_to_parameter(parameter_to_json(p)) == Some(p),
{
    lemma_type_round_trip(p.ty);
}

/// A parameter list written and read back is itself.
pub proof fn lemma_params_round_trip(ps: Seq<ParameterV>)
    requires
        forall|i: int| 0 <= i < ps.len() ==> crate::schema::wf_type((#[trigger] ps[i]).ty),
    ensures
        jsons_to_params(params_to_json(ps)) == Some(ps),
        params_to_json(ps).len() == ps.len(),
    decreases ps,
{
    if ps.len() == 0 {
        assert(params_to_json(ps) =~= Seq::<JsonV>::empty());
    } else {
        let init = ps.subrange(0, ps.len() - 1);
        lemma_params_round_trip(init);
        lemma_parameter_round_trip(ps[ps.len() - 1]);
        let js = params_to_json(ps);
        assert(js.subrange(0, js.len() - 1) =~= params_to_json(init));
        assert(js[js.len() - 1] == parameter_to_json(ps[ps.len() - 1]));
        assert(init.push(ps[ps.len() - 1]) =~= ps);
    }
}

/// A function written and read back is itself.
pub proof fn lemma_function_round_trip(f: FunctionV)
    requires
        crate::schema::wf_function(f),
    ensures
        json_to_function(function_to_json(f)) == Some(f),
{
    lemma_params_round_trip(f.parameters);
    lemma_type_round_trip(f.ret);
}

/// A type definition written and read back is itself.
pub proof fn lemma_typedef_round_trip(td: TypeDefinitionV)
    requires
        crate::schema::wf_type(td.supertype),
    ensures
        json_to_typedef(typedef_to_json(td)) == Some(td),
{
    lemma_type_round_trip(td.supertype);
}

/// Inserting a key above every present key appends the binding.
pub proof fn lemma_sorted_insert_append<T>(m: Seq<(Seq<char>, T)>, k: Seq<char>, v: T)
    requires
        forall|i: int| 0 <= i < m.len() ==> lex_lt((#[trigger] m[i]).0, k),
    ensures
        sorted_insert(m, k, v) == m.push((k, v)),
    decreases m,
{
    if m.len() == 0 {
        assert(sorted_insert(m, k, v) =~= m.push((k, v)));
    } else {
        crate::schema::lemma_lex_irrefl(m[0].0);
        if lex_lt(k, m[0].0) {
            crate::schema::lemma_lex_transitive(m[0].0, k, m[0].0);
        }
        assert(!lex_lt(k, m[0].0));
        assert forall|i: int| 0 <= i < m.skip(1).len() implies lex_lt(
            (#[trigger] m.skip(1)[i]).0,
            k,
        ) by {
            assert(m.skip(1)[i] == m[i + 1]);
        }
        lemma_sorted_insert_append(m.skip(1), k, v);
        assert(seq![m[0]] + m.skip(1).push((k, v)) =~= m.push((k, v)));
    }
}

/// In a sorted map every key is strictly below a key above them all, so
/// that key is absent.
pub proof fn lemma_all_below_absent<T>(m: Seq<(Seq<char>, T)>, k: Seq<char>)
    requires
        forall|i: int| 0 <= i < m.len() ==> lex_lt((#[trigger] m[i]).0, k),
    ensures
        !map_has_key(m, k),
{
    crate::schema::lemma_lex_irrefl(k);
}

/// The function registry written and read back is itself.
pub proof fn lemma_fnmap_round_trip(m: Seq<(Seq<char>, FunctionV)>)
    requires
        crate::schema::strictly_sorted(m),
        forall|i: int| 0 <= i < m.len() ==> crate::schema::wf_function((#[trigger] m[i]).1),
    ensures
        fnmap_from_json(fnmap_to_json(m)) == Some(m),
        fnmap_to_json(m).len() == m.len(),
    decreases m,
{
    if m.len() == 0 {
        assert(fnmap_to_json(m) =~= Seq::<(Seq<char>, JsonV)>::empty());
    } else {
        let init = m.subrange(0, m.len() - 1);
        assert forall|i: int, j: int| 0 <= i < j < init.len() implies lex_lt(
            (#[trigger] init[i]).0,
            (#[trigger] init[j]).0,
        ) by {
            assert(init[i] == m[i] && init[j] == m[j]);
        }
        lemma_fnmap_round_trip(init);
        lemma_function_round_trip(m[m.len() - 1].1);
        let ms = fnmap_to_json(m);
        assert(ms.subrange(0, ms.len() - 1) =~= fnmap_to_json(init));
        assert(ms[ms.len() - 1] == (m[m.len() - 1].0, function_to_json(m[m.len() - 1].1)));
        assert forall|i: int| 0 <= i < init.len() implies lex_lt(
            (#[trigger] init[i]).0,
            m[m.len() - 1].0,
        ) by {
            assert(init[i] == m[i]);
        }
        lemma_all_below_absent(init, m[m.len() - 1].0);
        lemma_sorted_insert_append(init, m[m.len() - 1].0, m[m.len() - 1].1);
        assert(init.push((m[m.len() - 1].0, m[m.len() - 1].1)) =~= m);
    }
}

/// The type-definition registry written and read back is itself.
pub proof fn lemma_tdmap_round_trip(m: Seq<(Seq<char>, TypeDefinitionV)>)
    requires
        crate::schema::strictly_sorted(m),
        forall|i: int|
            0 <= i < m.len() ==> crate::schema::wf_type((#[trigger] m[i]).1.supertype),
    ensures
        tdmap_from_json(tdmap_to_json(m)) == Some(m),
        tdmap_to_json(m).len() == m.len(),
    decreases m,
{
    if m.len() == 0 {
        assert(tdmap_to_json(m) =~= Seq::<(Seq<char>, JsonV)>::empty());
    } else {
        let init = m.subrange(0, m.len() - 1);
        assert forall|i: int, j: int| 0 <= i < j < init.len() implies lex_lt(
            (#[trigger] init[i]).0,
            (#[trigger] init[j]).0,
        ) by {
            assert(init[i] == m[i] && init[j] == m[j]);
        }
        lemma_tdmap_round_trip(init);
        lemma_typedef_round_trip(m[m.len() - 1].1);
        let ms = tdmap_to_json(m);
        assert(ms.subrange(0, ms.len() - 1) =~= tdmap_to_json(init));
        assert(ms[ms.len() - 1] == (m[m.len() - 1].0, typedef_to_json(m[m.len() - 1].1)));
        assert forall|i: int| 0 <= i < init.len() implies lex_lt(
            (#[trigger] init[i]).0,
            m[m.len() - 1].0,
        ) by {
            assert(init[i] == m[i]);
        }
        lemma_all_below_absent(init, m[m.len() - 1].0);
        lemma_sorted_insert_append(init, m[m.len() - 1].0, m[m.len() - 1].1);
        assert(init.push((m[m.len() - 1].0, m[m.len() - 1].1)) =~= m);
    }
}

/// The union registry written and read back is itself.
pub proof fn lemma_unmap_round_trip(m: Seq<(Seq<char>, Seq<TypeV>)>)
    requires
        crate::schema::strictly_sorted(m),
        forall|i: int|
            0 <= i < m.len() ==> ((#[trigger] m[i]).1.len() >= 2 && forall|j: int|
                0 <= j < m[i].1.len() ==> crate::schema::wf_type(#[trigger] m[i].1[j])),
    ensures
        unmap_from_json(unmap_to_json(m)) == Some(m),
        unmap_to_json(m).len() == m.len(),
    decreases m,
{
    if m.len() == 0 {
        assert(unmap_to_json(m) =~= Seq::<(Seq<char>, JsonV)>::empty());
    } else {
        let init = m.subrange(0, m.len() - 1);
        assert forall|i: int, j: int| 0 <= i < j < init.len() implies lex_lt(
            (#[trigger] init[i]).0,
            (#[trigger] init[j]).0,
        ) by {
            assert(init[i] == m[i] && init[j] == m[j]);
        }
        assert forall|i: int| 0 <= i < init.len() implies ((#[trigger] init[i]).1.len() >= 2
            && forall|j: int|
            0 <= j < init[i].1.len() ==> crate::schema::wf_type(#[trigger] init[i].1[j])) by {
            assert(init[i] == m[i]);
        }
        lemma_unmap_round_trip(init);
        lemma_types_round_trip(m[m.len() - 1].1);
        let ms = unmap_to_json(m);
        assert(ms.subrange(0, ms.len() - 1) =~= unmap_to_json(init));
        assert(ms[ms.len() - 1] == (
            m[m.len() - 1].0,
            JsonV::JArr(types_to_json(m[m.len() - 1].1)),
        ));
        assert forall|i: int| 0 <= i < init.len() implies lex_lt(
            (#[trigger] init[i]).0,
            m[m.len() - 1].0,
        ) by {
            assert(init[i] == m[i]);
        }
        lemma_all_below_absent(init, m[m.len() - 1].0);
        lemma_sorted_insert_append(init, m[m.len() - 1].0, m[m.len() - 1].1);
        assert(init.push((m[m.len() - 1].0, m[m.len() - 1].1)) =~= m);
    }
}

/// Schema round trip at the tree level: a well-formed interface written as
/// JSON and read back is itself.
pub proof fn lemma_interface_round_trip(iv: InterfaceV)
    requires
        crate::schema::wf_interface(iv),
    ensures
        interface_from_json(interface_to_json(iv)) == Some(iv),
{
    lemma_fnmap_round_trip(iv.functions);
    lemma_tdmap_round_trip(iv.type_definitions);
    lemma_unmap_round_trip(iv.unions);
    lemma_member_names_distinct();
    let j = interface_to_json(iv);
    let o = j->JObj_0;
    if iv.unions.len() == 0 {
        assert(o.len() == 2);
        assert(o[0] == ("functions"@, JsonV::JObj(fnmap_to_json(iv.functions))));
        assert(o[1] == ("type_definitions"@, JsonV::JObj(tdmap_to_json(iv.type_definitions))));
        assert(interface_from_json(j) == Some(
            InterfaceV {
                functions: iv.functions,
                type_definitions: iv.type_definitions,
                unions: Seq::<(Seq<char>, Seq<TypeV>)>::empty(),
            },
        ));
        assert(iv.unions =~= Seq::<(Seq<char>, Seq<TypeV>)>::empty());
        assert(InterfaceV {
            functions: iv.functions,
            type_definitions: iv.type_definitions,
            unions: Seq::<(Seq<char>, Seq<TypeV>)>::empty(),
        } == iv);
    } else {
        assert(o.len() == 3);
        assert(o[0] == ("functions"@, JsonV::JObj(fnmap_to_json(iv.functions))));
        assert(o[1] == ("type_definitions"@, JsonV::JObj(tdmap_to_json(iv.type_definitions))));
        assert(o[2] == ("unions"@, JsonV::JObj(unmap_to_json(iv.unions))));
    }
}

/// The member names of an interface object are what the reader expects.
pub proof fn lemma_member_names_distinct()
    ensures
        "functions"@ != "type_definitions"@,
        "functions"@ != "unions"@,
        "type_definitions"@ != "unions"@,
{
    assert("functions"@.len() == 9) by {
        reveal_strlit("functions");
    }
    assert("type_definitions"@.len() == 16) by {
        reveal_strlit("type_definitions");
    }
    assert("unions"@.len() == 6) by {
        reveal_strlit("unions");
    }
}


/// Renders a type expression as an exec JSON value.
pub fn type_to_json_e(t: &Type) -> (r: Json)
    ensures
        r@ == type_to_json(t@),
    decreases *t, 1int,
{
    match t {
        Type::Primitive(p) => {
            let name = match p {
                Primitive::Int => "int",
                Primitive::Float => "float",
                Primitive::Str => "str",
            };
            let mut o: Vec<(Vec<char>, Json)> = Vec::new();
            o.push((str_to_chars("kind"), Json::JStr(str_to_chars("primitive"))));
            o.push((str_to_chars("name"), Json::JStr(str_to_chars(name))));
            proof {
                assert(t@ == TypeV::Primitive(*p));
                lemma_view_json_pairs_index(o@);
                assert(view_json(o@[0].1) == JsonV::JStr("primitive"@));
                assert(view_json(o@[1].1) == JsonV::JStr(prim_name(*p)));
                assert(view_json_pairs(o@) =~= seq![
                    ("kind"@, JsonV::JStr("primitive"@)),
                    ("name"@, JsonV::JStr(prim_name(*p))),
                ]);
            }
            Json::JObj(o)
        },
        Type::NoneType => {
            let mut o: Vec<(Vec<char>, Json)> = Vec::new();
            o.push((str_to_chars("kind"), Json::JStr(str_to_chars("none"))));
            proof {
                assert(t@ == TypeV::NoneType);
                lemma_view_json_pairs_index(o@);
                assert(view_json_pairs(o@) =~= seq![("kind"@, JsonV::JStr("none"@))]);
            }
            Json::JObj(o)
        },
        Type::Ellipsis => {
            let mut o: Vec<(Vec<char>, Json)> = Vec::new();
            o.push((str_to_chars("kind"), Json::JStr(str_to_chars("ellipsis"))));
            proof {
                assert(t@ == TypeV::Ellipsis);
                lemma_view_json_pairs_index(o@);
                assert(view_json_pairs(o@) =~= seq![("kind"@, JsonV::JStr("ellipsis"@))]);
            }
            Json::JObj(o)
        },
        Type::Exception => {
            let mut o: Vec<(Vec<char>, Json)> = Vec::new();
            o.push((str_to_chars("kind"), Json::JStr(str_to_chars("exception"))));
            proof {
                assert(t@ == TypeV::Exception);
                lemma_view_json_pairs_index(o@);
                assert(view_json_pairs(o@) =~= seq![("kind"@, JsonV::JStr("exception"@))]);
            }
            Json::JObj(o)
        },
        Type::Tuple { tags } => {
            proof {
                assert(t@ == TypeV::Tuple { tags: view_type_seq(tags@) });
                lemma_view_type_seq_index(tags@);
            }
            let n = tags.len();
            let items = types_to_json_prefix(tags, n);
            let mut o: Vec<(Vec<char>, Json)> = Vec::new();
            o.push((str_to_chars("kind"), Json::JStr(str_to_chars("tuple"))));
            o.push((str_to_chars("tags"), Json::JArr(items)));
            proof {
                assert(view_type_seq(tags@).subrange(0, view_type_seq(tags@).len() as int)
                    =~= view_type_seq(tags@));
                lemma_view_json_pairs_index(o@);
                assert(view_json(o@[0].1) == JsonV::JStr("tuple"@));
                assert(view_json(o@[1].1) == JsonV::JArr(types_to_json(view_type_seq(tags@))));
                assert(view_json_pairs(o@) =~= seq![
                    ("kind"@, JsonV::JStr("tuple"@)),
                    ("tags"@, JsonV::JArr(types_to_json(view_type_seq(tags@)))),
                ]);
            }
            Json::JObj(o)
        },
        Type::List { element } => {
            proof {
                assert(t@ == TypeV::List { element: Box::new(view_type(**element)) });
            }
            let inner = type_to_json_e(element);
            let mut arr: Vec<Json> = Vec::new();
            arr.push(inner);
            let mut o: Vec<(Vec<char>, Json)> = Vec::new();
            o.push((str_to_chars("kind"), Json::JStr(str_to_chars("list"))));
            o.push((str_to_chars("inner"), Json::JArr(arr)));
            proof {
                lemma_view_json_seq_index(o@[1].1->JArr_0@);
                assert(view_json_seq(o@[1].1->JArr_0@) =~= seq![type_to_json(view_type(
                    **element,
                ))]);
                lemma_view_json_pairs_index(o@);
                assert(view_json(o@[0].1) == JsonV::JStr("list"@));
                assert(view_json(o@[1].1) == JsonV::JArr(seq![type_to_json(view_type(
                    **element,
                ))]));
                assert(view_json_pairs(o@) =~= seq![
                    ("kind"@, JsonV::JStr("list"@)),
                    ("inner"@, JsonV::JArr(seq![type_to_json(view_type(**element))])),
                ]);
            }
            Json::JObj(o)
        },
        Type::Dict { key, value } => {
            proof {
                assert(t@ == TypeV::Dict {
                    key: Box::new(view_type(**key)),
                    value: Box::new(view_type(**value)),
                });
            }
            let kj = type_to_json_e(key);
            let vj = type_to_json_e(value);
            let mut arr: Vec<Json> = Vec::new();
            arr.push(kj);
            arr.push(vj);
            let mut o: Vec<(Vec<char>, Json)> = Vec::new();
            o.push((str_to_chars("kind"), Json::JStr(str_to_chars("dict"))));
            o.push((str_to_chars("inner"), Json::JArr(arr)));
            proof {
                lemma_view_json_seq_index(o@[1].1->JArr_0@);
                assert(view_json(o@[1].1->JArr_0@[0]) == type_to_json(view_type(**key)));
                assert(view_json(o@[1].1->JArr_0@[1]) == type_to_json(view_type(**value)));
                assert(view_json_seq(o@[1].1->JArr_0@) =~= seq![
                    type_to_json(view_type(**key)),
                    type_to_json(view_type(**value)),
                ]);
                lemma_view_json_pairs_index(o@);
                assert(view_json(o@[0].1) == JsonV::JStr("dict"@));
                assert(view_json(o@[1].1) == JsonV::JArr(seq![
                    type_to_json(view_type(**key)),
                    type_to_json(view_type(**value)),
                ]));
                assert(view_json_pairs(o@) =~= seq![
                    ("kind"@, JsonV::JStr("dict"@)),
                    (
                        "inner"@,
                        JsonV::JArr(
                            seq![
                                type_to_json(view_type(**key)),
                                type_to_json(view_type(**value)),
                            ],
                        ),
                    ),
                ]);
            }
            Json::JObj(o)
        },
        Type::UserDefined { module, name, supertype } => {
            proof {
                assert(t@ == TypeV::UserDefined {
                    module: module@,
                    name: name@,
                    supertype: Box::new(view_type(**supertype)),
                });
            }
            let st = type_to_json_e(supertype);
            let mut o: Vec<(Vec<char>, Json)> = Vec::new();
            o.push((str_to_chars("kind"), Json::JStr(str_to_chars("user_defined"))));
            o.push((str_to_chars("module"), Json::JStr(str_to_chars(module.as_str()))));
            o.push((str_to_chars("name"), Json::JStr(str_to_chars(name.as_str()))));
            o.push((str_to_chars("supertype"), st));
            proof {
                lemma_view_json_pairs_index(o@);
                assert(view_json(o@[0].1) == JsonV::JStr("user_defined"@));
                assert(view_json(o@[1].1) == JsonV::JStr(module@));
                assert(view_json(o@[2].1) == JsonV::JStr(name@));
                assert(view_json(o@[3].1) == type_to_json(view_type(**supertype)));
                assert(view_json_pairs(o@) =~= seq![
                    ("kind"@, JsonV::JStr("user_defined"@)),
                    ("module"@, JsonV::JStr(module@)),
                    ("name"@, JsonV::JStr(name@)),
                    ("supertype"@, type_to_json(view_type(**supertype))),
                ]);
            }
            Json::JObj(o)
        },
        Type::Union { args } => {
            proof {
                assert(t@ == TypeV::Union { args: view_type_seq(args@) });
                lemma_view_type_seq_index(args@);
            }
            let n = args.len();
            let items = types_to_json_prefix(args, n);
            let mut o: Vec<(Vec<char>, Json)> = Vec::new();
            o.push((str_to_chars("kind"), Json::JStr(str_to_chars("union"))));
            o.push((str_to_chars("args"), Json::JArr(items)));
            proof {
                assert(view_type_seq(args@).subrange(0, view_type_seq(args@).len() as int)
                    =~= view_type_seq(args@));
                lemma_view_json_pairs_index(o@);
                assert(view_json(o@[0].1) == JsonV::JStr("union"@));
                assert(view_json(o@[1].1) == JsonV::JArr(types_to_json(view_type_seq(args@))));
                assert(view_json_pairs(o@) =~= seq![
                    ("kind"@, JsonV::JStr("union"@)),
                    ("args"@, JsonV::JArr(types_to_json(view_type_seq(args@)))),
                ]);
            }
            Json::JObj(o)
        },
        Type::Callable { args, ret } => {
            proof {
                assert(t@ == TypeV::Callable {
                    args: view_type_seq(args@),
                    ret: Box::new(view_type(**ret)),
                });
                lemma_view_type_seq_index(args@);
            }
            let n = args.len();
            let items = types_to_json_prefix(args, n);
            let rj = type_to_json_e(ret);
            let mut o: Vec<(Vec<char>, Json)> = Vec::new();
            o.push((str_to_chars("kind"), Json::JStr(str_to_chars("callable"))));
            o.push((str_to_chars("args"), Json::JArr(items)));
            o.push((str_to_chars("return"), rj));
            proof {
                assert(view_type_seq(args@).subrange(0, view_type_seq(args@).len() as int)
                    =~= view_type_seq(args@));
                lemma_view_json_pairs_index(o@);
                assert(view_json(o@[0].1) == JsonV::JStr("callable"@));
                assert(view_json(o@[1].1) == JsonV::JArr(types_to_json(view_type_seq(args@))));
                assert(view_json(o@[2].1) == type_to_json(view_type(**ret)));
                assert(view_json_pairs(o@) =~= seq![
                    ("kind"@, JsonV::JStr("callable"@)),
                    ("args"@, JsonV::JArr(types_to_json(view_type_seq(args@)))),
                    ("return"@, type_to_json(view_type(**ret))),
                ]);
            }
            Json::JObj(o)
        },
    }
}

/// Renders the first `n` of a list of types as exec JSON values.
fn types_to_json_prefix(ts: &Vec<Type>, n: usize) -> (r: Vec<Json>)
    requires
        n <= ts@.len(),
    ensures
        view_json_seq(r@) == types_to_json(view_type_seq(ts@).subrange(0, n as int)),
        r@.len() == n,
    decreases ts@, 2int, n as int,
{
    proof {
        lemma_view_type_seq_index(ts@);
    }
    let ghost s = view_type_seq(ts@);
    if n == 0 {
        let r: Vec<Json> = Vec::new();
        proof {
            assert(s.subrange(0, 0) =~= Seq::<TypeV>::empty());
            assert(view_json_seq(r@) =~= Seq::<JsonV>::empty());
        }
        return r;
    }
    let mut r = types_to_json_prefix(ts, n - 1);
    let last = type_to_json_e(&ts[n - 1]);
    let ghost rv = r@;
    r.push(last);
    proof {
        let pre = s.subrange(0, n as int);
        assert(pre.subrange(0, n - 1) =~= s.subrange(0, n - 1));
        assert(pre[n - 1] == view_type(ts@[n - 1]));
        assert(r@ =~= rv.push(r@[rv.len() as int]));
        lemma_view_json_seq_push(rv, r@[rv.len() as int]);
    }
    r
}

/// Renders a parameter as an exec JSON value.
fn parameter_to_json_e(p: &Parameter) -> (r: Json)
    ensures
        r@ == parameter_to_json(p@),
{
    let tj = type_to_json_e(&p.ty);
    let mut o: Vec<(Vec<char>, Json)> = Vec::new();
    o.push((str_to_chars("name"), Json::JStr(str_to_chars(p.name.as_str()))));
    o.push((str_to_chars("type"), tj));
    proof {
        lemma_view_json_pairs_index(o@);
        assert(view_json(o@[0].1) == JsonV::JStr(p@.name));
        assert(view_json(o@[1].1) == type_to_json(p@.ty));
        assert(view_json_pairs(o@) =~= seq![
            ("name"@, JsonV::JStr(p@.name)),
            ("type"@, type_to_json(p@.ty)),
        ]);
    }
    Json::JObj(o)
}

/// Renders the first `n` parameters as exec JSON values.
fn params_to_json_prefix(ps: &Vec<Parameter>, n: usize) -> (r: Vec<Json>)
    requires
        n <= ps@.len(),
    ensures
        view_json_seq(r@) == params_to_json(ps@.map_values(|p: Parameter| p@).subrange(0, n as int)),
        r@.len() == n,
    decreases n,
{
    let ghost s = ps@.map_values(|p: Parameter| p@);
    if n == 0 {
        let r: Vec<Json> = Vec::new();
        proof {
            assert(s.subrange(0, 0) =~= Seq::<ParameterV>::empty());
            assert(view_json_seq(r@) =~= Seq::<JsonV>::empty());
        }
        return r;
    }
    let mut r = params_to_json_prefix(ps, n - 1);
    let last = parameter_to_json_e(&ps[n - 1]);
    let ghost rv = r@;
    r.push(last);
    proof {
        let pre = s.subrange(0, n as int);
        assert(pre.subrange(0, n - 1) =~= s.subrange(0, n - 1));
        assert(pre[n - 1] == ps@[n - 1]@);
        assert(r@ =~= rv.push(r@[rv.len() as int]));
        lemma_view_json_seq_push(rv, r@[rv.len() as int]);
    }
    r
}

/// Renders a function as an exec JSON value.
fn function_to_json_e(f: &Function) -> (r: Json)
    ensures
        r@ == function_to_json(f@),
{
    let n = f.parameters.len();
    let items = params_to_json_prefix(&f.parameters, n);
    let rj = type_to_json_e(&f.ret);
    let mut o: Vec<(Vec<char>, Json)> = Vec::new();
    o.push((str_to_chars("name"), Json::JStr(str_to_chars(f.name.as_str()))));
    o.push((str_to_chars("parameters"), Json::JArr(items)));
    o.push((str_to_chars("return"), rj));
    proof {
        let pv = f@.parameters;
        assert(pv.subrange(0, pv.len() as int) =~= pv);
        lemma_view_json_pairs_index(o@);
        assert(view_json(o@[0].1) == JsonV::JStr(f@.name));
        assert(view_json(o@[1].1) == JsonV::JArr(params_to_json(f@.parameters)));
        assert(view_json(o@[2].1) == type_to_json(f@.ret));
        assert(view_json_pairs(o@) =~= seq![
            ("name"@, JsonV::JStr(f@.name)),
            ("parameters"@, JsonV::JArr(params_to_json(f@.parameters))),
            ("return"@, type_to_json(f@.ret)),
        ]);
    }
    Json::JObj(o)
}

/// Renders a type definition as an exec JSON value.
fn typedef_to_json_e(td: &TypeDefinition) -> (r: Json)
    ensures
        r@ == typedef_to_json(td@),
{
    let st = type_to_json_e(&td.supertype);
    let mut o: Vec<(Vec<char>, Json)> = Vec::new();
    o.push((str_to_chars("module"), Json::JStr(str_to_chars(td.module.as_str()))));
    o.push((str_to_chars("name"), Json::JStr(str_to_chars(td.name.as_str()))));
    o.push((str_to_chars("supertype"), st));
    proof {
        lemma_view_json_pairs_index(o@);
        assert(view_json(o@[0].1) == JsonV::JStr(td@.module));
        assert(view_json(o@[1].1) == JsonV::JStr(td@.name));
        assert(view_json(o@[2].1) == type_to_json(td@.supertype));
        assert(view_json_pairs(o@) =~= seq![
            ("module"@, JsonV::JStr(td@.module)),
            ("name"@, JsonV::JStr(td@.name)),
            ("supertype"@, type_to_json(td@.supertype)),
        ]);
    }
    Json::JObj(o)
}

/// Renders the first `n` entries of the function registry as JSON members.
fn fnmap_to_json_prefix(fs: &NamedMap<Function>, n: usize) -> (r: Vec<(Vec<char>, Json)>)
    requires
        n <= fs@.len(),
    ensures
        view_json_pairs(r@) == fnmap_to_json(fs@.subrange(0, n as int)),
        r@.len() == n,
    decreases n,
{
    if n == 0 {
        let r: Vec<(Vec<char>, Json)> = Vec::new();
        proof {
            assert(fs@.subrange(0, 0) =~= Seq::<(Seq<char>, FunctionV)>::empty());
            assert(view_json_pairs(r@) =~= Seq::<(Seq<char>, JsonV)>::empty());
        }
        return r;
    }
    let mut r = fnmap_to_json_prefix(fs, n - 1);
    let key = str_to_chars(fs.entries[n - 1].0.as_str());
    let fj = function_to_json_e(&fs.entries[n - 1].1);
    let ghost rv = r@;
    r.push((key, fj));
    proof {
        let pre = fs@.subrange(0, n as int);
        assert(pre.subrange(0, n - 1) =~= fs@.subrange(0, n - 1));
        assert(pre[n - 1] == fs@[n - 1]);
        assert(fs@[n - 1] == (fs.entries@[n - 1].0@, fs.entries@[n - 1].1@));
        assert(r@ =~= rv.push(r@[rv.len() as int]));
        lemma_view_json_pairs_push(rv, r@[rv.len() as int]);
    }
    r
}

/// Renders the first `n` entries of the type-definition registry.
fn tdmap_to_json_prefix(tds: &NamedMap<TypeDefinition>, n: usize) -> (r: Vec<(Vec<char>, Json)>)
    requires
        n <= tds@.len(),
    ensures
        view_json_pairs(r@) == tdmap_to_json(tds@.subrange(0, n as int)),
        r@.len() == n,
    decreases n,
{
    if n == 0 {
        let r: Vec<(Vec<char>, Json)> = Vec::new();
        proof {
            assert(tds@.subrange(0, 0) =~= Seq::<(Seq<char>, TypeDefinitionV)>::empty());
            assert(view_json_pairs(r@) =~= Seq::<(Seq<char>, JsonV)>::empty());
        }
        return r;
    }
    let mut r = tdmap_to_json_prefix(tds, n - 1);
    let key = str_to_chars(tds.entries[n - 1].0.as_str());
    let tj = typedef_to_json_e(&tds.entries[n - 1].1);
    let ghost rv = r@;
    r.push((key, tj));
    proof {
        let pre = tds@.subrange(0, n as int);
        assert(pre.subrange(0, n - 1) =~= tds@.subrange(0, n - 1));
        assert(pre[n - 1] == tds@[n - 1]);
        assert(tds@[n - 1] == (tds.entries@[n - 1].0@, tds.entries@[n - 1].1@));
        assert(r@ =~= rv.push(r@[rv.len() as int]));
        lemma_view_json_pairs_push(rv, r@[rv.len() as int]);
    }
    r
}

/// Renders the first `n` entries of the union registry.
fn unmap_to_json_prefix(us: &NamedMap<UnionDef>, n: usize) -> (r: Vec<(Vec<char>, Json)>)
    requires
        n <= us@.len(),
    ensures
        view_json_pairs(r@) == unmap_to_json(us@.subrange(0, n as int)),
        r@.len() == n,
    decreases n,
{
    if n == 0 {
        let r: Vec<(Vec<char>, Json)> = Vec::new();
        proof {
            assert(us@.subrange(0, 0) =~= Seq::<(Seq<char>, Seq<TypeV>)>::empty());
            assert(view_json_pairs(r@) =~= Seq::<(Seq<char>, JsonV)>::empty());
        }
        return r;
    }
    let mut r = unmap_to_json_prefix(us, n - 1);
    let key = str_to_chars(us.entries[n - 1].0.as_str());
    let m = us.entries[n - 1].1.args.len();
    proof {
        lemma_view_type_seq_index(us.entries@[n - 1].1.args@);
    }
    let arr = types_to_json_prefix(&us.entries[n - 1].1.args, m);
    let ghost rv = r@;
    r.push((key, Json::JArr(arr)));
    proof {
        let pre = us@.subrange(0, n as int);
        assert(pre.subrange(0, n - 1) =~= us@.subrange(0, n - 1));
        assert(pre[n - 1] == us@[n - 1]);
        assert(us@[n - 1] == (us.entries@[n - 1].0@, us.entries@[n - 1].1@));
        let argsv = view_type_seq(us.entries@[n - 1].1.args@);
        assert(argsv.subrange(0, argsv.len() as int) =~= argsv);
        assert(r@ =~= rv.push(r@[rv.len() as int]));
        lemma_view_json_pairs_push(rv, r@[rv.len() as int]);
    }
    r
}

impl Interface {
    /// Renders the interface as an exec JSON value.
    pub fn as_json(&self) -> (r: Json)
        ensures
            r@ == interface_to_json(self@),
    {
        let nf = self.functions.entries.len();
        let nt = self.type_definitions.entries.len();
        let nu = self.unions.entries.len();
        proof {
            assert(self@.functions.subrange(0, self@.functions.len() as int)
                =~= self@.functions);
            assert(self@.type_definitions.subrange(0, self@.type_definitions.len() as int)
                =~= self@.type_definitions);
            assert(self@.unions.subrange(0, self@.unions.len() as int) =~= self@.unions);
        }
        let fm = fnmap_to_json_prefix(&self.functions, nf);
        let tm = tdmap_to_json_prefix(&self.type_definitions, nt);
        let mut o: Vec<(Vec<char>, Json)> = Vec::new();
        o.push((str_to_chars("functions"), Json::JObj(fm)));
        o.push((str_to_chars("type_definitions"), Json::JObj(tm)));
        if nu > 0 {
            let um = unmap_to_json_prefix(&self.unions, nu);
            o.push((str_to_chars("unions"), Json::JObj(um)));
            proof {
                lemma_view_json_pairs_index(o@);
                assert(view_json(o@[0].1) == JsonV::JObj(fnmap_to_json(self@.functions)));
                assert(view_json(o@[1].1) == JsonV::JObj(tdmap_to_json(self@.type_definitions)));
                assert(view_json(o@[2].1) == JsonV::JObj(unmap_to_json(self@.unions)));
                assert(view_json_pairs(o@) =~= seq![
                    ("functions"@, JsonV::JObj(fnmap_to_json(self@.functions))),
                    (
                        "type_definitions"@,
                        JsonV::JObj(tdmap_to_json(self@.type_definitions)),
                    ),
                ] + seq![("unions"@, JsonV::JObj(unmap_to_json(self@.unions)))]);
            }
        } else {
            proof {
                lemma_view_json_pairs_index(o@);
                assert(view_json(o@[0].1) == JsonV::JObj(fnmap_to_json(self@.functions)));
                assert(view_json(o@[1].1) == JsonV::JObj(tdmap_to_json(self@.type_definitions)));
                assert(view_json_pairs(o@) =~= seq![
                    ("functions"@, JsonV::JObj(fnmap_to_json(self@.functions))),
                    (
                        "type_definitions"@,
                        JsonV::JObj(tdmap_to_json(self@.type_definitions)),
                    ),
                ] + Seq::<(Seq<char>, JsonV)>::empty());
            }
        }
        Json::JObj(o)
    }

    /// Writes the interface as its canonical JSON text; equal interfaces
    /// give byte-identical text.
    pub fn to_json(&self) -> (r: String)
        ensures
            r@ == serialize_text(self@),
    {
        let j = self.as_json();
        let mut out = String::new();
        append_json(&mut out, &j);
        proof {
            assert(out@ =~= print_json(interface_to_json(self@)));
        }
        out
    }
}


/// Inserting at the position the sorted map chose is [`sorted_insert`].
pub proof fn lemma_insert_at_pos<T>(m: Seq<(Seq<char>, T)>, k: Seq<char>, v: T, i: int)
    requires
        crate::schema::strictly_sorted(m),
        0 <= i <= m.len(),
        crate::schema::insert_pos_ok(m, k, i),
    ensures
        m.insert(i, (k, v)) == sorted_insert(m, k, v),
    decreases m.len(),
{
    if i == 0 {
        if m.len() == 0 {
            assert(m.insert(0, (k, v)) =~= sorted_insert(m, k, v));
        } else {
            assert(lex_lt(k, m[0].0));
            assert(m.insert(0, (k, v)) =~= seq![(k, v)] + m);
        }
    } else {
        assert(lex_lt(m[0].0, k));
        crate::schema::lemma_lex_irrefl(m[0].0);
        if lex_lt(k, m[0].0) {
            crate::schema::lemma_lex_transitive(m[0].0, k, m[0].0);
        }
        let m1 = m.skip(1);
        assert forall|x: int, y: int| 0 <= x < y < m1.len() implies lex_lt(
            (#[trigger] m1[x]).0,
            (#[trigger] m1[y]).0,
        ) by {
            assert(m1[x] == m[x + 1] && m1[y] == m[y + 1]);
        }
        assert forall|x: int| 0 <= x < i - 1 implies lex_lt((#[trigger] m1[x]).0, k) by {
            assert(m1[x] == m[x + 1]);
        }
        assert forall|x: int| i - 1 <= x < m1.len() implies lex_lt(k, (#[trigger] m1[x]).0) by {
            assert(m1[x] == m[x + 1]);
        }
        lemma_insert_at_pos(m1, k, v, i - 1);
        assert(m.insert(i, (k, v)) =~= seq![m[0]] + m1.insert(i - 1, (k, v)));
    }
}

/// Reads a type expression from an exec JSON value.
pub fn json_to_type_e(j: &Json) -> (r: Option<Type>)
    ensures
        match r {
            Some(t) => json_to_type(j@) == Some(t@),
            Option::None => json_to_type(j@) is None,
        },
    decreases *j, 0int, 0int,
{
    let o = match j {
        Json::JObj(o) => o,
        _ => {
            return Option::None;
        },
    };
    proof {
        assert(j@ == JsonV::JObj(view_json_pairs(o@)));
        lemma_view_json_pairs_index(o@);
    }
    let ghost ov = view_json_pairs(o@);
    if o.len() < 1 {
        return Option::None;
    }
    if !chars_eq_str(&o[0].0, "kind") {
        return Option::None;
    }
    let kind = match &o[0].1 {
        Json::JStr(k) => k,
        _ => {
            return Option::None;
        },
    };
    proof {
        assert(ov[0].1 == JsonV::JStr(kind@));
    }
    if chars_eq_str(kind, "none") {
        proof {
            lemma_kinds();
        }
        if o.len() == 1 {
            Some(Type::NoneType)
        } else {
            Option::None
        }
    } else if chars_eq_str(kind, "ellipsis") {
        proof {
            lemma_kinds();
        }
        if o.len() == 1 {
            Some(Type::Ellipsis)
        } else {
            Option::None
        }
    } else if chars_eq_str(kind, "exception") {
        proof {
            lemma_kinds();
        }
        if o.len() == 1 {
            Some(Type::Exception)
        } else {
            Option::None
        }
    } else if chars_eq_str(kind, "primitive") {
        proof {
            lemma_kinds();
        }
        if o.len() == 2 && chars_eq_str(&o[1].0, "name") {
            let name = match &o[1].1 {
                Json::JStr(n) => n,
                _ => {
                    return Option::None;
                },
            };
            proof {
                assert(ov[1].1 == JsonV::JStr(name@));
            }
            if chars_eq_str(name, "int") {
                Some(Type::Primitive(Primitive::Int))
            } else if chars_eq_str(name, "float") {
                Some(Type::Primitive(Primitive::Float))
            } else if chars_eq_str(name, "str") {
                Some(Type::Primitive(Primitive::Str))
            } else {
                Option::None
            }
        } else {
            Option::None
        }
    } else if chars_eq_str(kind, "tuple") {
        proof {
            lemma_kinds();
        }
        if o.len() == 2 && chars_eq_str(&o[1].0, "tags") {
            let arr = match &o[1].1 {
                Json::JArr(a) => a,
                _ => {
                    return Option::None;
                },
            };
            proof {
                assert(ov[1].1 == JsonV::JArr(view_json_seq(arr@)));
                assert(decreases_to!(*j => j->JObj_0@[1].1));
                assert(o@[1].1 == j->JObj_0@[1].1);
            }
            let n = arr.len();
            match jsons_to_types_e(arr, n) {
                Some(ts) => {
                    proof {
                        lemma_view_json_seq_index(arr@);
                        assert(view_json_seq(arr@).subrange(
                            0,
                            view_json_seq(arr@).len() as int,
                        ) =~= view_json_seq(arr@));
                    }
                    Some(Type::Tuple { tags: ts })
                },
                Option::None => {
                    proof {
                        lemma_view_json_seq_index(arr@);
                        assert(view_json_seq(arr@).subrange(
                            0,
                            view_json_seq(arr@).len() as int,
                        ) =~= view_json_seq(arr@));
                    }
                    Option::None
                },
            }
        } else {
            Option::None
        }
    } else if chars_eq_str(kind, "list") {
        proof {
            lemma_kinds();
        }
        if o.len() == 2 && chars_eq_str(&o[1].0, "inner") {
            let arr = match &o[1].1 {
                Json::JArr(a) => a,
                _ => {
                    return Option::None;
                },
            };
            proof {
                assert(ov[1].1 == JsonV::JArr(view_json_seq(arr@)));
                lemma_view_json_seq_index(arr@);
            }
            if arr.len() != 1 {
                return Option::None;
            }
            proof {
                assert(decreases_to!(*j => j->JObj_0@[1].1));
                assert(o@[1].1 == j->JObj_0@[1].1);
                assert(decreases_to!(o@[1].1 => arr@[0]));
            }
            match json_to_type_e(&arr[0]) {
                Some(e) => Some(Type::List { element: Box::new(e) }),
                Option::None => Option::None,
            }
        } else {
            Option::None
        }
    } else if chars_eq_str(kind, "dict") {
        proof {
            lemma_kinds();
        }
        if o.len() == 2 && chars_eq_str(&o[1].0, "inner") {
            let arr = match &o[1].1 {
                Json::JArr(a) => a,
                _ => {
                    return Option::None;
                },
            };
            proof {
                assert(ov[1].1 == JsonV::JArr(view_json_seq(arr@)));
                lemma_view_json_seq_index(arr@);
            }
            if arr.len() != 2 {
                return Option::None;
            }
            proof {
                assert(decreases_to!(*j => j->JObj_0@[1].1));
                assert(o@[1].1 == j->JObj_0@[1].1);
                assert(decreases_to!(o@[1].1 => arr@[0]));
                assert(decreases_to!(o@[1].1 => arr@[1]));
            }
            let kt = match json_to_type_e(&arr[0]) {
                Some(t) => t,
                Option::None => {
                    return Option::None;
                },
            };
            let vt = match json_to_type_e(&arr[1]) {
                Some(t) => t,
                Option::None => {
                    return Option::None;
                },
            };
            Some(Type::Dict { key: Box::new(kt), value: Box::new(vt) })
        } else {
            Option::None
        }
    } else if chars_eq_str(kind, "user_defined") {
        proof {
            lemma_kinds();
        }
        if o.len() == 4 && chars_eq_str(&o[1].0, "module") && chars_eq_str(&o[2].0, "name")
            && chars_eq_str(&o[3].0, "supertype") {
            let module = match &o[1].1 {
                Json::JStr(m) => m,
                _ => {
                    return Option::None;
                },
            };
            let name = match &o[2].1 {
                Json::JStr(n) => n,
                _ => {
                    return Option::None;
                },
            };
            proof {
                assert(ov[1].1 == JsonV::JStr(module@));
                assert(ov[2].1 == JsonV::JStr(name@));
                assert(decreases_to!(*j => j->JObj_0@[3].1));
                assert(o@[3].1 == j->JObj_0@[3].1);
            }
            match json_to_type_e(&o[3].1) {
                Some(st) => Some(
                    Type::UserDefined {
                        module: chars_to_string(module),
                        name: chars_to_string(name),
                        supertype: Box::new(st),
                    },
                ),
                Option::None => Option::None,
            }
        } else {
            Option::None
        }
    } else if chars_eq_str(kind, "union") {
        proof {
            lemma_kinds();
        }
        if o.len() == 2 && chars_eq_str(&o[1].0, "args") {
            let arr = match &o[1].1 {
                Json::JArr(a) => a,
                _ => {
                    return Option::None;
                },
            };
            proof {
                assert(ov[1].1 == JsonV::JArr(view_json_seq(arr@)));
                lemma_view_json_seq_index(arr@);
            }
            if arr.len() < 2 {
                return Option::None;
            }
            proof {
                assert(decreases_to!(*j => j->JObj_0@[1].1));
                assert(o@[1].1 == j->JObj_0@[1].1);
            }
            let n = arr.len();
            match jsons_to_types_e(arr, n) {
                Some(ts) => {
                    proof {
                        assert(view_json_seq(arr@).subrange(
                            0,
                            view_json_seq(arr@).len() as int,
                        ) =~= view_json_seq(arr@));
                    }
                    Some(Type::Union { args: ts })
                },
                Option::None => {
                    proof {
                        assert(view_json_seq(arr@).subrange(
                            0,
                            view_json_seq(arr@).len() as int,
                        ) =~= view_json_seq(arr@));
                    }
                    Option::None
                },
            }
        } else {
            Option::None
        }
    } else if chars_eq_str(kind, "callable") {
        proof {
            lemma_kinds();
        }
        if o.len() == 3 && chars_eq_str(&o[1].0, "args") && chars_eq_str(&o[2].0, "return") {
            let arr = match &o[1].1 {
                Json::JArr(a) => a,
                _ => {
                    return Option::None;
                },
            };
            proof {
                assert(ov[1].1 == JsonV::JArr(view_json_seq(arr@)));
                lemma_view_json_seq_index(arr@);
                assert(decreases_to!(*j => j->JObj_0@[1].1));
                assert(o@[1].1 == j->JObj_0@[1].1);
                assert(decreases_to!(*j => j->JObj_0@[2].1));
                assert(o@[2].1 == j->JObj_0@[2].1);
            }
            let n = arr.len();
            let ts = match jsons_to_types_e(arr, n) {
                Some(ts) => {
                    proof {
                        assert(view_json_seq(arr@).subrange(
                            0,
                            view_json_seq(arr@).len() as int,
                        ) =~= view_json_seq(arr@));
                    }
                    ts
                },
                Option::None => {
                    proof {
                        assert(view_json_seq(arr@).subrange(
                            0,
                            view_json_seq(arr@).len() as int,
                        ) =~= view_json_seq(arr@));
                    }
                    return Option::None;
                },
            };
            match json_to_type_e(&o[2].1) {
                Some(rt) => Some(Type::Callable { args: ts, ret: Box::new(rt) }),
                Option::None => Option::None,
            }
        } else {
            Option::None
        }
    } else {
        proof {
            lemma_kinds();
        }
        Option::None
    }
}

/// The distinct-kind facts, for the reader's dispatch.
proof fn lemma_kinds()
    ensures
        "none"@ != "ellipsis"@ && "none"@ != "exception"@ && "none"@ != "primitive"@ && "none"@
            != "tuple"@ && "none"@ != "list"@ && "none"@ != "dict"@ && "none"@ != "user_defined"@
            && "none"@ != "union"@ && "none"@ != "callable"@,
        "ellipsis"@ != "exception"@ && "ellipsis"@ != "primitive"@ && "ellipsis"@ != "tuple"@
            && "ellipsis"@ != "list"@ && "ellipsis"@ != "dict"@ && "ellipsis"@ != "user_defined"@
            && "ellipsis"@ != "union"@ && "ellipsis"@ != "callable"@,
        "exception"@ != "primitive"@ && "exception"@ != "tuple"@ && "exception"@ != "list"@
            && "exception"@ != "dict"@ && "exception"@ != "user_defined"@ && "exception"@
            != "union"@ && "exception"@ != "callable"@,
        "primitive"@ != "tuple"@ && "primitive"@ != "list"@ && "primitive"@ != "dict"@
            && "primitive"@ != "user_defined"@ && "primitive"@ != "union"@ && "primitive"@
            != "callable"@,
        "tuple"@ != "list"@ && "tuple"@ != "dict"@ && "tuple"@ != "user_defined"@ && "tuple"@
            != "union"@ && "tuple"@ != "callable"@,
        "list"@ != "dict"@ && "list"@ != "user_defined"@ && "list"@ != "union"@ && "list"@
            != "callable"@,
        "dict"@ != "user_defined"@ && "dict"@ != "union"@ && "dict"@ != "callable"@,
        "user_defined"@ != "union"@ && "user_defined"@ != "callable"@,
        "union"@ != "callable"@,
        "int"@ != "float"@ && "int"@ != "str"@ && "float"@ != "str"@,
{
    lemma_distinct_kinds();
}

/// Reads the first `n` members of a JSON array as types.
fn jsons_to_types_e(arr: &Vec<Json>, n: usize) -> (r: Option<Vec<Type>>)
    requires
        n <= arr@.len(),
    ensures
        match r {
            Some(ts) => ts@.len() == n && jsons_to_types(
                view_json_seq(arr@).subrange(0, n as int),
            ) == Some(view_type_seq(ts@)),
            Option::None => jsons_to_types(view_json_seq(arr@).subrange(0, n as int)) is None,
        },
    decreases arr@, 0int, n as int,
{
    proof {
        lemma_view_json_seq_index(arr@);
    }
    let ghost s = view_json_seq(arr@);
    if n == 0 {
        let r: Vec<Type> = Vec::new();
        proof {
            assert(s.subrange(0, 0) =~= Seq::<JsonV>::empty());
            assert(view_type_seq(r@) =~= Seq::<TypeV>::empty());
        }
        return Some(r);
    }
    proof {
        assert(s.subrange(0, n as int).subrange(0, n - 1) =~= s.subrange(0, n - 1));
        assert(s.subrange(0, n as int)[n - 1] == view_json(arr@[n - 1]));
    }
    let mut ts = match jsons_to_types_e(arr, n - 1) {
        Some(v) => v,
        Option::None => {
            return Option::None;
        },
    };
    proof {
        assert(decreases_to!(arr@ => arr@[n - 1]));
    }
    let t = match json_to_type_e(&arr[n - 1]) {
        Some(t) => t,
        Option::None => {
            return Option::None;
        },
    };
    let ghost tsv = ts@;
    let ghost tv = t@;
    ts.push(t);
    proof {
        assert(ts@ =~= tsv.push(ts@[tsv.len() as int]));
        crate::schema::lemma_view_type_seq_index(ts@);
        crate::schema::lemma_view_type_seq_index(tsv);
        assert forall|i: int| 0 <= i < ts@.len() implies view_type_seq(ts@)[i] == view_type_seq(
            tsv,
        ).push(tv)[i] by {
            if i < tsv.len() {
                assert(ts@[i] == tsv[i]);
            } else {
                assert(view_type(ts@[i]) == tv);
            }
        }
        assert(view_type_seq(ts@) =~= view_type_seq(tsv).push(tv));
    }
    Some(ts)
}


/// Reads a parameter from an exec JSON value.
fn json_to_parameter_e(j: &Json) -> (r: Option<Parameter>)
    ensures
        match r {
            Some(p) => json_to_parameter(j@) == Some(p@),
            Option::None => json_to_parameter(j@) is None,
        },
{
    let o = match j {
        Json::JObj(o) => o,
        _ => {
            return Option::None;
        },
    };
    proof {
        assert(j@ == JsonV::JObj(view_json_pairs(o@)));
        lemma_view_json_pairs_index(o@);
    }
    if !(o.len() == 2 && chars_eq_str(&o[0].0, "name") && chars_eq_str(&o[1].0, "type")) {
        return Option::None;
    }
    let name = match &o[0].1 {
        Json::JStr(n) => n,
        _ => {
            return Option::None;
        },
    };
    proof {
        assert(view_json_pairs(o@)[0].1 == JsonV::JStr(name@));
    }
    match json_to_type_e(&o[1].1) {
        Some(t) => Some(Parameter { name: chars_to_string(name), ty: t }),
        Option::None => Option::None,
    }
}

/// Reads the first `n` members of a JSON array as parameters.
fn jsons_to_params_e(arr: &Vec<Json>, n: usize) -> (r: Option<Vec<Parameter>>)
    requires
        n <= arr@.len(),
    ensures
        match r {
            Some(ps) => ps@.len() == n && jsons_to_params(
                view_json_seq(arr@).subrange(0, n as int),
            ) == Some(ps@.map_values(|p: Parameter| p@)),
            Option::None => jsons_to_params(view_json_seq(arr@).subrange(0, n as int)) is None,
        },
    decreases n,
{
    proof {
        lemma_view_json_seq_index(arr@);
    }
    let ghost s = view_json_seq(arr@);
    if n == 0 {
        let r: Vec<Parameter> = Vec::new();
        proof {
            assert(s.subrange(0, 0) =~= Seq::<JsonV>::empty());
            assert(r@.map_values(|p: Parameter| p@) =~= Seq::<ParameterV>::empty());
        }
        return Some(r);
    }
    proof {
        assert(s.subrange(0, n as int).subrange(0, n - 1) =~= s.subrange(0, n - 1));
        assert(s.subrange(0, n as int)[n - 1] == view_json(arr@[n - 1]));
    }
    let mut ps = match jsons_to_params_e(arr, n - 1) {
        Some(v) => v,
        Option::None => {
            return Option::None;
        },
    };
    let p = match json_to_parameter_e(&arr[n - 1]) {
        Some(p) => p,
        Option::None => {
            return Option::None;
        },
    };
    let ghost psv = ps@.map_values(|q: Parameter| q@);
    let ghost pv = p@;
    let ghost p0 = ps@;
    ps.push(p);
    proof {
        assert(ps@ =~= p0.push(ps@[p0.len() as int]));
        assert forall|i: int| 0 <= i < ps@.len() implies ps@.map_values(|q: Parameter| q@)[i]
            == psv.push(pv)[i] by {
            if i < p0.len() {
                assert(ps@[i] == p0[i]);
            } else {
                assert(ps@[i]@ == pv);
            }
        }
        assert(ps@.map_values(|q: Parameter| q@) =~= psv.push(pv));
    }
    Some(ps)
}

/// Reads a function from an exec JSON value.
fn json_to_function_e(j: &Json) -> (r: Option<Function>)
    ensures
        match r {
            Some(f) => json_to_function(j@) == Some(f@),
            Option::None => json_to_function(j@) is None,
        },
{
    let o = match j {
        Json::JObj(o) => o,
        _ => {
            return Option::None;
        },
    };
    proof {
        assert(j@ == JsonV::JObj(view_json_pairs(o@)));
        lemma_view_json_pairs_index(o@);
    }
    if !(o.len() == 3 && chars_eq_str(&o[0].0, "name") && chars_eq_str(&o[1].0, "parameters")
        && chars_eq_str(&o[2].0, "return")) {
        return Option::None;
    }
    let name = match &o[0].1 {
        Json::JStr(n) => n,
        _ => {
            return Option::None;
        },
    };
    let arr = match &o[1].1 {
        Json::JArr(a) => a,
        _ => {
            return Option::None;
        },
    };
    proof {
        assert(view_json_pairs(o@)[0].1 == JsonV::JStr(name@));
        assert(view_json_pairs(o@)[1].1 == JsonV::JArr(view_json_seq(arr@)));
        lemma_view_json_seq_index(arr@);
        assert(view_json_seq(arr@).subrange(0, view_json_seq(arr@).len() as int)
            =~= view_json_seq(arr@));
    }
    let n = arr.len();
    let ps = match jsons_to_params_e(arr, n) {
        Some(v) => v,
        Option::None => {
            return Option::None;
        },
    };
    match json_to_type_e(&o[2].1) {
        Some(rt) => Some(Function { name: chars_to_string(name), parameters: ps, ret: rt }),
        Option::None => Option::None,
    }
}

/// Reads a type definition from an exec JSON value.
fn json_to_typedef_e(j: &Json) -> (r: Option<TypeDefinition>)
    ensures
        match r {
            Some(td) => json_to_typedef(j@) == Some(td@),
            Option::None => json_to_typedef(j@) is None,
        },
{
    let o = match j {
        Json::JObj(o) => o,
        _ => {
            return Option::None;
        },
    };
    proof {
        assert(j@ == JsonV::JObj(view_json_pairs(o@)));
        lemma_view_json_pairs_index(o@);
    }
    if !(o.len() == 3 && chars_eq_str(&o[0].0, "module") && chars_eq_str(&o[1].0, "name")
        && chars_eq_str(&o[2].0, "supertype")) {
        return Option::None;
    }
    let module = match &o[0].1 {
        Json::JStr(m) => m,
        _ => {
            return Option::None;
        },
    };
    let name = match &o[1].1 {
        Json::JStr(n) => n,
        _ => {
            return Option::None;
        },
    };
    proof {
        assert(view_json_pairs(o@)[0].1 == JsonV::JStr(module@));
        assert(view_json_pairs(o@)[1].1 == JsonV::JStr(name@));
    }
    match json_to_type_e(&o[2].1) {
        Some(st) => Some(
            TypeDefinition {
                name: chars_to_string(name),
                module: chars_to_string(module),
                supertype: st,
            },
        ),
        Option::None => Option::None,
    }
}

/// Reads the function registry from the first `n` JSON members.
fn fnmap_from_json_e(ms: &Vec<(Vec<char>, Json)>, n: usize) -> (r: Option<NamedMap<Function>>)
    requires
        n <= ms@.len(),
    ensures
        match r {
            Some(nm) => crate::schema::strictly_sorted(nm@) && fnmap_from_json(
                view_json_pairs(ms@).subrange(0, n as int),
            ) == Some(nm@),
            Option::None => fnmap_from_json(view_json_pairs(ms@).subrange(0, n as int)) is None,
        },
    decreases n,
{
    proof {
        lemma_view_json_pairs_index(ms@);
    }
    let ghost s = view_json_pairs(ms@);
    if n == 0 {
        let r: NamedMap<Function> = NamedMap::new();
        proof {
            assert(s.subrange(0, 0) =~= Seq::<(Seq<char>, JsonV)>::empty());
        }
        return Some(r);
    }
    proof {
        assert(s.subrange(0, n as int).subrange(0, n - 1) =~= s.subrange(0, n - 1));
        assert(s.subrange(0, n as int)[n - 1] == s[n - 1]);
        assert(s[n - 1] == (ms@[n - 1].0@, view_json(ms@[n - 1].1)));
    }
    let mut nm = match fnmap_from_json_e(ms, n - 1) {
        Some(v) => v,
        Option::None => {
            return Option::None;
        },
    };
    let f = match json_to_function_e(&ms[n - 1].1) {
        Some(f) => f,
        Option::None => {
            return Option::None;
        },
    };
    let key = chars_to_string(&ms[n - 1].0);
    let ghost old_nm = nm@;
    let ghost kv = key@;
    let ghost fv = f@;
    match nm.insert(key, f) {
        Ok(()) => {
            proof {
                let i = choose|i: int|
                    0 <= i <= old_nm.len() && nm@ == old_nm.insert(i, (kv, fv))
                        && #[trigger] crate::schema::insert_pos_ok(old_nm, kv, i);
                lemma_insert_at_pos(old_nm, kv, fv, i);
            }
            Some(nm)
        },
        Err(()) => Option::None,
    }
}

/// Reads the type-definition registry from the first `n` JSON members.
fn tdmap_from_json_e(ms: &Vec<(Vec<char>, Json)>, n: usize) -> (r: Option<
    NamedMap<TypeDefinition>,
>)
    requires
        n <= ms@.len(),
    ensures
        match r {
            Some(nm) => crate::schema::strictly_sorted(nm@) && tdmap_from_json(
                view_json_pairs(ms@).subrange(0, n as int),
            ) == Some(nm@),
            Option::None => tdmap_from_json(view_json_pairs(ms@).subrange(0, n as int)) is None,
        },
    decreases n,
{
    proof {
        lemma_view_json_pairs_index(ms@);
    }
    let ghost s = view_json_pairs(ms@);
    if n == 0 {
        let r: NamedMap<TypeDefinition> = NamedMap::new();
        proof {
            assert(s.subrange(0, 0) =~= Seq::<(Seq<char>, JsonV)>::empty());
        }
        return Some(r);
    }
    proof {
        assert(s.subrange(0, n as int).subrange(0, n - 1) =~= s.subrange(0, n - 1));
        assert(s.subrange(0, n as int)[n - 1] == s[n - 1]);
        assert(s[n - 1] == (ms@[n - 1].0@, view_json(ms@[n - 1].1)));
    }
    let mut nm = match tdmap_from_json_e(ms, n - 1) {
        Some(v) => v,
        Option::None => {
            return Option::None;
        },
    };
    let td = match json_to_typedef_e(&ms[n - 1].1) {
        Some(td) => td,
        Option::None => {
            return Option::None;
        },
    };
    let key = chars_to_string(&ms[n - 1].0);
    let ghost old_nm = nm@;
    let ghost kv = key@;
    let ghost tv = td@;
    match nm.insert(key, td) {
        Ok(()) => {
            proof {
                let i = choose|i: int|
                    0 <= i <= old_nm.len() && nm@ == old_nm.insert(i, (kv, tv))
                        && #[trigger] crate::schema::insert_pos_ok(old_nm, kv, i);
                lemma_insert_at_pos(old_nm, kv, tv, i);
            }
            Some(nm)
        },
        Err(()) => Option::None,
    }
}

/// Reads the union registry from the first `n` JSON members.
fn unmap_from_json_e(ms: &Vec<(Vec<char>, Json)>, n: usize) -> (r: Option<NamedMap<UnionDef>>)
    requires
        n <= ms@.len(),
    ensures
        match r {
            Some(nm) => crate::schema::strictly_sorted(nm@) && unmap_from_json(
                view_json_pairs(ms@).subrange(0, n as int),
            ) == Some(nm@),
            Option::None => unmap_from_json(view_json_pairs(ms@).subrange(0, n as int)) is None,
        },
    decreases n,
{
    proof {
        lemma_view_json_pairs_index(ms@);
    }
    let ghost s = view_json_pairs(ms@);
    if n == 0 {
        let r: NamedMap<UnionDef> = NamedMap::new();
        proof {
            assert(s.subrange(0, 0) =~= Seq::<(Seq<char>, JsonV)>::empty());
        }
        return Some(r);
    }
    proof {
        assert(s.subrange(0, n as int).subrange(0, n - 1) =~= s.subrange(0, n - 1));
        assert(s.subrange(0, n as int)[n - 1] == s[n - 1]);
        assert(s[n - 1] == (ms@[n - 1].0@, view_json(ms@[n - 1].1)));
    }
    let mut nm = match unmap_from_json_e(ms, n - 1) {
        Some(v) => v,
        Option::None => {
            return Option::None;
        },
    };
    let arr = match &ms[n - 1].1 {
        Json::JArr(a) => a,
        _ => {
            return Option::None;
        },
    };
    proof {
        assert(view_json(ms@[n - 1].1) == JsonV::JArr(view_json_seq(arr@)));
        lemma_view_json_seq_index(arr@);
        assert(view_json_seq(arr@).subrange(0, view_json_seq(arr@).len() as int)
            =~= view_json_seq(arr@));
    }
    if arr.len() < 2 {
        return Option::None;
    }
    let na = arr.len();
    let ts = match jsons_to_types_e(arr, na) {
        Some(v) => v,
        Option::None => {
            return Option::None;
        },
    };
    let key = chars_to_string(&ms[n - 1].0);
    let ghost old_nm = nm@;
    let ghost kv = key@;
    let u = UnionDef { args: ts };
    let ghost uv = u@;
    match nm.insert(key, u) {
        Ok(()) => {
            proof {
                let i = choose|i: int|
                    0 <= i <= old_nm.len() && nm@ == old_nm.insert(i, (kv, uv))
                        && #[trigger] crate::schema::insert_pos_ok(old_nm, kv, i);
                lemma_insert_at_pos(old_nm, kv, uv, i);
            }
            Some(nm)
        },
        Err(()) => Option::None,
    }
}

/// Reads a whole interface from an exec JSON value.
pub fn interface_from_json_e(j: &Json) -> (r: Option<Interface>)
    ensures
        match r {
            Some(iface) => interface_from_json(j@) == Some(iface@),
            Option::None => interface_from_json(j@) is None,
        },
{
    let o = match j {
        Json::JObj(o) => o,
        _ => {
            return Option::None;
        },
    };
    proof {
        assert(j@ == JsonV::JObj(view_json_pairs(o@)));
        lemma_view_json_pairs_index(o@);
    }
    if !(o.len() == 2 || o.len() == 3) {
        return Option::None;
    }
    if !(chars_eq_str(&o[0].0, "functions") && chars_eq_str(&o[1].0, "type_definitions")) {
        return Option::None;
    }
    let fmembers = match &o[0].1 {
        Json::JObj(m) => m,
        _ => {
            return Option::None;
        },
    };
    let tmembers = match &o[1].1 {
        Json::JObj(m) => m,
        _ => {
            return Option::None;
        },
    };
    proof {
        assert(view_json_pairs(o@)[0].1 == JsonV::JObj(view_json_pairs(fmembers@)));
        assert(view_json_pairs(o@)[1].1 == JsonV::JObj(view_json_pairs(tmembers@)));
        lemma_view_json_pairs_index(fmembers@);
        lemma_view_json_pairs_index(tmembers@);
        assert(view_json_pairs(fmembers@).subrange(0, view_json_pairs(fmembers@).len() as int)
            =~= view_json_pairs(fmembers@));
        assert(view_json_pairs(tmembers@).subrange(0, view_json_pairs(tmembers@).len() as int)
            =~= view_json_pairs(tmembers@));
    }
    let nf = fmembers.len();
    let fm = match fnmap_from_json_e(fmembers, nf) {
        Some(v) => v,
        Option::None => {
            return Option::None;
        },
    };
    let nt = tmembers.len();
    let tm = match tdmap_from_json_e(tmembers, nt) {
        Some(v) => v,
        Option::None => {
            return Option::None;
        },
    };
    if o.len() == 3 {
        if !chars_eq_str(&o[2].0, "unions") {
            return Option::None;
        }
        let umembers = match &o[2].1 {
            Json::JObj(m) => m,
            _ => {
                return Option::None;
            },
        };
        proof {
            assert(view_json_pairs(o@)[2].1 == JsonV::JObj(view_json_pairs(umembers@)));
            lemma_view_json_pairs_index(umembers@);
            assert(view_json_pairs(umembers@).subrange(
                0,
                view_json_pairs(umembers@).len() as int,
            ) =~= view_json_pairs(umembers@));
        }
        let nu = umembers.len();
        let um = match unmap_from_json_e(umembers, nu) {
            Some(v) => v,
            Option::None => {
                return Option::None;
            },
        };
        Some(Interface { functions: fm, type_definitions: tm, unions: um })
    } else {
        let um: NamedMap<UnionDef> = NamedMap::new();
        proof {
            assert(um@ =~= Seq::<(Seq<char>, Seq<TypeV>)>::empty());
        }
        Some(Interface { functions: fm, type_definitions: tm, unions: um })
    }
}

impl Interface {
    /// Reads an interface from schema JSON text. A text that is not JSON
    /// of the subset is a syntax failure; JSON whose shape is not an
    /// interface is a malformedness failure; nothing partial is produced,
    /// and what is produced is well formed.
    pub fn from_json(json: &str) -> (r: Result<Interface, SchemaError>)
        ensures
            match r {
                Ok(iface) => deserialize_text(json@) == Ok::<InterfaceV, SchemaError>(iface@)
                    && crate::schema::wf_interface(iface@),
                Err(e) => deserialize_text(json@) == Err::<InterfaceV, SchemaError>(e),
            },
    {
        proof {
            lemma_deserialize_wf(json@);
        }
        let j = match parse_json_str(json) {
            Some(j) => j,
            Option::None => {
                return Err(SchemaError::Syntax);
            },
        };
        match interface_from_json_e(&j) {
            Some(iface) => Ok(iface),
            Option::None => Err(SchemaError::Malformed),
        }
    }
}

impl Type {
    /// Reads a single type expression from JSON text, as a schema's type
    /// member is written.
    pub fn from_json(json: &str) -> (r: Result<Type, SchemaError>)
        ensures
            match r {
                Ok(t) => match parse_text(json@) {
                    Some(j) => json_to_type(j) == Some(t@),
                    Option::None => false,
                },
                Err(SchemaError::Syntax) => parse_text(json@) is None,
                Err(SchemaError::Malformed) => match parse_text(json@) {
                    Some(j) => json_to_type(j) is None,
                    Option::None => false,
                },
            },
    {
        let j = match parse_json_str(json) {
            Some(j) => j,
            Option::None => {
                return Err(SchemaError::Syntax);
            },
        };
        match json_to_type_e(&j) {
            Some(t) => Ok(t),
            Option::None => Err(SchemaError::Malformed),
        }
    }
}

impl Parameter {
    /// Reads a single parameter from JSON text, as a function's parameter
    /// member is written.
    pub fn from_json(json: &str) -> (r: Result<Parameter, SchemaError>)
        ensures
            match r {
                Ok(p) => match parse_text(json@) {
                    Some(j) => json_to_parameter(j) == Some(p@),
                    Option::None => false,
                },
                Err(SchemaError::Syntax) => parse_text(json@) is None,
                Err(SchemaError::Malformed) => match parse_text(json@) {
                    Some(j) => json_to_parameter(j) is None,
                    Option::None => false,
                },
            },
    {
        let j = match parse_json_str(json) {
            Some(j) => j,
            Option::None => {
                return Err(SchemaError::Syntax);
            },
        };
        match json_to_parameter_e(&j) {
            Some(p) => Ok(p),
            Option::None => Err(SchemaError::Malformed),
        }
    }
}


/// Schema round trip: any well-formed interface, written as its canonical
/// JSON text and read back, is itself — writing and reading are inverse,
/// down to the bytes of the text.
pub proof fn lemma_schema_round_trip(iv: InterfaceV)
    requires
        crate::schema::wf_interface(iv),
    ensures
        deserialize_text(serialize_text(iv)) == Ok::<InterfaceV, SchemaError>(iv),
{
    crate::json::lemma_parse_print_text(interface_to_json(iv));
    lemma_interface_round_trip(iv);
}


/// What the reader yields is well formed: every type read back satisfies
/// the type algebra's invariant.
pub proof fn lemma_json_to_type_wf(j: JsonV)
    ensures
        match json_to_type(j) {
            Some(t) => crate::schema::wf_type(t),
            Option::None => true,
        },
    decreases j, 3int,
{
    if j is JObj {
        let o = j->JObj_0;
        if o.len() >= 1 && o[0].1 is JStr {
            if o.len() == 2 && o[1].1 is JArr {
                assert(decreases_to!(j => o[1].1->JArr_0));
                lemma_jsons_to_types_wf(o[1].1->JArr_0);
                if o[1].1->JArr_0.len() == 1 {
                    lemma_json_to_type_wf(o[1].1->JArr_0[0]);
                }
                if o[1].1->JArr_0.len() == 2 {
                    lemma_json_to_type_wf(o[1].1->JArr_0[0]);
                    lemma_json_to_type_wf(o[1].1->JArr_0[1]);
                }
            }
            if o.len() == 3 {
                if o[1].1 is JArr {
                    assert(decreases_to!(j => o[1].1->JArr_0));
                    lemma_jsons_to_types_wf(o[1].1->JArr_0);
                }
                assert(decreases_to!(j => o[2].1));
                lemma_json_to_type_wf(o[2].1);
            }
            if o.len() == 4 {
                assert(decreases_to!(j => o[3].1));
                lemma_json_to_type_wf(o[3].1);
            }
        }
    }
}

/// Every type of a list read back is well formed.
pub proof fn lemma_jsons_to_types_wf(js: Seq<JsonV>)
    ensures
        match jsons_to_types(js) {
            Some(ts) => ts.len() == js.len() && forall|i: int|
                0 <= i < ts.len() ==> crate::schema::wf_type(#[trigger] ts[i]),
            Option::None => true,
        },
    decreases js, 4int,
{
    if js.len() > 0 {
        lemma_jsons_to_types_wf(js.subrange(0, js.len() - 1));
        assert(decreases_to!(js => js[js.len() - 1]));
        lemma_json_to_type_wf(js[js.len() - 1]);
    }
}

/// Inserting a fresh key keeps a map strictly sorted, and every entry of
/// the result is the new binding or one of the old ones.
pub proof fn lemma_sorted_insert_sorted<T>(m: Seq<(Seq<char>, T)>, k: Seq<char>, v: T)
    requires
        crate::schema::strictly_sorted(m),
        !map_has_key(m, k),
    ensures
        crate::schema::strictly_sorted(sorted_insert(m, k, v)),
        sorted_insert(m, k, v).len() == m.len() + 1,
        forall|i: int|
            0 <= i < sorted_insert(m, k, v).len() ==> ((#[trigger] sorted_insert(m, k, v)[i]) == (
            k,
            v,
            ) || m.contains(sorted_insert(m, k, v)[i])),
    decreases m,
{
    let r = sorted_insert(m, k, v);
    if m.len() == 0 {
        assert(r =~= seq![(k, v)]);
    } else if lex_lt(k, m[0].0) {
        assert(r =~= seq![(k, v)] + m);
        assert forall|i: int, jx: int| 0 <= i < jx < r.len() implies lex_lt(
            (#[trigger] r[i]).0,
            (#[trigger] r[jx]).0,
        ) by {
            if i == 0 {
                assert(r[jx] == m[jx - 1]);
                if jx > 1 {
                    assert(lex_lt(m[0].0, m[jx - 1].0));
                    crate::schema::lemma_lex_transitive(k, m[0].0, m[jx - 1].0);
                }
            } else {
                assert(r[i] == m[i - 1] && r[jx] == m[jx - 1]);
            }
        }
        assert forall|i: int| 0 <= i < r.len() implies ((#[trigger] r[i]) == (k, v)
            || m.contains(r[i])) by {
            if i > 0 {
                assert(r[i] == m[i - 1]);
            }
        }
    } else {
        let m1 = m.skip(1);
        assert forall|x: int, y: int| 0 <= x < y < m1.len() implies lex_lt(
            (#[trigger] m1[x]).0,
            (#[trigger] m1[y]).0,
        ) by {
            assert(m1[x] == m[x + 1] && m1[y] == m[y + 1]);
        }
        assert(!map_has_key(m1, k)) by {
            if map_has_key(m1, k) {
                let i = choose|i: int| 0 <= i < m1.len() && (#[trigger] m1[i].0) == k;
                assert(m[i + 1].0 == k);
            }
        }
        lemma_sorted_insert_sorted(m1, k, v);
        assert(m[0].0 != k);
        crate::schema::lemma_lex_trichotomy(k, m[0].0);
        assert(lex_lt(m[0].0, k));
        let r1 = sorted_insert(m1, k, v);
        assert(r =~= seq![m[0]] + r1);
        assert forall|i: int, jx: int| 0 <= i < jx < r.len() implies lex_lt(
            (#[trigger] r[i]).0,
            (#[trigger] r[jx]).0,
        ) by {
            if i == 0 {
                assert(r[jx] == r1[jx - 1]);
                if r1[jx - 1] == (k, v) {
                    assert(lex_lt(m[0].0, k));
                } else {
                    assert(m1.contains(r1[jx - 1]));
                    let w = choose|w: int| 0 <= w < m1.len() && m1[w] == r1[jx - 1];
                    assert(m[w + 1] == r1[jx - 1]);
                    assert(lex_lt(m[0].0, m[w + 1].0));
                }
            } else {
                assert(r[i] == r1[i - 1] && r[jx] == r1[jx - 1]);
            }
        }
        assert forall|i: int| 0 <= i < r.len() implies ((#[trigger] r[i]) == (k, v)
            || m.contains(r[i])) by {
            if i == 0 {
                assert(m.contains(m[0]));
            } else {
                assert(r[i] == r1[i - 1]);
                if r1[i - 1] != (k, v) {
                    assert(m1.contains(r1[i - 1]));
                    let w = choose|w: int| 0 <= w < m1.len() && m1[w] == r1[i - 1];
                    assert(m[w + 1] == r1[i - 1]);
                }
            }
        }
    }
}

/// The function registry the reader yields is sorted and holds only
/// well-formed functions.
pub proof fn lemma_fnmap_from_json_wf(ms: Seq<(Seq<char>, JsonV)>)
    ensures
        match fnmap_from_json(ms) {
            Some(m) => crate::schema::strictly_sorted(m) && forall|i: int|
                0 <= i < m.len() ==> crate::schema::wf_function((#[trigger] m[i]).1),
            Option::None => true,
        },
    decreases ms,
{
    if ms.len() > 0 {
        lemma_fnmap_from_json_wf(ms.subrange(0, ms.len() - 1));
        let last = ms[ms.len() - 1];
        if json_to_function(last.1) is Some {
            let f = json_to_function(last.1)->0;
            assert(crate::schema::wf_function(f)) by {
                lemma_json_to_function_wf(last.1);
            }
            match fnmap_from_json(ms.subrange(0, ms.len() - 1)) {
                Some(acc) => {
                    if !map_has_key(acc, last.0) {
                        lemma_sorted_insert_sorted(acc, last.0, f);
                        let r = sorted_insert(acc, last.0, f);
                        assert forall|i: int| 0 <= i < r.len() implies crate::schema::wf_function(
                            (#[trigger] r[i]).1,
                        ) by {
                            if r[i] != (last.0, f) {
                                assert(acc.contains(r[i]));
                                let w = choose|w: int| 0 <= w < acc.len() && acc[w] == r[i];
                                assert(crate::schema::wf_function(acc[w].1));
                            }
                        }
                    }
                },
                Option::None => {},
            }
        }
    }
}

/// A function the reader yields is well formed.
pub proof fn lemma_json_to_function_wf(j: JsonV)
    ensures
        match json_to_function(j) {
            Some(f) => crate::schema::wf_function(f),
            Option::None => true,
        },
{
    if j is JObj {
        let o = j->JObj_0;
        if o.len() == 3 && o[1].1 is JArr {
            lemma_jsons_to_params_wf(o[1].1->JArr_0);
            lemma_json_to_type_wf(o[2].1);
        }
    }
}

/// Every parameter of a list read back has a well-formed type.
pub proof fn lemma_jsons_to_params_wf(js: Seq<JsonV>)
    ensures
        match jsons_to_params(js) {
            Some(ps) => forall|i: int|
                0 <= i < ps.len() ==> crate::schema::wf_type((#[trigger] ps[i]).ty),
            Option::None => true,
        },
    decreases js,
{
    if js.len() > 0 {
        lemma_jsons_to_params_wf(js.subrange(0, js.len() - 1));
        let last = js[js.len() - 1];
        if last is JObj && last->JObj_0.len() == 2 {
            lemma_json_to_type_wf(last->JObj_0[1].1);
        }
    }
}

/// The type-definition registry the reader yields is sorted and holds only
/// well-formed supertypes.
pub proof fn lemma_tdmap_from_json_wf(ms: Seq<(Seq<char>, JsonV)>)
    ensures
        match tdmap_from_json(ms) {
            Some(m) => crate::schema::strictly_sorted(m) && forall|i: int|
                0 <= i < m.len() ==> crate::schema::wf_type((#[trigger] m[i]).1.supertype),
            Option::None => true,
        },
    decreases ms,
{
    if ms.len() > 0 {
        lemma_tdmap_from_json_wf(ms.subrange(0, ms.len() - 1));
        let last = ms[ms.len() - 1];
        if json_to_typedef(last.1) is Some {
            let td = json_to_typedef(last.1)->0;
            assert(crate::schema::wf_type(td.supertype)) by {
                if last.1 is JObj && last.1->JObj_0.len() == 3 {
                    lemma_json_to_type_wf(last.1->JObj_0[2].1);
                }
            }
            match tdmap_from_json(ms.subrange(0, ms.len() - 1)) {
                Some(acc) => {
                    if !map_has_key(acc, last.0) {
                        lemma_sorted_insert_sorted(acc, last.0, td);
                        let r = sorted_insert(acc, last.0, td);
                        assert forall|i: int| 0 <= i < r.len() implies crate::schema::wf_type(
                            (#[trigger] r[i]).1.supertype,
                        ) by {
                            if r[i] != (last.0, td) {
                                assert(acc.contains(r[i]));
                                let w = choose|w: int| 0 <= w < acc.len() && acc[w] == r[i];
                                assert(crate::schema::wf_type(acc[w].1.supertype));
                            }
                        }
                    }
                },
                Option::None => {},
            }
        }
    }
}

/// The union registry the reader yields is sorted and holds only unions of
/// at least two well-formed branches.
pub proof fn lemma_unmap_from_json_wf(ms: Seq<(Seq<char>, JsonV)>)
    ensures
        match unmap_from_json(ms) {
            Some(m) => crate::schema::strictly_sorted(m) && forall|i: int|
                0 <= i < m.len() ==> ((#[trigger] m[i]).1.len() >= 2 && forall|jx: int|
                    0 <= jx < m[i].1.len() ==> crate::schema::wf_type(#[trigger] m[i].1[jx])),
            Option::None => true,
        },
    decreases ms,
{
    if ms.len() > 0 {
        lemma_unmap_from_json_wf(ms.subrange(0, ms.len() - 1));
        let last = ms[ms.len() - 1];
        if last.1 is JArr && last.1->JArr_0.len() >= 2 && jsons_to_types(
            last.1->JArr_0,
        ) is Some {
            let ts = jsons_to_types(last.1->JArr_0)->0;
            lemma_jsons_to_types_wf(last.1->JArr_0);
            match unmap_from_json(ms.subrange(0, ms.len() - 1)) {
                Some(acc) => {
                    if !map_has_key(acc, last.0) {
                        lemma_sorted_insert_sorted(acc, last.0, ts);
                        let r = sorted_insert(acc, last.0, ts);
                        assert forall|i: int| 0 <= i < r.len() implies ((#[trigger] r[i]).1.len()
                            >= 2 && forall|jx: int|
                            0 <= jx < r[i].1.len() ==> crate::schema::wf_type(
                                #[trigger] r[i].1[jx],
                            )) by {
                            if r[i] != (last.0, ts) {
                                assert(acc.contains(r[i]));
                                let w = choose|w: int| 0 <= w < acc.len() && acc[w] == r[i];
                                assert(acc[w].1.len() >= 2);
                            }
                        }
                    }
                },
                Option::None => {},
            }
        }
    }
}

/// Whatever the reader accepts is a well-formed interface: the registries
/// come back sorted with unique keys, every union has at least two
/// branches, and every type satisfies the algebra's invariant.
pub proof fn lemma_deserialize_wf(s: Seq<char>)
    ensures
        match deserialize_text(s) {
            Ok(iv) => crate::schema::wf_interface(iv),
            Err(_) => true,
        },
{
    match parse_text(s) {
        Some(j) => {
            if j is JObj {
                let o = j->JObj_0;
                if o.len() >= 1 && o[0].1 is JObj {
                    lemma_fnmap_from_json_wf(o[0].1->JObj_0);
                }
                if o.len() >= 2 && o[1].1 is JObj {
                    lemma_tdmap_from_json_wf(o[1].1->JObj_0);
                }
                if o.len() == 3 && o[2].1 is JObj {
                    lemma_unmap_from_json_wf(o[2].1->JObj_0);
                }
            }
        },
        Option::None => {},
    }
}

} // verus!
