//! The type mapper: the deterministic, position-sensitive mapping from
//! schema types to target-language type text, with one entry point for
//! input (argument) position and one for output (return) position.
//!
//! The mapper fails closed: a type it cannot represent in the requested
//! position is an [`UnsupportedTypeError`], never a guess. In particular a
//! union with a non-primitive branch is unsupported in input position, a
//! union nested inside a list or dict element is unsupported in either
//! position, a union or callable nested inside a tuple or callable argument
//! is unsupported in input position, and a callable whose return type is
//! neither `none` nor a primitive is unsupported.

use vstd::prelude::*;
use vstd::string::{StrSliceExecFns, StringExecFns};

use crate::schema::{lemma_view_type_seq_index, view_type, view_type_seq, Primitive, Type, TypeV};

verus! {

/// A type stood in a position where the mapper cannot represent it.
#[derive(Debug, Clone, Copy, PartialEq, Eq, Structural)]
pub struct UnsupportedTypeError {}

/// Whether a union occurs anywhere in the type tree.
pub open spec fn has_union(t: TypeV) -> bool
    decreases t, 0int,
{
    match t {
        TypeV::Primitive(_) => false,
        TypeV::Tuple { tags } => has_union_seq(tags),
        TypeV::List { element } => has_union(*element),
        TypeV::Dict { key, value } => has_union(*key) || has_union(*value),
        TypeV::UserDefined { supertype, .. } => has_union(*supertype),
        TypeV::Union { .. } => true,
        TypeV::Callable { args, ret } => has_union(*ret) || has_union_seq(args),
        TypeV::Ellipsis => false,
        TypeV::Exception => false,
        TypeV::NoneType => false,
    }
}

/// Whether a union occurs anywhere in any member of the sequence.
pub open spec fn has_union_seq(ts: Seq<TypeV>) -> bool
    decreases ts, 1int,
{
    if ts.len() == 0 {
        false
    } else {
        has_union_seq(ts.subrange(0, ts.len() - 1)) || has_union(ts[ts.len() - 1])
    }
}

/// Whether every member of the sequence is a primitive type.
pub open spec fn all_primitive(ts: Seq<TypeV>) -> bool {
    forall|i: int| 0 <= i < ts.len() ==> (#[trigger] ts[i]) is Primitive
}

/// Which primitives a union's branch list holds: the order-insensitive
/// identity of an input-position union.
pub open spec fn union_members(ts: Seq<TypeV>) -> (bool, bool, bool) {
    (
        ts.contains(TypeV::Primitive(Primitive::Int)),
        ts.contains(TypeV::Primitive(Primitive::Float)),
        ts.contains(TypeV::Primitive(Primitive::Str)),
    )
}

/// The name of the generated capability trait for an input-position union,
/// determined by the set of its primitive branches alone.
pub open spec fn union_trait_name(members: (bool, bool, bool)) -> Seq<char> {
    "Union"@ + (if members.0 {
        "Int"@
    } else {
        Seq::empty()
    }) + (if members.1 {
        "Float"@
    } else {
        Seq::empty()
    }) + (if members.2 {
        "Str"@
    } else {
        Seq::empty()
    })
}

/// Input-position text of a primitive.
pub open spec fn prim_input_text(p: Primitive) -> Seq<char> {
    match p {
        Primitive::Int => "i64"@,
        Primitive::Float => "f64"@,
        Primitive::Str => "&str"@,
    }
}

/// Output-position text of a primitive.
pub open spec fn prim_output_text(p: Primitive) -> Seq<char> {
    match p {
        Primitive::Int => "i64"@,
        Primitive::Float => "f64"@,
        Primitive::Str => "::pyo3::Py<::pyo3::types::PyString>"@,
    }
}

/// Decimal text of a natural number.
pub open spec fn dec_rep(n: nat) -> Seq<char>
    decreases n,
{
    if n < 10 {
        digit_text(n)
    } else {
        dec_rep(n / 10) + digit_text(n % 10)
    }
}

/// The one-character text of a decimal digit.
pub open spec fn digit_text(d: nat) -> Seq<char> {
    if d == 0 {
        "0"@
    } else if d == 1 {
        "1"@
    } else if d == 2 {
        "2"@
    } else if d == 3 {
        "3"@
    } else if d == 4 {
        "4"@
    } else if d == 5 {
        "5"@
    } else if d == 6 {
        "6"@
    } else if d == 7 {
        "7"@
    } else if d == 8 {
        "8"@
    } else {
        "9"@
    }
}

/// Input-position mapping of a type standing inside another type: unions
/// and callables are not representable there.
pub open spec fn input_inner(t: TypeV) -> Option<Seq<char>>
    decreases t, 0int,
{
    match t {
        TypeV::Primitive(p) => Some(prim_input_text(p)),
        TypeV::NoneType => Some("()"@),
        TypeV::Ellipsis => Some("::pyo3::Py<::pyo3::PyAny>"@),
        TypeV::Exception => Some("::pyo3::Py<::pyo3::PyAny>"@),
        TypeV::Tuple { tags } => match input_items(tags) {
            Some(items) => Some("("@ + items + ")"@),
            Option::None => Option::None,
        },
        TypeV::List { element } => if has_union(*element) {
            Option::None
        } else {
            Some("&::pyo3::types::PyList"@)
        },
        TypeV::Dict { key, value } => if has_union(*key) || has_union(*value) {
            Option::None
        } else {
            Some("&::pyo3::types::PyDict"@)
        },
        TypeV::UserDefined { name, .. } => Some(name),
        TypeV::Union { .. } => Option::None,
        TypeV::Callable { .. } => Option::None,
    }
}

/// The comma-separated input-position texts of a tuple's member types.
pub open spec fn input_items(ts: Seq<TypeV>) -> Option<Seq<char>>
    decreases ts, 1int,
{
    if ts.len() == 0 {
        Some(Seq::empty())
    } else {
        let init = input_items(ts.subrange(0, ts.len() - 1));
        let last = input_inner(ts[ts.len() - 1]);
        match (init, last) {
            (Some(i), Some(l)) => Some(
                if ts.len() == 1 {
                    l
                } else {
                    i + ", "@ + l
                },
            ),
            _ => Option::None,
        }
    }
}

/// Whether a callable's return type is trivial enough to map: `none` or a
/// primitive.
pub open spec fn trivial_callable_ret(t: TypeV) -> bool {
    t is NoneType || t is Primitive
}

/// The output-position text of a trivial callable return type.
pub open spec fn callable_ret_text(t: TypeV) -> Seq<char> {
    match t {
        TypeV::Primitive(p) => prim_output_text(p),
        _ => "()"@,
    }
}

/// The comma-after-each input texts of a callable's argument types.
pub open spec fn callable_args_items(ts: Seq<TypeV>) -> Option<Seq<char>>
    decreases ts,
{
    if ts.len() == 0 {
        Some(Seq::empty())
    } else {
        let init = callable_args_items(ts.subrange(0, ts.len() - 1));
        let last = input_inner(ts[ts.len() - 1]);
        match (init, last) {
            (Some(i), Some(l)) => Some(i + l + ","@),
            _ => Option::None,
        }
    }
}

/// The bound text of the function trait a callable maps to.
pub open spec fn callable_trait_text(args: Seq<TypeV>, ret: TypeV) -> Option<Seq<char>> {
    if !trivial_callable_ret(ret) {
        Option::None
    } else {
        match callable_args_items(args) {
            Some(items) => Some(
                "Fn("@ + (if args.len() == 0 {
                    Seq::<char>::empty()
                } else {
                    "("@ + items + ")"@
                }) + ") -> "@ + callable_ret_text(ret) + " + Send + 'static"@,
            ),
            Option::None => Option::None,
        }
    }
}

/// Input-position mapping of a parameter's type: what [`input_inner`]
/// takes, and at top level also a union over primitives (a capability
/// trait) or a callable (a closure bound).
pub open spec fn input_type(t: TypeV) -> Option<Seq<char>> {
    match t {
        TypeV::Union { args } => if all_primitive(args) {
            Some("impl "@ + union_trait_name(union_members(args)))
        } else {
            Option::None
        },
        TypeV::Callable { args, ret } => match callable_trait_text(args, *ret) {
            Some(tr) => Some("impl "@ + tr),
            Option::None => Option::None,
        },
        _ => input_inner(t),
    }
}

/// Output-position mapping of a type.
pub open spec fn output_type(t: TypeV) -> Option<Seq<char>>
    decreases t, 0int,
{
    match t {
        TypeV::Primitive(p) => Some(prim_output_text(p)),
        TypeV::NoneType => Some("()"@),
        TypeV::Ellipsis => Some("::pyo3::Py<::pyo3::PyAny>"@),
        TypeV::Exception => Some("::pyo3::Py<::pyo3::PyAny>"@),
        TypeV::Tuple { tags } => match output_items(tags) {
            Some(items) => Some("("@ + items + ")"@),
            Option::None => Option::None,
        },
        TypeV::List { element } => if has_union(*element) {
            Option::None
        } else {
            Some("::pyo3::Py<::pyo3::types::PyList>"@)
        },
        TypeV::Dict { key, value } => if has_union(*key) || has_union(*value) {
            Option::None
        } else {
            Some("::pyo3::Py<::pyo3::types::PyDict>"@)
        },
        TypeV::UserDefined { name, .. } => Some(name),
        TypeV::Union { args } => match output_items(args) {
            Some(items) => Some(
                "::py2o2_runtime::Enum"@ + dec_rep(args.len() as nat) + "<"@ + items + ">"@,
            ),
            Option::None => Option::None,
        },
        TypeV::Callable { args, ret } => match callable_trait_text(args, *ret) {
            Some(tr) => Some("Box<"@ + tr + ">"@),
            Option::None => Option::None,
        },
    }
}

/// The comma-separated output-position texts of a sequence of types.
pub open spec fn output_items(ts: Seq<TypeV>) -> Option<Seq<char>>
    decreases ts, 1int,
{
    if ts.len() == 0 {
        Some(Seq::empty())
    } else {
        let init = output_items(ts.subrange(0, ts.len() - 1));
        let last = output_type(ts[ts.len() - 1]);
        match (init, last) {
            (Some(i), Some(l)) => Some(
                if ts.len() == 1 {
                    l
                } else {
                    i + ", "@ + l
                },
            ),
            _ => Option::None,
        }
    }
}

/// Decides [`has_union`].
pub fn contains_union(t: &Type) -> (r: bool)
    ensures
        r == has_union(t@),
    decreases *t, 0int, 0int,
{
    match t {
        Type::Primitive(_) => false,
        Type::Tuple { tags } => {
            let n = tags.len();
            let r = contains_union_prefix(tags, n);
            proof {
                assert(t@ == TypeV::Tuple { tags: view_type_seq(tags@) });
                lemma_view_type_seq_index(tags@);
                assert(view_type_seq(tags@).subrange(0, view_type_seq(tags@).len() as int)
                    =~= view_type_seq(tags@));
            }
            r
        },
        Type::List { element } => {
            let r = contains_union(element);
            proof {
                assert(t@ == TypeV::List { element: Box::new(view_type(**element)) });
            }
            r
        },
        Type::Dict { key, value } => {
            let r = contains_union(key) || contains_union(value);
            proof {
                assert(t@ == TypeV::Dict {
                    key: Box::new(view_type(**key)),
                    value: Box::new(view_type(**value)),
                });
            }
            r
        },
        Type::UserDefined { module, name, supertype } => {
            let r = contains_union(supertype);
            proof {
                assert(t@ == TypeV::UserDefined {
                    module: module@,
                    name: name@,
                    supertype: Box::new(view_type(**supertype)),
                });
            }
            r
        },
        Type::Union { .. } => true,
        Type::Callable { args, ret } => {
            let hit_ret = contains_union(ret);
            let n = args.len();
            let r = hit_ret || contains_union_prefix(args, n);
            proof {
                assert(t@ == TypeV::Callable {
                    args: view_type_seq(args@),
                    ret: Box::new(view_type(**ret)),
                });
                lemma_view_type_seq_index(args@);
                assert(view_type_seq(args@).subrange(0, view_type_seq(args@).len() as int)
                    =~= view_type_seq(args@));
            }
            r
        },
        Type::Ellipsis => false,
        Type::Exception => false,
        Type::NoneType => false,
    }
}

/// Whether a union occurs anywhere in the first `n` members of the list.
fn contains_union_prefix(ts: &Vec<Type>, n: usize) -> (r: bool)
    requires
        n <= ts@.len(),
    ensures
        r == has_union_seq(view_type_seq(ts@).subrange(0, n as int)),
    decreases ts@, 1int, n as int,
{
    proof {
        lemma_view_type_seq_index(ts@);
    }
    let ghost s = view_type_seq(ts@);
    if n == 0 {
        proof {
            assert(s.subrange(0, 0) =~= Seq::<TypeV>::empty());
        }
        return false;
    }
    proof {
        assert(s.subrange(0, n as int).subrange(0, n - 1) =~= s.subrange(0, n - 1));
        assert(s.subrange(0, n as int)[n - 1] == view_type(ts@[n - 1]));
    }
    if contains_union_prefix(ts, n - 1) {
        true
    } else {
        contains_union(&ts[n - 1])
    }
}

/// Renders a decimal digit.
fn digit_str(d: usize) -> (r: &'static str)
    requires
        d < 10,
    ensures
        r@ == digit_text(d as nat),
{
    if d == 0 {
        "0"
    } else if d == 1 {
        "1"
    } else if d == 2 {
        "2"
    } else if d == 3 {
        "3"
    } else if d == 4 {
        "4"
    } else if d == 5 {
        "5"
    } else if d == 6 {
        "6"
    } else if d == 7 {
        "7"
    } else if d == 8 {
        "8"
    } else {
        "9"
    }
}

/// Appends the decimal text of `n` to `out`.
pub fn push_decimal(out: &mut String, n: usize)
    ensures
        final(out)@ == old(out)@ + dec_rep(n as nat),
    decreases n,
{
    if n < 10 {
        out.append(digit_str(n));
    } else {
        push_decimal(out, n / 10);
        out.append(digit_str(n % 10));
    }
}

/// Decides [`all_primitive`] and computes [`union_members`]; fails exactly
/// on a branch list with a non-primitive member.
pub fn primitive_members(args: &Vec<Type>) -> (r: Result<(bool, bool, bool), UnsupportedTypeError>)
    ensures
        match r {
            Ok(m) => all_primitive(view_type_seq(args@)) && m == union_members(
                view_type_seq(args@),
            ),
            Err(_) => !all_primitive(view_type_seq(args@)),
        },
{
    proof {
        lemma_view_type_seq_index(args@);
    }
    let ghost s = view_type_seq(args@);
    let n = args.len();
    let mut has_int = false;
    let mut has_float = false;
    let mut has_str = false;
    let mut i: usize = 0;
    while i < n
        invariant
            i <= n,
            n == args@.len(),
            s == view_type_seq(args@),
            s.len() == n,
            forall|k: int| 0 <= k < n ==> s[k] == view_type(args@[k]),
            forall|k: int| 0 <= k < i ==> (#[trigger] s[k]) is Primitive,
            has_int == exists|k: int|
                0 <= k < i && (#[trigger] s[k]) == TypeV::Primitive(Primitive::Int),
            has_float == exists|k: int|
                0 <= k < i && (#[trigger] s[k]) == TypeV::Primitive(Primitive::Float),
            has_str == exists|k: int|
                0 <= k < i && (#[trigger] s[k]) == TypeV::Primitive(Primitive::Str),
        decreases n - i,
    {
        match &args[i] {
            Type::Primitive(p) => {
                match p {
                    Primitive::Int => {
                        has_int = true;
                        proof {
                            assert(s[i as int] == TypeV::Primitive(Primitive::Int));
                        }
                    },
                    Primitive::Float => {
                        has_float = true;
                        proof {
                            assert(s[i as int] == TypeV::Primitive(Primitive::Float));
                        }
                    },
                    Primitive::Str => {
                        has_str = true;
                        proof {
                            assert(s[i as int] == TypeV::Primitive(Primitive::Str));
                        }
                    },
                }
            },
            _ => {
                proof {
                    assert(!((s[i as int]) is Primitive));
                }
                return Err(UnsupportedTypeError {});
            },
        }
        i = i + 1;
    }
    proof {
        assert(s.contains(TypeV::Primitive(Primitive::Int)) == has_int);
        assert(s.contains(TypeV::Primitive(Primitive::Float)) == has_float);
        assert(s.contains(TypeV::Primitive(Primitive::Str)) == has_str);
    }
    Ok((has_int, has_float, has_str))
}

/// Renders the capability-trait name for an input-position union with the
/// given members.
pub fn union_trait_ident(members: (bool, bool, bool)) -> (r: String)
    ensures
        r@ == union_trait_name(members),
{
    let mut out = String::new();
    out.append("Union");
    if members.0 {
        out.append("Int");
    }
    if members.1 {
        out.append("Float");
    }
    if members.2 {
        out.append("Str");
    }
    proof {
        assert(out@ =~= union_trait_name(members));
    }
    out
}

/// Maps a type standing inside another type in input position.
fn input_inner_text(t: &Type) -> (r: Result<String, UnsupportedTypeError>)
    ensures
        match r {
            Ok(s) => input_inner(t@) == Some(s@),
            Err(_) => input_inner(t@) is None,
        },
    decreases *t, 0int, 0int,
{
    match t {
        Type::Primitive(p) => {
            proof {
                assert(t@ == TypeV::Primitive(*p));
            }
            match p {
                Primitive::Int => Ok("i64".to_owned()),
                Primitive::Float => Ok("f64".to_owned()),
                Primitive::Str => Ok("&str".to_owned()),
            }
        },
        Type::NoneType => {
            proof {
                assert(t@ == TypeV::NoneType);
            }
            Ok("()".to_owned())
        },
        Type::Ellipsis => {
            proof {
                assert(t@ == TypeV::Ellipsis);
            }
            Ok("::pyo3::Py<::pyo3::PyAny>".to_owned())
        },
        Type::Exception => {
            proof {
                assert(t@ == TypeV::Exception);
            }
            Ok("::pyo3::Py<::pyo3::PyAny>".to_owned())
        },
        Type::Tuple { tags } => {
            proof {
                assert(t@ == TypeV::Tuple { tags: view_type_seq(tags@) });
                lemma_view_type_seq_index(tags@);
                assert(view_type_seq(tags@).subrange(0, view_type_seq(tags@).len() as int)
                    =~= view_type_seq(tags@));
            }
            let n = tags.len();
            match input_items_prefix(tags, n) {
                Ok(items) => {
                    let mut out = String::new();
                    out.append("(");
                    out.append(items.as_str());
                    out.append(")");
                    proof {
                        assert(out@ =~= "("@ + items@ + ")"@);
                    }
                    Ok(out)
                },
                Err(e) => Err(e),
            }
        },
        Type::List { element } => {
            proof {
                assert(t@ == TypeV::List { element: Box::new(view_type(**element)) });
            }
            if contains_union(element) {
                Err(UnsupportedTypeError {})
            } else {
                Ok("&::pyo3::types::PyList".to_owned())
            }
        },
        Type::Dict { key, value } => {
            proof {
                assert(t@ == TypeV::Dict {
                    key: Box::new(view_type(**key)),
                    value: Box::new(view_type(**value)),
                });
            }
            if contains_union(key) || contains_union(value) {
                Err(UnsupportedTypeError {})
            } else {
                Ok("&::pyo3::types::PyDict".to_owned())
            }
        },
        Type::UserDefined { module, name, supertype } => {
            proof {
                assert(t@ == TypeV::UserDefined {
                    module: module@,
                    name: name@,
                    supertype: Box::new(view_type(**supertype)),
                });
            }
            Ok(name.clone())
        },
        Type::Union { args } => {
            proof {
                assert(t@ == TypeV::Union { args: view_type_seq(args@) });
            }
            Err(UnsupportedTypeError {})
        },
        Type::Callable { args, ret } => {
            proof {
                assert(t@ == TypeV::Callable {
                    args: view_type_seq(args@),
                    ret: Box::new(view_type(**ret)),
                });
            }
            Err(UnsupportedTypeError {})
        },
    }
}

/// Maps the first `n` members of a tuple's type list in input position,
/// comma-separated.
fn input_items_prefix(tags: &Vec<Type>, n: usize) -> (r: Result<String, UnsupportedTypeError>)
    requires
        n <= tags@.len(),
    ensures
        match r {
            Ok(s) => input_items(view_type_seq(tags@).subrange(0, n as int)) == Some(s@),
            Err(_) => input_items(view_type_seq(tags@).subrange(0, n as int)) is None,
        },
    decreases tags@, 1int, n as int,
{
    proof {
        lemma_view_type_seq_index(tags@);
    }
    let ghost s = view_type_seq(tags@);
    if n == 0 {
        proof {
            assert(s.subrange(0, 0) =~= Seq::<TypeV>::empty());
        }
        return Ok(String::new());
    }
    let ghost pre = s.subrange(0, n as int);
    proof {
        assert(pre.subrange(0, n - 1) =~= s.subrange(0, n - 1));
        assert(pre[n - 1] == view_type(tags@[n - 1]));
    }
    let init = match input_items_prefix(tags, n - 1) {
        Ok(v) => v,
        Err(e) => {
            return Err(e);
        },
    };
    let last = match input_inner_text(&tags[n - 1]) {
        Ok(v) => v,
        Err(e) => {
            return Err(e);
        },
    };
    if n == 1 {
        Ok(last)
    } else {
        let ghost initv = init@;
        let mut out = init;
        out.append(", ");
        out.append(last.as_str());
        proof {
            assert(out@ =~= initv + ", "@ + last@);
        }
        Ok(out)
    }
}

/// Maps the callable's argument list, each item followed by a comma.
fn callable_args_prefix(args: &Vec<Type>, n: usize) -> (r: Result<String, UnsupportedTypeError>)
    requires
        n <= args@.len(),
    ensures
        match r {
            Ok(s) => callable_args_items(view_type_seq(args@).subrange(0, n as int)) == Some(s@),
            Err(_) => callable_args_items(view_type_seq(args@).subrange(0, n as int)) is None,
        },
    decreases args@, 1int, n as int,
{
    proof {
        lemma_view_type_seq_index(args@);
    }
    let ghost s = view_type_seq(args@);
    if n == 0 {
        proof {
            assert(s.subrange(0, 0) =~= Seq::<TypeV>::empty());
        }
        return Ok(String::new());
    }
    let ghost pre = s.subrange(0, n as int);
    proof {
        assert(pre.subrange(0, n - 1) =~= s.subrange(0, n - 1));
        assert(pre[n - 1] == view_type(tags_at(args@, n - 1)));
    }
    let init = match callable_args_prefix(args, n - 1) {
        Ok(v) => v,
        Err(e) => {
            return Err(e);
        },
    };
    let last = match input_inner_text(&args[n - 1]) {
        Ok(v) => v,
        Err(e) => {
            return Err(e);
        },
    };
    let ghost initv = init@;
    let mut out = init;
    out.append(last.as_str());
    out.append(",");
    proof {
        assert(out@ =~= initv + last@ + ","@);
    }
    Ok(out)
}

/// The element of a sequence of types at an index; a spec convenience.
pub open spec fn tags_at(ts: Seq<Type>, i: int) -> Type {
    ts[i]
}

/// Renders the function-trait bound a callable maps to; fails exactly when
/// an argument cannot stand in inner input position or the return type is
/// not trivial.
fn callable_trait_bound(args: &Vec<Type>, ret: &Type) -> (r: Result<String, UnsupportedTypeError>)
    ensures
        match r {
            Ok(s) => callable_trait_text(view_type_seq(args@), ret@) == Some(s@),
            Err(_) => callable_trait_text(view_type_seq(args@), ret@) is None,
        },
    decreases args@, 2int, 0int,
{
    let ret_text = match ret {
        Type::NoneType => {
            proof {
                assert(ret@ == TypeV::NoneType);
            }
            "()".to_owned()
        },
        Type::Primitive(p) => {
            proof {
                assert(ret@ == TypeV::Primitive(*p));
            }
            match p {
                Primitive::Int => "i64".to_owned(),
                Primitive::Float => "f64".to_owned(),
                Primitive::Str => "::pyo3::Py<::pyo3::types::PyString>".to_owned(),
            }
        },
        _ => {
            proof {
                assert(!trivial_callable_ret(ret@));
            }
            return Err(UnsupportedTypeError {});
        },
    };
    proof {
        assert(trivial_callable_ret(ret@));
        assert(ret_text@ == callable_ret_text(ret@));
    }
    proof {
        lemma_view_type_seq_index(args@);
        assert(view_type_seq(args@).subrange(0, view_type_seq(args@).len() as int)
            =~= view_type_seq(args@));
    }
    let n = args.len();
    let items = match callable_args_prefix(args, n) {
        Ok(v) => v,
        Err(e) => {
            return Err(e);
        },
    };
    let mut out = String::new();
    out.append("Fn(");
    if n > 0 {
        out.append("(");
        out.append(items.as_str());
        out.append(")");
    }
    out.append(") -> ");
    out.append(ret_text.as_str());
    out.append(" + Send + 'static");
    proof {
        if n == 0 {
            assert(out@ =~= "Fn("@ + Seq::<char>::empty() + ") -> "@ + callable_ret_text(ret@)
                + " + Send + 'static"@);
        } else {
            assert(out@ =~= "Fn("@ + ("("@ + items@ + ")"@) + ") -> "@ + callable_ret_text(ret@)
                + " + Send + 'static"@);
        }
    }
    Ok(out)
}

/// Maps a parameter's type to its input-position target text; fails closed
/// on what the mapper cannot represent there.
pub fn as_input_type(t: &Type) -> (r: Result<String, UnsupportedTypeError>)
    ensures
        match r {
            Ok(s) => input_type(t@) == Some(s@),
            Err(_) => input_type(t@) is None,
        },
{
    match t {
        Type::Union { args } => {
            let members = match primitive_members(args) {
                Ok(m) => m,
                Err(e) => {
                    return Err(e);
                },
            };
            let mut out = String::new();
            out.append("impl ");
            let name = union_trait_ident(members);
            out.append(name.as_str());
            proof {
                assert(out@ =~= "impl "@ + name@);
            }
            Ok(out)
        },
        Type::Callable { args, ret } => {
            let bound = match callable_trait_bound(args, ret) {
                Ok(v) => v,
                Err(e) => {
                    return Err(e);
                },
            };
            let mut out = String::new();
            out.append("impl ");
            out.append(bound.as_str());
            proof {
                assert(out@ =~= "impl "@ + bound@);
            }
            Ok(out)
        },
        _ => input_inner_text(t),
    }
}

/// Maps a return type to its output-position target text; fails closed on
/// what the mapper cannot represent there.
pub fn as_output_type(t: &Type) -> (r: Result<String, UnsupportedTypeError>)
    ensures
        match r {
            Ok(s) => output_type(t@) == Some(s@),
            Err(_) => output_type(t@) is None,
        },
    decreases *t, 0int, 0int,
{
    match t {
        Type::Primitive(p) => {
            proof {
                assert(t@ == TypeV::Primitive(*p));
            }
            match p {
                Primitive::Int => Ok("i64".to_owned()),
                Primitive::Float => Ok("f64".to_owned()),
                Primitive::Str => Ok("::pyo3::Py<::pyo3::types::PyString>".to_owned()),
            }
        },
        Type::NoneType => {
            proof {
                assert(t@ == TypeV::NoneType);
            }
            Ok("()".to_owned())
        },
        Type::Ellipsis => {
            proof {
                assert(t@ == TypeV::Ellipsis);
            }
            Ok("::pyo3::Py<::pyo3::PyAny>".to_owned())
        },
        Type::Exception => {
            proof {
                assert(t@ == TypeV::Exception);
            }
            Ok("::pyo3::Py<::pyo3::PyAny>".to_owned())
        },
        Type::Tuple { tags } => {
            proof {
                assert(t@ == TypeV::Tuple { tags: view_type_seq(tags@) });
                lemma_view_type_seq_index(tags@);
                assert(view_type_seq(tags@).subrange(0, view_type_seq(tags@).len() as int)
                    =~= view_type_seq(tags@));
            }
            let n = tags.len();
            match output_items_prefix(tags, n) {
                Ok(items) => {
                    let mut out = String::new();
                    out.append("(");
                    out.append(items.as_str());
                    out.append(")");
                    proof {
                        assert(out@ =~= "("@ + items@ + ")"@);
                    }
                    Ok(out)
                },
                Err(e) => Err(e),
            }
        },
        Type::List { element } => {
            proof {
                assert(t@ == TypeV::List { element: Box::new(view_type(**element)) });
            }
            if contains_union(element) {
                Err(UnsupportedTypeError {})
            } else {
                Ok("::pyo3::Py<::pyo3::types::PyList>".to_owned())
            }
        },
        Type::Dict { key, value } => {
            proof {
                assert(t@ == TypeV::Dict {
                    key: Box::new(view_type(**key)),
                    value: Box::new(view_type(**value)),
                });
            }
            if contains_union(key) || contains_union(value) {
                Err(UnsupportedTypeError {})
            } else {
                Ok("::pyo3::Py<::pyo3::types::PyDict>".to_owned())
            }
        },
        Type::UserDefined { module, name, supertype } => {
            proof {
                assert(t@ == TypeV::UserDefined {
                    module: module@,
                    name: name@,
                    supertype: Box::new(view_type(**supertype)),
                });
            }
            Ok(name.clone())
        },
        Type::Union { args } => {
            proof {
                assert(t@ == TypeV::Union { args: view_type_seq(args@) });
                lemma_view_type_seq_index(args@);
                assert(view_type_seq(args@).subrange(0, view_type_seq(args@).len() as int)
                    =~= view_type_seq(args@));
            }
            let n = args.len();
            match output_items_prefix(args, n) {
                Ok(items) => {
                    let mut out = String::new();
                    out.append("::py2o2_runtime::Enum");
                    push_decimal(&mut out, n);
                    out.append("<");
                    out.append(items.as_str());
                    out.append(">");
                    proof {
                        assert(out@ =~= "::py2o2_runtime::Enum"@ + dec_rep(n as nat) + "<"@ + items@
                            + ">"@);
                    }
                    Ok(out)
                },
                Err(e) => Err(e),
            }
        },
        Type::Callable { args, ret } => {
            proof {
                assert(t@ == TypeV::Callable {
                    args: view_type_seq(args@),
                    ret: Box::new(view_type(**ret)),
                });
            }
            let bound = match callable_trait_bound(args, ret) {
                Ok(v) => v,
                Err(e) => {
                    return Err(e);
                },
            };
            let mut out = String::new();
            out.append("Box<");
            out.append(bound.as_str());
            out.append(">");
            proof {
                assert(out@ =~= "Box<"@ + bound@ + ">"@);
            }
            Ok(out)
        },
    }
}

/// Maps the first `n` members of a type list in output position,
/// comma-separated.
fn output_items_prefix(tags: &Vec<Type>, n: usize) -> (r: Result<String, UnsupportedTypeError>)
    requires
        n <= tags@.len(),
    ensures
        match r {
            Ok(s) => output_items(view_type_seq(tags@).subrange(0, n as int)) == Some(s@),
            Err(_) => output_items(view_type_seq(tags@).subrange(0, n as int)) is None,
        },
    decreases tags@, 1int, n as int,
{
    proof {
        lemma_view_type_seq_index(tags@);
    }
    let ghost s = view_type_seq(tags@);
    if n == 0 {
        proof {
            assert(s.subrange(0, 0) =~= Seq::<TypeV>::empty());
        }
        return Ok(String::new());
    }
    let ghost pre = s.subrange(0, n as int);
    proof {
        assert(pre.subrange(0, n - 1) =~= s.subrange(0, n - 1));
        assert(pre[n - 1] == view_type(tags@[n - 1]));
    }
    let init = match output_items_prefix(tags, n - 1) {
        Ok(v) => v,
        Err(e) => {
            return Err(e);
        },
    };
    let last = match as_output_type(&tags[n - 1]) {
        Ok(v) => v,
        Err(e) => {
            return Err(e);
        },
    };
    if n == 1 {
        Ok(last)
    } else {
        let ghost initv = init@;
        let mut out = init;
        out.append(", ");
        out.append(last.as_str());
        proof {
            assert(out@ =~= initv + ", "@ + last@);
        }
        Ok(out)
    }
}

} // verus!
