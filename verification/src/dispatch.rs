//! The runtime tagged-union dispatcher: given an opaque runtime value and
//! the branch types of a union, it tries each branch's type probe strictly
//! in declaration order and yields the first branch whose probe matches.
//! Declaration order is the tie-break policy: a value that satisfies two
//! probes extracts as the earlier branch. A value matching no probe is an
//! explicit [`TypeMismatch`] carrying the value's runtime type; a probe of
//! a user-defined type whose qualified path does not resolve is a
//! [`ForeignLookupError`], kept distinct from a mismatch.

use vstd::prelude::*;

use crate::resolver::{
    is_type_of, locate_type, spec_is_type_of, spec_locate, wf_runtime, ForeignLookupError,
    PyRuntime, PyRuntimeV,
};
use crate::schema::{lemma_view_type_seq_index, view_type, view_type_seq, Primitive, Type, TypeV};
use crate::value::{kind_of, Kind, PyValue, ValueV};

verus! {

/// No branch's probe matched the value; carries the value's runtime type
/// for diagnostics.
#[derive(Debug, Clone, Copy, PartialEq, Eq, Structural)]
pub struct TypeMismatch {
    pub actual: Kind,
}

/// Why a dispatch failed: every probe said no, or a probe could not even
/// be run because its type's path did not resolve.
#[derive(Debug, Clone, Copy, PartialEq, Eq, Structural)]
pub enum DispatchError {
    Mismatch(TypeMismatch),
    Lookup(ForeignLookupError),
}

/// What one branch's type probe says of a value: a shallow tag test for
/// the built-in shapes, an instance test (subtypes included) for a
/// user-defined type, a recursive any-branch test for a nested union, and
/// always true for the opaque any-value sentinels.
pub open spec fn spec_probe(rt: PyRuntimeV, t: TypeV, v: ValueV) -> Result<
    bool,
    ForeignLookupError,
>
    decreases t, 0int,
{
    match t {
        TypeV::Primitive(p) => Ok(
            match p {
                Primitive::Int => v is Int,
                Primitive::Float => v is Float,
                Primitive::Str => v is Str,
            },
        ),
        TypeV::NoneType => Ok(v is NoneVal),
        TypeV::Tuple { .. } => Ok(v is Tuple),
        TypeV::List { .. } => Ok(v is List),
        TypeV::Dict { .. } => Ok(v is Dict),
        TypeV::Callable { .. } => Ok(v is Callable),
        TypeV::Ellipsis => Ok(true),
        TypeV::Exception => Ok(true),
        TypeV::UserDefined { module, name, .. } => match spec_locate(rt, module, name) {
            Ok(c) => Ok(spec_is_type_of(rt, c, v)),
            Err(e) => Err(e),
        },
        TypeV::Union { args } => spec_probe_any(rt, args, v),
    }
}

/// Whether any branch's probe matches; the first probe failure wins.
pub open spec fn spec_probe_any(rt: PyRuntimeV, ts: Seq<TypeV>, v: ValueV) -> Result<
    bool,
    ForeignLookupError,
>
    decreases ts, 1int,
{
    if ts.len() == 0 {
        Ok(false)
    } else {
        match spec_probe(rt, ts[0], v) {
            Err(e) => Err(e),
            Ok(true) => Ok(true),
            Ok(false) => spec_probe_any(rt, ts.skip(1), v),
        }
    }
}

/// Runs one branch's type probe.
pub fn probe(rt: &PyRuntime, t: &Type, v: &PyValue) -> (r: Result<bool, ForeignLookupError>)
    requires
        wf_runtime(rt@),
    ensures
        r == spec_probe(rt@, t@, v@),
    decreases *t, 0int,
{
    let k = v.kind();
    match t {
        Type::Primitive(p) => {
            proof {
                assert(t@ == TypeV::Primitive(*p));
            }
            Ok(
                match p {
                    Primitive::Int => matches!(k, Kind::IntKind),
                    Primitive::Float => matches!(k, Kind::FloatKind),
                    Primitive::Str => matches!(k, Kind::StrKind),
                },
            )
        },
        Type::NoneType => {
            proof {
                assert(t@ == TypeV::NoneType);
            }
            Ok(matches!(k, Kind::NoneKind))
        },
        Type::Tuple { tags } => {
            proof {
                assert(t@ == TypeV::Tuple { tags: view_type_seq(tags@) });
            }
            Ok(matches!(k, Kind::TupleKind))
        },
        Type::List { element } => {
            proof {
                assert(t@ == TypeV::List { element: Box::new(view_type(**element)) });
            }
            Ok(matches!(k, Kind::ListKind))
        },
        Type::Dict { key, value } => {
            proof {
                assert(t@ == TypeV::Dict {
                    key: Box::new(view_type(**key)),
                    value: Box::new(view_type(**value)),
                });
            }
            Ok(matches!(k, Kind::DictKind))
        },
        Type::Callable { args, ret } => {
            proof {
                assert(t@ == TypeV::Callable {
                    args: view_type_seq(args@),
                    ret: Box::new(view_type(**ret)),
                });
            }
            Ok(matches!(k, Kind::CallableKind))
        },
        Type::Ellipsis => {
            proof {
                assert(t@ == TypeV::Ellipsis);
            }
            Ok(true)
        },
        Type::Exception => {
            proof {
                assert(t@ == TypeV::Exception);
            }
            Ok(true)
        },
        Type::UserDefined { module, name, supertype } => {
            proof {
                assert(t@ == TypeV::UserDefined {
                    module: module@,
                    name: name@,
                    supertype: Box::new(view_type(**supertype)),
                });
            }
            match locate_type(rt, module.as_str(), name.as_str()) {
                Ok(c) => Ok(is_type_of(rt, c, v)),
                Err(e) => Err(e),
            }
        },
        Type::Union { args } => {
            proof {
                assert(t@ == TypeV::Union { args: view_type_seq(args@) });
                lemma_view_type_seq_index(args@);
                assert(view_type_seq(args@).skip(0) =~= view_type_seq(args@));
            }
            probe_any_from(rt, args, 0, v)
        },
    }
}

/// Runs the probes of `ts[k..]`, first match or first failure winning.
fn probe_any_from(rt: &PyRuntime, ts: &Vec<Type>, k: usize, v: &PyValue) -> (r: Result<
    bool,
    ForeignLookupError,
>)
    requires
        wf_runtime(rt@),
        k <= ts@.len(),
    ensures
        r == spec_probe_any(rt@, view_type_seq(ts@).skip(k as int), v@),
    decreases ts@, 1int, ts@.len() - k,
{
    proof {
        lemma_view_type_seq_index(ts@);
    }
    let ghost s = view_type_seq(ts@);
    if k == ts.len() {
        proof {
            assert(s.skip(k as int) =~= Seq::<TypeV>::empty());
        }
        return Ok(false);
    }
    proof {
        assert(s.skip(k as int)[0] == view_type(ts@[k as int]));
        assert(s.skip(k as int).skip(1) =~= s.skip(k + 1));
    }
    match probe(rt, &ts[k], v) {
        Err(e) => Err(e),
        Ok(true) => Ok(true),
        Ok(false) => probe_any_from(rt, ts, k + 1, v),
    }
}

/// What dispatching a value over a branch list yields: the index of the
/// first branch whose probe matches, a [`TypeMismatch`] when every probe
/// says no, or the first probe failure.
pub open spec fn spec_dispatch(rt: PyRuntimeV, ts: Seq<TypeV>, v: ValueV) -> Result<
    int,
    DispatchError,
>
    decreases ts,
{
    if ts.len() == 0 {
        Err(DispatchError::Mismatch(TypeMismatch { actual: kind_of(v) }))
    } else {
        match spec_probe(rt, ts[0], v) {
            Err(e) => Err(DispatchError::Lookup(e)),
            Ok(true) => Ok(0),
            Ok(false) => match spec_dispatch(rt, ts.skip(1), v) {
                Ok(i) => Ok(i + 1),
                Err(e) => Err(e),
            },
        }
    }
}

/// Dispatches a value over the branches of a union: tries each branch's
/// probe strictly in declaration order and yields the index of the first
/// that matches. A value matching no branch is a [`TypeMismatch`] carrying
/// the value's runtime type; a branch whose type cannot be resolved stops
/// the dispatch with that lookup failure.
pub fn dispatch(rt: &PyRuntime, branches: &Vec<Type>, v: &PyValue) -> (r: Result<
    usize,
    DispatchError,
>)
    requires
        wf_runtime(rt@),
    ensures
        match r {
            Ok(i) => spec_dispatch(rt@, view_type_seq(branches@), v@) == Ok::<int, DispatchError>(
                i as int,
            ),
            Err(e) => spec_dispatch(rt@, view_type_seq(branches@), v@) == Err::<
                int,
                DispatchError,
            >(e),
        },
{
    proof {
        lemma_view_type_seq_index(branches@);
        assert(view_type_seq(branches@).skip(0) =~= view_type_seq(branches@));
    }
    dispatch_from(rt, branches, 0, v)
}

/// Dispatches over `branches[k..]`, yielding an index into the whole list.
fn dispatch_from(rt: &PyRuntime, branches: &Vec<Type>, k: usize, v: &PyValue) -> (r: Result<
    usize,
    DispatchError,
>)
    requires
        wf_runtime(rt@),
        k <= branches@.len(),
    ensures
        match r {
            Ok(i) => k <= i && spec_dispatch(rt@, view_type_seq(branches@).skip(k as int), v@)
                == Ok::<int, DispatchError>(i - k),
            Err(e) => spec_dispatch(rt@, view_type_seq(branches@).skip(k as int), v@) == Err::<
                int,
                DispatchError,
            >(e),
        },
    decreases branches@.len() - k,
{
    proof {
        lemma_view_type_seq_index(branches@);
    }
    let ghost s = view_type_seq(branches@);
    if k == branches.len() {
        proof {
            assert(s.skip(k as int) =~= Seq::<TypeV>::empty());
        }
        return Err(DispatchError::Mismatch(TypeMismatch { actual: v.kind() }));
    }
    proof {
        assert(s.skip(k as int)[0] == view_type(branches@[k as int]));
        assert(s.skip(k as int).skip(1) =~= s.skip(k + 1));
    }
    match probe(rt, &branches[k], v) {
        Err(e) => Err(DispatchError::Lookup(e)),
        Ok(true) => Ok(k),
        Ok(false) => match dispatch_from(rt, branches, k + 1, v) {
            Ok(i) => Ok(i),
            Err(e) => Err(e),
        },
    }
}

/// The dispatcher's behaviour, characterized branch by branch: a dispatch
/// yields the index of the first branch whose probe matches, with every
/// earlier probe saying no; it yields a mismatch carrying the value's
/// runtime type exactly when every probe says no; and it yields a lookup
/// failure exactly when some probe fails after all earlier probes said no.
pub proof fn lemma_dispatch_characterization(rt: PyRuntimeV, ts: Seq<TypeV>, v: ValueV)
    ensures
        match spec_dispatch(rt, ts, v) {
            Ok(i) => 0 <= i < ts.len() && spec_probe(rt, ts[i], v) == Ok::<
                bool,
                ForeignLookupError,
            >(true) && forall|k: int|
                0 <= k < i ==> spec_probe(rt, #[trigger] ts[k], v) == Ok::<
                    bool,
                    ForeignLookupError,
                >(false),
            Err(DispatchError::Mismatch(tm)) => tm.actual == kind_of(v) && forall|k: int|
                0 <= k < ts.len() ==> spec_probe(rt, #[trigger] ts[k], v) == Ok::<
                    bool,
                    ForeignLookupError,
                >(false),
            Err(DispatchError::Lookup(e)) => exists|i: int|
                0 <= i < ts.len() && spec_probe(rt, #[trigger] ts[i], v) == Err::<
                    bool,
                    ForeignLookupError,
                >(e) && forall|k: int|
                    0 <= k < i ==> spec_probe(rt, #[trigger] ts[k], v) == Ok::<
                        bool,
                        ForeignLookupError,
                    >(false),
        },
    decreases ts,
{
    if ts.len() > 0 {
        match spec_probe(rt, ts[0], v) {
            Err(e) => {
                assert(ts[0] == ts[0]);
            },
            Ok(true) => {
            },
            Ok(false) => {
                lemma_dispatch_characterization(rt, ts.skip(1), v);
                let rest = spec_dispatch(rt, ts.skip(1), v);
                match rest {
                    Ok(i) => {
                        assert(ts.skip(1)[i] == ts[i + 1]);
                        assert forall|k: int|
                            0 <= k < i + 1 implies spec_probe(rt, #[trigger] ts[k], v) == Ok::<
                            bool,
                            ForeignLookupError,
                        >(false) by {
                            if k > 0 {
                                assert(ts.skip(1)[k - 1] == ts[k]);
                            }
                        }
                    },
                    Err(DispatchError::Mismatch(_)) => {
                        assert forall|k: int|
                            0 <= k < ts.len() implies spec_probe(rt, #[trigger] ts[k], v) == Ok::<
                            bool,
                            ForeignLookupError,
                        >(false) by {
                            if k > 0 {
                                assert(ts.skip(1)[k - 1] == ts[k]);
                            }
                        }
                    },
                    Err(DispatchError::Lookup(e)) => {
                        let i = choose|i: int|
                            0 <= i < ts.skip(1).len() && spec_probe(rt, #[trigger] ts.skip(1)[i], v)
                                == Err::<bool, ForeignLookupError>(e) && forall|k: int|
                                0 <= k < i ==> spec_probe(rt, #[trigger] ts.skip(1)[k], v) == Ok::<
                                    bool,
                                    ForeignLookupError,
                                >(false);
                        assert(ts.skip(1)[i] == ts[i + 1]);
                        assert forall|k: int|
                            0 <= k < i + 1 implies spec_probe(rt, #[trigger] ts[k], v) == Ok::<
                            bool,
                            ForeignLookupError,
                        >(false) by {
                            if k > 0 {
                                assert(ts.skip(1)[k - 1] == ts[k]);
                            }
                        }
                        assert(0 <= i + 1 < ts.len() && spec_probe(rt, ts[i + 1], v) == Err::<
                            bool,
                            ForeignLookupError,
                        >(e));
                    },
                }
            },
        }
    }
}

/// Dispatch order is the tie-break policy: when a value satisfies the
/// probes of two branches, dispatch resolves to the earlier one — the
/// result is never the later of the two.
pub proof fn lemma_dispatch_order(rt: PyRuntimeV, ts: Seq<TypeV>, v: ValueV, i: int, j: int)
    requires
        0 <= i < j < ts.len(),
        spec_probe(rt, ts[i], v) == Ok::<bool, ForeignLookupError>(true),
        spec_probe(rt, ts[j], v) == Ok::<bool, ForeignLookupError>(true),
    ensures
        spec_dispatch(rt, ts, v) != Ok::<int, DispatchError>(j),
        match spec_dispatch(rt, ts, v) {
            Ok(w) => w <= i,
            Err(e) => e is Lookup,
        },
{
    lemma_dispatch_characterization(rt, ts, v);
    match spec_dispatch(rt, ts, v) {
        Ok(w) => {
            if w > i {
                assert(spec_probe(rt, ts[i], v) == Ok::<bool, ForeignLookupError>(false));
            }
        },
        Err(DispatchError::Mismatch(_)) => {
            assert(spec_probe(rt, ts[i], v) == Ok::<bool, ForeignLookupError>(false));
        },
        Err(DispatchError::Lookup(_)) => {
        },
    }
}

/// Total failure is explicit: a value matching no branch's probe yields a
/// `TypeMismatch` carrying the value's runtime type — and a mismatch is
/// yielded only then.
pub proof fn lemma_dispatch_mismatch(rt: PyRuntimeV, ts: Seq<TypeV>, v: ValueV)
    requires
        forall|k: int|
            0 <= k < ts.len() ==> spec_probe(rt, #[trigger] ts[k], v) == Ok::<
                bool,
                ForeignLookupError,
            >(false),
    ensures
        spec_dispatch(rt, ts, v) == Err::<int, DispatchError>(
            DispatchError::Mismatch(TypeMismatch { actual: kind_of(v) }),
        ),
    decreases ts,
{
    if ts.len() > 0 {
        assert(spec_probe(rt, ts[0], v) == Ok::<bool, ForeignLookupError>(false));
        assert forall|k: int|
            0 <= k < ts.skip(1).len() implies spec_probe(rt, #[trigger] ts.skip(1)[k], v) == Ok::<
            bool,
            ForeignLookupError,
        >(false) by {
            assert(ts.skip(1)[k] == ts[k + 1]);
        }
        lemma_dispatch_mismatch(rt, ts.skip(1), v);
    }
}

} // verus!
