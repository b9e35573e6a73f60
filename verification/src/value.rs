//! The model of a foreign runtime value: what the runtime library's type
//! probes read of a value. A floating-point payload is carried as its raw
//! bit pattern, which the probes never interpret; an instance of a
//! user-defined type carries the identifier of its class in the foreign
//! runtime's class table.

use vstd::prelude::*;
use vstd::string::StringExecFns;

verus! {

/// A foreign runtime value, as the runtime library models it.
#[derive(Debug, PartialEq, Eq)]
pub enum PyValue {
    NoneVal,
    Int(i64),
    Float(u64),
    Str(String),
    Tuple(Vec<PyValue>),
    List(Vec<PyValue>),
    Dict(Vec<(PyValue, PyValue)>),
    Instance { class: usize },
    Callable { arity: usize },
}

/// The mathematical mirror of [`PyValue`].
pub enum ValueV {
    NoneVal,
    Int(i64),
    Float(u64),
    Str(Seq<char>),
    Tuple(Seq<ValueV>),
    List(Seq<ValueV>),
    Dict(Seq<(ValueV, ValueV)>),
    Instance { class: usize },
    Callable { arity: usize },
}

pub open spec fn view_value_seq(vs: Seq<PyValue>) -> Seq<ValueV>
    decreases vs,
{
    if vs.len() == 0 {
        Seq::empty()
    } else {
        view_value_seq(vs.subrange(0, vs.len() - 1)).push(view_value(vs[vs.len() - 1]))
    }
}

pub open spec fn view_value_pairs(vs: Seq<(PyValue, PyValue)>) -> Seq<(ValueV, ValueV)>
    decreases vs,
{
    if vs.len() == 0 {
        Seq::empty()
    } else {
        view_value_pairs(vs.subrange(0, vs.len() - 1)).push(
            (view_value(vs[vs.len() - 1].0), view_value(vs[vs.len() - 1].1)),
        )
    }
}

pub open spec fn view_value(v: PyValue) -> ValueV
    decreases v,
{
    match v {
        PyValue::NoneVal => ValueV::NoneVal,
        PyValue::Int(i) => ValueV::Int(i),
        PyValue::Float(b) => ValueV::Float(b),
        PyValue::Str(s) => ValueV::Str(s@),
        PyValue::Tuple(vs) => ValueV::Tuple(view_value_seq(vs@)),
        PyValue::List(vs) => ValueV::List(view_value_seq(vs@)),
        PyValue::Dict(ps) => ValueV::Dict(view_value_pairs(ps@)),
        PyValue::Instance { class } => ValueV::Instance { class },
        PyValue::Callable { arity } => ValueV::Callable { arity },
    }
}

impl View for PyValue {
    type V = ValueV;

    open spec fn view(&self) -> ValueV {
        view_value(*self)
    }
}

/// The view of a value sequence is as long as the sequence and views it
/// pointwise.
pub proof fn lemma_view_value_seq_index(vs: Seq<PyValue>)
    ensures
        view_value_seq(vs).len() == vs.len(),
        forall|i: int| 0 <= i < vs.len() ==> view_value_seq(vs)[i] == view_value(#[trigger] vs[i]),
    decreases vs.len(),
{
    if vs.len() > 0 {
        lemma_view_value_seq_index(vs.subrange(0, vs.len() - 1));
        assert forall|i: int| 0 <= i < vs.len() implies view_value_seq(vs)[i] == view_value(
            #[trigger] vs[i],
        ) by {
            if i < vs.len() - 1 {
                assert(vs.subrange(0, vs.len() - 1)[i] == vs[i]);
            }
        }
    }
}

/// The tag of a runtime value: what a [`crate::dispatch::TypeMismatch`]
/// reports of the value that matched no branch.
#[derive(Debug, Clone, Copy, PartialEq, Eq, Structural)]
pub enum Kind {
    NoneKind,
    IntKind,
    FloatKind,
    StrKind,
    TupleKind,
    ListKind,
    DictKind,
    InstanceKind { class: usize },
    CallableKind,
}

/// The tag of a value.
pub open spec fn kind_of(v: ValueV) -> Kind {
    match v {
        ValueV::NoneVal => Kind::NoneKind,
        ValueV::Int(_) => Kind::IntKind,
        ValueV::Float(_) => Kind::FloatKind,
        ValueV::Str(_) => Kind::StrKind,
        ValueV::Tuple(_) => Kind::TupleKind,
        ValueV::List(_) => Kind::ListKind,
        ValueV::Dict(_) => Kind::DictKind,
        ValueV::Instance { class } => Kind::InstanceKind { class },
        ValueV::Callable { .. } => Kind::CallableKind,
    }
}

impl PyValue {
    /// The tag of this value.
    pub fn kind(&self) -> (r: Kind)
        ensures
            r == kind_of(self@),
    {
        match self {
            PyValue::NoneVal => Kind::NoneKind,
            PyValue::Int(_) => Kind::IntKind,
            PyValue::Float(_) => Kind::FloatKind,
            PyValue::Str(_) => Kind::StrKind,
            PyValue::Tuple(_) => Kind::TupleKind,
            PyValue::List(_) => Kind::ListKind,
            PyValue::Dict(_) => Kind::DictKind,
            PyValue::Instance { class } => Kind::InstanceKind { class: *class },
            PyValue::Callable { .. } => Kind::CallableKind,
        }
    }
}

/// Copies a runtime value; the copy has the same view.
pub fn clone_value(v: &PyValue) -> (r: PyValue)
    ensures
        r@ == v@,
    decreases *v, 0int,
{
    match v {
        PyValue::NoneVal => PyValue::NoneVal,
        PyValue::Int(i) => PyValue::Int(*i),
        PyValue::Float(b) => PyValue::Float(*b),
        PyValue::Str(s) => PyValue::Str(s.clone()),
        PyValue::Tuple(vs) => {
            let n = vs.len();
            let c = clone_value_prefix(vs, n);
            proof {
                assert(vs@.subrange(0, vs@.len() as int) =~= vs@);
                assert(v@ == ValueV::Tuple(view_value_seq(vs@)));
            }
            PyValue::Tuple(c)
        },
        PyValue::List(vs) => {
            let n = vs.len();
            let c = clone_value_prefix(vs, n);
            proof {
                assert(vs@.subrange(0, vs@.len() as int) =~= vs@);
                assert(v@ == ValueV::List(view_value_seq(vs@)));
            }
            PyValue::List(c)
        },
        PyValue::Dict(ps) => {
            let n = ps.len();
            let c = clone_pairs_prefix(ps, n);
            proof {
                assert(ps@.subrange(0, ps@.len() as int) =~= ps@);
                assert(v@ == ValueV::Dict(view_value_pairs(ps@)));
            }
            PyValue::Dict(c)
        },
        PyValue::Instance { class } => PyValue::Instance { class: *class },
        PyValue::Callable { arity } => PyValue::Callable { arity: *arity },
    }
}

/// Copies the first `n` members of a value list.
fn clone_value_prefix(vs: &Vec<PyValue>, n: usize) -> (r: Vec<PyValue>)
    requires
        n <= vs@.len(),
    ensures
        view_value_seq(r@) == view_value_seq(vs@.subrange(0, n as int)),
        r@.len() == n,
    decreases vs@, 1int, n as int,
{
    if n == 0 {
        let r: Vec<PyValue> = Vec::new();
        proof {
            assert(vs@.subrange(0, 0) =~= Seq::<PyValue>::empty());
            assert(r@ =~= Seq::<PyValue>::empty());
        }
        return r;
    }
    let mut r = clone_value_prefix(vs, n - 1);
    let c = clone_value(&vs[n - 1]);
    let ghost rv = r@;
    r.push(c);
    proof {
        let pre = vs@.subrange(0, n as int);
        assert(pre.subrange(0, n - 1) =~= vs@.subrange(0, n - 1));
        assert(pre[n - 1] == vs@[n - 1]);
        lemma_view_value_seq_push(rv, c);
        lemma_view_value_seq_push_general(vs@, n as int);
        assert(r@ =~= rv.push(c));
    }
    r
}

/// Copies the first `n` members of a pair list.
fn clone_pairs_prefix(ps: &Vec<(PyValue, PyValue)>, n: usize) -> (r: Vec<(PyValue, PyValue)>)
    requires
        n <= ps@.len(),
    ensures
        view_value_pairs(r@) == view_value_pairs(ps@.subrange(0, n as int)),
        r@.len() == n,
    decreases ps@, 1int, n as int,
{
    if n == 0 {
        let r: Vec<(PyValue, PyValue)> = Vec::new();
        proof {
            assert(ps@.subrange(0, 0) =~= Seq::<(PyValue, PyValue)>::empty());
            assert(r@ =~= Seq::<(PyValue, PyValue)>::empty());
        }
        return r;
    }
    let mut r = clone_pairs_prefix(ps, n - 1);
    let c0 = clone_value(&ps[n - 1].0);
    let c1 = clone_value(&ps[n - 1].1);
    let ghost rv = r@;
    r.push((c0, c1));
    proof {
        let pre = ps@.subrange(0, n as int);
        assert(pre.subrange(0, n - 1) =~= ps@.subrange(0, n - 1));
        assert(pre[n - 1] == ps@[n - 1]);
        assert(r@ =~= rv.push((c0, c1)));
        lemma_view_value_pairs_push(rv, (c0, c1));
    }
    r
}

/// Viewing a pushed pair list views the pushed pair last.
pub proof fn lemma_view_value_pairs_push(ps: Seq<(PyValue, PyValue)>, p: (PyValue, PyValue))
    ensures
        view_value_pairs(ps.push(p)) == view_value_pairs(ps).push(
            (view_value(p.0), view_value(p.1)),
        ),
{
    assert(ps.push(p).subrange(0, ps.push(p).len() - 1) =~= ps);
    assert(ps.push(p)[ps.push(p).len() - 1] == p);
}

/// Viewing a pushed list views the pushed member last.
pub proof fn lemma_view_value_seq_push(vs: Seq<PyValue>, v: PyValue)
    ensures
        view_value_seq(vs.push(v)) == view_value_seq(vs).push(view_value(v)),
{
    assert(vs.push(v).subrange(0, vs.push(v).len() - 1) =~= vs);
    assert(vs.push(v)[vs.push(v).len() - 1] == v);
}

/// Viewing one more member of a list extends the view by that member.
pub proof fn lemma_view_value_seq_push_general(vs: Seq<PyValue>, n: int)
    requires
        0 < n <= vs.len(),
    ensures
        view_value_seq(vs.subrange(0, n)) == view_value_seq(vs.subrange(0, n - 1)).push(
            view_value(vs[n - 1]),
        ),
{
    let pre = vs.subrange(0, n);
    assert(pre.subrange(0, n - 1) =~= vs.subrange(0, n - 1));
    assert(pre[n - 1] == vs[n - 1]);
}

} // verus!
