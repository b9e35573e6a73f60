//! The foreign-callable adapter's decoding discipline: when the foreign
//! runtime invokes a wrapped closure, the positional arguments it supplies
//! are decoded against the closure's parameter types, in order, before the
//! closure runs. In the model a decoded argument is the value itself; what
//! the adapter adds is the check that each argument matches its parameter's
//! type probe and that the arity is right, failing closed otherwise.

use vstd::prelude::*;

use crate::dispatch::{spec_probe, DispatchError, TypeMismatch};
use crate::resolver::{wf_runtime, ForeignLookupError, PyRuntime, PyRuntimeV};
use crate::schema::{lemma_view_type_seq_index, view_type_seq, Type, TypeV};
use crate::value::{clone_value, kind_of, lemma_view_value_seq_index, view_value, view_value_seq,
    PyValue, ValueV};

verus! {

/// Why adapting a foreign invocation failed: the foreign runtime supplied
/// the wrong number of positional arguments, or some argument failed its
/// parameter's probe (or the probe's own lookup failed).
#[derive(Debug, Clone, Copy, PartialEq, Eq, Structural)]
pub enum AdapterError {
    ArityMismatch,
    Value(DispatchError),
}

/// What decoding a foreign argument list against the parameter types
/// yields: the arguments themselves when the arity is right and each
/// argument passes its parameter's probe; the first failure otherwise.
pub open spec fn spec_decode_args(rt: PyRuntimeV, ps: Seq<TypeV>, vs: Seq<ValueV>) -> Result<
    Seq<ValueV>,
    AdapterError,
>
    decreases ps,
{
    if ps.len() != vs.len() {
        Err(AdapterError::ArityMismatch)
    } else if ps.len() == 0 {
        Ok(Seq::empty())
    } else {
        match spec_probe(rt, ps[0], vs[0]) {
            Err(e) => Err(AdapterError::Value(DispatchError::Lookup(e))),
            Ok(false) => Err(
                AdapterError::Value(
                    DispatchError::Mismatch(TypeMismatch { actual: kind_of(vs[0]) }),
                ),
            ),
            Ok(true) => match spec_decode_args(rt, ps.skip(1), vs.skip(1)) {
                Ok(rest) => Ok(seq![vs[0]] + rest),
                Err(e) => Err(e),
            },
        }
    }
}

/// Decodes the foreign-supplied positional arguments against the closure's
/// parameter types, strictly in order; yields the decoded arguments, or
/// the first failure, exactly as [`spec_decode_args`] says.
pub fn decode_args(rt: &PyRuntime, params: &Vec<Type>, args: &Vec<PyValue>) -> (r: Result<
    Vec<PyValue>,
    AdapterError,
>)
    requires
        wf_runtime(rt@),
    ensures
        match r {
            Ok(vs) => spec_decode_args(rt@, view_type_seq(params@), view_value_seq(args@)) == Ok::<
                Seq<ValueV>,
                AdapterError,
            >(view_value_seq(vs@)),
            Err(e) => spec_decode_args(rt@, view_type_seq(params@), view_value_seq(args@)) == Err::<
                Seq<ValueV>,
                AdapterError,
            >(e),
        },
{
    proof {
        lemma_view_type_seq_index(params@);
        lemma_view_value_seq_index(args@);
        assert(view_type_seq(params@).skip(0) =~= view_type_seq(params@));
        assert(view_value_seq(args@).skip(0) =~= view_value_seq(args@));
    }
    decode_args_from(rt, params, args, 0)
}

/// Decodes the arguments from position `k` on.
fn decode_args_from(rt: &PyRuntime, params: &Vec<Type>, args: &Vec<PyValue>, k: usize) -> (r:
    Result<Vec<PyValue>, AdapterError>)
    requires
        wf_runtime(rt@),
        k <= params@.len(),
        k <= args@.len(),
    ensures
        match r {
            Ok(vs) => spec_decode_args(
                rt@,
                view_type_seq(params@).skip(k as int),
                view_value_seq(args@).skip(k as int),
            ) == Ok::<Seq<ValueV>, AdapterError>(view_value_seq(vs@)),
            Err(e) => spec_decode_args(
                rt@,
                view_type_seq(params@).skip(k as int),
                view_value_seq(args@).skip(k as int),
            ) == Err::<Seq<ValueV>, AdapterError>(e),
        },
    decreases params@.len() - k,
{
    proof {
        lemma_view_type_seq_index(params@);
        lemma_view_value_seq_index(args@);
    }
    let ghost ps = view_type_seq(params@).skip(k as int);
    let ghost vs = view_value_seq(args@).skip(k as int);
    if params.len() - k != args.len() - k {
        return Err(AdapterError::ArityMismatch);
    }
    if k == params.len() {
        let r: Vec<PyValue> = Vec::new();
        proof {
            assert(vs =~= Seq::<ValueV>::empty());
            assert(ps =~= Seq::<TypeV>::empty());
            assert(view_value_seq(r@) =~= Seq::<ValueV>::empty());
        }
        return Ok(r);
    }
    proof {
        assert(ps[0] == view_type_seq(params@)[k as int]);
        assert(vs[0] == view_value_seq(args@)[k as int]);
        assert(ps.skip(1) =~= view_type_seq(params@).skip(k + 1));
        assert(vs.skip(1) =~= view_value_seq(args@).skip(k + 1));
    }
    let ok = match crate::dispatch::probe(rt, &params[k], &args[k]) {
        Ok(b) => b,
        Err(e) => {
            return Err(AdapterError::Value(DispatchError::Lookup(e)));
        },
    };
    if !ok {
        return Err(
            AdapterError::Value(DispatchError::Mismatch(TypeMismatch { actual: args[k].kind() })),
        );
    }
    let rest = match decode_args_from(rt, params, args, k + 1) {
        Ok(v) => v,
        Err(e) => {
            return Err(e);
        },
    };
    let first = clone_value(&args[k]);
    proof {
        assert(first@ == vs[0]);
    }
    let mut out: Vec<PyValue> = Vec::new();
    out.push(first);
    let mut j: usize = 0;
    let n = rest.len();
    while j < n
        invariant
            j <= n,
            n == rest@.len(),
            out@.len() == 1 + j,
            view_value(out@[0]) == vs[0],
            vs == view_value_seq(args@).skip(k as int),
            forall|x: int|
                1 <= x < 1 + j ==> view_value(#[trigger] out@[x]) == view_value(rest@[x - 1]),
        decreases n - j,
    {
        let c = clone_value(&rest[j]);
        proof {
            assert(c@ == rest@[j as int]@);
        }
        out.push(c);
        proof {
            assert(view_value(out@[1 + j as int]) == view_value(rest@[j as int]));
        }
        j = j + 1;
    }
    proof {
        lemma_view_value_seq_index(out@);
        lemma_view_value_seq_index(rest@);
        let lhs = view_value_seq(out@);
        let rhs = seq![vs[0]] + view_value_seq(rest@);
        assert forall|i: int| 0 <= i < lhs.len() implies lhs[i] == rhs[i] by {
            assert(lhs[i] == view_value(out@[i]));
            if i == 0 {
                assert(rhs[0] == vs[0]);
            } else {
                assert(view_value(out@[i]) == view_value(rest@[i - 1]));
                assert(rhs[i] == view_value_seq(rest@)[i - 1]);
            }
        }
        assert(lhs =~= rhs);
    }
    Ok(out)
}

/// In the model the decoded form of a value is the value itself: a
/// decoding that succeeds returns the arguments unchanged.
pub proof fn lemma_decode_identity(rt: PyRuntimeV, ps: Seq<TypeV>, vs: Seq<ValueV>)
    requires
        spec_decode_args(rt, ps, vs) is Ok,
    ensures
        spec_decode_args(rt, ps, vs) == Ok::<Seq<ValueV>, AdapterError>(vs),
    decreases ps,
{
    if ps.len() == 0 {
        assert(vs =~= Seq::<ValueV>::empty());
    } else {
        lemma_decode_identity(rt, ps.skip(1), vs.skip(1));
        assert(seq![vs[0]] + vs.skip(1) =~= vs);
    }
}

} // verus!
