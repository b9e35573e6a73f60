//! Wrappers over an example foreign module, in the exact shape the emitter
//! generates them: each one calls the named foreign function through the
//! runtime handle and discards or decodes the result per its return type.

use vstd::prelude::*;

use crate::dispatch::{DispatchError, TypeMismatch};
use crate::resolver::{call_function, spec_call, wf_runtime, ForeignLookupError, PyRuntime};
use crate::value::{kind_of, PyValue, ValueV};

verus! {

/// Calls a foreign function and discards its result: the body of every
/// wrapper whose return type is `none`.
pub fn call_and_discard(rt: &PyRuntime, module: &str, name: &str, args: Vec<PyValue>) -> (r: Result<
    (),
    ForeignLookupError,
>)
    requires
        wf_runtime(rt@),
    ensures
        match r {
            Ok(()) => spec_call(rt@, module@, name@) is Ok,
            Err(e) => spec_call(rt@, module@, name@) == Err::<ValueV, ForeignLookupError>(e),
        },
{
    match call_function(rt, module, name, args) {
        Ok(_) => Ok(()),
        Err(e) => Err(e),
    }
}

/// Calls a foreign function and decodes its result as an integer: the body
/// of a wrapper whose return type is the `int` primitive.
pub fn call_and_extract_int(rt: &PyRuntime, module: &str, name: &str, args: Vec<PyValue>) -> (r:
    Result<i64, DispatchError>)
    requires
        wf_runtime(rt@),
    ensures
        match r {
            Ok(v) => spec_call(rt@, module@, name@) == Ok::<ValueV, ForeignLookupError>(
                ValueV::Int(v),
            ),
            Err(DispatchError::Lookup(e)) => spec_call(rt@, module@, name@) == Err::<
                ValueV,
                ForeignLookupError,
            >(e),
            Err(DispatchError::Mismatch(tm)) => match spec_call(rt@, module@, name@) {
                Ok(v) => !(v is Int) && tm.actual == kind_of(v),
                Err(_) => false,
            },
        },
{
    let v = match call_function(rt, module, name, args) {
        Ok(v) => v,
        Err(e) => {
            return Err(DispatchError::Lookup(e));
        },
    };
    match v {
        PyValue::Int(i) => Ok(i),
        other => Err(DispatchError::Mismatch(TypeMismatch { actual: other.kind() })),
    }
}

/// Calls a foreign function and decodes its result as a string handle: the
/// body of a wrapper whose return type is the `str` primitive.
pub fn call_and_extract_str(rt: &PyRuntime, module: &str, name: &str, args: Vec<PyValue>) -> (r:
    Result<String, DispatchError>)
    requires
        wf_runtime(rt@),
    ensures
        match r {
            Ok(s) => spec_call(rt@, module@, name@) == Ok::<ValueV, ForeignLookupError>(
                ValueV::Str(s@),
            ),
            Err(DispatchError::Lookup(e)) => spec_call(rt@, module@, name@) == Err::<
                ValueV,
                ForeignLookupError,
            >(e),
            Err(DispatchError::Mismatch(tm)) => match spec_call(rt@, module@, name@) {
                Ok(v) => !(v is Str) && tm.actual == kind_of(v),
                Err(_) => false,
            },
        },
{
    let v = match call_function(rt, module, name, args) {
        Ok(v) => v,
        Err(e) => {
            return Err(DispatchError::Lookup(e));
        },
    };
    match v {
        PyValue::Str(s) => Ok(s),
        other => Err(DispatchError::Mismatch(TypeMismatch { actual: other.kind() })),
    }
}

/// `a1() -> None`.
pub fn a1(py: &PyRuntime) -> (r: Result<(), ForeignLookupError>)
    requires
        wf_runtime(py@),
    ensures
        match r {
            Ok(()) => spec_call(py@, "example"@, "a1"@) is Ok,
            Err(e) => spec_call(py@, "example"@, "a1"@) == Err::<ValueV, ForeignLookupError>(e),
        },
{
    call_and_discard(py, "example", "a1", Vec::new())
}

/// `a2(x: int) -> None`.
pub fn a2(py: &PyRuntime, x: i64) -> (r: Result<(), ForeignLookupError>)
    requires
        wf_runtime(py@),
    ensures
        match r {
            Ok(()) => spec_call(py@, "example"@, "a2"@) is Ok,
            Err(e) => spec_call(py@, "example"@, "a2"@) == Err::<ValueV, ForeignLookupError>(e),
        },
{
    let mut args: Vec<PyValue> = Vec::new();
    args.push(PyValue::Int(x));
    call_and_discard(py, "example", "a2", args)
}

/// `a4() -> int`.
pub fn a4(py: &PyRuntime) -> (r: Result<i64, DispatchError>)
    requires
        wf_runtime(py@),
    ensures
        match r {
            Ok(v) => spec_call(py@, "example"@, "a4"@) == Ok::<ValueV, ForeignLookupError>(
                ValueV::Int(v),
            ),
            Err(DispatchError::Lookup(e)) => spec_call(py@, "example"@, "a4"@) == Err::<
                ValueV,
                ForeignLookupError,
            >(e),
            Err(DispatchError::Mismatch(tm)) => match spec_call(py@, "example"@, "a4"@) {
                Ok(v) => !(v is Int) && tm.actual == kind_of(v),
                Err(_) => false,
            },
        },
{
    call_and_extract_int(py, "example", "a4", Vec::new())
}

/// `a5(x: int) -> str`.
pub fn a5(py: &PyRuntime, x: i64) -> (r: Result<String, DispatchError>)
    requires
        wf_runtime(py@),
    ensures
        match r {
            Ok(s) => spec_call(py@, "example"@, "a5"@) == Ok::<ValueV, ForeignLookupError>(
                ValueV::Str(s@),
            ),
            Err(DispatchError::Lookup(e)) => spec_call(py@, "example"@, "a5"@) == Err::<
                ValueV,
                ForeignLookupError,
            >(e),
            Err(DispatchError::Mismatch(tm)) => match spec_call(py@, "example"@, "a5"@) {
                Ok(v) => !(v is Str) && tm.actual == kind_of(v),
                Err(_) => false,
            },
        },
{
    let mut args: Vec<PyValue> = Vec::new();
    args.push(PyValue::Int(x));
    call_and_extract_str(py, "example", "a5", args)
}

/// Whether a value has the shape a `(int, str)` return decodes: a
/// two-member tuple of an integer and a string.
pub open spec fn is_int_str_pair(v: ValueV) -> bool {
    v is Tuple && v->Tuple_0.len() == 2 && v->Tuple_0[0] is Int && v->Tuple_0[1] is Str
}

/// `a6() -> (int, str)`: decodes the foreign result as a two-member tuple
/// of an integer and a string.
pub fn a6(py: &PyRuntime) -> (r: Result<(i64, String), DispatchError>)
    requires
        wf_runtime(py@),
    ensures
        match r {
            Ok(p) => match spec_call(py@, "example"@, "a6"@) {
                Ok(v) => is_int_str_pair(v) && v->Tuple_0[0] == ValueV::Int(p.0) && v->Tuple_0[1]
                    == ValueV::Str(p.1@),
                Err(_) => false,
            },
            Err(DispatchError::Lookup(e)) => spec_call(py@, "example"@, "a6"@) == Err::<
                ValueV,
                ForeignLookupError,
            >(e),
            Err(DispatchError::Mismatch(_)) => match spec_call(py@, "example"@, "a6"@) {
                Ok(v) => !is_int_str_pair(v),
                Err(_) => false,
            },
        },
{
    let v = match call_function(py, "example", "a6", Vec::new()) {
        Ok(v) => v,
        Err(e) => {
            return Err(DispatchError::Lookup(e));
        },
    };
    let k = v.kind();
    let ghost vv = v@;
    match v {
        PyValue::Tuple(mut vs) => {
            let ghost vs0 = vs@;
            proof {
                crate::value::lemma_view_value_seq_index(vs0);
                assert(vv == ValueV::Tuple(crate::value::view_value_seq(vs0)));
            }
            if vs.len() != 2 {
                return Err(DispatchError::Mismatch(TypeMismatch { actual: k }));
            }
            let second = vs.pop().unwrap();
            let first = vs.pop().unwrap();
            proof {
                assert(first == vs0[0]);
                assert(second == vs0[1]);
                assert(vv->Tuple_0[0] == crate::value::view_value(vs0[0]));
                assert(vv->Tuple_0[1] == crate::value::view_value(vs0[1]));
            }
            match (first, second) {
                (PyValue::Int(a), PyValue::Str(s)) => Ok((a, s)),
                (_, _) => Err(DispatchError::Mismatch(TypeMismatch { actual: k })),
            }
        },
        _ => Err(DispatchError::Mismatch(TypeMismatch { actual: k })),
    }
}

} // verus!
