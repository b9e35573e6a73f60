//! Wrappers over a foreign module whose schema uses nominal aliases: the
//! generated newtype over the mapped `int` output type, with its identity
//! conversion back across the boundary, and the wrappers that use it.

use vstd::prelude::*;
use vstd::string::StrSliceExecFns;

use crate::dispatch::DispatchError;
use crate::example::{call_and_discard, call_and_extract_str};
use crate::resolver::{spec_call, wf_runtime, ForeignLookupError, PyRuntime};
use crate::value::{PyValue, ValueV};

verus! {

/// The nominal wrapper a `TypeDefinition` over the `int` primitive
/// generates: one public field, nothing else.
#[derive(Debug, PartialEq, Eq, PartialOrd, Ord, Hash)]
pub struct UserId(pub i64);

impl UserId {
    /// The identity conversion back to the plain integer that crosses the
    /// boundary.
    pub fn into_inner(self) -> (r: i64)
        ensures
            r == self.0,
    {
        self.0
    }
}

/// `broadcast_message(message: str, servers: list) -> None`.
pub fn broadcast_message(py: &PyRuntime, message: &str, servers: Vec<PyValue>) -> (r: Result<
    (),
    ForeignLookupError,
>)
    requires
        wf_runtime(py@),
    ensures
        match r {
            Ok(()) => spec_call(py@, "type_aliases"@, "broadcast_message"@) is Ok,
            Err(e) => spec_call(py@, "type_aliases"@, "broadcast_message"@) == Err::<
                ValueV,
                ForeignLookupError,
            >(e),
        },
{
    let mut args: Vec<PyValue> = Vec::new();
    args.push(PyValue::Str(message.to_owned()));
    args.push(PyValue::List(servers));
    call_and_discard(py, "type_aliases", "broadcast_message", args)
}

/// `get_user_name(user_id: UserId) -> str`: the nominal wrapper's inner
/// integer crosses the boundary unchanged.
pub fn get_user_name(py: &PyRuntime, user_id: UserId) -> (r: Result<String, DispatchError>)
    requires
        wf_runtime(py@),
    ensures
        match r {
            Ok(s) => spec_call(py@, "type_aliases"@, "get_user_name"@) == Ok::<
                ValueV,
                ForeignLookupError,
            >(ValueV::Str(s@)),
            Err(DispatchError::Lookup(e)) => spec_call(py@, "type_aliases"@, "get_user_name"@)
                == Err::<ValueV, ForeignLookupError>(e),
            Err(DispatchError::Mismatch(_)) => match spec_call(
                py@,
                "type_aliases"@,
                "get_user_name"@,
            ) {
                Ok(v) => !(v is Str),
                Err(_) => false,
            },
        },
{
    let mut args: Vec<PyValue> = Vec::new();
    args.push(PyValue::Int(user_id.into_inner()));
    call_and_extract_str(py, "type_aliases", "get_user_name", args)
}

} // verus!
