//! Wrappers over the foreign runtime's `ast` module, in the exact shape
//! the emitter generates them: every return type here is `none`, so each
//! wrapper calls the named foreign function and discards the result.

use vstd::prelude::*;

use crate::example::call_and_discard;
use crate::resolver::{spec_call, wf_runtime, ForeignLookupError, PyRuntime};
use crate::value::{PyValue, ValueV};

verus! {

/// `contextmanager` of the foreign `ast` module; every argument is opaque to the
/// wrapper and the result is discarded.
pub fn contextmanager(py: &PyRuntime, func: ()) -> (r: Result<(), ForeignLookupError>)
    requires
        wf_runtime(py@),
    ensures
        match r {
            Ok(()) => spec_call(py@, "ast"@, "contextmanager"@) is Ok,
            Err(e) => spec_call(py@, "ast"@, "contextmanager"@) == Err::<ValueV, ForeignLookupError>(e),
        },
{
    let mut args: Vec<PyValue> = Vec::new();
    args.push(PyValue::NoneVal);
    call_and_discard(py, "ast", "contextmanager", args)
}

/// `copy_location` of the foreign `ast` module; every argument is opaque to the
/// wrapper and the result is discarded.
pub fn copy_location(py: &PyRuntime, new_node: (), old_node: ()) -> (r: Result<(), ForeignLookupError>)
    requires
        wf_runtime(py@),
    ensures
        match r {
            Ok(()) => spec_call(py@, "ast"@, "copy_location"@) is Ok,
            Err(e) => spec_call(py@, "ast"@, "copy_location"@) == Err::<ValueV, ForeignLookupError>(e),
        },
{
    let mut args: Vec<PyValue> = Vec::new();
    args.push(PyValue::NoneVal);
    args.push(PyValue::NoneVal);
    call_and_discard(py, "ast", "copy_location", args)
}

/// `dump` of the foreign `ast` module; every argument is opaque to the
/// wrapper and the result is discarded.
pub fn dump(py: &PyRuntime, node: (), annotate_fields: (), include_attributes: (), indent: ()) -> (r: Result<(), ForeignLookupError>)
    requires
        wf_runtime(py@),
    ensures
        match r {
            Ok(()) => spec_call(py@, "ast"@, "dump"@) is Ok,
            Err(e) => spec_call(py@, "ast"@, "dump"@) == Err::<ValueV, ForeignLookupError>(e),
        },
{
    let mut args: Vec<PyValue> = Vec::new();
    args.push(PyValue::NoneVal);
    args.push(PyValue::NoneVal);
    args.push(PyValue::NoneVal);
    args.push(PyValue::NoneVal);
    call_and_discard(py, "ast", "dump", args)
}

/// `fix_missing_locations` of the foreign `ast` module; every argument is opaque to the
/// wrapper and the result is discarded.
pub fn fix_missing_locations(py: &PyRuntime, node: ()) -> (r: Result<(), ForeignLookupError>)
    requires
        wf_runtime(py@),
    ensures
        match r {
            Ok(()) => spec_call(py@, "ast"@, "fix_missing_locations"@) is Ok,
            Err(e) => spec_call(py@, "ast"@, "fix_missing_locations"@) == Err::<ValueV, ForeignLookupError>(e),
        },
{
    let mut args: Vec<PyValue> = Vec::new();
    args.push(PyValue::NoneVal);
    call_and_discard(py, "ast", "fix_missing_locations", args)
}

/// `get_docstring` of the foreign `ast` module; every argument is opaque to the
/// wrapper and the result is discarded.
pub fn get_docstring(py: &PyRuntime, node: (), clean: ()) -> (r: Result<(), ForeignLookupError>)
    requires
        wf_runtime(py@),
    ensures
        match r {
            Ok(()) => spec_call(py@, "ast"@, "get_docstring"@) is Ok,
            Err(e) => spec_call(py@, "ast"@, "get_docstring"@) == Err::<ValueV, ForeignLookupError>(e),
        },
{
    let mut args: Vec<PyValue> = Vec::new();
    args.push(PyValue::NoneVal);
    args.push(PyValue::NoneVal);
    call_and_discard(py, "ast", "get_docstring", args)
}

/// `get_source_segment` of the foreign `ast` module; every argument is opaque to the
/// wrapper and the result is discarded.
pub fn get_source_segment(py: &PyRuntime, source: (), node: (), padded: ()) -> (r: Result<(), ForeignLookupError>)
    requires
        wf_runtime(py@),
    ensures
        match r {
            Ok(()) => spec_call(py@, "ast"@, "get_source_segment"@) is Ok,
            Err(e) => spec_call(py@, "ast"@, "get_source_segment"@) == Err::<ValueV, ForeignLookupError>(e),
        },
{
    let mut args: Vec<PyValue> = Vec::new();
    args.push(PyValue::NoneVal);
    args.push(PyValue::NoneVal);
    args.push(PyValue::NoneVal);
    call_and_discard(py, "ast", "get_source_segment", args)
}

/// `increment_lineno` of the foreign `ast` module; every argument is opaque to the
/// wrapper and the result is discarded.
pub fn increment_lineno(py: &PyRuntime, node: (), n: ()) -> (r: Result<(), ForeignLookupError>)
    requires
        wf_runtime(py@),
    ensures
        match r {
            Ok(()) => spec_call(py@, "ast"@, "increment_lineno"@) is Ok,
            Err(e) => spec_call(py@, "ast"@, "increment_lineno"@) == Err::<ValueV, ForeignLookupError>(e),
        },
{
    let mut args: Vec<PyValue> = Vec::new();
    args.push(PyValue::NoneVal);
    args.push(PyValue::NoneVal);
    call_and_discard(py, "ast", "increment_lineno", args)
}

/// `iter_child_nodes` of the foreign `ast` module; every argument is opaque to the
/// wrapper and the result is discarded.
pub fn iter_child_nodes(py: &PyRuntime, node: ()) -> (r: Result<(), ForeignLookupError>)
    requires
        wf_runtime(py@),
    ensures
        match r {
            Ok(()) => spec_call(py@, "ast"@, "iter_child_nodes"@) is Ok,
            Err(e) => spec_call(py@, "ast"@, "iter_child_nodes"@) == Err::<ValueV, ForeignLookupError>(e),
        },
{
    let mut args: Vec<PyValue> = Vec::new();
    args.push(PyValue::NoneVal);
    call_and_discard(py, "ast", "iter_child_nodes", args)
}

/// `iter_fields` of the foreign `ast` module; every argument is opaque to the
/// wrapper and the result is discarded.
pub fn iter_fields(py: &PyRuntime, node: ()) -> (r: Result<(), ForeignLookupError>)
    requires
        wf_runtime(py@),
    ensures
        match r {
            Ok(()) => spec_call(py@, "ast"@, "iter_fields"@) is Ok,
            Err(e) => spec_call(py@, "ast"@, "iter_fields"@) == Err::<ValueV, ForeignLookupError>(e),
        },
{
    let mut args: Vec<PyValue> = Vec::new();
    args.push(PyValue::NoneVal);
    call_and_discard(py, "ast", "iter_fields", args)
}

/// `literal_eval` of the foreign `ast` module; every argument is opaque to the
/// wrapper and the result is discarded.
pub fn literal_eval(py: &PyRuntime, node_or_string: ()) -> (r: Result<(), ForeignLookupError>)
    requires
        wf_runtime(py@),
    ensures
        match r {
            Ok(()) => spec_call(py@, "ast"@, "literal_eval"@) is Ok,
            Err(e) => spec_call(py@, "ast"@, "literal_eval"@) == Err::<ValueV, ForeignLookupError>(e),
        },
{
    let mut args: Vec<PyValue> = Vec::new();
    args.push(PyValue::NoneVal);
    call_and_discard(py, "ast", "literal_eval", args)
}

/// `parse` of the foreign `ast` module; every argument is opaque to the
/// wrapper and the result is discarded.
pub fn parse(py: &PyRuntime, source: (), filename: (), mode: (), type_comments: (), feature_version: ()) -> (r: Result<(), ForeignLookupError>)
    requires
        wf_runtime(py@),
    ensures
        match r {
            Ok(()) => spec_call(py@, "ast"@, "parse"@) is Ok,
            Err(e) => spec_call(py@, "ast"@, "parse"@) == Err::<ValueV, ForeignLookupError>(e),
        },
{
    let mut args: Vec<PyValue> = Vec::new();
    args.push(PyValue::NoneVal);
    args.push(PyValue::NoneVal);
    args.push(PyValue::NoneVal);
    args.push(PyValue::NoneVal);
    args.push(PyValue::NoneVal);
    call_and_discard(py, "ast", "parse", args)
}

/// `unparse` of the foreign `ast` module; every argument is opaque to the
/// wrapper and the result is discarded.
pub fn unparse(py: &PyRuntime, ast_obj: ()) -> (r: Result<(), ForeignLookupError>)
    requires
        wf_runtime(py@),
    ensures
        match r {
            Ok(()) => spec_call(py@, "ast"@, "unparse"@) is Ok,
            Err(e) => spec_call(py@, "ast"@, "unparse"@) == Err::<ValueV, ForeignLookupError>(e),
        },
{
    let mut args: Vec<PyValue> = Vec::new();
    args.push(PyValue::NoneVal);
    call_and_discard(py, "ast", "unparse", args)
}

/// `walk` of the foreign `ast` module; every argument is opaque to the
/// wrapper and the result is discarded.
pub fn walk(py: &PyRuntime, node: ()) -> (r: Result<(), ForeignLookupError>)
    requires
        wf_runtime(py@),
    ensures
        match r {
            Ok(()) => spec_call(py@, "ast"@, "walk"@) is Ok,
            Err(e) => spec_call(py@, "ast"@, "walk"@) == Err::<ValueV, ForeignLookupError>(e),
        },
{
    let mut args: Vec<PyValue> = Vec::new();
    args.push(PyValue::NoneVal);
    call_and_discard(py, "ast", "walk", args)
}

} // verus!
