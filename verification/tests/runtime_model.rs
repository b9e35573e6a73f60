use py2o2::adapter::{decode_args, AdapterError};
use py2o2::ast;
use py2o2::dispatch::{dispatch, DispatchError, TypeMismatch};
use py2o2::example::{a1, a2, a4, a5, a6};
use py2o2::resolver::{
    call_function, is_exact_type_of, is_type_of, locate_type, path_of, ClassDef, ClassRef,
    ForeignLookupError, PyModuleDef, PyRuntime, TypeCache,
};
use py2o2::schema::{NamedMap, Primitive, Type};
use py2o2::type_aliases::{broadcast_message, get_user_name, UserId};
use py2o2::value::{Kind, PyValue};

fn int_ty() -> Type {
    Type::Primitive(Primitive::Int)
}

fn str_ty() -> Type {
    Type::Primitive(Primitive::Str)
}

fn module(functions: Vec<(&str, PyValue)>, types: Vec<(&str, usize)>) -> PyModuleDef {
    let mut fm: NamedMap<PyValue> = NamedMap::new();
    for (name, v) in functions {
        fm.insert(name.to_string(), v).unwrap();
    }
    let mut tm: NamedMap<ClassRef> = NamedMap::new();
    for (name, class) in types {
        tm.insert(name.to_string(), ClassRef { class }).unwrap();
    }
    PyModuleDef { types: tm, functions: fm }
}

fn fixture_runtime() -> PyRuntime {
    let classes = vec![
        ClassDef { module: "t".to_string(), name: "Base".to_string(), parent: None },
        ClassDef { module: "t".to_string(), name: "Sub".to_string(), parent: Some(0) },
        ClassDef { module: "t".to_string(), name: "Other".to_string(), parent: None },
    ];
    let mut modules: NamedMap<PyModuleDef> = NamedMap::new();
    modules
        .insert(
            "example".to_string(),
            module(
                vec![
                    ("a1", PyValue::NoneVal),
                    ("a2", PyValue::NoneVal),
                    ("a4", PyValue::Int(42)),
                    ("a5", PyValue::Str("ok".to_string())),
                    (
                        "a6",
                        PyValue::Tuple(vec![PyValue::Int(1), PyValue::Str("x".to_string())]),
                    ),
                    ("bad", PyValue::Str("oops".to_string())),
                ],
                vec![],
            ),
        )
        .unwrap();
    modules
        .insert(
            "ast".to_string(),
            module(
                vec![
                    ("contextmanager", PyValue::NoneVal),
                    ("copy_location", PyValue::NoneVal),
                    ("dump", PyValue::NoneVal),
                    ("fix_missing_locations", PyValue::NoneVal),
                    ("get_docstring", PyValue::NoneVal),
                    ("get_source_segment", PyValue::NoneVal),
                    ("increment_lineno", PyValue::NoneVal),
                    ("iter_child_nodes", PyValue::NoneVal),
                    ("iter_fields", PyValue::NoneVal),
                    ("literal_eval", PyValue::NoneVal),
                    ("parse", PyValue::NoneVal),
                    ("unparse", PyValue::NoneVal),
                    ("walk", PyValue::NoneVal),
                ],
                vec![],
            ),
        )
        .unwrap();
    modules
        .insert(
            "t".to_string(),
            module(vec![], vec![("Base", 0), ("Sub", 1), ("Other", 2)]),
        )
        .unwrap();
    modules
        .insert(
            "type_aliases".to_string(),
            module(
                vec![
                    ("broadcast_message", PyValue::NoneVal),
                    ("get_user_name", PyValue::Str("ID = 124".to_string())),
                ],
                vec![],
            ),
        )
        .unwrap();
    PyRuntime { classes, modules }
}

#[test]
fn lookup_and_cache() {
    let rt = fixture_runtime();
    assert_eq!(locate_type(&rt, "t", "Sub"), Ok(1));
    assert_eq!(locate_type(&rt, "absent", "Sub"), Err(ForeignLookupError::ModuleNotFound));
    assert_eq!(locate_type(&rt, "t", "Missing"), Err(ForeignLookupError::AttributeNotFound));

    let mut cache = TypeCache::new();
    assert_eq!(cache.locate(&rt, "t", "Base"), Ok(0));
    assert_eq!(cache.entries.len(), 1);
    // The second lookup is served from the cache and answers the same.
    assert_eq!(cache.locate(&rt, "t", "Base"), Ok(0));
    assert_eq!(cache.entries.len(), 1);
    // Failures are not cached and stay distinct from mismatches.
    assert_eq!(cache.locate(&rt, "t", "Missing"), Err(ForeignLookupError::AttributeNotFound));
    assert_eq!(cache.entries.len(), 1);
    assert_eq!(path_of("a.b", "T"), "a.b.T");
}

#[test]
fn instance_tests_honour_subtypes() {
    let rt = fixture_runtime();
    let sub = PyValue::Instance { class: 1 };
    let other = PyValue::Instance { class: 2 };
    assert!(is_type_of(&rt, 0, &sub));
    assert!(is_type_of(&rt, 1, &sub));
    assert!(!is_type_of(&rt, 0, &other));
    assert!(!is_type_of(&rt, 0, &PyValue::Int(3)));
    assert!(is_exact_type_of(1, &sub));
    assert!(!is_exact_type_of(0, &sub));
}

#[test]
fn dispatch_tries_branches_in_declaration_order() {
    let rt = fixture_runtime();
    // The Int probe stands before the Str probe.
    let branches = vec![int_ty(), str_ty()];
    assert_eq!(dispatch(&rt, &branches, &PyValue::Int(5)), Ok(0));
    assert_eq!(dispatch(&rt, &branches, &PyValue::Str("s".to_string())), Ok(1));
    // A value satisfying two probes resolves to the earlier branch: the
    // any-value sentinel also matches the integer, yet branch 0 wins.
    let overlapping = vec![int_ty(), Type::Ellipsis];
    assert_eq!(dispatch(&rt, &overlapping, &PyValue::Int(5)), Ok(0));
    // With the order flipped, the earlier (sentinel) branch wins instead.
    let flipped = vec![Type::Ellipsis, int_ty()];
    assert_eq!(dispatch(&rt, &flipped, &PyValue::Int(5)), Ok(0));
}

#[test]
fn dispatch_total_failure_is_explicit() {
    let rt = fixture_runtime();
    let branches = vec![int_ty(), Type::Primitive(Primitive::Float)];
    let out = dispatch(&rt, &branches, &PyValue::Str("nope".to_string()));
    assert_eq!(
        out,
        Err(DispatchError::Mismatch(TypeMismatch { actual: Kind::StrKind }))
    );
    // A branch whose type cannot be resolved is a lookup failure, not a
    // mismatch.
    let broken = vec![Type::UserDefined {
        module: "absent".to_string(),
        name: "T".to_string(),
        supertype: Box::new(int_ty()),
    }];
    assert_eq!(
        dispatch(&rt, &broken, &PyValue::Int(1)),
        Err(DispatchError::Lookup(ForeignLookupError::ModuleNotFound))
    );
}

#[test]
fn dispatch_reaches_user_defined_branches() {
    let rt = fixture_runtime();
    let branches = vec![
        int_ty(),
        Type::UserDefined {
            module: "t".to_string(),
            name: "Base".to_string(),
            supertype: Box::new(int_ty()),
        },
    ];
    assert_eq!(dispatch(&rt, &branches, &PyValue::Instance { class: 1 }), Ok(1));
}

#[test]
fn adapter_decodes_positional_arguments() {
    let rt = fixture_runtime();
    // Scenario: a callable of one integer parameter receives one foreign
    // argument, decoded before the closure runs.
    let params = vec![int_ty()];
    let args = vec![PyValue::Int(7)];
    assert_eq!(decode_args(&rt, &params, &args), Ok(vec![PyValue::Int(7)]));
    // The wrong shape fails closed.
    let bad = vec![PyValue::Str("seven".to_string())];
    assert_eq!(
        decode_args(&rt, &params, &bad),
        Err(AdapterError::Value(DispatchError::Mismatch(TypeMismatch {
            actual: Kind::StrKind,
        })))
    );
    // The wrong arity fails closed.
    assert_eq!(decode_args(&rt, &params, &vec![]), Err(AdapterError::ArityMismatch));
}

#[test]
fn example_wrappers_call_and_decode() {
    let rt = fixture_runtime();
    a1(&rt).unwrap();
    a2(&rt, 57).unwrap();
    assert_eq!(a4(&rt), Ok(42));
    assert_eq!(a5(&rt, 33), Ok("ok".to_string()));
    assert_eq!(a6(&rt), Ok((1, "x".to_string())));
    // A foreign function that returns the wrong shape is a mismatch.
    assert!(matches!(
        py2o2::example::call_and_extract_int(&rt, "example", "bad", vec![]),
        Err(DispatchError::Mismatch(_))
    ));
    // An absent function is a lookup failure.
    assert_eq!(a1(&PyRuntime { classes: vec![], modules: NamedMap::new() }),
        Err(ForeignLookupError::ModuleNotFound));
}

#[test]
fn ast_wrappers_discard_results() {
    let rt = fixture_runtime();
    ast::contextmanager(&rt, ()).unwrap();
    ast::copy_location(&rt, (), ()).unwrap();
    ast::dump(&rt, (), (), (), ()).unwrap();
    ast::fix_missing_locations(&rt, ()).unwrap();
    ast::get_docstring(&rt, (), ()).unwrap();
    ast::get_source_segment(&rt, (), (), ()).unwrap();
    ast::increment_lineno(&rt, (), ()).unwrap();
    ast::iter_child_nodes(&rt, ()).unwrap();
    ast::iter_fields(&rt, ()).unwrap();
    ast::literal_eval(&rt, ()).unwrap();
    ast::parse(&rt, (), (), (), (), ()).unwrap();
    ast::unparse(&rt, ()).unwrap();
    ast::walk(&rt, ()).unwrap();
}

#[test]
fn type_alias_wrappers() {
    let rt = fixture_runtime();
    broadcast_message(&rt, "homhom", vec![]).unwrap();
    let id = UserId(124);
    assert_eq!(id.0, 124);
    assert_eq!(UserId(7).into_inner(), 7);
    assert_eq!(get_user_name(&rt, id), Ok("ID = 124".to_string()));
}

#[test]
fn canned_call_returns_stored_value() {
    let rt = fixture_runtime();
    let v = call_function(&rt, "example", "a4", vec![PyValue::Int(9)]).unwrap();
    assert_eq!(v, PyValue::Int(42));
}
