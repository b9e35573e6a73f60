use py2o2::emit::{as_ident, generate, generate_function, generate_type_definitions, generate_union_traits};
use py2o2::mapper::{as_input_type, as_output_type, push_decimal};
use py2o2::schema::{Function, Interface, Parameter, Primitive, Type, TypeDefinition};

fn int_ty() -> Type {
    Type::Primitive(Primitive::Int)
}

fn float_ty() -> Type {
    Type::Primitive(Primitive::Float)
}

fn str_ty() -> Type {
    Type::Primitive(Primitive::Str)
}

#[test]
fn input_type_mappings() {
    assert_eq!(as_input_type(&int_ty()).unwrap(), "i64");
    assert_eq!(as_input_type(&float_ty()).unwrap(), "f64");
    assert_eq!(as_input_type(&str_ty()).unwrap(), "&str");
    assert_eq!(as_input_type(&Type::NoneType).unwrap(), "()");
    assert_eq!(as_input_type(&Type::Ellipsis).unwrap(), "::pyo3::Py<::pyo3::PyAny>");
    assert_eq!(
        as_input_type(&Type::Tuple { tags: vec![int_ty(), str_ty()] }).unwrap(),
        "(i64, &str)"
    );
    assert_eq!(
        as_input_type(&Type::List { element: Box::new(int_ty()) }).unwrap(),
        "&::pyo3::types::PyList"
    );
    assert_eq!(
        as_input_type(&Type::Dict { key: Box::new(str_ty()), value: Box::new(int_ty()) })
            .unwrap(),
        "&::pyo3::types::PyDict"
    );
    assert_eq!(
        as_input_type(&Type::UserDefined {
            module: "m".to_string(),
            name: "UserId".to_string(),
            supertype: Box::new(int_ty()),
        })
        .unwrap(),
        "UserId"
    );
    assert_eq!(
        as_input_type(&Type::Union { args: vec![int_ty(), str_ty()] }).unwrap(),
        "impl UnionIntStr"
    );
    assert_eq!(
        as_input_type(&Type::Callable { args: vec![int_ty()], ret: Box::new(Type::NoneType) })
            .unwrap(),
        "impl Fn((i64,)) -> () + Send + 'static"
    );
}

#[test]
fn output_type_mappings() {
    assert_eq!(as_output_type(&str_ty()).unwrap(), "::pyo3::Py<::pyo3::types::PyString>");
    assert_eq!(
        as_output_type(&Type::List { element: Box::new(int_ty()) }).unwrap(),
        "::pyo3::Py<::pyo3::types::PyList>"
    );
    assert_eq!(
        as_output_type(&Type::Union { args: vec![int_ty(), str_ty()] }).unwrap(),
        "::py2o2_runtime::Enum2<i64, ::pyo3::Py<::pyo3::types::PyString>>"
    );
    assert_eq!(
        as_output_type(&Type::Callable { args: vec![], ret: Box::new(float_ty()) }).unwrap(),
        "Box<Fn() -> f64 + Send + 'static>"
    );
}

#[test]
fn mapper_fails_closed() {
    // A non-primitive union branch in input position is unsupported.
    let bad_union = Type::Union { args: vec![int_ty(), Type::List {
        element: Box::new(int_ty()),
    }] };
    assert!(as_input_type(&bad_union).is_err());
    // A union nested inside a list element is unsupported in both positions.
    let nested = Type::List { element: Box::new(Type::Union { args: vec![int_ty(), str_ty()] }) };
    assert!(as_input_type(&nested).is_err());
    assert!(as_output_type(&nested).is_err());
    // A union inside a tuple is unsupported in input position.
    let in_tuple = Type::Tuple { tags: vec![Type::Union { args: vec![int_ty(), str_ty()] }] };
    assert!(as_input_type(&in_tuple).is_err());
    // A callable with a non-trivial return type is unsupported.
    let hard_ret = Type::Callable {
        args: vec![],
        ret: Box::new(Type::Tuple { tags: vec![int_ty()] }),
    };
    assert!(as_input_type(&hard_ret).is_err());
    assert!(as_output_type(&hard_ret).is_err());
}

#[test]
fn ident_mapping() {
    assert_eq!(as_ident("x"), "x");
    assert_eq!(as_ident("self"), "_self");
}

#[test]
fn decimal_rendering() {
    let mut s = String::new();
    push_decimal(&mut s, 0);
    s.push(' ');
    push_decimal(&mut s, 7);
    s.push(' ');
    push_decimal(&mut s, 120453);
    assert_eq!(s, "0 7 120453");
}

fn scenario_a_interface() -> Interface {
    let mut iface = Interface::new();
    iface
        .functions
        .insert(
            "f".to_string(),
            Function {
                name: "f".to_string(),
                parameters: vec![Parameter { name: "x".to_string(), ty: int_ty() }],
                ret: Type::NoneType,
            },
        )
        .unwrap();
    iface
}

#[test]
fn scenario_wrapper_discards_none_result() {
    let iface = scenario_a_interface();
    let out = generate("example", &iface, true).unwrap();
    assert_eq!(
        out,
        "pub fn f<'py>(py: ::pyo3::Python<'py>, x: i64) -> ::pyo3::PyResult<()> { let _ = py.import(\"example\")?.getattr(\"f\")?.call((x,), None)?; Ok(()) }\n"
    );
}

#[test]
fn namespace_block_wraps_output() {
    let iface = scenario_a_interface();
    let bare = generate("example", &iface, true).unwrap();
    let wrapped = generate("example", &iface, false).unwrap();
    assert_eq!(wrapped, format!("pub mod example {{ {} }}\n", bare));
}

#[test]
fn generation_is_deterministic() {
    let iface = scenario_a_interface();
    let once = generate("example", &iface, false).unwrap();
    let twice = generate("example", &iface, false).unwrap();
    assert_eq!(once, twice);
    assert_eq!(once.as_bytes(), twice.as_bytes());
}

#[test]
fn scenario_union_return_is_tagged_sum() {
    let mut iface = Interface::new();
    iface
        .functions
        .insert(
            "g".to_string(),
            Function {
                name: "g".to_string(),
                parameters: vec![],
                ret: Type::Union { args: vec![int_ty(), str_ty()] },
            },
        )
        .unwrap();
    let out = generate("example", &iface, true).unwrap();
    assert!(out.contains(
        "-> ::pyo3::PyResult<::py2o2_runtime::Enum2<i64, ::pyo3::Py<::pyo3::types::PyString>>>"
    ));
    assert!(out.contains("Ok(result.extract()?)"));
}

#[test]
fn union_sharing_emits_one_trait() {
    let mut iface = Interface::new();
    iface
        .functions
        .insert(
            "first".to_string(),
            Function {
                name: "first".to_string(),
                parameters: vec![Parameter {
                    name: "v".to_string(),
                    ty: Type::Union { args: vec![int_ty(), str_ty()] },
                }],
                ret: Type::NoneType,
            },
        )
        .unwrap();
    iface
        .functions
        .insert(
            "second".to_string(),
            Function {
                name: "second".to_string(),
                parameters: vec![Parameter {
                    name: "w".to_string(),
                    ty: Type::Union { args: vec![str_ty(), int_ty()] },
                }],
                ret: Type::NoneType,
            },
        )
        .unwrap();
    let out = generate("example", &iface, true).unwrap();
    assert_eq!(out.matches("pub trait UnionIntStr").count(), 1);
    assert_eq!(out.matches("v: impl UnionIntStr").count(), 1);
    assert_eq!(out.matches("w: impl UnionIntStr").count(), 1);
    assert!(out.contains("impl UnionIntStr for i64 {}"));
    assert!(out.contains("impl UnionIntStr for &str {}"));
    assert!(!out.contains("UnionIntFloat"));
}

#[test]
fn scenario_typedef_newtype() {
    let mut iface = Interface::new();
    iface
        .type_definitions
        .insert(
            "UserId".to_string(),
            TypeDefinition {
                name: "UserId".to_string(),
                module: "type_aliases".to_string(),
                supertype: int_ty(),
            },
        )
        .unwrap();
    let out = generate("type_aliases", &iface, true).unwrap();
    assert!(out.contains("pub struct UserId(pub i64);"));
    assert!(out.contains("impl ::pyo3::conversion::IntoPy<::pyo3::PyObject> for UserId"));
    assert!(out.contains("self.0.into_py(py)"));
}

#[test]
fn scenario_callable_parameter_adapts_closure() {
    let mut iface = Interface::new();
    iface
        .functions
        .insert(
            "feed".to_string(),
            Function {
                name: "feed".to_string(),
                parameters: vec![Parameter {
                    name: "cb".to_string(),
                    ty: Type::Callable { args: vec![int_ty()], ret: Box::new(Type::NoneType) },
                }],
                ret: Type::NoneType,
            },
        )
        .unwrap();
    let out = generate("example", &iface, true).unwrap();
    assert!(out.contains("cb: impl Fn((i64,)) -> () + Send + 'static"));
    assert!(out.contains("let cb = ::py2o2_runtime::as_pycfunc(py, cb)?; "));
}

#[test]
fn nullary_callable_adapts_through_discarding_closure() {
    let mut iface = Interface::new();
    iface
        .functions
        .insert(
            "feed".to_string(),
            Function {
                name: "feed".to_string(),
                parameters: vec![Parameter {
                    name: "get".to_string(),
                    ty: Type::Callable { args: vec![], ret: Box::new(str_ty()) },
                }],
                ret: Type::NoneType,
            },
        )
        .unwrap();
    let out = generate("example", &iface, true).unwrap();
    assert!(out.contains(
        "let get = ::py2o2_runtime::as_pycfunc(py, move |_input: [usize; 0]| get())?; "
    ));
}

#[test]
fn unsupported_type_fails_generation() {
    let mut iface = Interface::new();
    iface
        .functions
        .insert(
            "f".to_string(),
            Function {
                name: "f".to_string(),
                parameters: vec![Parameter {
                    name: "x".to_string(),
                    ty: Type::Union { args: vec![int_ty(), Type::NoneType] },
                }],
                ret: Type::NoneType,
            },
        )
        .unwrap();
    assert!(generate("example", &iface, true).is_err());
}

#[test]
fn generate_function_text() {
    let f = Function {
        name: "a5".to_string(),
        parameters: vec![Parameter { name: "x".to_string(), ty: int_ty() }],
        ret: str_ty(),
    };
    let out = generate_function("example", &f).unwrap();
    assert_eq!(
        out,
        "pub fn a5<'py>(py: ::pyo3::Python<'py>, x: i64) -> ::pyo3::PyResult<::pyo3::Py<::pyo3::types::PyString>> { let result = py.import(\"example\")?.getattr(\"a5\")?.call((x,), None)?; Ok(result.extract()?) }\n"
    );
}

#[test]
fn generate_type_definitions_text() {
    let td = TypeDefinition {
        name: "UserId".to_string(),
        module: "type_aliases".to_string(),
        supertype: int_ty(),
    };
    let out = generate_type_definitions(&td).unwrap();
    assert!(out.starts_with(
        "#[derive(Debug, PartialEq, Eq, PartialOrd, Ord, Hash)] pub struct UserId(pub i64);"
    ));
}

#[test]
fn generate_union_traits_orders_masks() {
    let mut iface = Interface::new();
    iface
        .functions
        .insert(
            "f".to_string(),
            Function {
                name: "f".to_string(),
                parameters: vec![
                    Parameter {
                        name: "a".to_string(),
                        ty: Type::Union { args: vec![int_ty(), str_ty()] },
                    },
                    Parameter {
                        name: "b".to_string(),
                        ty: Type::Union { args: vec![int_ty(), float_ty()] },
                    },
                ],
                ret: Type::NoneType,
            },
        )
        .unwrap();
    let out = generate_union_traits(&iface);
    let first = out.find("pub trait UnionIntFloat").unwrap();
    let second = out.find("pub trait UnionIntStr").unwrap();
    assert!(first < second);
    assert_eq!(out.matches("pub trait ").count(), 2);
}
