use py2o2::codec::SchemaError;
use py2o2::schema::{Function, Interface, Parameter, Primitive, Type, TypeDefinition, UnionDef};

fn int_ty() -> Type {
    Type::Primitive(Primitive::Int)
}

fn str_ty() -> Type {
    Type::Primitive(Primitive::Str)
}

#[test]
fn inspect_deserialize_type() {
    let ty = Type::from_json(r#"{"kind": "none"}"#).unwrap();
    assert_eq!(ty, Type::NoneType);

    let ty = Type::from_json(r#"{"kind": "primitive", "name": "int"}"#).unwrap();
    assert_eq!(ty, Type::Primitive(Primitive::Int));

    let ty =
        Type::from_json(r#"{"kind": "list", "inner": [{"kind": "primitive", "name": "int"}]}"#)
            .unwrap();
    assert_eq!(ty, Type::List { element: Box::new(Type::Primitive(Primitive::Int)) });
}

#[test]
fn inspect_deserialize_parameter() {
    let p =
        Parameter::from_json(r#"{"name": "x", "type": {"kind": "primitive", "name": "int"}}"#)
            .unwrap();
    assert_eq!(
        p,
        Parameter { name: "x".to_string(), ty: Type::Primitive(Primitive::Int) }
    );
}

fn sample_interface() -> Interface {
    let mut iface = Interface::new();
    iface
        .functions
        .insert(
            "f".to_string(),
            Function {
                name: "f".to_string(),
                parameters: vec![Parameter { name: "x".to_string(), ty: int_ty() }],
                ret: Type::NoneType,
            },
        )
        .unwrap();
    iface
        .type_definitions
        .insert(
            "UserId".to_string(),
            TypeDefinition {
                name: "UserId".to_string(),
                module: "type_aliases".to_string(),
                supertype: int_ty(),
            },
        )
        .unwrap();
    iface
        .unions
        .insert("IntOrStr".to_string(), UnionDef { args: vec![int_ty(), str_ty()] })
        .unwrap();
    iface
}

#[test]
fn interface_round_trip() {
    let iface = sample_interface();
    let text = iface.to_json();
    let back = Interface::from_json(&text).unwrap();
    assert_eq!(back, iface);
}

#[test]
fn round_trip_with_escapes_and_depth() {
    let mut iface = Interface::new();
    iface
        .functions
        .insert(
            "g\"h\\i".to_string(),
            Function {
                name: "g\"h\\i\n".to_string(),
                parameters: vec![Parameter {
                    name: "p".to_string(),
                    ty: Type::Tuple {
                        tags: vec![
                            Type::Dict { key: Box::new(str_ty()), value: Box::new(int_ty()) },
                            Type::Callable {
                                args: vec![int_ty()],
                                ret: Box::new(Type::NoneType),
                            },
                        ],
                    },
                }],
                ret: Type::Union { args: vec![int_ty(), str_ty()] },
            },
        )
        .unwrap();
    let text = iface.to_json();
    let back = Interface::from_json(&text).unwrap();
    assert_eq!(back, iface);
}

#[test]
fn serialized_text_is_valid_json() {
    let iface = sample_interface();
    let text = iface.to_json();
    let v: serde_json::Value = serde_json::from_str(&text).unwrap();
    assert_eq!(v["functions"]["f"]["name"], serde_json::Value::String("f".to_string()));
    assert_eq!(
        v["type_definitions"]["UserId"]["supertype"]["kind"],
        serde_json::Value::String("primitive".to_string())
    );
}

#[test]
fn deserialize_accepts_whitespace() {
    let text = "{\n  \"functions\": {\n    \"f\": {\n      \"name\": \"f\",\n      \"parameters\": [],\n      \"return\": { \"kind\": \"none\" }\n    }\n  },\n  \"type_definitions\": {}\n}";
    let iface = Interface::from_json(text).unwrap();
    assert_eq!(iface.functions.len(), 1);
    assert_eq!(iface.type_definitions.len(), 0);
    assert_eq!(iface.unions.len(), 0);
}

#[test]
fn syntax_error_is_explicit() {
    assert_eq!(Interface::from_json("not json"), Err(SchemaError::Syntax));
    assert_eq!(Interface::from_json("{\"functions\": {"), Err(SchemaError::Syntax));
}

#[test]
fn malformed_error_is_explicit() {
    // A JSON text of the wrong shape: no registries at all.
    assert_eq!(Interface::from_json("{}"), Err(SchemaError::Malformed));
    // A union of fewer than two branches is rejected.
    let text = r#"{"functions":{"f":{"name":"f","parameters":[{"name":"x","type":{"kind":"union","args":[{"kind":"primitive","name":"int"}]}}],"return":{"kind":"none"}}},"type_definitions":{}}"#;
    assert_eq!(Interface::from_json(text), Err(SchemaError::Malformed));
    // A repeated function name is rejected.
    let dup = r#"{"functions":{"f":{"name":"f","parameters":[],"return":{"kind":"none"}},"f":{"name":"f","parameters":[],"return":{"kind":"none"}}},"type_definitions":{}}"#;
    assert_eq!(Interface::from_json(dup), Err(SchemaError::Malformed));
}

#[test]
fn scenario_schema_parses() {
    let text = r#"{"functions":{"f":{"name":"f","parameters":[{"name":"x","type":{"kind":"primitive","name":"int"}}],"return":{"kind":"none"}}},"type_definitions":{}}"#;
    let iface = Interface::from_json(text).unwrap();
    let f = iface.functions.get("f").unwrap();
    assert_eq!(f.name, "f");
    assert_eq!(f.parameters.len(), 1);
    assert_eq!(f.ret, Type::NoneType);
}
