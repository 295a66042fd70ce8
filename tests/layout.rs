use cuisiner::layout::{
    analyse, assert_layout_inner, binding_for, codegen, lower, parse, Assertion, AssertionItem, Attribute, LayoutError,
    LayoutField, LayoutInput, ParamKind,
};
use cuisiner::syntax::{GenericArgument, GenericParam, Member, Meta, MetaValue, PathArguments, PathSegment, TypeExpr, TypePath};

fn ty(ids: &[&str]) -> TypeExpr {
    TypeExpr::Path(TypePath {
        leading_colon: false,
        segments: ids
            .iter()
            .map(|s| PathSegment { ident: s.to_string(), arguments: PathArguments::Empty })
            .collect(),
    })
}

fn kv(key: &str, value: &str) -> Meta {
    Meta::NameValue { path: vec![key.to_string()], value: MetaValue::Expr(value.to_string()) }
}

fn generics(text: &str, args: Vec<GenericArgument>) -> Meta {
    Meta::NameValue {
        path: vec!["generics".to_string()],
        value: MetaValue::Str { literal: format!("\"{}\"", text), generics: Some(args) },
    }
}

fn block(name: &str, nested: Vec<Meta>) -> Meta {
    Meta::List { path: vec![name.to_string()], nested }
}

fn layout_attr(args: Vec<Meta>) -> Attribute {
    Attribute { path: vec!["assert_layout".to_string()], args: Some(args) }
}

fn field(name: &str, t: TypeExpr, attrs: Vec<Attribute>) -> LayoutField {
    LayoutField { member: Member::Named(name.to_string()), ty: t, attrs }
}

fn type_param(id: &str) -> GenericParam {
    GenericParam::Type { ident: id.to_string(), bounds: vec![] }
}

fn check(c: &str) -> String {
    format!("const _: [(); 0 - !{{ const ASSERT: bool = {}; ASSERT }} as usize] = [];\n", c)
}

#[test]
fn type_item() {
    assert_eq!(
        binding_for(&type_param("T"), &GenericArgument::Type(ty(&["MyType"]))).unwrap(),
        AssertionItem::Type { ident: "T".to_string(), ty: ty(&["MyType"]) }
    );
}

#[test]
fn const_item() {
    assert_eq!(
        binding_for(
            &GenericParam::Const { ident: "N".to_string(), ty: ty(&["usize"]) },
            &GenericArgument::Const("128".to_string())
        )
        .unwrap(),
        AssertionItem::Const { ident: "N".to_string(), ty: ty(&["usize"]), expr: "128".to_string() }
    );
}

#[test]
fn mismatch() {
    assert!(binding_for(&type_param("T"), &GenericArgument::Const("128".to_string())).is_err());
}

#[test]
fn kind_mismatch_names_required_kind() {
    assert_eq!(
        binding_for(&GenericParam::Const { ident: "N".to_string(), ty: ty(&["usize"]) }, &GenericArgument::Type(ty(&["u8"]))),
        Err(LayoutError::KindMismatch { required: ParamKind::Const })
    );
    assert_eq!(
        binding_for(&GenericParam::Lifetime("'a".to_string()), &GenericArgument::Lifetime("'b".to_string())),
        Err(LayoutError::LifetimeArgument)
    );
}

fn my_struct() -> LayoutInput {
    LayoutInput {
        ident: "MyStruct".to_string(),
        generics: vec![],
        fields: vec![
            field("a", ty(&["u8"]), vec![layout_attr(vec![kv("size", "1"), kv("offset", "0")])]),
            field("b", ty(&["u32"]), vec![layout_attr(vec![kv("size", "4"), kv("offset", "1")])]),
            field("c", ty(&["u32"]), vec![]),
        ],
    }
}

#[test]
fn container_size_check_is_emitted() {
    let (decl, text) = assert_layout_inner(vec![kv("size", "9")], my_struct()).unwrap();
    assert!(decl.fields.iter().all(|f| f.attrs.is_empty()));
    let expected = String::from("const _: () = {\n")
        + &check("::core::mem::size_of::<u8>() == 1")
        + &check("::core::mem::offset_of!(MyStruct, a) == 0")
        + &check("::core::mem::size_of::<u32>() == 4")
        + &check("::core::mem::offset_of!(MyStruct, b) == 1")
        + &check("::core::mem::size_of::<MyStruct>() == 9")
        + "};\n";
    assert_eq!(text, expected);
}

#[test]
fn other_field_attributes_are_kept() {
    let mut input = my_struct();
    input.fields[2].attrs.push(Attribute { path: vec!["doc".to_string()], args: None });
    let ast = parse(vec![], input).unwrap();
    assert_eq!(ast.item.fields[2].attrs, vec![Attribute { path: vec!["doc".to_string()], args: None }]);
    assert!(ast.item.fields[0].attrs.is_empty());
}

fn generic_struct() -> LayoutInput {
    LayoutInput {
        ident: "MyDoubleGenericStruct".to_string(),
        generics: vec![type_param("T"), type_param("U")],
        fields: vec![field("b", ty(&["T"]), vec![layout_attr(vec![kv("offset", "1"), kv("size", "4")])])],
    }
}

#[test]
fn arity_mismatch_is_refused() {
    let attrs = vec![kv("size", "6"), generics("u32", vec![GenericArgument::Type(ty(&["u32"]))])];
    let ast = parse(attrs, generic_struct()).unwrap();
    assert_eq!(analyse(ast).unwrap_err(), LayoutError::ArityMismatch { expected: 2, found: 1 });
}

#[test]
fn generic_bindings_and_container_type() {
    let attrs = vec![
        kv("size", "6"),
        generics("u32, u8", vec![GenericArgument::Type(ty(&["u32"])), GenericArgument::Type(ty(&["u8"]))]),
    ];
    let model = analyse(parse(attrs, generic_struct()).unwrap()).unwrap();
    assert_eq!(model.assertions.len(), 1);
    let set = &model.assertions[0];
    assert_eq!(
        set.items,
        vec![
            AssertionItem::Type { ident: "T".to_string(), ty: ty(&["u32"]) },
            AssertionItem::Type { ident: "U".to_string(), ty: ty(&["u8"]) },
        ]
    );
    assert_eq!(set.assertions.len(), 3);
    assert_eq!(set.assertions[0], Assertion::Size { ty: ty(&["T"]), size: "4".to_string() });
    let ir = lower(model);
    assert_eq!(ir.assertions[0].items, vec!["type T = u32;".to_string(), "type U = u8;".to_string()]);
    assert_eq!(
        ir.assertions[0].checks,
        vec![
            "::core::mem::size_of::<T>() == 4".to_string(),
            "::core::mem::offset_of!(MyDoubleGenericStruct<T, U>, b) == 1".to_string(),
            "::core::mem::size_of::<MyDoubleGenericStruct<T, U>>() == 6".to_string(),
        ]
    );
}

fn namespaced() -> LayoutInput {
    LayoutInput {
        ident: "NamespacedStruct".to_string(),
        generics: vec![type_param("T")],
        fields: vec![field(
            "thing",
            ty(&["T"]),
            vec![layout_attr(vec![kv("offset", "0"), kv("size", "1"), block("big", vec![kv("offset", "0"), kv("size", "2")])])],
        )],
    }
}

#[test]
fn namespaces_are_checked_independently() {
    let attrs = vec![
        generics("u8", vec![GenericArgument::Type(ty(&["u8"]))]),
        kv("size", "5"),
        block("big", vec![generics("u16", vec![GenericArgument::Type(ty(&["u16"]))]), kv("size", "6")]),
    ];
    let (_, text) = assert_layout_inner(attrs, namespaced()).unwrap();
    let expected = String::from("const _: () = {\ntype T = u8;\n")
        + &check("::core::mem::size_of::<T>() == 1")
        + &check("::core::mem::offset_of!(NamespacedStruct<T>, thing) == 0")
        + &check("::core::mem::size_of::<NamespacedStruct<T>>() == 5")
        + "};\nconst _: () = {\ntype T = u16;\n"
        + &check("::core::mem::size_of::<T>() == 2")
        + &check("::core::mem::offset_of!(NamespacedStruct<T>, thing) == 0")
        + &check("::core::mem::size_of::<NamespacedStruct<T>>() == 6")
        + "};\n";
    assert_eq!(text, expected);
}

#[test]
fn unknown_namespace_is_refused() {
    let input = LayoutInput {
        ident: "S".to_string(),
        generics: vec![],
        fields: vec![field("a", ty(&["u8"]), vec![layout_attr(vec![block("small", vec![kv("size", "1")])])])],
    };
    assert_eq!(parse(vec![], input).unwrap_err(), LayoutError::UnknownNamespace("small".to_string()));
}

#[test]
fn unknown_key_is_refused() {
    let input = LayoutInput { ident: "S".to_string(), generics: vec![], fields: vec![] };
    assert_eq!(parse(vec![kv("weight", "1")], input).unwrap_err(), LayoutError::UnknownAttribute("weight".to_string()));
}

#[test]
fn deep_nesting_is_refused() {
    let input = LayoutInput { ident: "S".to_string(), generics: vec![], fields: vec![] };
    let attrs = vec![block("outer", vec![block("inner", vec![kv("size", "1")])])];
    assert_eq!(parse(attrs, input).unwrap_err(), LayoutError::DeeplyNested);
}

#[test]
fn generics_must_be_a_parsable_string() {
    let input = || LayoutInput { ident: "S".to_string(), generics: vec![], fields: vec![] };
    assert_eq!(parse(vec![kv("generics", "u8")], input()).unwrap_err(), LayoutError::ExpectedGenericsString);
    let bad = Meta::NameValue {
        path: vec!["generics".to_string()],
        value: MetaValue::Str { literal: "\"<<\"".to_string(), generics: None },
    };
    assert_eq!(parse(vec![bad], input()).unwrap_err(), LayoutError::InvalidGenerics);
}

#[test]
fn bound_parameter_field_type_is_qualified() {
    let input = LayoutInput {
        ident: "GenericWithTrait".to_string(),
        generics: vec![GenericParam::Type {
            ident: "T".to_string(),
            bounds: vec![cuisiner::syntax::TypeParamBound::Trait(TypePath {
                leading_colon: false,
                segments: vec![PathSegment { ident: "TheTrait".to_string(), arguments: PathArguments::Empty }],
            })],
        }],
        fields: vec![field("nested", ty(&["T", "Item"]), vec![layout_attr(vec![kv("size", "4")])])],
    };
    let attrs = vec![generics("u16", vec![GenericArgument::Type(ty(&["u16"]))])];
    let ir = lower(analyse(parse(attrs, input).unwrap()).unwrap());
    assert_eq!(ir.assertions[0].checks, vec!["::core::mem::size_of::<<T as TheTrait>::Item>() == 4".to_string()]);
    assert!(codegen(&ir).contains("type T = u16;"));
}

#[test]
fn assert_prefixed_keys_are_aliases() {
    let attrs = vec![
        kv("assert_size", "6"),
        Meta::NameValue {
            path: vec!["assert_generics".to_string()],
            value: MetaValue::Str {
                literal: "\"u32, u8\"".to_string(),
                generics: Some(vec![GenericArgument::Type(ty(&["u32"])), GenericArgument::Type(ty(&["u8"]))]),
            },
        },
    ];
    let model = analyse(parse(attrs, generic_struct()).unwrap()).unwrap();
    assert_eq!(model.assertions.len(), 1);
    assert_eq!(
        model.assertions[0].assertions[2],
        Assertion::Size { ty: TypeExpr::Path(TypePath { leading_colon: false, segments: vec![PathSegment {
            ident: "MyDoubleGenericStruct".to_string(),
            arguments: PathArguments::AngleBracketed(vec![GenericArgument::Type(ty(&["T"])), GenericArgument::Type(ty(&["U"]))]),
        }] }), size: "6".to_string() }
    );
}
