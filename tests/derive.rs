use cuisiner::derive::{
    analyse, derive_cuisiner_inner, extend_assert_generics, lower, parse, Ast, Data, DeriveConfig, DeriveError,
    DeriveInput, DeriveModel, DeriveModelItem, Discriminant, Field, Fields, InputField, InputFields, InputVariant, ItemIr,
    Repr,
};
use cuisiner::layout::Attribute;
use cuisiner::syntax::{GenericArgument, Meta, MetaValue, PathArguments, PathSegment, TypeExpr, TypePath};

fn ty(ids: &[&str]) -> TypeExpr {
    TypeExpr::Path(TypePath {
        leading_colon: false,
        segments: ids
            .iter()
            .map(|s| PathSegment { ident: s.to_string(), arguments: PathArguments::Empty })
            .collect(),
    })
}

fn named(fields: &[(&str, &str)]) -> InputFields {
    InputFields::Named(
        fields.iter().map(|(n, t)| InputField { ident: n.to_string(), ty: ty(&[t]), attrs: vec![] }).collect(),
    )
}

fn unnamed(tys: &[&str]) -> InputFields {
    InputFields::Unnamed(tys.iter().map(|t| InputField { ident: String::new(), ty: ty(&[t]), attrs: vec![] }).collect())
}

fn input(name: &str, attrs: Vec<Attribute>, data: Data) -> DeriveInput {
    DeriveInput { attrs, vis: String::new(), ident: name.to_string(), generics: vec![], data }
}

fn variant(name: &str, discriminant: Option<Discriminant>) -> InputVariant {
    InputVariant { ident: name.to_string(), fields: InputFields::Unit, discriminant }
}

fn lit(d: &str) -> Option<Discriminant> {
    Some(Discriminant::Int(d.to_string()))
}

fn attr(name: &str, args: Option<Vec<Meta>>) -> Attribute {
    Attribute { path: vec![name.to_string()], args }
}

fn kv(key: &str, value: &str) -> Meta {
    Meta::NameValue { path: vec![key.to_string()], value: MetaValue::Expr(value.to_string()) }
}

fn word(w: &str) -> Meta {
    Meta::Path(vec![w.to_string()])
}

fn repr_attr(r: &str) -> Attribute {
    attr("cuisiner", Some(vec![kv("repr", r)]))
}

fn field_count(f: &InputFields) -> Option<usize> {
    match f {
        InputFields::Named(v) => Some(v.len()),
        InputFields::Unnamed(v) => Some(v.len()),
        InputFields::Unit => None,
    }
}

fn test_struct(i: DeriveInput, expected_ident: &str, expected_field_count: Option<usize>) {
    let Ast::Struct { ident, fields, .. } = parse(i).unwrap() else {
        panic!("expected struct");
    };
    assert_eq!(ident, expected_ident);
    assert_eq!(field_count(&fields), expected_field_count);
}

fn test_enum(i: DeriveInput, expected_ident: &str, expected_variant_count: usize) {
    let Ast::Enum { ident, variants, .. } = parse(i).unwrap() else {
        panic!("expected enum");
    };
    assert_eq!(ident, expected_ident);
    assert_eq!(variants.len(), expected_variant_count);
}

#[test]
fn parse_unit_struct() {
    test_struct(input("MyStruct", vec![], Data::Struct(InputFields::Unit)), "MyStruct", None);
}

#[test]
fn parse_tuple_struct_empty() {
    test_struct(input("MyStruct", vec![], Data::Struct(unnamed(&[]))), "MyStruct", Some(0));
}

#[test]
fn parse_tuple_struct() {
    test_struct(input("MyStruct", vec![], Data::Struct(unnamed(&["usize", "isize", "f32"]))), "MyStruct", Some(3));
}

#[test]
fn parse_struct_empty() {
    test_struct(input("MyStruct", vec![], Data::Struct(named(&[]))), "MyStruct", Some(0));
}

#[test]
fn parse_struct() {
    test_struct(
        input("MyStruct", vec![], Data::Struct(named(&[("a", "usize"), ("b", "isize"), ("c", "f32")]))),
        "MyStruct",
        Some(3),
    );
}

#[test]
fn parse_empty_enum() {
    test_enum(input("MyEnum", vec![], Data::Enum(vec![])), "MyEnum", 0);
}

#[test]
fn parse_single_variant_enum() {
    test_enum(input("MyEnum", vec![], Data::Enum(vec![variant("First", None)])), "MyEnum", 1);
}

#[test]
fn parse_multi_variant_enum() {
    test_enum(
        input("MyEnum", vec![], Data::Enum(vec![variant("First", None), variant("Second", None), variant("Third", None)])),
        "MyEnum",
        3,
    );
}

#[test]
fn parse_field_enum() {
    let v = |n: &str, t: &str| InputVariant { ident: n.to_string(), fields: unnamed(&[t]), discriminant: None };
    test_enum(input("MyEnum", vec![], Data::Enum(vec![v("First", "u16"), v("Second", "bool"), v("Third", "String")])), "MyEnum", 3);
}

#[test]
fn error_on_union() {
    assert!(parse(input("MyUnion", vec![], Data::Union)).is_err());
}

fn analysed(i: DeriveInput) -> Result<DeriveModel, DeriveError> {
    analyse(parse(i).unwrap())
}

fn test_analyse_struct(i: DeriveInput, expected_name: &str, expected_field_count: Option<usize>) {
    let model = analysed(i).unwrap();
    let DeriveModelItem::Struct { fields, .. } = &model.item else {
        panic!("expected struct derive model item");
    };
    assert_eq!(model.name, expected_name);
    assert_eq!(
        match fields {
            Fields::Named(f) => Some(f.len()),
            Fields::Unnamed(f) => Some(f.len()),
            Fields::Unit => None,
        },
        expected_field_count
    );
}

fn test_analyse_enum(i: DeriveInput, expected_repr: Repr, expected_variants: &[(&str, usize)]) {
    let model = analysed(i).unwrap();
    let DeriveModelItem::Enum { variants, repr } = model.item else {
        panic!("expected enum derive model item");
    };
    assert_eq!(repr, expected_repr);
    let expected: Vec<(String, usize)> = expected_variants.iter().map(|(n, v)| (n.to_string(), *v)).collect();
    assert_eq!(variants, expected);
}

#[test]
fn analyse_valid_unit_struct() {
    test_analyse_struct(input("MyStruct", vec![], Data::Struct(InputFields::Unit)), "MyStruct", None);
}

#[test]
fn analyse_valid_tuple_struct() {
    test_analyse_struct(input("MyStruct", vec![], Data::Struct(unnamed(&["u32"]))), "MyStruct", Some(1));
}

#[test]
fn analyse_valid_struct() {
    test_analyse_struct(input("MyStruct", vec![], Data::Struct(named(&[("a", "u32"), ("b", "bool")]))), "MyStruct", Some(2));
}

#[test]
fn invalid_attribute() {
    let attrs = vec![attr("cuisiner", Some(vec![word("some_attribute")]))];
    assert!(analysed(input("MyStruct", attrs, Data::Struct(named(&[("a", "u32")])))).is_err());
}

fn three_variants(d: [Option<Discriminant>; 3]) -> Data {
    let [a, b, c] = d;
    Data::Enum(vec![variant("First", a), variant("Second", b), variant("Third", c)])
}

#[test]
fn analyse_valid_enum() {
    test_analyse_enum(
        input("MyEnum", vec![repr_attr("u32")], three_variants([lit("1"), lit("2"), lit("3")])),
        Repr::U32,
        &[("First", 1), ("Second", 2), ("Third", 3)],
    );
}

#[test]
fn enum_missing_repr() {
    assert!(analysed(input("MyEnum", vec![], three_variants([lit("1"), lit("2"), lit("3")]))).is_err());
}

#[test]
fn enum_missing_discriminant() {
    assert!(analysed(input("MyEnum", vec![repr_attr("u32")], three_variants([None, None, None]))).is_err());
}

#[test]
fn enum_some_discriminants() {
    assert!(analysed(input("MyEnum", vec![repr_attr("u32")], three_variants([lit("1"), None, None]))).is_err());
}

#[test]
fn missing_discriminant_names_variant() {
    let r = analysed(input("MyEnum", vec![repr_attr("u32")], three_variants([lit("1"), None, lit("3")])));
    assert_eq!(r.unwrap_err(), DeriveError::DiscriminantRequired("Second".to_string()));
    let r = analysed(input("MyEnum", vec![], three_variants([lit("1"), lit("2"), lit("3")])));
    assert_eq!(r.unwrap_err(), DeriveError::MissingRepr);
}

#[test]
fn discriminant_literals() {
    let r = analysed(input("E", vec![repr_attr("u8")], three_variants([Some(Discriminant::Byte(b'a')), lit("0"), lit("255")])));
    let DeriveModelItem::Enum { variants, .. } = r.unwrap().item else {
        panic!("expected enum");
    };
    assert_eq!(variants[0], ("First".to_string(), 97));
    let r = analysed(input("E", vec![repr_attr("u8")], three_variants([lit("99999999999999999999999"), lit("0"), lit("1")])));
    assert_eq!(r.unwrap_err(), DeriveError::CannotParseDiscriminant("First".to_string()));
    let r = analysed(input("E", vec![repr_attr("u8")], three_variants([Some(Discriminant::OtherLit("\"x\"".to_string())), lit("0"), lit("1")])));
    assert_eq!(r.unwrap_err(), DeriveError::UnsupportedDiscriminant("First".to_string()));
    let r = analysed(input("E", vec![repr_attr("u8")], three_variants([Some(Discriminant::Expr("A + 1".to_string())), lit("0"), lit("1")])));
    assert_eq!(r.unwrap_err(), DeriveError::DiscriminantRequired("First".to_string()));
}

#[test]
fn non_unit_variant_is_refused() {
    let v = InputVariant { ident: "First".to_string(), fields: unnamed(&["u16"]), discriminant: lit("1") };
    let r = analysed(input("E", vec![repr_attr("u8")], Data::Enum(vec![v])));
    assert_eq!(r.unwrap_err(), DeriveError::NonUnitVariant("First".to_string()));
}

fn empty_config() -> DeriveConfig {
    DeriveConfig { repr: None, container_assert_layout: None }
}

#[test]
fn from_empty_attributes() {
    assert_eq!(DeriveConfig::from_attrs(vec![]).unwrap(), empty_config());
}

#[test]
fn single_attribute_path() {
    assert!(DeriveConfig::from_attrs(vec![attr("cuisiner", None)]).is_err());
}

#[test]
fn single_attribute_empty_list() {
    assert_eq!(DeriveConfig::from_attrs(vec![attr("cuisiner", Some(vec![]))]).unwrap(), empty_config());
}

#[test]
fn with_repr() {
    assert_eq!(
        DeriveConfig::from_attrs(vec![repr_attr("i64")]).unwrap(),
        DeriveConfig { repr: Some(Repr::I64), container_assert_layout: None }
    );
}

#[test]
fn extra_attributes() {
    let attrs = vec![
        attr("repr", Some(vec![word("C")])),
        Attribute {
            path: vec!["some".to_string()],
            args: None,
        },
    ];
    assert_eq!(DeriveConfig::from_attrs(attrs).unwrap(), empty_config());
}

#[test]
fn multiple_attributes() {
    let attrs = vec![attr("cuisiner", None), attr("cuisiner", Some(vec![word("another_attribute")]))];
    assert!(DeriveConfig::from_attrs(attrs).is_err());
}

#[test]
fn unknown_attribute_argument() {
    assert!(DeriveConfig::from_attrs(vec![attr("cuisiner", Some(vec![word("another_attribute")]))]).is_err());
}

#[test]
fn unknown_repr_is_named() {
    assert_eq!(
        DeriveConfig::from_attrs(vec![repr_attr("u7")]).unwrap_err(),
        DeriveError::UnknownRepr("u7".to_string())
    );
    assert_eq!(DeriveConfig::from_attrs(vec![repr_attr("8u")]).unwrap_err(), DeriveError::ExpectedIdent);
}

#[test]
fn valid_struct_model() {
    let ir = lower(DeriveModel {
        name: "MyStruct".to_string(),
        visibility: String::new(),
        item: DeriveModelItem::Struct {
            fields: Fields::Named(vec![Field { ident: "a".to_string(), ty: ty(&["u64"]), assert_layout: None }]),
            generics: vec![],
            container_assert_layout: None,
        },
    });
    let ItemIr::Struct { raw_ident, .. } = ir.item else {
        panic!("expected struct item");
    };
    assert_eq!(raw_ident, "___CuisinerMyStructRaw");
}

#[test]
fn valid_enum_model() {
    let ir = lower(DeriveModel {
        name: "MyEnum".to_string(),
        visibility: String::new(),
        item: DeriveModelItem::Enum {
            variants: vec![("First".to_string(), 1), ("Second".to_string(), 2), ("Third".to_string(), 3)],
            repr: Repr::U32,
        },
    });
    let ItemIr::Enum { repr, variants } = ir.item else {
        panic!("expected enum item");
    };
    assert_eq!(repr, Repr::U32);
    assert_eq!(variants.len(), 3);
}

fn some_ident() -> GenericArgument {
    GenericArgument::Type(ty(&["SomeIdent"]))
}

fn gens(text: &str, args: Vec<GenericArgument>) -> Meta {
    Meta::NameValue {
        path: vec!["generics".to_string()],
        value: MetaValue::Str { literal: format!("\"{}\"", text), generics: Some(args) },
    }
}

fn t(id: &str) -> GenericArgument {
    GenericArgument::Type(ty(&[id]))
}

fn ns(nested: Vec<Meta>) -> Meta {
    Meta::List { path: vec!["namespace".to_string()], nested }
}

#[test]
fn single_generic() {
    assert_eq!(
        extend_assert_generics(vec![gens("A", vec![t("A")])], &some_ident(), 0),
        vec![gens("A , SomeIdent", vec![t("A"), some_ident()])]
    );
}

#[test]
fn multi_generic() {
    assert_eq!(
        extend_assert_generics(vec![gens("A, u32, Something", vec![t("A"), t("u32"), t("Something")])], &some_ident(), 0),
        vec![gens("A , u32 , Something , SomeIdent", vec![t("A"), t("u32"), t("Something"), some_ident()])]
    );
}

#[test]
fn multi_with_const_generic() {
    let args = vec![
        GenericArgument::Const("123".to_string()),
        GenericArgument::Const("'a'".to_string()),
        t("A"),
        t("u32"),
        t("Something"),
    ];
    let mut extended = vec![
        GenericArgument::Const("123".to_string()),
        GenericArgument::Const("'a'".to_string()),
        t("A"),
        t("u32"),
        t("Something"),
    ];
    extended.push(some_ident());
    assert_eq!(
        extend_assert_generics(vec![gens("123, 'a', A, u32, Something", args)], &some_ident(), 0),
        vec![gens("123 , 'a' , A , u32 , Something , SomeIdent", extended)]
    );
}

fn other_attrs() -> Vec<Meta> {
    vec![
        word("some_path"),
        Meta::NameValue {
            path: vec!["some_key".to_string()],
            value: MetaValue::Str { literal: "\"value\"".to_string(), generics: Some(vec![t("value")]) },
        },
    ]
}

#[test]
fn lower_no_attrs() {
    assert_eq!(extend_assert_generics(vec![], &some_ident(), 0), vec![gens("SomeIdent", vec![some_ident()])]);
}

#[test]
fn lower_other_attrs() {
    let mut expected = other_attrs();
    expected.push(gens("SomeIdent", vec![some_ident()]));
    assert_eq!(extend_assert_generics(other_attrs(), &some_ident(), 0), expected);
}

#[test]
fn lower_namespaced_generics() {
    assert_eq!(
        extend_assert_generics(vec![gens("T", vec![t("T")]), ns(vec![gens("T", vec![t("T")])])], &some_ident(), 0),
        vec![
            gens("T , SomeIdent", vec![t("T"), some_ident()]),
            ns(vec![gens("T , SomeIdent", vec![t("T"), some_ident()])]),
        ]
    );
}

#[test]
fn lower_namespaced_no_generics() {
    assert_eq!(
        extend_assert_generics(vec![ns(vec![kv("size", "0")])], &some_ident(), 0),
        vec![ns(vec![kv("size", "0"), gens("SomeIdent", vec![some_ident()])]), gens("SomeIdent", vec![some_ident()])]
    );
}

#[test]
fn lower_no_attrs_container_generics() {
    assert_eq!(extend_assert_generics(vec![], &some_ident(), 1), vec![]);
}

#[test]
fn lower_other_attrs_container_generics() {
    assert_eq!(extend_assert_generics(other_attrs(), &some_ident(), 1), other_attrs());
}

#[test]
fn lower_namespaced_generics_container_generics() {
    assert_eq!(
        extend_assert_generics(vec![gens("T", vec![t("T")]), ns(vec![gens("T", vec![t("T")])])], &some_ident(), 1),
        vec![
            gens("T , SomeIdent", vec![t("T"), some_ident()]),
            ns(vec![gens("T , SomeIdent", vec![t("T"), some_ident()])]),
        ]
    );
}

#[test]
fn lower_namespaced_no_generics_container_generics() {
    assert_eq!(
        extend_assert_generics(vec![ns(vec![kv("size", "0")])], &some_ident(), 1),
        vec![ns(vec![kv("size", "0")])]
    );
}

#[test]
fn enum_codec_text() {
    let text = derive_cuisiner_inner(input("MyEnum", vec![repr_attr("u32")], three_variants([lit("1"), lit("2"), lit("3")]))).unwrap();
    let expected = "impl ::cuisiner::Cuisiner for MyEnum {\n\
const RAW_SIZE: usize = <u32 as ::cuisiner::Cuisiner>::RAW_SIZE;\n\
fn try_from_raw<___Cuisiner_Generic_B: ::cuisiner::ByteOrder>(raw: &[u8]) -> ::core::result::Result<Self, ::cuisiner::CuisinerError> {\n\
match <u32 as ::cuisiner::Cuisiner>::try_from_raw::<___Cuisiner_Generic_B>(raw)? {\n\
1 => ::core::result::Result::Ok(Self::First),\n\
2 => ::core::result::Result::Ok(Self::Second),\n\
3 => ::core::result::Result::Ok(Self::Third),\n\
n => ::core::result::Result::Err(::cuisiner::CuisinerError::Validation(::std::format!(\"invalid discriminant for MyEnum: {}\", n))),\n}\n}\n\
fn try_to_raw<___Cuisiner_Generic_B: ::cuisiner::ByteOrder>(self) -> ::core::result::Result<::std::vec::Vec<u8>, ::cuisiner::CuisinerError> {\n\
<u32 as ::cuisiner::Cuisiner>::try_to_raw::<___Cuisiner_Generic_B>(match self {\n\
Self::First => 1,\nSelf::Second => 2,\nSelf::Third => 3,\n})\n}\n}\n";
    assert_eq!(text, expected);
}

#[test]
fn struct_codec_text() {
    let text = derive_cuisiner_inner(input("S2", vec![], Data::Struct(named(&[("thing", "u64")])))).unwrap();
    assert!(text.starts_with("impl ::cuisiner::Cuisiner for S2 {\nconst RAW_SIZE: usize = 0 + <u64 as ::cuisiner::Cuisiner>::RAW_SIZE;\n"));
    assert!(text.contains("let f0 = {\nlet n = <u64 as ::cuisiner::Cuisiner>::RAW_SIZE;\n"));
    assert!(text.contains("::core::result::Result::Ok(Self { thing: f0 })"));
    assert!(text.contains("out.extend(<u64 as ::cuisiner::Cuisiner>::try_to_raw::<___Cuisiner_Generic_B>(self.thing)?);\n"));
    let tuple = derive_cuisiner_inner(input("P", vec![], Data::Struct(unnamed(&["u8", "u16"])))).unwrap();
    assert!(tuple.contains("::core::result::Result::Ok(Self(f0, f1))"));
    assert!(tuple.contains("(self.1)?);"));
    assert_eq!(derive_cuisiner_inner(input("U", vec![], Data::Union)).unwrap_err(), DeriveError::Union);
}

fn assert_block(nested: Vec<Meta>) -> Attribute {
    attr("cuisiner", Some(vec![Meta::List { path: vec!["assert".to_string()], nested }]))
}

fn raw_check(c: &str) -> String {
    format!("const _: [(); 0 - !{{ const ASSERT: bool = {}; ASSERT }} as usize] = [];\n", c)
}

#[test]
fn raw_layout_checks_follow_the_codec() {
    let field = InputField { ident: "value".to_string(), ty: ty(&["u8"]), attrs: vec![assert_block(vec![kv("size", "1"), kv("offset", "0")])] };
    let i = input("Primitive", vec![assert_block(vec![kv("size", "1")])], Data::Struct(InputFields::Named(vec![field])));
    let text = derive_cuisiner_inner(i).unwrap();
    let expected_checks = String::from("const _: () = {\n")
        + &raw_check("<u8 as ::cuisiner::Cuisiner>::RAW_SIZE == 1")
        + &raw_check("0 == 0")
        + &raw_check("<Primitive as ::cuisiner::Cuisiner>::RAW_SIZE == 1")
        + "};\n";
    assert!(text.ends_with(&expected_checks));
    assert!(text.starts_with("impl ::cuisiner::Cuisiner for Primitive {\nconst RAW_SIZE: usize = 0 + <u8 as ::cuisiner::Cuisiner>::RAW_SIZE;\n"));
}

#[test]
fn raw_offsets_sum_earlier_fields() {
    let f = |n: &str, t: &str, attrs: Vec<Attribute>| InputField { ident: n.to_string(), ty: ty(&[t]), attrs };
    let fields = vec![
        f("a", "u8", vec![]),
        f("b", "u32", vec![]),
        f("c", "u16", vec![assert_block(vec![kv("offset", "5"), kv("size", "2")])]),
    ];
    let text = derive_cuisiner_inner(input("S", vec![], Data::Struct(InputFields::Named(fields)))).unwrap();
    assert!(text.contains(&raw_check("<u16 as ::cuisiner::Cuisiner>::RAW_SIZE == 2")));
    assert!(text.contains(&raw_check(
        "0 + <u8 as ::cuisiner::Cuisiner>::RAW_SIZE + <u32 as ::cuisiner::Cuisiner>::RAW_SIZE == 5"
    )));
}

#[test]
fn raw_layout_namespaces() {
    let tparam = cuisiner::syntax::GenericParam::Type { ident: "T".to_string(), bounds: vec![] };
    let gens_u = |t: &str| gens(t, vec![GenericArgument::Type(ty(&[t]))]);
    let field = InputField {
        ident: "value".to_string(),
        ty: ty(&["T"]),
        attrs: vec![assert_block(vec![
            Meta::List { path: vec!["small".to_string()], nested: vec![kv("offset", "0"), kv("size", "1")] },
            Meta::List { path: vec!["big".to_string()], nested: vec![kv("offset", "0"), kv("size", "2")] },
        ])],
    };
    let container = assert_block(vec![
        Meta::List { path: vec!["small".to_string()], nested: vec![gens_u("u8"), kv("size", "1")] },
        Meta::List { path: vec!["big".to_string()], nested: vec![gens_u("u16"), kv("size", "2")] },
    ]);
    let mut i = input("Namespaced", vec![container], Data::Struct(InputFields::Named(vec![field])));
    i.generics = vec![tparam];
    let text = derive_cuisiner_inner(i).unwrap();
    let small = String::from("const _: () = {\ntype T = u8;\n")
        + &raw_check("<T as ::cuisiner::Cuisiner>::RAW_SIZE == 1")
        + &raw_check("0 == 0")
        + &raw_check("<Namespaced<T> as ::cuisiner::Cuisiner>::RAW_SIZE == 1")
        + "};\n";
    let big = String::from("const _: () = {\ntype T = u16;\n")
        + &raw_check("<T as ::cuisiner::Cuisiner>::RAW_SIZE == 2")
        + &raw_check("0 == 0")
        + &raw_check("<Namespaced<T> as ::cuisiner::Cuisiner>::RAW_SIZE == 2")
        + "};\n";
    assert!(text.ends_with(&(small + &big)));
}

#[test]
fn raw_layout_errors_are_reported() {
    let field = InputField { ident: "v".to_string(), ty: ty(&["u8"]), attrs: vec![assert_block(vec![Meta::List { path: vec!["nowhere".to_string()], nested: vec![] }])] };
    let r = derive_cuisiner_inner(input("S", vec![], Data::Struct(InputFields::Named(vec![field]))));
    assert_eq!(r.unwrap_err(), DeriveError::Layout(cuisiner::layout::LayoutError::UnknownNamespace("nowhere".to_string())));
}

#[test]
fn generated_struct_codec_text() {
    let text = derive_cuisiner_inner(input("S2", vec![], Data::Struct(named(&[("thing", "u64")])))).unwrap();
    let expected = "impl ::cuisiner::Cuisiner for S2 {\n\
const RAW_SIZE: usize = 0 + <u64 as ::cuisiner::Cuisiner>::RAW_SIZE;\n\
fn try_from_raw<___Cuisiner_Generic_B: ::cuisiner::ByteOrder>(raw: &[u8]) -> ::core::result::Result<Self, ::cuisiner::CuisinerError> {\n\
let mut at: usize = 0;\n\
let f0 = {\nlet n = <u64 as ::cuisiner::Cuisiner>::RAW_SIZE;\n\
let v = <u64 as ::cuisiner::Cuisiner>::try_from_raw::<___Cuisiner_Generic_B>(&raw[at..at + n])?;\nat += n;\nv\n};\n\
let _ = at;\n::core::result::Result::Ok(Self { thing: f0 })\n}\n\
fn try_to_raw<___Cuisiner_Generic_B: ::cuisiner::ByteOrder>(self) -> ::core::result::Result<::std::vec::Vec<u8>, ::cuisiner::CuisinerError> {\n\
let mut out: ::std::vec::Vec<u8> = ::std::vec::Vec::new();\n\
out.extend(<u64 as ::cuisiner::Cuisiner>::try_to_raw::<___Cuisiner_Generic_B>(self.thing)?);\n\
::core::result::Result::Ok(out)\n}\n}\n";
    assert_eq!(text, expected);
}

#[test]
fn discriminant_must_fit_repr() {
    let r = analysed(input("E", vec![repr_attr("u8")], Data::Enum(vec![variant("A", lit("256"))])));
    assert_eq!(r.unwrap_err(), DeriveError::CannotParseDiscriminant("A".to_string()));
    assert!(analysed(input("E", vec![repr_attr("u8")], Data::Enum(vec![variant("A", lit("255"))]))).is_ok());
    let r = analysed(input("E", vec![repr_attr("i8")], Data::Enum(vec![variant("A", lit("128"))])));
    assert_eq!(r.unwrap_err(), DeriveError::CannotParseDiscriminant("A".to_string()));
    let r = analysed(input("E", vec![repr_attr("i8")], Data::Enum(vec![variant("A", Some(Discriminant::Byte(0xff)))])));
    assert_eq!(r.unwrap_err(), DeriveError::CannotParseDiscriminant("A".to_string()));
    assert!(analysed(input("E", vec![repr_attr("i32")], Data::Enum(vec![variant("A", lit("2147483647"))]))).is_ok());
    assert!(analysed(input("E", vec![repr_attr("i32")], Data::Enum(vec![variant("A", lit("2147483648"))]))).is_err());
}
