use cuisiner::qualify::{get_bound_generics, qualify_generic, BoundGeneric};
use cuisiner::syntax::{GenericArgument, GenericParam, PathArguments, PathSegment, TypeExpr, TypeParamBound, TypePath};

fn seg(id: &str) -> PathSegment {
    PathSegment { ident: id.to_string(), arguments: PathArguments::Empty }
}

fn seg_args(id: &str, args: Vec<GenericArgument>) -> PathSegment {
    PathSegment { ident: id.to_string(), arguments: PathArguments::AngleBracketed(args) }
}

fn path(ids: &[&str]) -> TypePath {
    TypePath { leading_colon: false, segments: ids.iter().map(|s| seg(s)).collect() }
}

fn ty(ids: &[&str]) -> TypeExpr {
    TypeExpr::Path(path(ids))
}

fn qualified(self_ty: TypeExpr, trait_path: &[&str], rest: Vec<PathSegment>) -> TypeExpr {
    let mut segments: Vec<PathSegment> = trait_path.iter().map(|s| seg(s)).collect();
    let position = segments.len();
    segments.extend(rest);
    TypeExpr::Qualified { self_ty: Box::new(self_ty), position, path: TypePath { leading_colon: false, segments } }
}

fn bounds() -> Vec<BoundGeneric> {
    vec![
        BoundGeneric { ident: "T".to_string(), bound: path(&["MyTrait"]) },
        BoundGeneric { ident: "U".to_string(), bound: path(&["some_module", "OtherTrait"]) },
    ]
}

fn check(input: TypeExpr, expected: TypeExpr) {
    assert_eq!(qualify_generic(&bounds(), input), expected);
}

#[test]
fn qualify_single_ident() {
    check(ty(&["T"]), ty(&["T"]));
}

#[test]
fn qualify_associated_type() {
    check(ty(&["T", "Item"]), qualified(ty(&["T"]), &["MyTrait"], vec![seg("Item")]));
}

#[test]
fn qualify_nested_associated_type() {
    check(
        qualified(ty(&["T", "Item"]), &["OtherTrait"], vec![seg("Item")]),
        qualified(qualified(ty(&["T"]), &["MyTrait"], vec![seg("Item")]), &["OtherTrait"], vec![seg("Item")]),
    );
}

#[test]
fn qualify_super_nested_associated_type() {
    check(
        qualified(
            qualified(ty(&["T", "Item"]), &["OtherTrait"], vec![seg("Item")]),
            &["OtherOtherTrait"],
            vec![seg("Item")],
        ),
        qualified(
            qualified(qualified(ty(&["T"]), &["MyTrait"], vec![seg("Item")]), &["OtherTrait"], vec![seg("Item")]),
            &["OtherOtherTrait"],
            vec![seg("Item")],
        ),
    );
}

#[test]
fn qualify_as_other_generic() {
    check(
        TypeExpr::Path(TypePath {
            leading_colon: false,
            segments: vec![seg_args("SomeStruct", vec![GenericArgument::Type(ty(&["T", "Item"]))])],
        }),
        TypeExpr::Path(TypePath {
            leading_colon: false,
            segments: vec![seg_args(
                "SomeStruct",
                vec![GenericArgument::Type(qualified(ty(&["T"]), &["MyTrait"], vec![seg("Item")]))],
            )],
        }),
    );
}

#[test]
fn qualify_associated_type_generic() {
    check(
        qualified(
            ty(&["K"]),
            &["TraitWithGeneric"],
            vec![seg_args("Item", vec![GenericArgument::Type(ty(&["T", "Item"]))])],
        ),
        qualified(
            ty(&["K"]),
            &["TraitWithGeneric"],
            vec![seg_args(
                "Item",
                vec![GenericArgument::Type(qualified(ty(&["T"]), &["MyTrait"], vec![seg("Item")]))],
            )],
        ),
    );
}

#[test]
fn analyse_single_ident() {
    check(ty(&["T"]), ty(&["T"]));
}

#[test]
fn analyse_associated_type() {
    check(ty(&["T", "Item"]), qualified(ty(&["T"]), &["MyTrait"], vec![seg("Item")]));
}

#[test]
fn analyse_nested_associated_type() {
    check(
        qualified(ty(&["T", "Item"]), &["OtherTrait"], vec![seg("Item")]),
        qualified(qualified(ty(&["T"]), &["MyTrait"], vec![seg("Item")]), &["OtherTrait"], vec![seg("Item")]),
    );
}

#[test]
fn analyse_super_nested_associated_type() {
    check(
        qualified(
            qualified(ty(&["T", "Item"]), &["OtherTrait"], vec![seg("Item")]),
            &["OtherOtherTrait"],
            vec![seg("Item")],
        ),
        qualified(
            qualified(qualified(ty(&["T"]), &["MyTrait"], vec![seg("Item")]), &["OtherTrait"], vec![seg("Item")]),
            &["OtherOtherTrait"],
            vec![seg("Item")],
        ),
    );
}

#[test]
fn analyse_as_other_generic() {
    check(
        TypeExpr::Path(TypePath {
            leading_colon: false,
            segments: vec![seg_args("SomeStruct", vec![GenericArgument::Type(ty(&["T", "Item"]))])],
        }),
        TypeExpr::Path(TypePath {
            leading_colon: false,
            segments: vec![seg_args(
                "SomeStruct",
                vec![GenericArgument::Type(qualified(ty(&["T"]), &["MyTrait"], vec![seg("Item")]))],
            )],
        }),
    );
}

#[test]
fn analyse_associated_type_generic() {
    check(
        qualified(
            ty(&["K"]),
            &["TraitWithGeneric"],
            vec![seg_args("Item", vec![GenericArgument::Type(ty(&["T", "Item"]))])],
        ),
        qualified(
            ty(&["K"]),
            &["TraitWithGeneric"],
            vec![seg_args(
                "Item",
                vec![GenericArgument::Type(qualified(ty(&["T"]), &["MyTrait"], vec![seg("Item")]))],
            )],
        ),
    );
}

#[test]
fn unbound_and_rooted_paths_stay() {
    check(ty(&["V", "Item"]), ty(&["V", "Item"]));
    let rooted = TypeExpr::Path(TypePath { leading_colon: true, segments: vec![seg("T"), seg("Item")] });
    let same = TypeExpr::Path(TypePath { leading_colon: true, segments: vec![seg("T"), seg("Item")] });
    check(rooted, same);
    check(TypeExpr::Other("[u8; 4]".to_string()), TypeExpr::Other("[u8; 4]".to_string()));
}

#[test]
fn path_bound_is_used_whole() {
    check(ty(&["U", "Item"]), qualified(ty(&["U"]), &["some_module", "OtherTrait"], vec![seg("Item")]));
}

fn type_param(id: &str, bounds: Vec<TypeParamBound>) -> GenericParam {
    GenericParam::Type { ident: id.to_string(), bounds }
}

fn trait_bound(ids: &[&str]) -> TypeParamBound {
    TypeParamBound::Trait(path(ids))
}

#[test]
fn no_bound() {
    assert_eq!(get_bound_generics(&vec![type_param("T", vec![])]), vec![]);
}

#[test]
fn simple_bound() {
    assert_eq!(
        get_bound_generics(&vec![type_param("T", vec![trait_bound(&["SomeTrait"])])]),
        vec![BoundGeneric { ident: "T".to_string(), bound: path(&["SomeTrait"]) }]
    );
}

#[test]
fn multiple_bounds() {
    assert_eq!(
        get_bound_generics(&vec![type_param("T", vec![trait_bound(&["SomeTrait"]), trait_bound(&["OtherTrait"])])]),
        vec![]
    );
}

#[test]
fn path_bound() {
    assert_eq!(
        get_bound_generics(&vec![type_param("T", vec![trait_bound(&["some", "path", "SomeTrait"])])]),
        vec![BoundGeneric { ident: "T".to_string(), bound: path(&["some", "path", "SomeTrait"]) }]
    );
}

#[test]
fn multiple() {
    assert_eq!(
        get_bound_generics(&vec![
            type_param("T", vec![trait_bound(&["SomeTrait"])]),
            type_param("U", vec![]),
            type_param("V", vec![trait_bound(&["OtherTrait"])]),
        ]),
        vec![
            BoundGeneric { ident: "T".to_string(), bound: path(&["SomeTrait"]) },
            BoundGeneric { ident: "V".to_string(), bound: path(&["OtherTrait"]) },
        ]
    );
}

#[test]
fn lifetime_bound_is_not_a_trait() {
    assert_eq!(get_bound_generics(&vec![type_param("T", vec![TypeParamBound::Lifetime("'a".to_string())])]), vec![]);
}
