//! The layout checker: from a struct declaration and its layout attributes to compile-time
//! size and offset checks, in source text. Parse, analyse, lower, emit.

use vstd::prelude::*;

use crate::render::{member_text, render_member, render_type, ty_text};
use crate::qualify::{bound_generics_of, bounds_view, get_bound_generics, q_ty, qualify_generic, BoundGeneric};
use crate::results::{
    fold_state, lemma_state_ends, lemma_state_error_stays, lemma_state_step,
    fold_results, lemma_fold_congruent, lemma_fold_empty, lemma_fold_first_error, lemma_fold_error_stays, lemma_fold_fails_if_some, lemma_fold_full,
    lemma_fold_one_each, lemma_fold_single, lemma_fold_step,
};
use crate::syntax::{
    ArgsV, ArgV, GenericArgument, GenericParam, Member, MemberV, PathArguments, PathSegment, PathV,
    SegV, TyV, TypeExpr, TypePath, arg_seq_view, seg_view, segs_view, Meta, MetaValue,
    single_ident, value_text, require_ident, is_key, value_source, copy_arguments, lemma_arg_seq_view_push, lemma_segs_view_push, lemma_arg_seq_view_index,
};

verus! {

/// A struct declaration whose layout is checked.
#[derive(Debug, PartialEq, Eq)]
pub struct LayoutDecl {
    pub ident: String,
    pub generics: Vec<GenericParam>,
    pub fields: Vec<LayoutField>,
}

/// A field of a declaration: how it is named, its type, and the attributes it keeps.
#[derive(Debug, PartialEq, Eq)]
pub struct LayoutField {
    pub member: Member,
    pub ty: TypeExpr,
    pub attrs: Vec<Attribute>,
}

/// An attribute on a field: its path, and its arguments where it is in list form.
#[derive(Debug, PartialEq, Eq)]
pub struct Attribute {
    pub path: Vec<String>,
    pub args: Option<Vec<Meta>>,
}

/// Whether an attribute path is the single identifier `assert_layout`.
pub open spec fn is_layout_path(path: Seq<String>) -> bool {
    single_ident(path) == Some("assert_layout"@)
}

/// The expected size and offset of one field.
#[derive(Debug, PartialEq, Eq)]
pub struct FieldAssertion {
    pub field: Member,
    pub ty: TypeExpr,
    /// Expected size, as a constant expression in source text.
    pub size: Option<String>,
    /// Expected offset, as a constant expression in source text.
    pub offset: Option<String>,
}

/// One independently checked set of layout expectations.
#[derive(Debug, PartialEq, Eq)]
pub struct Namespace {
    /// Expected size of the whole declaration.
    pub size: Option<String>,
    /// Generic argument lists to check the declaration at, one check per list.
    pub generics: Vec<Vec<GenericArgument>>,
    /// Field expectations.
    pub field_assertions: Vec<FieldAssertion>,
}

/// A declaration with its named sets of expectations; the empty name is the default set.
#[derive(Debug, PartialEq, Eq)]
pub struct Ast {
    pub item: LayoutDecl,
    pub namespaces: Vec<(String, Namespace)>,
}

/// The mathematical value of a [`FieldAssertion`].
pub struct FieldAssertionV {
    pub field: MemberV,
    pub ty: TyV,
    pub size: Option<Seq<char>>,
    pub offset: Option<Seq<char>>,
}

impl View for FieldAssertion {
    type V = FieldAssertionV;

    open spec fn view(&self) -> FieldAssertionV {
        FieldAssertionV {
            field: self.field@,
            ty: self.ty@,
            size: match self.size {
                Some(s) => Some(s@),
                None => None,
            },
            offset: match self.offset {
                Some(s) => Some(s@),
                None => None,
            },
        }
    }
}

/// The mathematical value of a [`Namespace`].
pub struct NamespaceV {
    pub size: Option<Seq<char>>,
    pub generics: Seq<Seq<ArgV>>,
    pub field_assertions: Seq<FieldAssertionV>,
}

impl View for Namespace {
    type V = NamespaceV;

    open spec fn view(&self) -> NamespaceV {
        NamespaceV {
            size: match self.size {
                Some(s) => Some(s@),
                None => None,
            },
            generics: self.generics@.map_values(|l: Vec<GenericArgument>| arg_seq_view(l@)),
            field_assertions: self.field_assertions@.map_values(|f: FieldAssertion| f@),
        }
    }
}

/// The namespace with no expectations.
pub open spec fn empty_namespace() -> NamespaceV {
    NamespaceV { size: None, generics: Seq::empty(), field_assertions: Seq::empty() }
}

impl Namespace {
    /// The namespace with no expectations.
    pub fn new() -> (r: Namespace)
        ensures
            r@ == empty_namespace(),
    {
        let r = Namespace { size: None, generics: Vec::new(), field_assertions: Vec::new() };
        assert(r@.generics =~= Seq::<Seq<ArgV>>::empty());
        assert(r@.field_assertions =~= Seq::<FieldAssertionV>::empty());
        r
    }
}

/// The kind of a generic parameter.
#[derive(Clone, Copy, Debug, PartialEq, Eq, Structural)]
pub enum ParamKind {
    Lifetime,
    Type,
    Const,
}

/// Why a layout declaration was refused.
#[derive(Debug, PartialEq, Eq)]
pub enum LayoutError {
    /// A generic argument list does not have one argument per parameter.
    ArityMismatch { expected: usize, found: usize },
    /// A generic argument is not of the kind of its parameter.
    KindMismatch { required: ParamKind },
    /// Lifetimes are never accepted as generic arguments.
    LifetimeArgument,
    /// An attribute key that is not recognised.
    UnknownAttribute(String),
    /// A field names a namespace that the declaration does not have.
    UnknownNamespace(String),
    /// A namespace holds another namespace.
    DeeplyNested,
    /// A `generics` value that is not a string.
    ExpectedGenericsString,
    /// A `generics` string that is not a generic argument list.
    InvalidGenerics,
    /// An attribute key that is not a single identifier.
    ExpectedIdent,
    /// An attribute that is not in list or key-value form.
    ExpectedList,
}

/// The mathematical value of a [`LayoutError`].
pub enum LayoutErrorV {
    ArityMismatch { expected: nat, found: nat },
    KindMismatch { required: ParamKind },
    LifetimeArgument,
    UnknownAttribute(Seq<char>),
    UnknownNamespace(Seq<char>),
    DeeplyNested,
    ExpectedGenericsString,
    InvalidGenerics,
    ExpectedIdent,
    ExpectedList,
}

impl View for LayoutError {
    type V = LayoutErrorV;

    open spec fn view(&self) -> LayoutErrorV {
        match self {
            LayoutError::ArityMismatch { expected, found } => LayoutErrorV::ArityMismatch {
                expected: *expected as nat,
                found: *found as nat,
            },
            LayoutError::KindMismatch { required } => LayoutErrorV::KindMismatch { required: *required },
            LayoutError::LifetimeArgument => LayoutErrorV::LifetimeArgument,
            LayoutError::UnknownAttribute(s) => LayoutErrorV::UnknownAttribute(s@),
            LayoutError::UnknownNamespace(s) => LayoutErrorV::UnknownNamespace(s@),
            LayoutError::DeeplyNested => LayoutErrorV::DeeplyNested,
            LayoutError::ExpectedGenericsString => LayoutErrorV::ExpectedGenericsString,
            LayoutError::InvalidGenerics => LayoutErrorV::InvalidGenerics,
            LayoutError::ExpectedIdent => LayoutErrorV::ExpectedIdent,
            LayoutError::ExpectedList => LayoutErrorV::ExpectedList,
        }
    }
}

/// A local item that binds one generic parameter for a set of checks.
#[derive(Debug, PartialEq, Eq)]
pub enum AssertionItem {
    /// `const ident: ty = expr;`
    Const { ident: String, ty: TypeExpr, expr: String },
    /// `type ident = ty;`
    Type { ident: String, ty: TypeExpr },
}

/// The mathematical value of an [`AssertionItem`].
pub enum ItemV {
    Const { ident: Seq<char>, ty: TyV, expr: Seq<char> },
    Type { ident: Seq<char>, ty: TyV },
}

impl View for AssertionItem {
    type V = ItemV;

    open spec fn view(&self) -> ItemV {
        match self {
            AssertionItem::Const { ident, ty, expr } => ItemV::Const { ident: ident@, ty: ty@, expr: expr@ },
            AssertionItem::Type { ident, ty } => ItemV::Type { ident: ident@, ty: ty@ },
        }
    }
}

/// One layout fact to check.
#[derive(Debug, PartialEq, Eq)]
pub enum Assertion {
    /// The size of `ty` is `size`.
    Size { ty: TypeExpr, size: String },
    /// The offset of `field` within `container` is `offset`.
    Offset { container: TypeExpr, field: Member, offset: String },
}

/// The mathematical value of an [`Assertion`].
pub enum AssertV {
    Size { ty: TyV, size: Seq<char> },
    Offset { container: TyV, field: MemberV, offset: Seq<char> },
}

impl View for Assertion {
    type V = AssertV;

    open spec fn view(&self) -> AssertV {
        match self {
            Assertion::Size { ty, size } => AssertV::Size { ty: ty@, size: size@ },
            Assertion::Offset { container, field, offset } => AssertV::Offset {
                container: container@,
                field: field@,
                offset: offset@,
            },
        }
    }
}

/// The bindings and facts of one check, made in a scope of their own.
#[derive(Debug, PartialEq, Eq)]
pub struct AssertionSet {
    pub items: Vec<AssertionItem>,
    pub assertions: Vec<Assertion>,
}

/// The mathematical value of an [`AssertionSet`].
pub struct SetV {
    pub items: Seq<ItemV>,
    pub assertions: Seq<AssertV>,
}

impl View for AssertionSet {
    type V = SetV;

    open spec fn view(&self) -> SetV {
        SetV {
            items: self.items@.map_values(|x: AssertionItem| x@),
            assertions: self.assertions@.map_values(|x: Assertion| x@),
        }
    }
}

/// The checks of a declaration.
#[derive(Debug, PartialEq, Eq)]
pub struct LayoutModel {
    pub item: LayoutDecl,
    pub assertions: Vec<AssertionSet>,
}

pub open spec fn kind_of(p: GenericParam) -> ParamKind {
    match p {
        GenericParam::Lifetime(_) => ParamKind::Lifetime,
        GenericParam::Type { .. } => ParamKind::Type,
        GenericParam::Const { .. } => ParamKind::Const,
    }
}

/// The item that binds parameter `p` to argument `a`: a type alias for a type parameter, a
/// constant for a const parameter. An argument of another kind than its parameter is refused,
/// and so is a lifetime.
pub open spec fn binding_of(p: GenericParam, a: GenericArgument) -> Result<ItemV, LayoutErrorV> {
    match (p, a) {
        (GenericParam::Lifetime(_), GenericArgument::Lifetime(_)) => Err(LayoutErrorV::LifetimeArgument),
        (GenericParam::Type { ident, .. }, GenericArgument::Type(t)) => Ok(ItemV::Type { ident: ident@, ty: t@ }),
        (GenericParam::Const { ident, ty }, GenericArgument::Const(e)) => Ok(
            ItemV::Const { ident: ident@, ty: ty@, expr: e@ },
        ),
        (p, _) => Err(LayoutErrorV::KindMismatch { required: kind_of(p) }),
    }
}

/// The item that binds a parameter to an argument.
pub fn binding_for(p: &GenericParam, a: &GenericArgument) -> (r: Result<AssertionItem, LayoutError>)
    ensures
        match r {
            Ok(x) => binding_of(*p, *a) == Ok::<ItemV, LayoutErrorV>(x@),
            Err(e) => binding_of(*p, *a) == Err::<ItemV, LayoutErrorV>(e@),
        },
{
    match (p, a) {
        (GenericParam::Lifetime(_), GenericArgument::Lifetime(_)) => Err(LayoutError::LifetimeArgument),
        (GenericParam::Type { ident, .. }, GenericArgument::Type(t)) => Ok(
            AssertionItem::Type { ident: ident.clone(), ty: t.copy() },
        ),
        (GenericParam::Const { ident, ty }, GenericArgument::Const(e)) => Ok(
            AssertionItem::Const { ident: ident.clone(), ty: ty.copy(), expr: e.clone() },
        ),
        (GenericParam::Lifetime(_), _) => Err(LayoutError::KindMismatch { required: ParamKind::Lifetime }),
        (GenericParam::Type { .. }, _) => Err(LayoutError::KindMismatch { required: ParamKind::Type }),
        (GenericParam::Const { .. }, _) => Err(LayoutError::KindMismatch { required: ParamKind::Const }),
    }
}

/// The binding at position `i`, as a step of a fold.
pub open spec fn binding_step(ps: Seq<GenericParam>, args: Seq<GenericArgument>) -> spec_fn(int) -> Result<
    Seq<ItemV>,
    LayoutErrorV,
> {
    |i: int|
        match binding_of(ps[i], args[i]) {
            Ok(x) => Ok(seq![x]),
            Err(e) => Err(e),
        }
}

/// The bindings of the parameters `ps` to the arguments `args`, position by position; the first
/// refused pair decides the error.
pub open spec fn bindings_of(ps: Seq<GenericParam>, args: Seq<GenericArgument>) -> Result<
    Seq<ItemV>,
    LayoutErrorV,
> {
    fold_results(Seq::new(ps.len(), |i: int| i), binding_step(ps, args))
}

/// The type of the declaration itself, with each of its parameters as argument: `Name<T, N>`.
pub open spec fn container_type(d: LayoutDecl) -> TyV {
    TyV::Path(
        PathV {
            leading_colon: false,
            segments: seq![
                SegV {
                    ident: d.ident@,
                    arguments: if d.generics@.len() == 0 {
                        ArgsV::Empty
                    } else {
                        ArgsV::Angle(d.generics@.map_values(|p: GenericParam| param_argument(p)))
                    },
                },
            ],
        },
    )
}

/// A parameter written as an argument.
pub open spec fn param_argument(p: GenericParam) -> ArgV {
    match p {
        GenericParam::Lifetime(l) => ArgV::Lifetime(l@),
        GenericParam::Type { ident, .. } => ArgV::Type(bare_ty(ident@)),
        GenericParam::Const { ident, .. } => ArgV::Type(bare_ty(ident@)),
    }
}

/// The type named by the bare identifier `id`.
pub open spec fn bare_ty(id: Seq<char>) -> TyV {
    TyV::Path(PathV { leading_colon: false, segments: seq![SegV { ident: id, arguments: ArgsV::Empty }] })
}

/// The facts that one field expectation asks for: the field type's size, with associated types
/// of bound parameters qualified, and the field's offset in the container.
pub open spec fn field_facts(
    b: Seq<(Seq<char>, PathV)>,
    container: TyV,
    fa: FieldAssertion,
) -> Seq<AssertV> {
    (match fa.size {
        Some(s) => seq![AssertV::Size { ty: q_ty(b, fa.ty@), size: s@ }],
        None => Seq::empty(),
    }) + (match fa.offset {
        Some(o) => seq![AssertV::Offset { container, field: fa.field@, offset: o@ }],
        None => Seq::empty(),
    })
}

/// The facts of the field expectations `fas`, in order.
pub open spec fn facts_of(b: Seq<(Seq<char>, PathV)>, c: TyV, fas: Seq<FieldAssertion>) -> Seq<AssertV>
    decreases fas.len(),
{
    if fas.len() == 0 {
        Seq::empty()
    } else {
        facts_of(b, c, fas.drop_last()) + field_facts(b, c, fas.last())
    }
}

/// All facts of a namespace: the field facts in order, then the container's size.
pub open spec fn namespace_facts(d: LayoutDecl, ns: Namespace) -> Seq<AssertV> {
    let c = container_type(d);
    facts_of(bound_generics_of(d.generics@), c, ns.field_assertions@) + match ns.size {
        Some(s) => seq![AssertV::Size { ty: c, size: s@ }],
        None => Seq::empty(),
    }
}

/// The generic argument lists a namespace is checked at: its own, or, where it has none and
/// the declaration has no parameters, the one empty list.
pub open spec fn argument_lists(d: LayoutDecl, ns: Namespace) -> Seq<Seq<GenericArgument>> {
    if ns.generics@.len() == 0 && d.generics@.len() == 0 {
        seq![Seq::empty()]
    } else {
        ns.generics@.map_values(|l: Vec<GenericArgument>| l@)
    }
}

/// The check of a declaration at one argument list.
pub open spec fn set_of(d: LayoutDecl, ns: Namespace, args: Seq<GenericArgument>) -> Result<
    Seq<SetV>,
    LayoutErrorV,
> {
    if args.len() != d.generics@.len() {
        Err(LayoutErrorV::ArityMismatch { expected: d.generics@.len(), found: args.len() })
    } else {
        match bindings_of(d.generics@, args) {
            Ok(items) => Ok(seq![SetV { items, assertions: namespace_facts(d, ns) }]),
            Err(e) => Err(e),
        }
    }
}

pub open spec fn set_step(d: LayoutDecl, ns: Namespace) -> spec_fn(Seq<GenericArgument>) -> Result<
    Seq<SetV>,
    LayoutErrorV,
> {
    |args: Seq<GenericArgument>| set_of(d, ns, args)
}

/// The checks of one namespace, one per argument list.
pub open spec fn namespace_sets(d: LayoutDecl, ns: Namespace) -> Result<Seq<SetV>, LayoutErrorV> {
    fold_results(argument_lists(d, ns), set_step(d, ns))
}

pub open spec fn namespace_step(d: LayoutDecl) -> spec_fn((String, Namespace)) -> Result<
    Seq<SetV>,
    LayoutErrorV,
> {
    |entry: (String, Namespace)| namespace_sets(d, entry.1)
}

/// The checks of every namespace, in order; the first refused argument list decides the error.
pub open spec fn analysis_of(ast: Ast) -> Result<Seq<SetV>, LayoutErrorV> {
    fold_results(ast.namespaces@, namespace_step(ast.item))
}

/// The bindings of parameters to arguments of the same number, position by position.
pub fn bindings(ps: &Vec<GenericParam>, args: &Vec<GenericArgument>) -> (r: Result<Vec<AssertionItem>, LayoutError>)
    requires
        ps@.len() == args@.len(),
    ensures
        match r {
            Ok(v) => bindings_of(ps@, args@) == Ok::<Seq<ItemV>, LayoutErrorV>(v@.map_values(|x: AssertionItem| x@)),
            Err(e) => bindings_of(ps@, args@) == Err::<Seq<ItemV>, LayoutErrorV>(e@),
        },
{
    let ghost idx = Seq::new(ps@.len(), |i: int| i);
    let ghost g = binding_step(ps@, args@);
    let mut out: Vec<AssertionItem> = Vec::new();
    let mut i: usize = 0;
    proof {
        lemma_fold_empty(idx, g);
        assert(out@.map_values(|x: AssertionItem| x@) =~= Seq::<ItemV>::empty());
    }
    while i < ps.len()
        invariant
            i <= ps@.len(),
            ps@.len() == args@.len(),
            idx == Seq::new(ps@.len(), |i: int| i),
            g == binding_step(ps@, args@),
            fold_results(idx.subrange(0, i as int), g) == Ok::<Seq<ItemV>, LayoutErrorV>(
                out@.map_values(|x: AssertionItem| x@),
            ),
        decreases ps@.len() - i,
    {
        proof {
            lemma_fold_step(idx, i as int, g);
        }
        match binding_for(&ps[i], &args[i]) {
            Ok(x) => {
                let ghost before = out@;
                out.push(x);
                assert(out@.map_values(|x: AssertionItem| x@) =~= before.map_values(|x: AssertionItem| x@) + seq![x@]);
            },
            Err(e) => {
                proof {
                    lemma_fold_error_stays(idx, i + 1, ps@.len() as int, g);
                    lemma_fold_full(idx, g);
                }
                return Err(e);
            },
        }
        i = i + 1;
    }
    proof {
        lemma_fold_full(idx, g);
    }
    Ok(out)
}

/// The type of the declaration itself, with each of its parameters as argument.
pub fn container_type_of(d: &LayoutDecl) -> (r: TypeExpr)
    ensures
        r@ == container_type(*d),
{
    let arguments = if d.generics.len() == 0 {
        PathArguments::Empty
    } else {
        let mut args: Vec<GenericArgument> = Vec::new();
        let mut i: usize = 0;
        while i < d.generics.len()
            invariant
                i <= d.generics@.len(),
                arg_seq_view(args@) == d.generics@.subrange(0, i as int).map_values(|p: GenericParam| param_argument(p)),
            decreases d.generics@.len() - i,
        {
            let a = match &d.generics[i] {
                GenericParam::Lifetime(l) => GenericArgument::Lifetime(l.clone()),
                GenericParam::Type { ident, .. } => GenericArgument::Type(bare_type(ident)),
                GenericParam::Const { ident, .. } => GenericArgument::Type(bare_type(ident)),
            };
            proof {
                lemma_arg_seq_view_push(args@, a);
                assert(d.generics@.subrange(0, i + 1).map_values(|p: GenericParam| param_argument(p))
                    =~= d.generics@.subrange(0, i as int).map_values(|p: GenericParam| param_argument(p)).push(
                    param_argument(d.generics@[i as int])));
            }
            args.push(a);
            i = i + 1;
        }
        assert(d.generics@.subrange(0, d.generics@.len() as int) =~= d.generics@);
        PathArguments::AngleBracketed(args)
    };
    let mut segments: Vec<PathSegment> = Vec::new();
    let seg = PathSegment { ident: d.ident.clone(), arguments };
    proof {
        lemma_segs_view_push(segments@, seg);
        assert(segs_view(Seq::<PathSegment>::empty()) =~= Seq::<SegV>::empty());
    }
    segments.push(seg);
    assert(segments@ =~= Seq::<PathSegment>::empty().push(seg));
    let tp = TypePath { leading_colon: false, segments };
    assert(tp@.segments =~= container_type(*d)->Path_0.segments);
    TypeExpr::Path(tp)
}

/// The type named by the bare identifier `id`.
pub fn bare_type(id: &String) -> (r: TypeExpr)
    ensures
        r@ == bare_ty(id@),
{
    let mut segments: Vec<PathSegment> = Vec::new();
    let seg = PathSegment { ident: id.clone(), arguments: PathArguments::Empty };
    proof {
        lemma_segs_view_push(segments@, seg);
        assert(segs_view(Seq::<PathSegment>::empty()) =~= Seq::<SegV>::empty());
        assert(seg_view(seg) == SegV { ident: id@, arguments: ArgsV::Empty });
    }
    segments.push(seg);
    assert(segments@ =~= Seq::<PathSegment>::empty().push(seg));
    let tp = TypePath { leading_colon: false, segments };
    assert(tp@.segments =~= seq![SegV { ident: id@, arguments: ArgsV::Empty }]);
    TypeExpr::Path(tp)
}

/// All facts of a namespace: the field facts in order, then the container's size.
fn namespace_assertions(d: &LayoutDecl, ns: &Namespace) -> (r: Vec<Assertion>)
    ensures
        r@.map_values(|x: Assertion| x@) == namespace_facts(*d, *ns),
{
    let bound = get_bound_generics(&d.generics);
    let ghost b = bound_generics_of(d.generics@);
    let ghost c = container_type(*d);
    let mut out: Vec<Assertion> = Vec::new();
    let mut i: usize = 0;
    let fas = &ns.field_assertions;
    assert(fas@.subrange(0, 0) =~= Seq::<FieldAssertion>::empty());
    assert(out@.map_values(|x: Assertion| x@) =~= Seq::<AssertV>::empty());
    while i < fas.len()
        invariant
            i <= fas@.len(),
            bounds_view(bound@) == b,
            b == bound_generics_of(d.generics@),
            c == container_type(*d),
            out@.map_values(|x: Assertion| x@) == facts_of(b, c, fas@.subrange(0, i as int)),
        decreases fas@.len() - i,
    {
        let fa = &fas[i];
        let ghost before = out@;
        assert(fas@.subrange(0, i + 1).drop_last() =~= fas@.subrange(0, i as int));
        match &fa.size {
            Some(size) => {
                let ty = qualify_generic(&bound, fa.ty.copy());
                out.push(Assertion::Size { ty, size: size.clone() });
            },
            None => {},
        }
        let ghost mid = out@;
        match &fa.offset {
            Some(offset) => {
                let container = container_type_of(d);
                out.push(Assertion::Offset { container, field: fa.field.copy(), offset: offset.clone() });
            },
            None => {},
        }
        assert(out@.map_values(|x: Assertion| x@) =~= before.map_values(|x: Assertion| x@) + field_facts(b, c, *fa));
        i = i + 1;
    }
    assert(fas@.subrange(0, fas@.len() as int) =~= fas@);
    let ghost before = out@;
    match &ns.size {
        Some(size) => {
            let ty = container_type_of(d);
            out.push(Assertion::Size { ty, size: size.clone() });
        },
        None => {},
    }
    assert(out@.map_values(|x: Assertion| x@) =~= namespace_facts(*d, *ns));
    out
}

/// The check of a declaration at one argument list.
fn set_for(d: &LayoutDecl, ns: &Namespace, args: &Vec<GenericArgument>) -> (r: Result<AssertionSet, LayoutError>)
    ensures
        match r {
            Ok(x) => set_of(*d, *ns, args@) == Ok::<Seq<SetV>, LayoutErrorV>(seq![x@]),
            Err(e) => set_of(*d, *ns, args@) == Err::<Seq<SetV>, LayoutErrorV>(e@),
        },
{
    if args.len() != d.generics.len() {
        return Err(LayoutError::ArityMismatch { expected: d.generics.len(), found: args.len() });
    }
    let items = bindings(&d.generics, args)?;
    let assertions = namespace_assertions(d, ns);
    Ok(AssertionSet { items, assertions })
}

/// The checks of one namespace, one per argument list.
fn sets_for(d: &LayoutDecl, ns: &Namespace) -> (r: Result<Vec<AssertionSet>, LayoutError>)
    ensures
        match r {
            Ok(v) => namespace_sets(*d, *ns) == Ok::<Seq<SetV>, LayoutErrorV>(v@.map_values(|x: AssertionSet| x@)),
            Err(e) => namespace_sets(*d, *ns) == Err::<Seq<SetV>, LayoutErrorV>(e@),
        },
{
    let ghost lists = argument_lists(*d, *ns);
    let ghost g = set_step(*d, *ns);
    let mut out: Vec<AssertionSet> = Vec::new();
    if ns.generics.len() == 0 && d.generics.len() == 0 {
        let empty: Vec<GenericArgument> = Vec::new();
        proof {
            lemma_fold_step(lists, 0, g);
            lemma_fold_empty(lists, g);
            lemma_fold_full(lists, g);
            assert(lists[0] == empty@);
        }
        let x = set_for(d, ns, &empty)?;
        out.push(x);
        assert(out@.map_values(|x: AssertionSet| x@) =~= Seq::<SetV>::empty() + seq![x@]);
        return Ok(out);
    }
    let mut i: usize = 0;
    proof {
        lemma_fold_empty(lists, g);
        assert(out@.map_values(|x: AssertionSet| x@) =~= Seq::<SetV>::empty());
    }
    while i < ns.generics.len()
        invariant
            i <= ns.generics@.len(),
            lists == argument_lists(*d, *ns),
            lists == ns.generics@.map_values(|l: Vec<GenericArgument>| l@),
            g == set_step(*d, *ns),
            fold_results(lists.subrange(0, i as int), g) == Ok::<Seq<SetV>, LayoutErrorV>(
                out@.map_values(|x: AssertionSet| x@),
            ),
        decreases ns.generics@.len() - i,
    {
        proof {
            lemma_fold_step(lists, i as int, g);
        }
        match set_for(d, ns, &ns.generics[i]) {
            Ok(x) => {
                let ghost before = out@;
                out.push(x);
                assert(out@.map_values(|x: AssertionSet| x@) =~= before.map_values(|x: AssertionSet| x@) + seq![x@]);
            },
            Err(e) => {
                proof {
                    lemma_fold_error_stays(lists, i + 1, lists.len() as int, g);
                    lemma_fold_full(lists, g);
                }
                return Err(e);
            },
        }
        i = i + 1;
    }
    proof {
        lemma_fold_full(lists, g);
    }
    Ok(out)
}

/// Build the checks of a declaration: for every namespace and every generic argument list of
/// it, the local items that bind the declaration's parameters and the size and offset facts to
/// check under them.
pub fn analyse(ast: Ast) -> (r: Result<LayoutModel, LayoutError>)
    ensures
        match r {
            Ok(m) => analysis_of(ast) == Ok::<Seq<SetV>, LayoutErrorV>(m.assertions@.map_values(|x: AssertionSet| x@))
                && m.item == ast.item,
            Err(e) => analysis_of(ast) == Err::<Seq<SetV>, LayoutErrorV>(e@),
        },
{
    let ghost entries = ast.namespaces@;
    let ghost g = namespace_step(ast.item);
    let mut out: Vec<AssertionSet> = Vec::new();
    let mut i: usize = 0;
    proof {
        lemma_fold_empty(entries, g);
        assert(out@.map_values(|x: AssertionSet| x@) =~= Seq::<SetV>::empty());
    }
    while i < ast.namespaces.len()
        invariant
            i <= entries.len(),
            entries == ast.namespaces@,
            g == namespace_step(ast.item),
            fold_results(entries.subrange(0, i as int), g) == Ok::<Seq<SetV>, LayoutErrorV>(
                out@.map_values(|x: AssertionSet| x@),
            ),
        decreases entries.len() - i,
    {
        proof {
            lemma_fold_step(entries, i as int, g);
        }
        match sets_for(&ast.item, &ast.namespaces[i].1) {
            Ok(mut sets) => {
                let ghost before = out@;
                let ghost added = sets@;
                out.append(&mut sets);
                assert(out@.map_values(|x: AssertionSet| x@) =~= before.map_values(|x: AssertionSet| x@)
                    + added.map_values(|x: AssertionSet| x@));
            },
            Err(e) => {
                proof {
                    lemma_fold_error_stays(entries, i + 1, entries.len() as int, g);
                    lemma_fold_full(entries, g);
                }
                return Err(e);
            },
        }
        i = i + 1;
    }
    proof {
        lemma_fold_full(entries, g);
    }
    Ok(LayoutModel { item: ast.item, assertions: out })
}

/// An argument list whose length is not the declaration's number of parameters makes the
/// analysis fail, whichever namespace holds it.
pub proof fn lemma_arity_mismatch_refused(ast: Ast, k: int, j: int)
    requires
        0 <= k < ast.namespaces@.len(),
        0 <= j < argument_lists(ast.item, ast.namespaces@[k].1).len(),
        argument_lists(ast.item, ast.namespaces@[k].1)[j].len() != ast.item.generics@.len(),
    ensures
        analysis_of(ast) is Err,
{
    let ns = ast.namespaces@[k].1;
    lemma_fold_fails_if_some(argument_lists(ast.item, ns), j, set_step(ast.item, ns));
    lemma_fold_fails_if_some(ast.namespaces@, k, namespace_step(ast.item));
}

/// Where every argument list before it (in namespace order, then list order) is accepted, an
/// argument list whose length is not the declaration's number of parameters makes the analysis
/// fail with the expected and the found number of arguments.
pub proof fn lemma_first_arity_mismatch_counts(ast: Ast, k: int, j: int)
    requires
        0 <= k < ast.namespaces@.len(),
        0 <= j < argument_lists(ast.item, ast.namespaces@[k].1).len(),
        argument_lists(ast.item, ast.namespaces@[k].1)[j].len() != ast.item.generics@.len(),
        forall|i: int| 0 <= i < k ==> #[trigger] namespace_sets(ast.item, ast.namespaces@[i].1) is Ok,
        forall|i: int|
            0 <= i < j ==> #[trigger] set_of(
                ast.item,
                ast.namespaces@[k].1,
                argument_lists(ast.item, ast.namespaces@[k].1)[i],
            ) is Ok,
    ensures
        analysis_of(ast) == Err::<Seq<SetV>, LayoutErrorV>(
            LayoutErrorV::ArityMismatch {
                expected: ast.item.generics@.len(),
                found: argument_lists(ast.item, ast.namespaces@[k].1)[j].len(),
            },
        ),
{
    let ns = ast.namespaces@[k].1;
    let lists = argument_lists(ast.item, ns);
    let g = set_step(ast.item, ns);
    assert forall|i: int| 0 <= i < j implies #[trigger] g(lists[i]) is Ok by {
        assert(set_of(ast.item, ns, lists[i]) is Ok);
    }
    lemma_fold_first_error(lists, j, g);
    let h = namespace_step(ast.item);
    assert forall|i: int| 0 <= i < k implies #[trigger] h(ast.namespaces@[i]) is Ok by {
        assert(namespace_sets(ast.item, ast.namespaces@[i].1) is Ok);
    }
    lemma_fold_first_error(ast.namespaces@, k, h);
}

/// A declaration checked at a single argument list of the wrong length is refused with the
/// expected and the found number of arguments.
pub proof fn lemma_arity_mismatch_counts(ast: Ast)
    requires
        ast.namespaces@.len() == 1,
        argument_lists(ast.item, ast.namespaces@[0].1).len() == 1,
        argument_lists(ast.item, ast.namespaces@[0].1)[0].len() != ast.item.generics@.len(),
    ensures
        analysis_of(ast) == Err::<Seq<SetV>, LayoutErrorV>(
            LayoutErrorV::ArityMismatch {
                expected: ast.item.generics@.len(),
                found: argument_lists(ast.item, ast.namespaces@[0].1)[0].len(),
            },
        ),
{
    let ns = ast.namespaces@[0].1;
    let lists = argument_lists(ast.item, ns);
    lemma_fold_single(lists, set_step(ast.item, ns));
    lemma_fold_single(ast.namespaces@, namespace_step(ast.item));
}

/// Namespaces are checked independently: where every namespace has one argument list, a
/// successful analysis gives one set per namespace, in order, and the set of namespace `k` holds
/// that namespace's own bindings and facts (its own expected size among them) and nothing of
/// any other namespace.
pub proof fn lemma_namespaces_independent(ast: Ast, k: int)
    requires
        forall|j: int| 0 <= j < ast.namespaces@.len() ==> (#[trigger] argument_lists(ast.item, ast.namespaces@[j].1)).len() == 1,
        analysis_of(ast) is Ok,
        0 <= k < ast.namespaces@.len(),
    ensures
        analysis_of(ast)->Ok_0.len() == ast.namespaces@.len(),
        analysis_of(ast)->Ok_0[k].assertions == namespace_facts(ast.item, ast.namespaces@[k].1),
        bindings_of(ast.item.generics@, argument_lists(ast.item, ast.namespaces@[k].1)[0]) == Ok::<Seq<ItemV>, LayoutErrorV>(
            analysis_of(ast)->Ok_0[k].items,
        ),
{
    let g = namespace_step(ast.item);
    let entries = ast.namespaces@;
    assert forall|j: int| 0 <= j < entries.len() implies (#[trigger] g(entries[j]) is Ok ==> g(entries[j])->Ok_0.len() == 1) by {
        let ns = entries[j].1;
        lemma_fold_single(argument_lists(ast.item, ns), set_step(ast.item, ns));
    }
    lemma_fold_one_each(entries, g, k);
    let ns = entries[k].1;
    lemma_fold_single(argument_lists(ast.item, ns), set_step(ast.item, ns));
}

/// A `key = value` argument of a namespace: `size` (or `assert_size`) sets the expected size,
/// each `generics` (or `assert_generics`) adds an argument list; any other key is refused.
pub open spec fn key_value_step(st: NamespaceV, key: Seq<char>, value: MetaValue) -> Result<NamespaceV, LayoutErrorV> {
    if key == "size"@ || key == "assert_size"@ {
        Ok(NamespaceV { size: Some(value_text(value)), ..st })
    } else if key == "generics"@ || key == "assert_generics"@ {
        match value {
            MetaValue::Str { generics: Some(g), .. } => Ok(NamespaceV { generics: st.generics.push(arg_seq_view(g@)), ..st }),
            MetaValue::Str { generics: None, .. } => Err(LayoutErrorV::InvalidGenerics),
            MetaValue::Expr(_) => Err(LayoutErrorV::ExpectedGenericsString),
        }
    } else {
        Err(LayoutErrorV::UnknownAttribute(key))
    }
}

/// One argument inside a namespace block, where no further block may stand.
pub open spec fn inner_step() -> spec_fn(NamespaceV, Meta) -> Result<NamespaceV, LayoutErrorV> {
    |st: NamespaceV, m: Meta|
        match m {
            Meta::Path(_) => Err(LayoutErrorV::ExpectedList),
            Meta::List { .. } => Err(LayoutErrorV::DeeplyNested),
            Meta::NameValue { path, value } => match single_ident(path@) {
                Some(k) => key_value_step(st, k, value),
                None => Err(LayoutErrorV::ExpectedIdent),
            },
        }
}

/// The default namespace and the named ones read so far.
pub type NamespacesV = (NamespaceV, Seq<(Seq<char>, NamespaceV)>);

/// One argument of the container attribute: a key of the default namespace, or a named
/// namespace block.
pub open spec fn outer_step() -> spec_fn(NamespacesV, Meta) -> Result<NamespacesV, LayoutErrorV> {
    |st: NamespacesV, m: Meta|
        match m {
            Meta::Path(_) => Err(LayoutErrorV::ExpectedList),
            Meta::List { path, nested } => match fold_state(nested@, empty_namespace(), inner_step()) {
                Ok(inner) => match single_ident(path@) {
                    Some(k) => Ok((st.0, st.1.push((k, inner)))),
                    None => Err(LayoutErrorV::ExpectedIdent),
                },
                Err(e) => Err(e),
            },
            Meta::NameValue { path, value } => match single_ident(path@) {
                Some(k) => match key_value_step(st.0, k, value) {
                    Ok(ns) => Ok((ns, st.1)),
                    Err(e) => Err(e),
                },
                None => Err(LayoutErrorV::ExpectedIdent),
            },
        }
}

/// The namespaces of a container attribute.
pub open spec fn namespaces_of(attrs: Seq<Meta>) -> Result<NamespacesV, LayoutErrorV> {
    fold_state(attrs, (empty_namespace(), Seq::empty()), outer_step())
}

fn key_value(ns: &mut Namespace, key: &String, value: &MetaValue) -> (r: Result<(), LayoutError>)
    ensures
        match r {
            Ok(_) => key_value_step(old(ns)@, key@, *value) == Ok::<NamespaceV, LayoutErrorV>(final(ns)@),
            Err(e) => key_value_step(old(ns)@, key@, *value) == Err::<NamespaceV, LayoutErrorV>(e@),
        },
{
    if is_key(key, "size") || is_key(key, "assert_size") {
        ns.size = Some(value_source(value));
        Ok(())
    } else if is_key(key, "generics") || is_key(key, "assert_generics") {
        match value {
            MetaValue::Str { generics: Some(g), .. } => {
                let ghost before = ns.generics@;
                ns.generics.push(copy_arguments(g));
                assert(ns@.generics =~= before.map_values(|l: Vec<GenericArgument>| arg_seq_view(l@)).push(arg_seq_view(g@)));
                Ok(())
            },
            MetaValue::Str { generics: None, .. } => Err(LayoutError::InvalidGenerics),
            MetaValue::Expr(_) => Err(LayoutError::ExpectedGenericsString),
        }
    } else {
        Err(LayoutError::UnknownAttribute(key.clone()))
    }
}

fn parse_inner(nested: &Vec<Meta>) -> (r: Result<Namespace, LayoutError>)
    ensures
        match r {
            Ok(ns) => fold_state(nested@, empty_namespace(), inner_step()) == Ok::<NamespaceV, LayoutErrorV>(ns@),
            Err(e) => fold_state(nested@, empty_namespace(), inner_step()) == Err::<NamespaceV, LayoutErrorV>(e@),
        },
{
    let ghost f = inner_step();
    let ghost init = empty_namespace();
    let mut ns = Namespace::new();
    let mut i: usize = 0;
    proof {
        lemma_state_ends(nested@, init, f);
    }
    while i < nested.len()
        invariant
            i <= nested@.len(),
            f == inner_step(),
            init == empty_namespace(),
            fold_state(nested@.subrange(0, i as int), init, f) == Ok::<NamespaceV, LayoutErrorV>(ns@),
        decreases nested@.len() - i,
    {
        proof {
            lemma_state_step(nested@, i as int, init, f);
        }
        let step: Result<(), LayoutError> = match &nested[i] {
            Meta::Path(_) => Err(LayoutError::ExpectedList),
            Meta::List { .. } => Err(LayoutError::DeeplyNested),
            Meta::NameValue { path, value } => match require_ident(path) {
                Some(k) => key_value(&mut ns, &k, value),
                None => Err(LayoutError::ExpectedIdent),
            },
        };
        if let Err(e) = step {
            proof {
                lemma_state_error_stays(nested@, i + 1, nested@.len() as int, init, f);
                lemma_state_ends(nested@, init, f);
            }
            return Err(e);
        }
        i = i + 1;
    }
    proof {
        lemma_state_ends(nested@, init, f);
    }
    Ok(ns)
}

/// The mathematical value of a list of named namespaces.
pub open spec fn named_view(v: Seq<(String, Namespace)>) -> Seq<(Seq<char>, NamespaceV)> {
    v.map_values(|e: (String, Namespace)| (e.0@, e.1@))
}

/// Read the container attribute's arguments into the default namespace and the named ones, in
/// order.
pub fn parse_namespace(attrs: &Vec<Meta>) -> (r: Result<(Namespace, Vec<(String, Namespace)>), LayoutError>)
    ensures
        match r {
            Ok(x) => namespaces_of(attrs@) == Ok::<NamespacesV, LayoutErrorV>((x.0@, named_view(x.1@))),
            Err(e) => namespaces_of(attrs@) == Err::<NamespacesV, LayoutErrorV>(e@),
        },
{
    let ghost f = outer_step();
    let ghost init: NamespacesV = (empty_namespace(), Seq::empty());
    let mut ns = Namespace::new();
    let mut nested: Vec<(String, Namespace)> = Vec::new();
    let mut i: usize = 0;
    proof {
        lemma_state_ends(attrs@, init, f);
        assert(named_view(nested@) =~= Seq::<(Seq<char>, NamespaceV)>::empty());
    }
    while i < attrs.len()
        invariant
            i <= attrs@.len(),
            f == outer_step(),
            init == (empty_namespace(), Seq::<(Seq<char>, NamespaceV)>::empty()),
            fold_state(attrs@.subrange(0, i as int), init, f) == Ok::<NamespacesV, LayoutErrorV>((ns@, named_view(nested@))),
        decreases attrs@.len() - i,
    {
        proof {
            lemma_state_step(attrs@, i as int, init, f);
        }
        let step: Result<(), LayoutError> = match &attrs[i] {
            Meta::Path(_) => Err(LayoutError::ExpectedList),
            Meta::List { path, nested: inner } => match parse_inner(inner) {
                Ok(inner_ns) => match require_ident(path) {
                    Some(k) => {
                        let ghost before = nested@;
                        nested.push((k, inner_ns));
                        assert(named_view(nested@) =~= named_view(before).push((k@, inner_ns@)));
                        Ok(())
                    },
                    None => Err(LayoutError::ExpectedIdent),
                },
                Err(e) => Err(e),
            },
            Meta::NameValue { path, value } => match require_ident(path) {
                Some(k) => key_value(&mut ns, &k, value),
                None => Err(LayoutError::ExpectedIdent),
            },
        };
        if let Err(e) = step {
            proof {
                lemma_state_error_stays(attrs@, i + 1, attrs@.len() as int, init, f);
                lemma_state_ends(attrs@, init, f);
            }
            return Err(e);
        }
        i = i + 1;
    }
    proof {
        lemma_state_ends(attrs@, init, f);
    }
    Ok((ns, nested))
}

/// Namespaces by name, in order.
pub type NamedV = Seq<(Seq<char>, NamespaceV)>;

/// `j` is the first position of the namespace named `k`.
pub open spec fn first_index(s: NamedV, k: Seq<char>, j: int) -> bool {
    &&& 0 <= j < s.len()
    &&& s[j].0 == k
    &&& forall|i: int| 0 <= i < j ==> s[i].0 != k
}

/// Whether a namespace is named `k`.
pub open spec fn has_name(s: NamedV, k: Seq<char>) -> bool {
    exists|j: int| 0 <= j < s.len() && s[j].0 == k
}

/// The namespaces with `v` under the name `k`: in place of the first of that name, or last.
pub open spec fn insert_named(s: NamedV, k: Seq<char>, v: NamespaceV) -> NamedV {
    if has_name(s, k) {
        s.update(choose|j: int| first_index(s, k, j), (k, v))
    } else {
        s.push((k, v))
    }
}

/// A field expectation with a further `size` or `offset` set.
pub open spec fn expect_step(st: FieldAssertionV, key: Seq<char>, value: MetaValue) -> Result<FieldAssertionV, LayoutErrorV> {
    if key == "size"@ {
        Ok(FieldAssertionV { size: Some(value_text(value)), ..st })
    } else if key == "offset"@ {
        Ok(FieldAssertionV { offset: Some(value_text(value)), ..st })
    } else {
        Err(LayoutErrorV::UnknownAttribute(key))
    }
}

/// One argument inside a field's namespace block.
pub open spec fn field_inner_step() -> spec_fn(FieldAssertionV, Meta) -> Result<FieldAssertionV, LayoutErrorV> {
    |st: FieldAssertionV, m: Meta|
        match m {
            Meta::NameValue { path, value } => match single_ident(path@) {
                Some(k) => expect_step(st, k, value),
                None => Err(LayoutErrorV::ExpectedIdent),
            },
            _ => Err(LayoutErrorV::ExpectedList),
        }
}

/// The expectation of a field with nothing set.
pub open spec fn blank_expectation(field: MemberV, ty: TyV) -> FieldAssertionV {
    FieldAssertionV { field, ty, size: None, offset: None }
}

/// The field's default expectation and the namespaces, while reading one attribute.
pub type FieldStateV = (FieldAssertionV, NamedV);

/// The namespace named `k` with one more field expectation.
pub open spec fn add_expectation(s: NamedV, k: Seq<char>, fa: FieldAssertionV) -> NamedV {
    let j = choose|j: int| first_index(s, k, j);
    s.update(j, (k, NamespaceV { field_assertions: s[j].1.field_assertions.push(fa), ..s[j].1 }))
}

/// One argument of a field attribute: `size` or `offset` of the default namespace, or a block
/// `name(size = .., offset = ..)` of a namespace that the container declares.
pub open spec fn field_meta_step(field: MemberV, ty: TyV) -> spec_fn(FieldStateV, Meta) -> Result<FieldStateV, LayoutErrorV> {
    |st: FieldStateV, m: Meta|
        match m {
            Meta::NameValue { path, value } => match single_ident(path@) {
                Some(k) => if k == "size"@ || k == "offset"@ {
                    match expect_step(st.0, k, value) {
                        Ok(d) => Ok((d, st.1)),
                        Err(e) => Err(e),
                    }
                } else if has_name(st.1, k) {
                    Err(LayoutErrorV::ExpectedList)
                } else {
                    Err(LayoutErrorV::UnknownNamespace(k))
                },
                None => Err(LayoutErrorV::ExpectedIdent),
            },
            Meta::Path(path) => match single_ident(path@) {
                Some(k) => if has_name(st.1, k) {
                    Err(LayoutErrorV::ExpectedList)
                } else {
                    Err(LayoutErrorV::UnknownNamespace(k))
                },
                None => Err(LayoutErrorV::ExpectedIdent),
            },
            Meta::List { path, nested } => match single_ident(path@) {
                Some(k) => if has_name(st.1, k) {
                    match fold_state(nested@, blank_expectation(field, ty), field_inner_step()) {
                        Ok(fa) => Ok((st.0, add_expectation(st.1, k, fa))),
                        Err(e) => Err(e),
                    }
                } else {
                    Err(LayoutErrorV::UnknownNamespace(k))
                },
                None => Err(LayoutErrorV::ExpectedIdent),
            },
        }
}

/// One attribute of a field. A layout attribute adds its namespace blocks' expectations to their
/// namespaces, then its default expectation to the default namespace; other attributes are kept
/// and change nothing.
pub open spec fn attr_step(field: MemberV, ty: TyV) -> spec_fn(NamedV, Attribute) -> Result<NamedV, LayoutErrorV> {
    |st: NamedV, a: Attribute|
        if !is_layout_path(a.path@) {
            Ok(st)
        } else {
            match a.args {
                None => Err(LayoutErrorV::ExpectedList),
                Some(ms) => match fold_state(ms@, (blank_expectation(field, ty), st), field_meta_step(field, ty)) {
                    Ok(x) => Ok(add_expectation(x.1, Seq::empty(), x.0)),
                    Err(e) => Err(e),
                },
            }
        }
}

/// A declaration as written: name, generics, and fields with all their attributes.
#[derive(Debug, PartialEq, Eq)]
pub struct LayoutInput {
    pub ident: String,
    pub generics: Vec<GenericParam>,
    pub fields: Vec<LayoutField>,
}

/// One field of the declaration.
pub open spec fn field_step() -> spec_fn(NamedV, LayoutField) -> Result<NamedV, LayoutErrorV> {
    |st: NamedV, f: LayoutField| fold_state(f.attrs@, st, attr_step(f.member@, f.ty@))
}

/// One named namespace of the container attribute, in place of an earlier one of that name.
pub open spec fn named_step() -> spec_fn(NamedV, (Seq<char>, NamespaceV)) -> Result<NamedV, LayoutErrorV> {
    |st: NamedV, e: (Seq<char>, NamespaceV)| Ok(insert_named(st, e.0, e.1))
}

/// The namespaces of a declaration, default first under the empty name, with the expectations
/// of its fields' layout attributes.
pub open spec fn parse_of(attrs: Seq<Meta>, item: LayoutInput) -> Result<NamedV, LayoutErrorV> {
    match namespaces_of(attrs) {
        Ok(x) => match fold_state(x.1, seq![(Seq::<char>::empty(), x.0)], named_step()) {
            Ok(start) => fold_state(item.fields@, start, field_step()),
            Err(e) => Err(e),
        },
        Err(e) => Err(e),
    }
}

/// The attributes of `attrs` that are not layout attributes, in order.
pub open spec fn kept_attrs(attrs: Seq<Attribute>) -> Seq<Attribute>
    decreases attrs.len(),
{
    if attrs.len() == 0 {
        Seq::empty()
    } else if is_layout_path(attrs.last().path@) {
        kept_attrs(attrs.drop_last())
    } else {
        kept_attrs(attrs.drop_last()).push(attrs.last())
    }
}

/// Where the namespace named `k` first stands, if one does.
pub fn find_namespace(v: &Vec<(String, Namespace)>, k: &String) -> (r: Option<usize>)
    ensures
        match r {
            Some(j) => first_index(named_view(v@), k@, j as int),
            None => !has_name(named_view(v@), k@),
        },
{
    let ghost s = named_view(v@);
    let mut i: usize = 0;
    while i < v.len()
        invariant
            i <= v@.len(),
            s == named_view(v@),
            forall|j: int| 0 <= j < i ==> s[j].0 != k@,
        decreases v@.len() - i,
    {
        if v[i].0 == *k {
            return Some(i);
        }
        i = i + 1;
    }
    None
}

proof fn lemma_first_index_unique(s: NamedV, k: Seq<char>, j: int)
    requires
        first_index(s, k, j),
    ensures
        (choose|i: int| first_index(s, k, i)) == j,
{
    let c = choose|i: int| first_index(s, k, i);
    assert(first_index(s, k, c));
    if c < j {
        assert(s[c].0 != k);
    } else if j < c {
        assert(s[j].0 != k);
    }
}

/// Put `ns` under the name `k`, in place of the first namespace of that name, or last.
fn insert_namespace(v: &mut Vec<(String, Namespace)>, k: String, ns: Namespace)
    ensures
        named_view(final(v)@) == insert_named(named_view(old(v)@), k@, ns@),
{
    let ghost s = named_view(v@);
    match find_namespace(v, &k) {
        Some(j) => {
            proof {
                lemma_first_index_unique(s, k@, j as int);
            }
            v.remove(j);
            v.insert(j, (k, ns));
            assert(named_view(v@) =~= s.update(j as int, (k@, ns@)));
        },
        None => {
            v.push((k, ns));
            assert(named_view(v@) =~= s.push((k@, ns@)));
        },
    }
}

/// Add a field expectation to the first namespace named `k`, which stands at `j`.
fn add_to_namespace(v: &mut Vec<(String, Namespace)>, j: usize, fa: FieldAssertion)
    requires
        first_index(named_view(old(v)@), old(v)@[j as int].0@, j as int),
    ensures
        named_view(final(v)@) == add_expectation(named_view(old(v)@), old(v)@[j as int].0@, fa@),
        final(v)@.len() == old(v)@.len(),
{
    let ghost s = named_view(v@);
    let ghost k = v@[j as int].0@;
    proof {
        lemma_first_index_unique(s, k, j as int);
    }
    let (name, mut ns) = v.remove(j);
    let ghost before = ns.field_assertions@;
    ns.field_assertions.push(fa);
    assert(ns@.field_assertions =~= before.map_values(|f: FieldAssertion| f@).push(fa@));
    v.insert(j, (name, ns));
    assert(named_view(v@) =~= add_expectation(s, k, fa@));
}

proof fn lemma_first_exists(s: NamedV, k: Seq<char>, j: int)
    requires
        0 <= j < s.len(),
        s[j].0 == k,
    ensures
        exists|i: int| first_index(s, k, i),
    decreases j,
{
    if exists|i: int| 0 <= i < j && s[i].0 == k {
        let i = choose|i: int| 0 <= i < j && s[i].0 == k;
        lemma_first_exists(s, k, i);
    } else {
        assert(first_index(s, k, j));
    }
}

proof fn lemma_has_name_witness(s: NamedV, k: Seq<char>, j: int)
    requires
        0 <= j < s.len(),
        s[j].0 == k,
    ensures
        has_name(s, k),
{
}

/// Two lists of namespaces with the same names in the same order.
pub open spec fn same_names(a: NamedV, b: NamedV) -> bool {
    &&& a.len() == b.len()
    &&& forall|i: int| 0 <= i < a.len() ==> (#[trigger] a[i]).0 == b[i].0
}

/// No two namespaces share a name.
pub open spec fn names_unique(s: NamedV) -> bool {
    forall|i: int, j: int| 0 <= i < j < s.len() ==> (#[trigger] s[i]).0 != (#[trigger] s[j]).0
}

proof fn lemma_same_names_trans(a: NamedV, b: NamedV, c: NamedV)
    requires
        same_names(a, b),
        same_names(b, c),
    ensures
        same_names(a, c),
        names_unique(c) ==> names_unique(a),
{
    if names_unique(c) {
        assert forall|i: int, j: int| 0 <= i < j < a.len() implies (#[trigger] a[i]).0 != (#[trigger] a[j]).0 by {
            assert(a[i].0 == c[i].0 && a[j].0 == c[j].0);
        }
    }
}

proof fn lemma_insert_keeps_unique(s: NamedV, k: Seq<char>, v: NamespaceV)
    requires
        names_unique(s),
    ensures
        names_unique(insert_named(s, k, v)),
{
    lemma_insert_keeps_names(s, k, v);
    let t = insert_named(s, k, v);
    if !has_name(s, k) {
        assert forall|i: int, j: int| 0 <= i < j < t.len() implies (#[trigger] t[i]).0 != (#[trigger] t[j]).0 by {
            if j == s.len() {
                assert(t[j].0 == k);
                assert(t[i].0 == s[i].0);
            }
        }
    } else {
        let j0 = choose|j: int| 0 <= j < s.len() && s[j].0 == k;
        lemma_first_exists(s, k, j0);
        let jf = choose|j: int| first_index(s, k, j);
        assert(t == s.update(jf, (k, v)));
        assert forall|i: int, j: int| 0 <= i < j < t.len() implies (#[trigger] t[i]).0 != (#[trigger] t[j]).0 by {
            assert(t[i].0 == s[i].0 && t[j].0 == s[j].0);
        }
    }
}

proof fn lemma_insert_keeps_names(s: NamedV, k: Seq<char>, v: NamespaceV)
    ensures
        insert_named(s, k, v).len() >= s.len(),
        forall|i: int| 0 <= i < s.len() ==> (#[trigger] insert_named(s, k, v)[i]).0 == s[i].0,
{
    if has_name(s, k) {
        let j0 = choose|j: int| 0 <= j < s.len() && s[j].0 == k;
        lemma_first_exists(s, k, j0);
    }
}

proof fn lemma_add_keeps_names(s: NamedV, k: Seq<char>, fa: FieldAssertionV)
    requires
        has_name(s, k),
    ensures
        add_expectation(s, k, fa).len() == s.len(),
        forall|i: int| 0 <= i < s.len() ==> (#[trigger] add_expectation(s, k, fa)[i]).0 == s[i].0,
{
    let j0 = choose|j: int| 0 <= j < s.len() && s[j].0 == k;
    lemma_first_exists(s, k, j0);
}

fn expect(fa: &mut FieldAssertion, key: &String, value: &MetaValue) -> (r: Result<(), LayoutError>)
    ensures
        match r {
            Ok(_) => expect_step(old(fa)@, key@, *value) == Ok::<FieldAssertionV, LayoutErrorV>(final(fa)@),
            Err(e) => expect_step(old(fa)@, key@, *value) == Err::<FieldAssertionV, LayoutErrorV>(e@),
        },
{
    if is_key(key, "size") {
        fa.size = Some(value_source(value));
        Ok(())
    } else if is_key(key, "offset") {
        fa.offset = Some(value_source(value));
        Ok(())
    } else {
        Err(LayoutError::UnknownAttribute(key.clone()))
    }
}

fn blank(field: &Member, ty: &TypeExpr) -> (r: FieldAssertion)
    ensures
        r@ == blank_expectation(field@, ty@),
{
    FieldAssertion { field: field.copy(), ty: ty.copy(), size: None, offset: None }
}

fn parse_field_block(nested: &Vec<Meta>, field: &Member, ty: &TypeExpr) -> (r: Result<FieldAssertion, LayoutError>)
    ensures
        match r {
            Ok(fa) => fold_state(nested@, blank_expectation(field@, ty@), field_inner_step()) == Ok::<FieldAssertionV, LayoutErrorV>(fa@),
            Err(e) => fold_state(nested@, blank_expectation(field@, ty@), field_inner_step()) == Err::<FieldAssertionV, LayoutErrorV>(e@),
        },
{
    let ghost f = field_inner_step();
    let ghost init = blank_expectation(field@, ty@);
    let mut fa = blank(field, ty);
    let mut i: usize = 0;
    proof {
        lemma_state_ends(nested@, init, f);
    }
    while i < nested.len()
        invariant
            i <= nested@.len(),
            f == field_inner_step(),
            init == blank_expectation(field@, ty@),
            fold_state(nested@.subrange(0, i as int), init, f) == Ok::<FieldAssertionV, LayoutErrorV>(fa@),
        decreases nested@.len() - i,
    {
        proof {
            lemma_state_step(nested@, i as int, init, f);
        }
        let step = match &nested[i] {
            Meta::NameValue { path, value } => match require_ident(path) {
                Some(k) => expect(&mut fa, &k, value),
                None => Err(LayoutError::ExpectedIdent),
            },
            _ => Err(LayoutError::ExpectedList),
        };
        if let Err(e) = step {
            proof {
                lemma_state_error_stays(nested@, i + 1, nested@.len() as int, init, f);
                lemma_state_ends(nested@, init, f);
            }
            return Err(e);
        }
        i = i + 1;
    }
    proof {
        lemma_state_ends(nested@, init, f);
    }
    Ok(fa)
}

/// Read the arguments of one layout attribute of a field into the namespaces.
fn read_layout_attr(
    ms: &Vec<Meta>,
    field: &Member,
    ty: &TypeExpr,
    v: &mut Vec<(String, Namespace)>,
) -> (r: Result<(), LayoutError>)
    requires
        has_name(named_view(old(v)@), Seq::empty()),
    ensures
        match r {
            Ok(_) => match fold_state(ms@, (blank_expectation(field@, ty@), named_view(old(v)@)), field_meta_step(field@, ty@)) {
                Ok(x) => named_view(final(v)@) == add_expectation(x.1, Seq::empty(), x.0),
                Err(_) => false,
            },
            Err(e) => fold_state(ms@, (blank_expectation(field@, ty@), named_view(old(v)@)), field_meta_step(field@, ty@))
                == Err::<FieldStateV, LayoutErrorV>(e@),
        },
        has_name(named_view(final(v)@), Seq::empty()),
        same_names(named_view(final(v)@), named_view(old(v)@)),
{
    let ghost f = field_meta_step(field@, ty@);
    let ghost init: FieldStateV = (blank_expectation(field@, ty@), named_view(v@));
    let ghost d0 = choose|j: int| 0 <= j < named_view(v@).len() && named_view(v@)[j].0 == Seq::<char>::empty();
    let ghost d: int = d0;
    let mut default = blank(field, ty);
    let mut i: usize = 0;
    proof {
        lemma_state_ends(ms@, init, f);
    }
    while i < ms.len()
        invariant
            i <= ms@.len(),
            f == field_meta_step(field@, ty@),
            init == (blank_expectation(field@, ty@), named_view(old(v)@)),
            0 <= d < named_view(v@).len(),
            named_view(v@)[d].0 == Seq::<char>::empty(),
            same_names(named_view(v@), init.1),
            fold_state(ms@.subrange(0, i as int), init, f) == Ok::<FieldStateV, LayoutErrorV>((default@, named_view(v@))),
        decreases ms@.len() - i,
    {
        proof {
            lemma_state_step(ms@, i as int, init, f);
        }
        let step: Result<(), LayoutError> = match &ms[i] {
            Meta::NameValue { path, value } => match require_ident(path) {
                Some(k) => if is_key(&k, "size") || is_key(&k, "offset") {
                    expect(&mut default, &k, value)
                } else {
                    match find_namespace(v, &k) {
                        Some(_) => Err(LayoutError::ExpectedList),
                        None => Err(LayoutError::UnknownNamespace(k)),
                    }
                },
                None => Err(LayoutError::ExpectedIdent),
            },
            Meta::Path(path) => match require_ident(path) {
                Some(k) => match find_namespace(v, &k) {
                    Some(_) => Err(LayoutError::ExpectedList),
                    None => Err(LayoutError::UnknownNamespace(k)),
                },
                None => Err(LayoutError::ExpectedIdent),
            },
            Meta::List { path, nested } => match require_ident(path) {
                Some(k) => match find_namespace(v, &k) {
                    Some(j) => match parse_field_block(nested, field, ty) {
                        Ok(fa) => {
                            let ghost pre = named_view(v@);
                            proof {
                                lemma_add_keeps_names(named_view(v@), k@, fa@);
                            }
                            add_to_namespace(v, j, fa);
                            proof {
                                lemma_same_names_trans(named_view(v@), pre, init.1);
                            }
                            Ok(())
                        },
                        Err(e) => Err(e),
                    },
                    None => Err(LayoutError::UnknownNamespace(k)),
                },
                None => Err(LayoutError::ExpectedIdent),
            },
        };
        if let Err(e) = step {
            proof {
                lemma_state_error_stays(ms@, i + 1, ms@.len() as int, init, f);
                lemma_state_ends(ms@, init, f);
                lemma_has_name_witness(named_view(v@), Seq::empty(), d);
            }
            return Err(e);
        }
        i = i + 1;
    }
    proof {
        lemma_state_ends(ms@, init, f);
    }
    let empty = String::new();
    match find_namespace(v, &empty) {
        Some(j) => {
            proof {
                lemma_add_keeps_names(named_view(v@), Seq::empty(), default@);
            }
            let ghost before = named_view(v@);
            add_to_namespace(v, j, default);
            proof {
                lemma_same_names_trans(named_view(v@), before, init.1);
                assert(named_view(v@)[d].0 == before[d].0);
                lemma_has_name_witness(named_view(v@), Seq::empty(), d);
            }
            Ok(())
        },
        None => {
            proof {
                assert(named_view(v@)[d].0 == empty@);
                lemma_has_name_witness(named_view(v@), Seq::empty(), d);
            }
            Err(LayoutError::ExpectedList)
        },
    }
}

/// The attributes of one field, read into the namespaces; the layout attributes are taken out
/// and the others returned in order.
fn read_field_attrs(
    attrs: Vec<Attribute>,
    field: &Member,
    ty: &TypeExpr,
    v: &mut Vec<(String, Namespace)>,
) -> (r: Result<Vec<Attribute>, LayoutError>)
    requires
        has_name(named_view(old(v)@), Seq::empty()),
    ensures
        match r {
            Ok(kept) => fold_state(attrs@, named_view(old(v)@), attr_step(field@, ty@)) == Ok::<NamedV, LayoutErrorV>(named_view(final(v)@))
                && kept@ == kept_attrs(attrs@),
            Err(e) => fold_state(attrs@, named_view(old(v)@), attr_step(field@, ty@)) == Err::<NamedV, LayoutErrorV>(e@),
        },
        has_name(named_view(final(v)@), Seq::empty()),
        same_names(named_view(final(v)@), named_view(old(v)@)),
{
    let ghost all = attrs@;
    let ghost f = attr_step(field@, ty@);
    let ghost init = named_view(v@);
    let mut rest = attrs;
    let mut kept: Vec<Attribute> = Vec::new();
    let n = rest.len();
    let mut i: usize = 0;
    proof {
        lemma_state_ends(all, init, f);
        assert(all.subrange(0, 0) =~= Seq::<Attribute>::empty());
    }
    while i < n
        invariant
            i <= n,
            n == all.len(),
            all == attrs@,
            rest@ == all.subrange(i as int, n as int),
            f == attr_step(field@, ty@),
            init == named_view(old(v)@),
            has_name(named_view(v@), Seq::empty()),
            same_names(named_view(v@), init),
            fold_state(all.subrange(0, i as int), init, f) == Ok::<NamedV, LayoutErrorV>(named_view(v@)),
            kept@ == kept_attrs(all.subrange(0, i as int)),
        decreases n - i,
    {
        proof {
            lemma_state_step(all, i as int, init, f);
            assert(all.subrange(0, i + 1).drop_last() =~= all.subrange(0, i as int));
        }
        let a = rest.remove(0);
        assert(a == all[i as int]);
        let is_layout = match require_ident(&a.path) {
            Some(k) => is_key(&k, "assert_layout"),
            None => false,
        };
        proof {
            reveal_strlit("assert_layout");
        }
        if is_layout {
            match &a.args {
                None => {
                    proof {
                        assert(is_layout_path(a.path@));
                        assert(f(named_view(v@), a) == Err::<NamedV, LayoutErrorV>(LayoutErrorV::ExpectedList));
                        lemma_state_error_stays(all, i + 1, n as int, init, f);
                        lemma_state_ends(all, init, f);
                        assert(fold_state(all, init, f) == Err::<NamedV, LayoutErrorV>(LayoutErrorV::ExpectedList));
                    }
                    return Err(LayoutError::ExpectedList);
                },
                Some(ms) => {
                    let ghost st0 = named_view(v@);
                    let rr = read_layout_attr(ms, field, ty, v);
                    proof {
                        lemma_same_names_trans(named_view(v@), st0, init);
                    }
                    match rr {
                        Ok(_) => {},
                        Err(e) => {
                            proof {
                                assert(f(st0, a) == Err::<NamedV, LayoutErrorV>(e@));
                                lemma_state_error_stays(all, i + 1, n as int, init, f);
                                lemma_state_ends(all, init, f);
                            }
                            return Err(e);
                        },
                    }
                },
            }
        } else {
            kept.push(a);
        }
        i = i + 1;
    }
    proof {
        lemma_state_ends(all, init, f);
        assert(all.subrange(0, n as int) =~= all);
    }
    Ok(kept)
}

proof fn lemma_binding_congruent(p: GenericParam, a1: GenericArgument, a2: GenericArgument)
    requires
        a1@ == a2@,
    ensures
        binding_of(p, a1) == binding_of(p, a2),
{
}

proof fn lemma_bindings_congruent(ps: Seq<GenericParam>, a1: Seq<GenericArgument>, a2: Seq<GenericArgument>)
    requires
        arg_seq_view(a1) == arg_seq_view(a2),
    ensures
        a1.len() == a2.len(),
        a1.len() == ps.len() ==> bindings_of(ps, a1) == bindings_of(ps, a2),
{
    lemma_arg_seq_view_index(a1);
    lemma_arg_seq_view_index(a2);
    let idx = Seq::new(ps.len(), |i: int| i);
    if a1.len() == ps.len() {
        assert forall|i: int| 0 <= i < idx.len() implies #[trigger] binding_step(ps, a1)(idx[i]) == binding_step(ps, a2)(idx[i]) by {
            assert(arg_seq_view(a1)[i] == arg_seq_view(a2)[i]);
            assert(idx[i] == i);
            assert(a1[i]@ == arg_seq_view(a1)[i]);
            assert(a2[i]@ == arg_seq_view(a2)[i]);
            lemma_binding_congruent(ps[i], a1[i], a2[i]);
        }
        lemma_fold_congruent(idx, idx, binding_step(ps, a1), binding_step(ps, a2));
    }
}

proof fn lemma_facts_congruent(b: Seq<(Seq<char>, PathV)>, c: TyV, f1: Seq<FieldAssertion>, f2: Seq<FieldAssertion>)
    requires
        f1.len() == f2.len(),
        forall|i: int| 0 <= i < f1.len() ==> (#[trigger] f1[i])@ == f2[i]@,
    ensures
        facts_of(b, c, f1) == facts_of(b, c, f2),
    decreases f1.len(),
{
    if f1.len() > 0 {
        let n = f1.len() - 1;
        assert forall|i: int| 0 <= i < n implies (#[trigger] f1.drop_last()[i])@ == f2.drop_last()[i]@ by {
            assert(f1[i]@ == f2[i]@);
        }
        lemma_facts_congruent(b, c, f1.drop_last(), f2.drop_last());
        assert(f1[n]@ == f2[n]@);
        assert(field_facts(b, c, f1.last()) == field_facts(b, c, f2.last()));
    }
}

proof fn lemma_namespace_sets_congruent(d: LayoutDecl, n1: Namespace, n2: Namespace)
    requires
        n1@ == n2@,
    ensures
        namespace_sets(d, n1) == namespace_sets(d, n2),
{
    assert(n1@.field_assertions.len() == n1.field_assertions@.len());
    assert(n2@.field_assertions.len() == n2.field_assertions@.len());
    assert forall|i: int| 0 <= i < n1.field_assertions@.len() implies (#[trigger] n1.field_assertions@[i])@ == n2.field_assertions@[i]@ by {
        assert(n1@.field_assertions[i] == n2@.field_assertions[i]);
        assert(n1@.field_assertions[i] == n1.field_assertions@[i]@);
        assert(n2@.field_assertions[i] == n2.field_assertions@[i]@);
    }
    lemma_facts_congruent(bound_generics_of(d.generics@), container_type(d), n1.field_assertions@, n2.field_assertions@);
    assert(namespace_facts(d, n1) == namespace_facts(d, n2));
    let l1 = argument_lists(d, n1);
    let l2 = argument_lists(d, n2);
    assert(n1@.generics.len() == n1.generics@.len());
    assert(n2@.generics.len() == n2.generics@.len());
    assert(l1.len() == l2.len());
    assert forall|i: int| 0 <= i < l1.len() implies #[trigger] set_step(d, n1)(l1[i]) == set_step(d, n2)(l2[i]) by {
        if !(n1.generics@.len() == 0 && d.generics@.len() == 0) {
            assert(n1@.generics[i] == n2@.generics[i]);
            lemma_bindings_congruent(d.generics@, l1[i], l2[i]);
        }
    }
    lemma_fold_congruent(l1, l2, set_step(d, n1), set_step(d, n2));
}

/// The analysis of a declaration depends on its name and generics and on the mathematical values
/// of its namespaces alone.
proof fn lemma_analysis_congruent(a1: Ast, a2: Ast)
    requires
        a1.item.ident == a2.item.ident,
        a1.item.generics == a2.item.generics,
        named_view(a1.namespaces@) == named_view(a2.namespaces@),
    ensures
        analysis_of(a1) == analysis_of(a2),
{
    let e1 = a1.namespaces@;
    let e2 = a2.namespaces@;
    assert(e1.len() == named_view(e1).len() && e2.len() == named_view(e2).len());
    assert(container_type(a1.item) == container_type(a2.item));
    assert forall|i: int| 0 <= i < e1.len() implies #[trigger] namespace_step(a1.item)(e1[i]) == namespace_step(a2.item)(e2[i]) by {
        assert(named_view(e1)[i] == named_view(e2)[i]);
        lemma_namespace_sets_congruent(a1.item, e1[i].1, e2[i].1);
        lemma_namespace_sets_decl(a1.item, a2.item, e2[i].1);
    }
    lemma_fold_congruent(e1, e2, namespace_step(a1.item), namespace_step(a2.item));
}

proof fn lemma_namespace_sets_decl(d1: LayoutDecl, d2: LayoutDecl, n: Namespace)
    requires
        d1.ident == d2.ident,
        d1.generics == d2.generics,
    ensures
        namespace_sets(d1, n) == namespace_sets(d2, n),
{
    assert(container_type(d1) == container_type(d2));
    assert(namespace_facts(d1, n) == namespace_facts(d2, n));
    assert(argument_lists(d1, n) == argument_lists(d2, n));
    let l = argument_lists(d1, n);
    assert forall|i: int| 0 <= i < l.len() implies #[trigger] set_step(d1, n)(l[i]) == set_step(d2, n)(l[i]) by {}
    lemma_fold_congruent(l, l, set_step(d1, n), set_step(d2, n));
}

/// `d` is the declaration `item` with the layout attributes taken off its fields.
pub open spec fn parsed_decl(d: LayoutDecl, item: LayoutInput) -> bool {
    &&& d.ident == item.ident
    &&& d.generics == item.generics
    &&& d.fields@.len() == item.fields@.len()
    &&& forall|i: int| 0 <= i < item.fields@.len() ==> {
        &&& (#[trigger] d.fields@[i]).member == item.fields@[i].member
        &&& d.fields@[i].ty == item.fields@[i].ty
        &&& d.fields@[i].attrs@ == kept_attrs(item.fields@[i].attrs@)
    }
}

/// `ast` is what `item` and the container arguments `attrs` read into.
pub open spec fn parsed_ast(ast: Ast, attrs: Seq<Meta>, item: LayoutInput) -> bool {
    &&& parse_of(attrs, item) is Ok
    &&& named_view(ast.namespaces@) == parse_of(attrs, item)->Ok_0
    &&& parsed_decl(ast.item, item)
}

/// Read a declaration and its container attribute into namespaces: the default one under the
/// empty name, then the named ones, each with the expectations that the fields' layout
/// attributes give it. The layout attributes are taken off the fields.
pub fn parse(attrs: Vec<Meta>, item: LayoutInput) -> (r: Result<Ast, LayoutError>)
    ensures
        match r {
            Ok(ast) => parsed_ast(ast, attrs@, item) && names_unique(named_view(ast.namespaces@)),
            Err(e) => parse_of(attrs@, item) == Err::<NamedV, LayoutErrorV>(e@),
        },
{
    let (default, nested) = match parse_namespace(&attrs) {
        Ok(x) => x,
        Err(e) => return Err(e),
    };
    let ghost named = named_view(nested@);
    let ghost nested_all = nested@;
    let ghost g = named_step();
    let ghost start0 = seq![(Seq::<char>::empty(), default@)];
    let mut v: Vec<(String, Namespace)> = Vec::new();
    v.push((String::new(), default));
    assert(named_view(v@) =~= start0);
    let mut rest = nested;
    let m = rest.len();
    let mut i: usize = 0;
    proof {
        lemma_state_ends(named, start0, g);
    }
    while i < m
        invariant
            i <= m,
            m == named.len(),
            rest@ == nested_all.subrange(i as int, m as int),
            named == named_view(nested_all),
            m == nested_all.len(),
            g == named_step(),
            fold_state(named.subrange(0, i as int), start0, g) == Ok::<NamedV, LayoutErrorV>(named_view(v@)),
            named_view(v@).len() >= 1,
            named_view(v@)[0].0 == Seq::<char>::empty(),
            names_unique(named_view(v@)),
        decreases m - i,
    {
        proof {
            lemma_state_step(named, i as int, start0, g);
        }
        let (k, ns) = rest.remove(0);
        assert(named[i as int] == (nested_all[i as int].0@, nested_all[i as int].1@));
        assert((k@, ns@) == named[i as int]);
        proof {
            lemma_insert_keeps_names(named_view(v@), k@, ns@);
        }
        proof {
            lemma_insert_keeps_unique(named_view(v@), k@, ns@);
        }
        insert_namespace(&mut v, k, ns);
        assert(rest@ =~= nested_all.subrange(i + 1, m as int));
        i = i + 1;
    }
    proof {
        lemma_state_ends(named, start0, g);
        lemma_has_name_witness(named_view(v@), Seq::empty(), 0);
        assert(start0[0].1 == default@);
    }
    let ghost fields_all = item.fields@;
    let ghost fs = field_step();
    let ghost start = named_view(v@);
    let mut fields_rest = item.fields;
    let mut out: Vec<LayoutField> = Vec::new();
    let n = fields_rest.len();
    let mut j: usize = 0;
    proof {
        lemma_state_ends(fields_all, start, fs);
    }
    while j < n
        invariant
            j <= n,
            n == fields_all.len(),
            fields_all == item.fields@,
            namespaces_of(attrs@) == Ok::<NamespacesV, LayoutErrorV>((start0[0].1, named)),
            start0 == seq![(Seq::<char>::empty(), start0[0].1)],
            fold_state(named, start0, named_step()) == Ok::<NamedV, LayoutErrorV>(start),
            fields_rest@ == fields_all.subrange(j as int, n as int),
            fs == field_step(),
            has_name(named_view(v@), Seq::empty()),
            names_unique(named_view(v@)),
            fold_state(fields_all.subrange(0, j as int), start, fs) == Ok::<NamedV, LayoutErrorV>(named_view(v@)),
            out@.len() == j,
            forall|t: int| 0 <= t < j ==> {
                &&& (#[trigger] out@[t]).member == fields_all[t].member
                &&& out@[t].ty == fields_all[t].ty
                &&& out@[t].attrs@ == kept_attrs(fields_all[t].attrs@)
            },
        decreases n - j,
    {
        proof {
            lemma_state_step(fields_all, j as int, start, fs);
        }
        let fld = fields_rest.remove(0);
        assert(fld == fields_all[j as int]);
        let LayoutField { member, ty, attrs: fattrs } = fld;
        let ghost pre = named_view(v@);
        let rr = read_field_attrs(fattrs, &member, &ty, &mut v);
        proof {
            lemma_same_names_trans(named_view(v@), pre, pre);
        }
        match rr {
            Ok(kept) => {
                out.push(LayoutField { member, ty, attrs: kept });
            },
            Err(e) => {
                proof {
                    lemma_state_error_stays(fields_all, j + 1, n as int, start, fs);
                    lemma_state_ends(fields_all, start, fs);
                }
                return Err(e);
            },
        }
        j = j + 1;
    }
    proof {
        lemma_state_ends(fields_all, start, fs);
    }
    Ok(Ast { item: LayoutDecl { ident: item.ident, generics: item.generics, fields: out }, namespaces: v })
}

/// The source text of a binding item.
pub open spec fn item_text(x: ItemV) -> Seq<char> {
    match x {
        ItemV::Type { ident, ty } => "type "@ + ident + " = "@ + ty_text(ty) + ";"@,
        ItemV::Const { ident, ty, expr } => "const "@ + ident + ": "@ + ty_text(ty) + " = "@ + expr + ";"@,
    }
}

/// The source text of a fact, as a boolean constant expression.
pub open spec fn check_text(a: AssertV) -> Seq<char> {
    match a {
        AssertV::Size { ty, size } => "::core::mem::size_of::<"@ + ty_text(ty) + ">() == "@ + size,
        AssertV::Offset { container, field, offset } => "::core::mem::offset_of!("@ + ty_text(container) + ", "@
            + member_text(field) + ") == "@ + offset,
    }
}

/// The bindings and facts of one check, as source text.
#[derive(Debug, PartialEq, Eq)]
pub struct LoweredSet {
    pub items: Vec<String>,
    pub checks: Vec<String>,
}

/// The checks of a declaration, as source text, beside the declaration.
#[derive(Debug, PartialEq, Eq)]
pub struct Ir {
    pub item: LayoutDecl,
    pub assertions: Vec<LoweredSet>,
}

/// The texts of a list of strings.
pub open spec fn texts(v: Seq<String>) -> Seq<Seq<char>> {
    v.map_values(|s: String| s@)
}

/// `set` lowered to source text, item by item and fact by fact.
pub open spec fn lowered(set: AssertionSet, out: LoweredSet) -> bool {
    &&& texts(out.items@) == set@.items.map_values(|x: ItemV| item_text(x))
    &&& texts(out.checks@) == set@.assertions.map_values(|a: AssertV| check_text(a))
}

fn lower_item(x: &AssertionItem) -> (r: String)
    ensures
        r@ == item_text(x@),
{
    let mut r = String::new();
    match x {
        AssertionItem::Type { ident, ty } => {
            r.append("type ");
            r.append(ident.as_str());
            r.append(" = ");
            let t = render_type(ty);
            r.append(t.as_str());
            r.append(";");
        },
        AssertionItem::Const { ident, ty, expr } => {
            r.append("const ");
            r.append(ident.as_str());
            r.append(": ");
            let t = render_type(ty);
            r.append(t.as_str());
            r.append(" = ");
            r.append(expr.as_str());
            r.append(";");
        },
    }
    assert(r@ =~= item_text(x@));
    r
}

fn lower_check(a: &Assertion) -> (r: String)
    ensures
        r@ == check_text(a@),
{
    let mut r = String::new();
    match a {
        Assertion::Size { ty, size } => {
            r.append("::core::mem::size_of::<");
            let t = render_type(ty);
            r.append(t.as_str());
            r.append(">() == ");
            r.append(size.as_str());
        },
        Assertion::Offset { container, field, offset } => {
            r.append("::core::mem::offset_of!(");
            let t = render_type(container);
            r.append(t.as_str());
            r.append(", ");
            let m = render_member(field);
            r.append(m.as_str());
            r.append(") == ");
            r.append(offset.as_str());
        },
    }
    assert(r@ =~= check_text(a@));
    r
}

fn lower_set(set: &AssertionSet) -> (r: LoweredSet)
    ensures
        lowered(*set, r),
{
    let mut items: Vec<String> = Vec::new();
    let mut i: usize = 0;
    while i < set.items.len()
        invariant
            i <= set.items@.len(),
            texts(items@) == set.items@.subrange(0, i as int).map_values(|x: AssertionItem| item_text(x@)),
        decreases set.items@.len() - i,
    {
        let t = lower_item(&set.items[i]);
        items.push(t);
        assert(set.items@.subrange(0, i + 1).map_values(|x: AssertionItem| item_text(x@)) =~= set.items@.subrange(0, i as int).map_values(|x: AssertionItem| item_text(x@)).push(item_text(set.items@[i as int]@)));
        assert(texts(items@) =~= set.items@.subrange(0, i + 1).map_values(|x: AssertionItem| item_text(x@)));
        i = i + 1;
    }
    let mut checks: Vec<String> = Vec::new();
    let mut j: usize = 0;
    while j < set.assertions.len()
        invariant
            j <= set.assertions@.len(),
            texts(checks@) == set.assertions@.subrange(0, j as int).map_values(|a: Assertion| check_text(a@)),
        decreases set.assertions@.len() - j,
    {
        let t = lower_check(&set.assertions[j]);
        checks.push(t);
        assert(set.assertions@.subrange(0, j + 1).map_values(|a: Assertion| check_text(a@)) =~= set.assertions@.subrange(0, j as int).map_values(|a: Assertion| check_text(a@)).push(check_text(set.assertions@[j as int]@)));
        assert(texts(checks@) =~= set.assertions@.subrange(0, j + 1).map_values(|a: Assertion| check_text(a@)));
        j = j + 1;
    }
    let r = LoweredSet { items, checks };
    assert(texts(r.items@) =~= set@.items.map_values(|x: ItemV| item_text(x)));
    assert(texts(r.checks@) =~= set@.assertions.map_values(|a: AssertV| check_text(a)));
    r
}

/// Turn each binding into an item and each fact into a boolean constant expression, in source
/// text, set by set.
pub fn lower(model: LayoutModel) -> (r: Ir)
    ensures
        r.item == model.item,
        r.assertions@.len() == model.assertions@.len(),
        forall|i: int| 0 <= i < model.assertions@.len() ==> lowered(model.assertions@[i], #[trigger] r.assertions@[i]),
{
    let mut out: Vec<LoweredSet> = Vec::new();
    let mut i: usize = 0;
    while i < model.assertions.len()
        invariant
            i <= model.assertions@.len(),
            out@.len() == i,
            forall|k: int| 0 <= k < i ==> lowered(model.assertions@[k], #[trigger] out@[k]),
        decreases model.assertions@.len() - i,
    {
        out.push(lower_set(&model.assertions[i]));
        i = i + 1;
    }
    Ir { item: model.item, assertions: out }
}

/// The lines `s`, each followed by a line break.
pub open spec fn lines(s: Seq<Seq<char>>) -> Seq<char>
    decreases s.len(),
{
    if s.len() == 0 {
        Seq::empty()
    } else {
        lines(s.drop_last()) + s.last() + "\n"@
    }
}

/// A statement that fails compilation where the boolean constant `c` is false.
pub open spec fn static_check(c: Seq<char>) -> Seq<char> {
    "const _: [(); 0 - !{ const ASSERT: bool = "@ + c + "; ASSERT } as usize] = [];"@
}

/// One anonymous constant scope holding a set's items, then one static check per fact.
pub open spec fn block_text(set: LoweredSet) -> Seq<char> {
    "const _: () = {\n"@ + lines(texts(set.items@)) + lines(texts(set.checks@).map_values(|c: Seq<char>| static_check(c)))
        + "};\n"@
}

/// The blocks of all sets, in order.
pub open spec fn blocks_text(s: Seq<LoweredSet>) -> Seq<char>
    decreases s.len(),
{
    if s.len() == 0 {
        Seq::empty()
    } else {
        blocks_text(s.drop_last()) + block_text(s.last())
    }
}

fn push_lines(r: &mut String, v: &Vec<String>, checks: bool)
    ensures
        final(r)@ == old(r)@ + lines(
            if checks {
                texts(v@).map_values(|c: Seq<char>| static_check(c))
            } else {
                texts(v@)
            },
        ),
{
    let ghost f = |c: Seq<char>| if checks { static_check(c) } else { c };
    let ghost all = texts(v@).map_values(f);
    assert(all =~= if checks {
        texts(v@).map_values(|c: Seq<char>| static_check(c))
    } else {
        texts(v@)
    });
    let mut i: usize = 0;
    assert(all.subrange(0, 0).len() == 0);
    while i < v.len()
        invariant
            i <= v@.len(),
            all == texts(v@).map_values(f),
            f == (|c: Seq<char>| if checks { static_check(c) } else { c }),
            r@ == old(r)@ + lines(all.subrange(0, i as int)),
        decreases v@.len() - i,
    {
        assert(all.subrange(0, i + 1).drop_last() =~= all.subrange(0, i as int));
        if checks {
            r.append("const _: [(); 0 - !{ const ASSERT: bool = ");
            r.append(v[i].as_str());
            r.append("; ASSERT } as usize] = [];");
        } else {
            r.append(v[i].as_str());
        }
        r.append("\n");
        assert(r@ =~= old(r)@ + lines(all.subrange(0, i + 1)));
        i = i + 1;
    }
    assert(all.subrange(0, v@.len() as int) =~= all);
}

/// Emit each set of checks as an anonymous constant scope that binds the declaration's
/// parameters and fails compilation where a fact does not hold.
pub fn codegen(ir: &Ir) -> (r: String)
    ensures
        r@ == blocks_text(ir.assertions@),
{
    let mut r = String::new();
    let mut i: usize = 0;
    assert(ir.assertions@.subrange(0, 0).len() == 0);
    while i < ir.assertions.len()
        invariant
            i <= ir.assertions@.len(),
            r@ == blocks_text(ir.assertions@.subrange(0, i as int)),
        decreases ir.assertions@.len() - i,
    {
        assert(ir.assertions@.subrange(0, i + 1).drop_last() =~= ir.assertions@.subrange(0, i as int));
        let set = &ir.assertions[i];
        r.append("const _: () = {\n");
        push_lines(&mut r, &set.items, false);
        push_lines(&mut r, &set.checks, true);
        r.append("};\n");
        assert(r@ =~= blocks_text(ir.assertions@.subrange(0, i + 1)));
        i = i + 1;
    }
    assert(ir.assertions@.subrange(0, ir.assertions@.len() as int) =~= ir.assertions@);
    r
}

/// The block of one check, from its bindings and facts.
pub open spec fn set_block(s: SetV) -> Seq<char> {
    "const _: () = {\n"@ + lines(s.items.map_values(|x: ItemV| item_text(x))) + lines(
        s.assertions.map_values(|a: AssertV| check_text(a)).map_values(|c: Seq<char>| static_check(c)),
    ) + "};\n"@
}

/// The blocks of all checks, in order.
pub open spec fn sets_text(s: Seq<SetV>) -> Seq<char>
    decreases s.len(),
{
    if s.len() == 0 {
        Seq::empty()
    } else {
        sets_text(s.drop_last()) + set_block(s.last())
    }
}

proof fn lemma_blocks_of_lowered(sets: Seq<AssertionSet>, out: Seq<LoweredSet>)
    requires
        sets.len() == out.len(),
        forall|i: int| 0 <= i < sets.len() ==> lowered(sets[i], #[trigger] out[i]),
    ensures
        blocks_text(out) == sets_text(sets.map_values(|x: AssertionSet| x@)),
    decreases sets.len(),
{
    if sets.len() > 0 {
        let n = sets.len() - 1;
        lemma_blocks_of_lowered(sets.drop_last(), out.drop_last());
        assert(sets.map_values(|x: AssertionSet| x@).drop_last() =~= sets.drop_last().map_values(|x: AssertionSet| x@));
        assert(lowered(sets[n], out[n]));
        assert(texts(out[n].checks@).map_values(|c: Seq<char>| static_check(c)) =~= sets[n]@.assertions.map_values(|a: AssertV| check_text(a)).map_values(|c: Seq<char>| static_check(c)));
    } else {
        assert(sets.map_values(|x: AssertionSet| x@) =~= Seq::<SetV>::empty());
    }
}

/// Check a declaration's layout: read its attributes, build the checks, and emit them as source
/// text beside the declaration, whose layout attributes are taken off.
pub fn assert_layout_inner(attrs: Vec<Meta>, item: LayoutInput) -> (r: Result<(LayoutDecl, String), LayoutError>)
    ensures
        parse_of(attrs@, item) is Err ==> r is Err && r->Err_0@ == parse_of(attrs@, item)->Err_0,
        parse_of(attrs@, item) is Ok ==> exists|ast: Ast| #[trigger] parsed_ast(ast, attrs@, item),
        forall|ast: Ast|
            #[trigger] parsed_ast(ast, attrs@, item) ==> match analysis_of(ast) {
                Ok(sets) => r is Ok && parsed_decl(r->Ok_0.0, item) && r->Ok_0.1@ == sets_text(sets),
                Err(e) => r is Err && r->Err_0@ == e,
            },
{
    let ghost at = attrs@;
    let ghost it = item;
    let ast = parse(attrs, item)?;
    let ghost a = ast;
    proof {
        assert forall|other: Ast| #[trigger] parsed_ast(other, at, it) implies analysis_of(other) == analysis_of(a) by {
            lemma_analysis_congruent(other, a);
        }
    }
    let model = analyse(ast)?;
    let ghost sets = model.assertions@;
    let ir = lower(model);
    let text = codegen(&ir);
    proof {
        lemma_blocks_of_lowered(sets, ir.assertions@);
    }
    Ok((ir.item, text))
}

/// `<ty as ::cuisiner::Cuisiner>::RAW_SIZE`: the size of the raw form of a type.
pub open spec fn raw_size_text(ty: Seq<char>) -> Seq<char> {
    "<"@ + ty + " as ::cuisiner::Cuisiner>::RAW_SIZE"@
}

/// The position of the first field named `m`, or the number of fields where none is.
pub open spec fn member_index(fields: Seq<(MemberV, TyV)>, m: MemberV) -> nat
    decreases fields.len(),
{
    if fields.len() == 0 {
        0
    } else if fields[0].0 == m {
        0
    } else {
        1 + member_index(fields.drop_first(), m)
    }
}

/// The names and types of fields.
pub open spec fn field_keys(fields: Seq<LayoutField>) -> Seq<(MemberV, TyV)> {
    fields.map_values(|f: LayoutField| (f.member@, f.ty@))
}

/// The sum of the raw sizes of `fields`, as a constant expression that starts from `0`.
pub open spec fn raw_sum_text(b: Seq<(Seq<char>, PathV)>, fields: Seq<(MemberV, TyV)>) -> Seq<char>
    decreases fields.len(),
{
    if fields.len() == 0 {
        "0"@
    } else {
        raw_sum_text(b, fields.drop_last()) + " + "@ + raw_size_text(ty_text(q_ty(b, fields.last().1)))
    }
}

/// A fact about the raw form of a declaration with fields `fields`, as a boolean constant
/// expression: a size is the raw size of the type, an offset is the sum of the raw sizes of the
/// fields before the field.
pub open spec fn raw_check_text(b: Seq<(Seq<char>, PathV)>, fields: Seq<(MemberV, TyV)>, a: AssertV) -> Seq<char> {
    match a {
        AssertV::Size { ty, size } => raw_size_text(ty_text(ty)) + " == "@ + size,
        AssertV::Offset { field, offset, .. } => {
            let k = member_index(fields, field);
            raw_sum_text(b, fields.subrange(0, if k <= fields.len() { k as int } else { fields.len() as int }))
                + " == "@ + offset
        },
    }
}

/// The blocks of the raw-form checks of a declaration, in order.
pub open spec fn raw_sets_text(b: Seq<(Seq<char>, PathV)>, fields: Seq<(MemberV, TyV)>, s: Seq<SetV>) -> Seq<char>
    decreases s.len(),
{
    if s.len() == 0 {
        Seq::empty()
    } else {
        raw_sets_text(b, fields, s.drop_last()) + "const _: () = {\n"@ + lines(
            s.last().items.map_values(|x: ItemV| item_text(x)),
        ) + lines(
            s.last().assertions.map_values(|a: AssertV| raw_check_text(b, fields, a)).map_values(
                |c: Seq<char>| static_check(c),
            ),
        ) + "};\n"@
    }
}

proof fn lemma_member_index_bound(fields: Seq<(MemberV, TyV)>, m: MemberV)
    ensures
        member_index(fields, m) <= fields.len(),
    decreases fields.len(),
{
    if fields.len() > 0 {
        lemma_member_index_bound(fields.drop_first(), m);
    }
}

fn member_position(fields: &Vec<LayoutField>, m: &Member) -> (r: usize)
    ensures
        r == member_index(field_keys(fields@), m@),
{
    let ghost keys = field_keys(fields@);
    let mut i: usize = 0;
    proof {
        assert(keys.subrange(0, keys.len() as int) =~= keys);
    }
    while i < fields.len()
        invariant
            i <= fields@.len(),
            keys == field_keys(fields@),
            keys.len() == fields@.len(),
            member_index(keys, m@) == i + member_index(keys.subrange(i as int, keys.len() as int), m@),
        decreases fields@.len() - i,
    {
        let ghost rest = keys.subrange(i as int, keys.len() as int);
        assert(rest.drop_first() =~= keys.subrange(i + 1, keys.len() as int));
        let same = match (&fields[i].member, m) {
            (Member::Named(a), Member::Named(b)) => *a == *b,
            (Member::Unnamed(a), Member::Unnamed(b)) => *a == *b,
            _ => false,
        };
        assert(rest[0] == keys[i as int]);
        if same {
            assert(rest[0].0 == m@);
            return i;
        }
        i = i + 1;
    }
    i
}

fn raw_sum(bound: &Vec<BoundGeneric>, fields: &Vec<LayoutField>, k: usize) -> (r: String)
    requires
        k <= fields@.len(),
    ensures
        r@ == raw_sum_text(bounds_view(bound@), field_keys(fields@).subrange(0, k as int)),
{
    let ghost b = bounds_view(bound@);
    let ghost keys = field_keys(fields@);
    let mut r = String::from_str("0");
    let mut i: usize = 0;
    proof {
        reveal_strlit("0");
        assert(keys.subrange(0, 0).len() == 0);
    }
    while i < k
        invariant
            i <= k,
            k <= fields@.len(),
            keys == field_keys(fields@),
            b == bounds_view(bound@),
            r@ == raw_sum_text(b, keys.subrange(0, i as int)),
        decreases k - i,
    {
        assert(keys.subrange(0, i + 1).drop_last() =~= keys.subrange(0, i as int));
        assert(keys.subrange(0, i + 1).last() == keys[i as int]);
        let t = qualify_generic(bound, fields[i].ty.copy());
        let text = render_type(&t);
        r.append(" + ");
        r.append("<");
        r.append(text.as_str());
        r.append(" as ::cuisiner::Cuisiner>::RAW_SIZE");
        assert(r@ =~= raw_sum_text(b, keys.subrange(0, i + 1)));
        i = i + 1;
    }
    r
}

fn raw_check(bound: &Vec<BoundGeneric>, fields: &Vec<LayoutField>, a: &Assertion) -> (r: String)
    ensures
        r@ == raw_check_text(bounds_view(bound@), field_keys(fields@), a@),
{
    match a {
        Assertion::Size { ty, size } => {
            let mut r = String::from_str("<");
            let t = render_type(ty);
            r.append(t.as_str());
            r.append(" as ::cuisiner::Cuisiner>::RAW_SIZE");
            r.append(" == ");
            r.append(size.as_str());
            assert(r@ =~= raw_check_text(bounds_view(bound@), field_keys(fields@), a@));
            r
        },
        Assertion::Offset { field, offset, .. } => {
            let k = member_position(fields, field);
            proof {
                lemma_member_index_bound(field_keys(fields@), field@);
            }
            let mut r = raw_sum(bound, fields, k);
            r.append(" == ");
            r.append(offset.as_str());
            assert(r@ =~= raw_check_text(bounds_view(bound@), field_keys(fields@), a@));
            r
        },
    }
}

/// `r` is the outcome of checking the raw layout of `item` under the container arguments
/// `attrs`: the reading error, or, for the declaration as read, the analysis error or the blocks
/// of checks of the raw form.
pub open spec fn raw_outcome(attrs: Seq<Meta>, item: LayoutInput, r: Result<Seq<char>, LayoutErrorV>) -> bool {
    &&& parse_of(attrs, item) is Err ==> r == Err::<Seq<char>, LayoutErrorV>(parse_of(attrs, item)->Err_0)
    &&& parse_of(attrs, item) is Ok ==> exists|ast: Ast| #[trigger] parsed_ast(ast, attrs, item)
    &&& forall|ast: Ast|
        #[trigger] parsed_ast(ast, attrs, item) ==> match analysis_of(ast) {
            Ok(sets) => r == Ok::<Seq<char>, LayoutErrorV>(
                raw_sets_text(bound_generics_of(item.generics@), field_keys(item.fields@), sets),
            ),
            Err(e) => r == Err::<Seq<char>, LayoutErrorV>(e),
        }
}

/// Check the layout of the raw form of a declaration: the same attributes and namespaces as
/// [`assert_layout_inner`], with a field's size read as the raw size of its type, a field's
/// offset as the sum of the raw sizes of the fields before it, and the declaration's size as
/// its own raw size.
pub fn raw_layout_checks(attrs: Vec<Meta>, item: LayoutInput) -> (r: Result<String, LayoutError>)
    ensures
        raw_outcome(
            attrs@,
            item,
            match r {
                Ok(t) => Ok::<Seq<char>, LayoutErrorV>(t@),
                Err(e) => Err::<Seq<char>, LayoutErrorV>(e@),
            },
        ),
{
    let ghost at = attrs@;
    let ghost it = item;
    let ast = parse(attrs, item)?;
    let ghost a = ast;
    proof {
        assert forall|other: Ast| #[trigger] parsed_ast(other, at, it) implies analysis_of(other) == analysis_of(a) by {
            lemma_analysis_congruent(other, a);
        }
        assert(field_keys(a.item.fields@) =~= field_keys(it.fields@));
    }
    let model = analyse(ast)?;
    let bound = get_bound_generics(&model.item.generics);
    let ghost b = bounds_view(bound@);
    let ghost fields = field_keys(model.item.fields@);
    let ghost sets = model.assertions@.map_values(|x: AssertionSet| x@);
    let mut r = String::new();
    let mut i: usize = 0;
    assert(sets.subrange(0, 0).len() == 0);
    while i < model.assertions.len()
        invariant
            i <= model.assertions@.len(),
            sets == model.assertions@.map_values(|x: AssertionSet| x@),
            b == bounds_view(bound@),
            fields == field_keys(model.item.fields@),
            r@ == raw_sets_text(b, fields, sets.subrange(0, i as int)),
        decreases model.assertions@.len() - i,
    {
        let set = &model.assertions[i];
        assert(sets.subrange(0, i + 1).drop_last() =~= sets.subrange(0, i as int));
        assert(sets.subrange(0, i + 1).last() == set@);
        let mut items: Vec<String> = Vec::new();
        let mut j: usize = 0;
        while j < set.items.len()
            invariant
                j <= set.items@.len(),
                texts(items@) == set.items@.subrange(0, j as int).map_values(|x: AssertionItem| item_text(x@)),
            decreases set.items@.len() - j,
        {
            items.push(lower_item(&set.items[j]));
            assert(set.items@.subrange(0, j + 1).map_values(|x: AssertionItem| item_text(x@)) =~= set.items@.subrange(0, j as int).map_values(|x: AssertionItem| item_text(x@)).push(item_text(set.items@[j as int]@)));
            assert(texts(items@) =~= set.items@.subrange(0, j + 1).map_values(|x: AssertionItem| item_text(x@)));
            j = j + 1;
        }
        let mut checks: Vec<String> = Vec::new();
        let mut k: usize = 0;
        while k < set.assertions.len()
            invariant
                k <= set.assertions@.len(),
                b == bounds_view(bound@),
                fields == field_keys(model.item.fields@),
                texts(checks@) == set.assertions@.subrange(0, k as int).map_values(|a: Assertion| raw_check_text(b, fields, a@)),
            decreases set.assertions@.len() - k,
        {
            checks.push(raw_check(&bound, &model.item.fields, &set.assertions[k]));
            assert(set.assertions@.subrange(0, k + 1).map_values(|a: Assertion| raw_check_text(b, fields, a@)) =~= set.assertions@.subrange(0, k as int).map_values(|a: Assertion| raw_check_text(b, fields, a@)).push(raw_check_text(b, fields, set.assertions@[k as int]@)));
            assert(texts(checks@) =~= set.assertions@.subrange(0, k + 1).map_values(|a: Assertion| raw_check_text(b, fields, a@)));
            k = k + 1;
        }
        assert(texts(items@) =~= set@.items.map_values(|x: ItemV| item_text(x)));
        assert(texts(checks@) =~= set@.assertions.map_values(|a: AssertV| raw_check_text(b, fields, a)));
        r.append("const _: () = {\n");
        push_lines(&mut r, &items, false);
        push_lines(&mut r, &checks, true);
        r.append("};\n");
        assert(r@ =~= raw_sets_text(b, fields, sets.subrange(0, i + 1)));
        i = i + 1;
    }
    assert(sets.subrange(0, sets.len() as int) =~= sets);
    Ok(r)
}

} // verus!
