//! The model of declarations: type expressions, generic parameters and arguments, field
//! names and attribute arguments, with their mathematical values.

use vstd::prelude::*;

verus! {

/// A type expression, as far as the generators need to look into one.
#[derive(Debug, PartialEq, Eq)]
pub enum TypeExpr {
    /// A plain path such as `T`, `T::Item` or `Vec<T::Item>`.
    Path(TypePath),
    /// A qualified path `<self_ty as P>::Rest`: the first `position` segments of `path` name the
    /// trait, the others follow it.
    Qualified { self_ty: Box<TypeExpr>, position: usize, path: TypePath },
    /// Any other form of type (a reference, an array, a tuple), as source text.
    Other(String),
}

/// A path of segments, possibly rooted by a leading `::`.
#[derive(Debug, PartialEq, Eq)]
pub struct TypePath {
    pub leading_colon: bool,
    pub segments: Vec<PathSegment>,
}

/// One segment of a path: an identifier and its arguments.
#[derive(Debug, PartialEq, Eq)]
pub struct PathSegment {
    pub ident: String,
    pub arguments: PathArguments,
}

/// The arguments of a path segment.
#[derive(Debug, PartialEq, Eq)]
pub enum PathArguments {
    /// No arguments.
    Empty,
    /// `<A, B, ...>`
    AngleBracketed(Vec<GenericArgument>),
    /// `(A, B) -> C`
    Parenthesized { inputs: Vec<TypeExpr>, output: Option<Box<TypeExpr>> },
}

/// One argument of a generic argument list.
#[derive(Debug, PartialEq, Eq)]
pub enum GenericArgument {
    Lifetime(String),
    Type(TypeExpr),
    /// A constant expression, as source text.
    Const(String),
    /// Any other argument form (an associated type binding, a constraint), as source text.
    Other(String),
}

/// A bound on a type parameter.
#[derive(Debug, PartialEq, Eq)]
pub enum TypeParamBound {
    /// A trait bound, by the trait's path.
    Trait(TypePath),
    Lifetime(String),
    /// Any other bound form, as source text.
    Other(String),
}

/// A generic parameter of a declaration.
#[derive(Debug, PartialEq, Eq)]
pub enum GenericParam {
    Lifetime(String),
    Type { ident: String, bounds: Vec<TypeParamBound> },
    Const { ident: String, ty: TypeExpr },
}

/// The mathematical value of a [`TypeParamBound`].
pub enum BoundV {
    Trait(PathV),
    Lifetime(Seq<char>),
    Other(Seq<char>),
}

/// The mathematical value of a [`GenericParam`].
pub enum ParamV {
    Lifetime(Seq<char>),
    Type { ident: Seq<char>, bounds: Seq<BoundV> },
    Const { ident: Seq<char>, ty: TyV },
}

pub open spec fn bound_view(b: TypeParamBound) -> BoundV {
    match b {
        TypeParamBound::Trait(p) => BoundV::Trait(p@),
        TypeParamBound::Lifetime(l) => BoundV::Lifetime(l@),
        TypeParamBound::Other(o) => BoundV::Other(o@),
    }
}

pub open spec fn param_view(p: GenericParam) -> ParamV {
    match p {
        GenericParam::Lifetime(l) => ParamV::Lifetime(l@),
        GenericParam::Type { ident, bounds } => ParamV::Type {
            ident: ident@,
            bounds: bounds@.map_values(|b: TypeParamBound| bound_view(b)),
        },
        GenericParam::Const { ident, ty } => ParamV::Const { ident: ident@, ty: ty@ },
    }
}

/// How a field is named: by identifier, or by position in a tuple struct.
#[derive(Debug, PartialEq, Eq)]
pub enum Member {
    Named(String),
    Unnamed(usize),
}

/// The mathematical value of a [`Member`].
pub enum MemberV {
    Named(Seq<char>),
    Unnamed(nat),
}

impl View for Member {
    type V = MemberV;

    open spec fn view(&self) -> MemberV {
        match self {
            Member::Named(s) => MemberV::Named(s@),
            Member::Unnamed(i) => MemberV::Unnamed(*i as nat),
        }
    }
}

impl Member {
    /// A copy of this member.
    pub fn copy(&self) -> (r: Member)
        ensures
            r@ == self@,
    {
        match self {
            Member::Named(s) => Member::Named(s.clone()),
            Member::Unnamed(i) => Member::Unnamed(*i),
        }
    }
}

/// An attribute argument: `path`, `path(nested, ...)` or `path = value`.
#[derive(Debug, PartialEq, Eq)]
pub enum Meta {
    Path(Vec<String>),
    List { path: Vec<String>, nested: Vec<Meta> },
    NameValue { path: Vec<String>, value: MetaValue },
}

/// The value of a `path = value` attribute argument.
#[derive(Debug, PartialEq, Eq)]
pub enum MetaValue {
    /// A string literal: its source text, quotes included, and its content read as a generic
    /// argument list where it is one.
    Str { literal: String, generics: Option<Vec<GenericArgument>> },
    /// Any other expression, as source text.
    Expr(String),
}

/// The mathematical value of a [`Meta`].
pub enum MetaV {
    Path(Seq<Seq<char>>),
    List { path: Seq<Seq<char>>, nested: Seq<MetaV> },
    NameValue { path: Seq<Seq<char>>, value: ValueV },
}

/// The mathematical value of a [`MetaValue`].
pub enum ValueV {
    Str { literal: Seq<char>, generics: Option<Seq<ArgV>> },
    Expr(Seq<char>),
}

pub open spec fn path_texts(p: Seq<String>) -> Seq<Seq<char>> {
    p.map_values(|s: String| s@)
}

pub open spec fn value_view(v: MetaValue) -> ValueV {
    match v {
        MetaValue::Str { literal, generics } => ValueV::Str {
            literal: literal@,
            generics: match generics {
                Some(g) => Some(arg_seq_view(g@)),
                None => None,
            },
        },
        MetaValue::Expr(e) => ValueV::Expr(e@),
    }
}

pub open spec fn meta_view(m: Meta) -> MetaV
    decreases m,
{
    match m {
        Meta::Path(p) => MetaV::Path(path_texts(p@)),
        Meta::List { path, nested } => MetaV::List { path: path_texts(path@), nested: meta_seq_view(nested@) },
        Meta::NameValue { path, value } => MetaV::NameValue { path: path_texts(path@), value: value_view(value) },
    }
}

pub open spec fn meta_seq_view(s: Seq<Meta>) -> Seq<MetaV>
    decreases s,
{
    if s.len() == 0 {
        Seq::empty()
    } else {
        meta_seq_view(s.drop_last()).push(meta_view(s.last()))
    }
}

pub proof fn lemma_meta_seq_view_push(s: Seq<Meta>, x: Meta)
    ensures
        meta_seq_view(s.push(x)) == meta_seq_view(s).push(meta_view(x)),
{
    assert(s.push(x).drop_last() =~= s);
}

/// The source text of an attribute value.
pub open spec fn value_text(v: MetaValue) -> Seq<char> {
    match v {
        MetaValue::Str { literal, .. } => literal@,
        MetaValue::Expr(e) => e@,
    }
}

/// The identifier that a path of one segment is.
pub open spec fn single_ident(path: Seq<String>) -> Option<Seq<char>> {
    if path.len() == 1 {
        Some(path[0]@)
    } else {
        None
    }
}

/// The identifier that a path of one segment is.
pub fn require_ident(path: &Vec<String>) -> (r: Option<String>)
    ensures
        match r {
            Some(s) => single_ident(path@) == Some(s@),
            None => single_ident(path@) is None,
        },
{
    if path.len() == 1 {
        Some(path[0].clone())
    } else {
        None
    }
}

/// Whether `key` holds exactly the text `lit`.
pub fn is_key(key: &String, lit: &str) -> (r: bool)
    ensures
        r == (key@ == lit@),
{
    let k = String::from_str(lit);
    *key == k
}

/// The text of an attribute value.
pub fn value_source(v: &MetaValue) -> (r: String)
    ensures
        r@ == value_text(*v),
{
    match v {
        MetaValue::Str { literal, .. } => literal.clone(),
        MetaValue::Expr(e) => e.clone(),
    }
}

/// The mathematical value of a [`TypeExpr`].
pub enum TyV {
    Path(PathV),
    Qualified { self_ty: Box<TyV>, position: nat, path: PathV },
    Other(Seq<char>),
}

/// The mathematical value of a [`TypePath`].
pub struct PathV {
    pub leading_colon: bool,
    pub segments: Seq<SegV>,
}

/// The mathematical value of a [`PathSegment`].
pub struct SegV {
    pub ident: Seq<char>,
    pub arguments: ArgsV,
}

/// The mathematical value of [`PathArguments`].
pub enum ArgsV {
    Empty,
    Angle(Seq<ArgV>),
    Paren { inputs: Seq<TyV>, output: Option<Box<TyV>> },
}

/// The mathematical value of a [`GenericArgument`].
pub enum ArgV {
    Lifetime(Seq<char>),
    Type(TyV),
    Const(Seq<char>),
    Other(Seq<char>),
}

pub open spec fn ty_view(t: TypeExpr) -> TyV
    decreases t,
{
    match t {
        TypeExpr::Path(p) => TyV::Path(path_view(p)),
        TypeExpr::Qualified { self_ty, position, path } => TyV::Qualified {
            self_ty: Box::new(ty_view(*self_ty)),
            position: position as nat,
            path: path_view(path),
        },
        TypeExpr::Other(s) => TyV::Other(s@),
    }
}

pub open spec fn path_view(p: TypePath) -> PathV
    decreases p,
{
    PathV { leading_colon: p.leading_colon, segments: segs_view(p.segments@) }
}

pub open spec fn segs_view(s: Seq<PathSegment>) -> Seq<SegV>
    decreases s,
{
    if s.len() == 0 {
        Seq::empty()
    } else {
        segs_view(s.drop_last()).push(seg_view(s.last()))
    }
}

pub open spec fn seg_view(s: PathSegment) -> SegV
    decreases s,
{
    SegV { ident: s.ident@, arguments: args_view(s.arguments) }
}

pub open spec fn args_view(a: PathArguments) -> ArgsV
    decreases a,
{
    match a {
        PathArguments::Empty => ArgsV::Empty,
        PathArguments::AngleBracketed(args) => ArgsV::Angle(arg_seq_view(args@)),
        PathArguments::Parenthesized { inputs, output } => ArgsV::Paren {
            inputs: ty_seq_view(inputs@),
            output: match output {
                Some(t) => Some(Box::new(ty_view(*t))),
                None => None,
            },
        },
    }
}

pub open spec fn arg_seq_view(s: Seq<GenericArgument>) -> Seq<ArgV>
    decreases s,
{
    if s.len() == 0 {
        Seq::empty()
    } else {
        arg_seq_view(s.drop_last()).push(arg_view(s.last()))
    }
}

pub open spec fn ty_seq_view(s: Seq<TypeExpr>) -> Seq<TyV>
    decreases s,
{
    if s.len() == 0 {
        Seq::empty()
    } else {
        ty_seq_view(s.drop_last()).push(ty_view(s.last()))
    }
}

pub open spec fn arg_view(a: GenericArgument) -> ArgV
    decreases a,
{
    match a {
        GenericArgument::Lifetime(s) => ArgV::Lifetime(s@),
        GenericArgument::Type(t) => ArgV::Type(ty_view(t)),
        GenericArgument::Const(s) => ArgV::Const(s@),
        GenericArgument::Other(s) => ArgV::Other(s@),
    }
}

impl View for TypeExpr {
    type V = TyV;

    open spec fn view(&self) -> TyV {
        ty_view(*self)
    }
}

impl View for TypePath {
    type V = PathV;

    open spec fn view(&self) -> PathV {
        path_view(*self)
    }
}

impl View for PathSegment {
    type V = SegV;

    open spec fn view(&self) -> SegV {
        seg_view(*self)
    }
}

impl View for PathArguments {
    type V = ArgsV;

    open spec fn view(&self) -> ArgsV {
        args_view(*self)
    }
}

impl View for GenericArgument {
    type V = ArgV;

    open spec fn view(&self) -> ArgV {
        arg_view(*self)
    }
}

/// Each of the views of a prefix one longer is the shorter one's, extended.
pub proof fn lemma_segs_view_push(s: Seq<PathSegment>, x: PathSegment)
    ensures
        segs_view(s.push(x)) == segs_view(s).push(seg_view(x)),
{
    assert(s.push(x).drop_last() =~= s);
}

pub proof fn lemma_arg_seq_view_push(s: Seq<GenericArgument>, x: GenericArgument)
    ensures
        arg_seq_view(s.push(x)) == arg_seq_view(s).push(arg_view(x)),
{
    assert(s.push(x).drop_last() =~= s);
}

pub proof fn lemma_ty_seq_view_push(s: Seq<TypeExpr>, x: TypeExpr)
    ensures
        ty_seq_view(s.push(x)) == ty_seq_view(s).push(ty_view(x)),
{
    assert(s.push(x).drop_last() =~= s);
}

/// The view of a sequence of segments has one entry per segment, each the segment's view.
pub proof fn lemma_segs_view_index(s: Seq<PathSegment>)
    ensures
        segs_view(s).len() == s.len(),
        forall|i: int| 0 <= i < s.len() ==> #[trigger] segs_view(s)[i] == seg_view(s[i]),
    decreases s.len(),
{
    if s.len() > 0 {
        lemma_segs_view_index(s.drop_last());
    }
}

pub proof fn lemma_arg_seq_view_index(s: Seq<GenericArgument>)
    ensures
        arg_seq_view(s).len() == s.len(),
        forall|i: int| 0 <= i < s.len() ==> #[trigger] arg_seq_view(s)[i] == arg_view(s[i]),
    decreases s.len(),
{
    if s.len() > 0 {
        lemma_arg_seq_view_index(s.drop_last());
    }
}

pub proof fn lemma_ty_seq_view_index(s: Seq<TypeExpr>)
    ensures
        ty_seq_view(s).len() == s.len(),
        forall|i: int| 0 <= i < s.len() ==> #[trigger] ty_seq_view(s)[i] == ty_view(s[i]),
    decreases s.len(),
{
    if s.len() > 0 {
        lemma_ty_seq_view_index(s.drop_last());
    }
}

impl TypeExpr {
    /// A copy of this type expression.
    pub fn copy(&self) -> (r: TypeExpr)
        ensures
            r@ == self@,
        decreases self,
    {
        match self {
            TypeExpr::Path(p) => TypeExpr::Path(p.copy()),
            TypeExpr::Qualified { self_ty, position, path } => TypeExpr::Qualified {
                self_ty: Box::new((**self_ty).copy()),
                position: *position,
                path: path.copy(),
            },
            TypeExpr::Other(s) => TypeExpr::Other(s.clone()),
        }
    }
}

impl TypePath {
    /// A copy of this path.
    pub fn copy(&self) -> (r: TypePath)
        ensures
            r@ == self@,
        decreases self,
    {
        TypePath { leading_colon: self.leading_colon, segments: copy_segments(&self.segments) }
    }
}

/// A copy of a list of segments.
pub fn copy_segments(s: &Vec<PathSegment>) -> (r: Vec<PathSegment>)
    ensures
        segs_view(r@) == segs_view(s@),
    decreases s,
{
    let mut out: Vec<PathSegment> = Vec::new();
    let mut i: usize = 0;
    while i < s.len()
        invariant
            i <= s@.len(),
            segs_view(out@) == segs_view(s@.subrange(0, i as int)),
        decreases s@.len() - i,
    {
        let x = s[i].copy();
        proof {
            lemma_segs_view_push(out@, x);
            lemma_segs_view_push(s@.subrange(0, i as int), s@[i as int]);
            assert(s@.subrange(0, i + 1) =~= s@.subrange(0, i as int).push(s@[i as int]));
        }
        out.push(x);
        i = i + 1;
    }
    assert(s@.subrange(0, s@.len() as int) =~= s@);
    out
}

impl PathSegment {
    /// A copy of this segment.
    pub fn copy(&self) -> (r: PathSegment)
        ensures
            r@ == self@,
        decreases self,
    {
        PathSegment { ident: self.ident.clone(), arguments: self.arguments.copy() }
    }
}

impl PathArguments {
    /// A copy of these arguments.
    pub fn copy(&self) -> (r: PathArguments)
        ensures
            r@ == self@,
        decreases self,
    {
        match self {
            PathArguments::Empty => PathArguments::Empty,
            PathArguments::AngleBracketed(args) => PathArguments::AngleBracketed(copy_arguments(args)),
            PathArguments::Parenthesized { inputs, output } => {
                let output = match output {
                    Some(t) => Some(Box::new((**t).copy())),
                    None => None,
                };
                PathArguments::Parenthesized { inputs: copy_types(inputs), output }
            },
        }
    }
}

/// A copy of a list of generic arguments.
pub fn copy_arguments(s: &Vec<GenericArgument>) -> (r: Vec<GenericArgument>)
    ensures
        arg_seq_view(r@) == arg_seq_view(s@),
    decreases s,
{
    let mut out: Vec<GenericArgument> = Vec::new();
    let mut i: usize = 0;
    while i < s.len()
        invariant
            i <= s@.len(),
            arg_seq_view(out@) == arg_seq_view(s@.subrange(0, i as int)),
        decreases s@.len() - i,
    {
        let x = s[i].copy();
        proof {
            lemma_arg_seq_view_push(out@, x);
            lemma_arg_seq_view_push(s@.subrange(0, i as int), s@[i as int]);
            assert(s@.subrange(0, i + 1) =~= s@.subrange(0, i as int).push(s@[i as int]));
        }
        out.push(x);
        i = i + 1;
    }
    assert(s@.subrange(0, s@.len() as int) =~= s@);
    out
}

/// A copy of a list of types.
pub fn copy_types(s: &Vec<TypeExpr>) -> (r: Vec<TypeExpr>)
    ensures
        ty_seq_view(r@) == ty_seq_view(s@),
    decreases s,
{
    let mut out: Vec<TypeExpr> = Vec::new();
    let mut i: usize = 0;
    while i < s.len()
        invariant
            i <= s@.len(),
            ty_seq_view(out@) == ty_seq_view(s@.subrange(0, i as int)),
        decreases s@.len() - i,
    {
        let x = s[i].copy();
        proof {
            lemma_ty_seq_view_push(out@, x);
            lemma_ty_seq_view_push(s@.subrange(0, i as int), s@[i as int]);
            assert(s@.subrange(0, i + 1) =~= s@.subrange(0, i as int).push(s@[i as int]));
        }
        out.push(x);
        i = i + 1;
    }
    assert(s@.subrange(0, s@.len() as int) =~= s@);
    out
}

impl GenericArgument {
    /// A copy of this argument.
    pub fn copy(&self) -> (r: GenericArgument)
        ensures
            r@ == self@,
        decreases self,
    {
        match self {
            GenericArgument::Lifetime(s) => GenericArgument::Lifetime(s.clone()),
            GenericArgument::Type(t) => GenericArgument::Type(t.copy()),
            GenericArgument::Const(s) => GenericArgument::Const(s.clone()),
            GenericArgument::Other(s) => GenericArgument::Other(s.clone()),
        }
    }
}

} // verus!
