//! Qualification of associated types of generic parameters bound by a single trait.

use vstd::prelude::*;

use crate::syntax::{
    arg_seq_view, arg_view, lemma_arg_seq_view_push, lemma_segs_view_index, lemma_segs_view_push,
    lemma_ty_seq_view_push, seg_view, segs_view, ty_seq_view, ty_view, ArgV, ArgsV,
    GenericArgument, GenericParam, PathArguments, PathSegment, PathV, SegV, TyV, TypeExpr, TypeParamBound, TypePath,
};

verus! {

/// A generic parameter bound by exactly one trait, with that trait's path.
#[derive(Debug, PartialEq, Eq)]
pub struct BoundGeneric {
    pub ident: String,
    pub bound: TypePath,
}

/// The parameters and traits of a list of bound generics.
pub open spec fn bounds_view(b: Seq<BoundGeneric>) -> Seq<(Seq<char>, PathV)> {
    b.map_values(|g: BoundGeneric| (g.ident@, g.bound@))
}

/// The trait that binds the parameter named `id`, from the first entry of `b` that names it.
pub open spec fn bound_of(b: Seq<(Seq<char>, PathV)>, id: Seq<char>) -> Option<PathV>
    decreases b.len(),
{
    if b.len() == 0 {
        None
    } else if b[0].0 == id {
        Some(b[0].1)
    } else {
        bound_of(b.drop_first(), id)
    }
}

/// `t` with every associated-type path rooted at a bound parameter rewritten into the qualified
/// form `<P as Trait>::Rest`, at every depth. A path of one segment, a path with a leading `::`
/// and a type that is no path stay as they are; a qualified path is only looked into.
pub open spec fn q_ty(b: Seq<(Seq<char>, PathV)>, t: TyV) -> TyV
    decreases t,
{
    match t {
        TyV::Path(p) => if p.leading_colon {
            t
        } else {
            let segs = q_segs(b, p.segments);
            if p.segments.len() >= 2 && bound_of(b, p.segments[0].ident) is Some {
                let tr = bound_of(b, p.segments[0].ident)->0;
                TyV::Qualified {
                    self_ty: Box::new(
                        TyV::Path(
                            PathV {
                                leading_colon: false,
                                segments: seq![SegV { ident: p.segments[0].ident, arguments: ArgsV::Empty }],
                            },
                        ),
                    ),
                    position: tr.segments.len(),
                    path: PathV {
                        leading_colon: tr.leading_colon,
                        segments: tr.segments + segs.drop_first(),
                    },
                }
            } else {
                TyV::Path(PathV { leading_colon: false, segments: segs })
            }
        },
        TyV::Qualified { self_ty, position, path } => TyV::Qualified {
            self_ty: Box::new(q_ty(b, *self_ty)),
            position,
            path: PathV { leading_colon: path.leading_colon, segments: q_segs(b, path.segments) },
        },
        TyV::Other(_) => t,
    }
}

/// Each segment of `s` with its generic arguments qualified.
pub open spec fn q_segs(b: Seq<(Seq<char>, PathV)>, s: Seq<SegV>) -> Seq<SegV>
    decreases s,
{
    if s.len() == 0 {
        Seq::empty()
    } else {
        q_segs(b, s.drop_last()).push(q_seg(b, s.last()))
    }
}

/// The segment `s` with its generic arguments qualified.
pub open spec fn q_seg(b: Seq<(Seq<char>, PathV)>, s: SegV) -> SegV
    decreases s,
{
    SegV {
        ident: s.ident,
        arguments: match s.arguments {
            ArgsV::Empty => ArgsV::Empty,
            ArgsV::Angle(args) => ArgsV::Angle(q_arg_seq(b, args)),
            ArgsV::Paren { inputs, output } => ArgsV::Paren { inputs: q_ty_seq(b, inputs), output },
        },
    }
}

/// Each argument of `s`, qualified where it is a type.
pub open spec fn q_arg_seq(b: Seq<(Seq<char>, PathV)>, s: Seq<ArgV>) -> Seq<ArgV>
    decreases s,
{
    if s.len() == 0 {
        Seq::empty()
    } else {
        q_arg_seq(b, s.drop_last()).push(
            match s.last() {
                ArgV::Type(t) => ArgV::Type(q_ty(b, t)),
                a => a,
            },
        )
    }
}

/// Each type of `s`, qualified.
pub open spec fn q_ty_seq(b: Seq<(Seq<char>, PathV)>, s: Seq<TyV>) -> Seq<TyV>
    decreases s,
{
    if s.len() == 0 {
        Seq::empty()
    } else {
        q_ty_seq(b, s.drop_last()).push(q_ty(b, s.last()))
    }
}

/// A bare identifier is left as it is by qualification.
pub proof fn lemma_bare_ident_unchanged(b: Seq<(Seq<char>, PathV)>, id: Seq<char>)
    ensures
        ({
            let t = TyV::Path(
                PathV { leading_colon: false, segments: seq![SegV { ident: id, arguments: ArgsV::Empty }] },
            );
            q_ty(b, t) == t
        }),
{
    let x = SegV { ident: id, arguments: ArgsV::Empty };
    let s = seq![x];
    assert(s.drop_last() =~= Seq::<SegV>::empty());
    assert(s.last() == x);
    assert(q_seg(b, x) == x);
    assert(q_segs(b, Seq::<SegV>::empty()) == Seq::<SegV>::empty());
    assert(q_segs(b, s) =~= s);
}

proof fn lemma_q_segs_index(b: Seq<(Seq<char>, PathV)>, s: Seq<SegV>)
    ensures
        q_segs(b, s).len() == s.len(),
        forall|i: int| 0 <= i < s.len() ==> #[trigger] q_segs(b, s)[i] == q_seg(b, s[i]),
    decreases s.len(),
{
    if s.len() > 0 {
        lemma_q_segs_index(b, s.drop_last());
    }
}

/// The type parameters of `ps` that are bound by exactly one bound, a trait, with that trait, in
/// order.
pub open spec fn bound_generics_of(ps: Seq<GenericParam>) -> Seq<(Seq<char>, PathV)>
    decreases ps.len(),
{
    if ps.len() == 0 {
        Seq::empty()
    } else {
        let rest = bound_generics_of(ps.drop_last());
        match ps.last() {
            GenericParam::Type { ident, bounds } => if bounds@.len() == 1 && bounds@[0] is Trait {
                rest.push((ident@, bounds@[0]->Trait_0@))
            } else {
                rest
            },
            _ => rest,
        }
    }
}

/// Collect the type parameters that are bound by a single trait, with that trait, so that their
/// associated types can be qualified.
pub fn get_bound_generics(generics: &Vec<GenericParam>) -> (r: Vec<BoundGeneric>)
    ensures
        bounds_view(r@) == bound_generics_of(generics@),
{
    let mut out: Vec<BoundGeneric> = Vec::new();
    let mut i: usize = 0;
    while i < generics.len()
        invariant
            i <= generics@.len(),
            bounds_view(out@) == bound_generics_of(generics@.subrange(0, i as int)),
        decreases generics@.len() - i,
    {
        let ghost pre = generics@.subrange(0, i as int);
        assert(generics@.subrange(0, i + 1).drop_last() =~= pre);
        let ghost before = out@;
        match &generics[i] {
            GenericParam::Type { ident, bounds } => {
                if bounds.len() == 1 {
                    match &bounds[0] {
                        TypeParamBound::Trait(path) => {
                            out.push(BoundGeneric { ident: ident.clone(), bound: path.copy() });
                            assert(bounds_view(out@) =~= bounds_view(before).push((ident@, path@)));
                        },
                        _ => {},
                    }
                }
            },
            _ => {},
        }
        i = i + 1;
    }
    assert(generics@.subrange(0, generics@.len() as int) =~= generics@);
    out
}

/// The trait that binds the parameter named `id`, if one does.
pub fn bound_lookup(b: &Vec<BoundGeneric>, id: &String) -> (r: Option<TypePath>)
    ensures
        match r {
            Some(p) => bound_of(bounds_view(b@), id@) == Some(p@),
            None => bound_of(bounds_view(b@), id@) is None,
        },
{
    let ghost bv = bounds_view(b@);
    let mut i: usize = 0;
    assert(bv.subrange(0, bv.len() as int) =~= bv);
    while i < b.len()
        invariant
            i <= b@.len(),
            bv == bounds_view(b@),
            bound_of(bv, id@) == bound_of(bv.subrange(i as int, bv.len() as int), id@),
        decreases b@.len() - i,
    {
        let ghost rest = bv.subrange(i as int, bv.len() as int);
        assert(rest.drop_first() =~= bv.subrange(i + 1, bv.len() as int));
        if b[i].ident == *id {
            return Some(b[i].bound.copy());
        }
        i = i + 1;
    }
    None
}

/// Qualify every associated-type path rooted at a bound parameter in `ty`, at every depth:
/// `T::Item` with `T: Tr` becomes `<T as Tr>::Item`.
pub fn qualify_generic(b: &Vec<BoundGeneric>, ty: TypeExpr) -> (r: TypeExpr)
    ensures
        r@ == q_ty(bounds_view(b@), ty@),
{
    qualify_type(b, &ty)
}

fn qualify_type(b: &Vec<BoundGeneric>, ty: &TypeExpr) -> (r: TypeExpr)
    ensures
        r@ == q_ty(bounds_view(b@), ty@),
    decreases ty,
{
    let ghost bv = bounds_view(b@);
    match ty {
        TypeExpr::Path(p) => {
            assert(ty@ == TyV::Path(p@));
            if p.leading_colon {
                return ty.copy();
            }
            let segments = qualify_path_segments(b, &p.segments);
            proof {
                lemma_segs_view_index(p.segments@);
                lemma_segs_view_index(segments@);
                lemma_q_segs_index(bv, segs_view(p.segments@));
            }
            assert(p@.segments == segs_view(p.segments@));
            assert(!p@.leading_colon);
            if p.segments.len() < 2 {
                let r = TypePath { leading_colon: false, segments };
                assert(r@ == PathV { leading_colon: false, segments: q_segs(bv, p@.segments) });
                return TypeExpr::Path(r);
            }
            assert(p@.segments[0].ident == p.segments@[0].ident@);
            match bound_lookup(b, &p.segments[0].ident) {
                None => {
                    let r = TypePath { leading_colon: false, segments };
                    assert(r@ == PathV { leading_colon: false, segments: q_segs(bv, p@.segments) });
                    TypeExpr::Path(r)
                },
                Some(tr) => {
                    let ghost qs = segments@;
                    let mut self_segments: Vec<PathSegment> = Vec::new();
                    self_segments.push(
                        PathSegment { ident: p.segments[0].ident.clone(), arguments: PathArguments::Empty },
                    );
                    proof {
                        lemma_segs_view_push(Seq::empty(), self_segments@[0]);
                        assert(self_segments@ =~= Seq::<PathSegment>::empty().push(self_segments@[0]));
                    }
                    let position = tr.segments.len();
                    let ghost front = tr.segments@;
                    let mut path_segments = tr.segments;
                    let mut rest = segments;
                    rest.remove(0);
                    let ghost back = rest@;
                    path_segments.append(&mut rest);
                    proof {
                        lemma_segs_view_index(front);
                        lemma_segs_view_index(back);
                        lemma_segs_view_index(qs);
                        lemma_segs_view_index(path_segments@);
                        lemma_q_segs_index(bv, segs_view(p.segments@));
                        assert(back =~= qs.drop_first());
                        assert(segs_view(path_segments@) =~= segs_view(front) + q_segs(bv, segs_view(p.segments@)).drop_first());
                    }
                    let self_path = TypePath { leading_colon: false, segments: self_segments };
                    let path = TypePath { leading_colon: tr.leading_colon, segments: path_segments };
                    let ghost trv = bound_of(bv, p@.segments[0].ident)->0;
                    assert(trv == tr@);
                    assert(self_path@.segments =~= seq![SegV { ident: p@.segments[0].ident, arguments: ArgsV::Empty }]);
                    assert(path@ == PathV {
                        leading_colon: trv.leading_colon,
                        segments: trv.segments + q_segs(bv, p@.segments).drop_first(),
                    });
                    proof { lemma_segs_view_index(front); }
                    assert(position == trv.segments.len());
                    let r = TypeExpr::Qualified {
                        self_ty: Box::new(TypeExpr::Path(self_path)),
                        position,
                        path,
                    };
                    let ghost expected_self = TyV::Path(
                        PathV {
                            leading_colon: false,
                            segments: seq![SegV { ident: p@.segments[0].ident, arguments: ArgsV::Empty }],
                        },
                    );
                    let ghost expected_path = PathV {
                        leading_colon: trv.leading_colon,
                        segments: trv.segments + q_segs(bv, p@.segments).drop_first(),
                    };
                    assert(self_path@ == expected_self->Path_0);
                    assert((TypeExpr::Path(self_path))@ == expected_self);
                    assert(q_ty(bv, ty@) == TyV::Qualified {
                        self_ty: Box::new(expected_self),
                        position: trv.segments.len(),
                        path: expected_path,
                    });
                    assert(r@ == TyV::Qualified {
                        self_ty: Box::new(expected_self),
                        position: trv.segments.len(),
                        path: expected_path,
                    });
                    r
                },
            }
        },
        TypeExpr::Qualified { self_ty, position, path } => {
            assert(ty@ == TyV::Qualified { self_ty: Box::new((**self_ty)@), position: *position as nat, path: path@ });
            let q_self = qualify_type(b, &**self_ty);
            let segments = qualify_path_segments(b, &path.segments);
            let r_path = TypePath { leading_colon: path.leading_colon, segments };
            assert(r_path@ == PathV { leading_colon: path@.leading_colon, segments: q_segs(bv, path@.segments) });
            let r = TypeExpr::Qualified { self_ty: Box::new(q_self), position: *position, path: r_path };
            assert(r@ == TyV::Qualified {
                self_ty: Box::new(q_ty(bv, (**self_ty)@)),
                position: *position as nat,
                path: r_path@,
            });
            r
        },
        TypeExpr::Other(s) => {
            assert(ty@ == TyV::Other(s@));
            ty.copy()
        },
    }
}

/// Qualify the generic arguments of each segment, keeping the segments' identifiers.
pub fn qualify_path_segments(b: &Vec<BoundGeneric>, segments: &Vec<PathSegment>) -> (r: Vec<PathSegment>)
    ensures
        segs_view(r@) == q_segs(bounds_view(b@), segs_view(segments@)),
    decreases segments,
{
    let ghost bv = bounds_view(b@);
    let mut out: Vec<PathSegment> = Vec::new();
    let mut i: usize = 0;
    while i < segments.len()
        invariant
            i <= segments@.len(),
            bv == bounds_view(b@),
            segs_view(out@) == q_segs(bv, segs_view(segments@.subrange(0, i as int))),
        decreases segments@.len() - i,
    {
        let x = qualify_segment(b, &segments[i]);
        proof {
            let pre = segments@.subrange(0, i as int);
            lemma_segs_view_push(out@, x);
            lemma_segs_view_push(pre, segments@[i as int]);
            assert(segments@.subrange(0, i + 1) =~= pre.push(segments@[i as int]));
            assert(segs_view(pre).push(seg_view(segments@[i as int])).drop_last() =~= segs_view(pre));
        }
        out.push(x);
        i = i + 1;
    }
    assert(segments@.subrange(0, segments@.len() as int) =~= segments@);
    out
}

fn qualify_segment(b: &Vec<BoundGeneric>, seg: &PathSegment) -> (r: PathSegment)
    ensures
        r@ == q_seg(bounds_view(b@), seg@),
    decreases seg,
{
    let arguments = match &seg.arguments {
        PathArguments::Empty => PathArguments::Empty,
        PathArguments::AngleBracketed(args) => PathArguments::AngleBracketed(qualify_arguments(b, args)),
        PathArguments::Parenthesized { inputs, output } => {
            let output = match output {
                Some(t) => Some(Box::new((**t).copy())),
                None => None,
            };
            PathArguments::Parenthesized { inputs: qualify_types(b, inputs), output }
        },
    };
    PathSegment { ident: seg.ident.clone(), arguments }
}

fn qualify_arguments(b: &Vec<BoundGeneric>, args: &Vec<GenericArgument>) -> (r: Vec<GenericArgument>)
    ensures
        arg_seq_view(r@) == q_arg_seq(bounds_view(b@), arg_seq_view(args@)),
    decreases args,
{
    let ghost bv = bounds_view(b@);
    let mut out: Vec<GenericArgument> = Vec::new();
    let mut i: usize = 0;
    while i < args.len()
        invariant
            i <= args@.len(),
            bv == bounds_view(b@),
            arg_seq_view(out@) == q_arg_seq(bv, arg_seq_view(args@.subrange(0, i as int))),
        decreases args@.len() - i,
    {
        let x = match &args[i] {
            GenericArgument::Type(t) => GenericArgument::Type(qualify_type(b, t)),
            other => other.copy(),
        };
        proof {
            let pre = args@.subrange(0, i as int);
            lemma_arg_seq_view_push(out@, x);
            lemma_arg_seq_view_push(pre, args@[i as int]);
            assert(args@.subrange(0, i + 1) =~= pre.push(args@[i as int]));
            assert(arg_seq_view(pre).push(arg_view(args@[i as int])).drop_last() =~= arg_seq_view(pre));
        }
        out.push(x);
        i = i + 1;
    }
    assert(args@.subrange(0, args@.len() as int) =~= args@);
    out
}

fn qualify_types(b: &Vec<BoundGeneric>, tys: &Vec<TypeExpr>) -> (r: Vec<TypeExpr>)
    ensures
        ty_seq_view(r@) == q_ty_seq(bounds_view(b@), ty_seq_view(tys@)),
    decreases tys,
{
    let ghost bv = bounds_view(b@);
    let mut out: Vec<TypeExpr> = Vec::new();
    let mut i: usize = 0;
    while i < tys.len()
        invariant
            i <= tys@.len(),
            bv == bounds_view(b@),
            ty_seq_view(out@) == q_ty_seq(bv, ty_seq_view(tys@.subrange(0, i as int))),
        decreases tys@.len() - i,
    {
        let x = qualify_type(b, &tys[i]);
        proof {
            let pre = tys@.subrange(0, i as int);
            lemma_ty_seq_view_push(out@, x);
            lemma_ty_seq_view_push(pre, tys@[i as int]);
            assert(tys@.subrange(0, i + 1) =~= pre.push(tys@[i as int]));
            assert(ty_seq_view(pre).push(ty_view(tys@[i as int])).drop_last() =~= ty_seq_view(pre));
        }
        out.push(x);
        i = i + 1;
    }
    assert(tys@.subrange(0, tys@.len() as int) =~= tys@);
    out
}

} // verus!
