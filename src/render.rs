//! Source text of type expressions and field names.

use vstd::prelude::*;

use crate::syntax::{
    arg_seq_view, lemma_arg_seq_view_index, lemma_segs_view_index, lemma_ty_seq_view_index,
    seg_view, segs_view, ty_seq_view, ArgV, ArgsV, GenericArgument, Member, MemberV,
    PathArguments, PathSegment, SegV, TyV, TypeExpr,
};

verus! {

/// The source text of a type.
pub open spec fn ty_text(t: TyV) -> Seq<char>
    decreases t,
{
    match t {
        TyV::Path(p) => (if p.leading_colon {
            "::"@
        } else {
            Seq::empty()
        }) + segs_text(p.segments),
        TyV::Qualified { self_ty, position, path } => {
            let n = path.segments.len();
            let pos = if position <= n {
                position as int
            } else {
                n as int
            };
            let front = if pos == n {
                path.segments
            } else {
                path.segments.subrange(0, pos)
            };
            let back = if pos == 0 {
                path.segments
            } else {
                path.segments.subrange(pos, n as int)
            };
            "<"@ + ty_text(*self_ty) + (if pos > 0 {
                " as "@ + (if path.leading_colon {
                    "::"@
                } else {
                    Seq::empty()
                }) + segs_text(front)
            } else {
                Seq::empty()
            }) + ">"@ + (if back.len() > 0 {
                "::"@ + segs_text(back)
            } else {
                Seq::empty()
            })
        },
        TyV::Other(s) => s,
    }
}

/// The source text of path segments, separated by `::`.
pub open spec fn segs_text(s: Seq<SegV>) -> Seq<char>
    decreases s,
{
    if s.len() == 0 {
        Seq::empty()
    } else if s.len() == 1 {
        seg_text(s[0])
    } else {
        segs_text(s.drop_last()) + "::"@ + seg_text(s.last())
    }
}

/// The source text of one path segment.
pub open spec fn seg_text(s: SegV) -> Seq<char>
    decreases s,
{
    s.ident + match s.arguments {
        ArgsV::Empty => Seq::empty(),
        ArgsV::Angle(args) => "<"@ + arg_seq_text(args) + ">"@,
        ArgsV::Paren { inputs, output } => "("@ + ty_seq_text(inputs) + ")"@ + match output {
            Some(t) => " -> "@ + ty_text(*t),
            None => Seq::empty(),
        },
    }
}

/// The source text of generic arguments, separated by `, `.
pub open spec fn arg_seq_text(s: Seq<ArgV>) -> Seq<char>
    decreases s,
{
    if s.len() == 0 {
        Seq::empty()
    } else if s.len() == 1 {
        arg_text(s[0])
    } else {
        arg_seq_text(s.drop_last()) + ", "@ + arg_text(s.last())
    }
}

/// The source text of types, separated by `, `.
pub open spec fn ty_seq_text(s: Seq<TyV>) -> Seq<char>
    decreases s,
{
    if s.len() == 0 {
        Seq::empty()
    } else if s.len() == 1 {
        ty_text(s[0])
    } else {
        ty_seq_text(s.drop_last()) + ", "@ + ty_text(s.last())
    }
}

/// The source text of one generic argument.
pub open spec fn arg_text(a: ArgV) -> Seq<char>
    decreases a,
{
    match a {
        ArgV::Lifetime(l) => l,
        ArgV::Type(t) => ty_text(t),
        ArgV::Const(c) => c,
        ArgV::Other(o) => o,
    }
}

/// The decimal digits of `n`.
pub open spec fn decimal(n: nat) -> Seq<char>
    decreases n,
{
    if n < 10 {
        seq![digit_char(n)]
    } else {
        decimal(n / 10).push(digit_char(n % 10))
    }
}

pub open spec fn digit_char(d: nat) -> char {
    if d == 0 {
        '0'
    } else if d == 1 {
        '1'
    } else if d == 2 {
        '2'
    } else if d == 3 {
        '3'
    } else if d == 4 {
        '4'
    } else if d == 5 {
        '5'
    } else if d == 6 {
        '6'
    } else if d == 7 {
        '7'
    } else if d == 8 {
        '8'
    } else {
        '9'
    }
}

/// The source text of a field name.
pub open spec fn member_text(m: MemberV) -> Seq<char> {
    match m {
        MemberV::Named(s) => s,
        MemberV::Unnamed(i) => decimal(i),
    }
}

fn digit(d: u128) -> (r: char)
    requires
        d < 10,
    ensures
        r == digit_char(d as nat),
{
    if d == 0 {
        '0'
    } else if d == 1 {
        '1'
    } else if d == 2 {
        '2'
    } else if d == 3 {
        '3'
    } else if d == 4 {
        '4'
    } else if d == 5 {
        '5'
    } else if d == 6 {
        '6'
    } else if d == 7 {
        '7'
    } else if d == 8 {
        '8'
    } else {
        '9'
    }
}

/// The decimal digits of `n`.
pub fn decimal_text(n: u128) -> (r: Vec<char>)
    ensures
        r@ == decimal(n as nat),
    decreases n,
{
    if n < 10 {
        let mut r: Vec<char> = Vec::new();
        r.push(digit(n));
        assert(r@ =~= seq![digit_char(n as nat)]);
        r
    } else {
        let mut r = decimal_text(n / 10);
        r.push(digit(n % 10));
        r
    }
}

/// `s` with the characters of `cs` appended.
pub fn push_chars(s: &mut String, cs: &Vec<char>)
    ensures
        final(s)@ == old(s)@ + cs@,
{
    let mut i: usize = 0;
    while i < cs.len()
        invariant
            i <= cs@.len(),
            s@ == old(s)@ + cs@.subrange(0, i as int),
        decreases cs@.len() - i,
    {
        let c = cs[i];
        push_char(s, c);
        assert(cs@.subrange(0, i + 1) =~= cs@.subrange(0, i as int).push(c));
        i = i + 1;
    }
    assert(cs@.subrange(0, cs@.len() as int) =~= cs@);
}

/// Relies on `String::push`: the character is appended.
#[verifier::external_body]
fn push_char(s: &mut String, c: char)
    ensures
        final(s)@ == old(s)@.push(c),
{
    s.push(c);
}

/// The source text of a type.
pub fn render_type(t: &TypeExpr) -> (r: String)
    ensures
        r@ == ty_text(t@),
    decreases t,
{
    match t {
        TypeExpr::Path(p) => {
            assert(t@ == TyV::Path(p@));
            let mut r = String::new();
            if p.leading_colon {
                r.append("::");
            }
            let segs = render_segments(&p.segments, 0, p.segments.len());
            proof {
                assert(p.segments@.subrange(0, p.segments@.len() as int) =~= p.segments@);
            }
            r.append(segs.as_str());
            assert(r@ =~= ty_text(t@));
            r
        },
        TypeExpr::Qualified { self_ty, position, path } => {
            assert(t@ == TyV::Qualified { self_ty: Box::new((**self_ty)@), position: *position as nat, path: path@ });
            let n = path.segments.len();
            let pos = if *position <= n {
                *position
            } else {
                n
            };
            proof {
                lemma_segs_view_index(path.segments@);
                assert(segs_view(path.segments@.subrange(0, pos as int)) =~= path@.segments.subrange(0, pos as int)) by {
                    lemma_segs_view_index(path.segments@.subrange(0, pos as int));
                }
                assert(segs_view(path.segments@.subrange(pos as int, n as int)) =~= path@.segments.subrange(pos as int, n as int)) by {
                    lemma_segs_view_index(path.segments@.subrange(pos as int, n as int));
                }
                assert(path.segments@.subrange(0, n as int) =~= path.segments@);
                assert(path@.segments.subrange(0, n as int) =~= path@.segments);
                assert(path@.segments.subrange(0, n as int) =~= path@.segments);
            }
            let mut r = String::new();
            r.append("<");
            let inner = render_type(&**self_ty);
            r.append(inner.as_str());
            if pos > 0 {
                r.append(" as ");
                if path.leading_colon {
                    r.append("::");
                }
                let front = render_segments(&path.segments, 0, pos);
                r.append(front.as_str());
            }
            r.append(">");
            if pos < n {
                r.append("::");
                let back = render_segments(&path.segments, pos, n);
                r.append(back.as_str());
            }
            assert(r@ =~= ty_text(t@));
            r
        },
        TypeExpr::Other(s) => {
            assert(t@ == TyV::Other(s@));
            s.clone()
        },
    }
}

/// The source text of the segments `lo..hi` of a path, separated by `::`.
pub fn render_segments(segs: &Vec<PathSegment>, lo: usize, hi: usize) -> (r: String)
    requires
        lo <= hi <= segs@.len(),
    ensures
        r@ == segs_text(segs_view(segs@.subrange(lo as int, hi as int))),
    decreases segs,
{
    let mut r = String::new();
    let mut i: usize = lo;
    proof {
        assert(segs@.subrange(lo as int, lo as int) =~= Seq::<PathSegment>::empty());
    }
    while i < hi
        invariant
            lo <= i <= hi,
            hi <= segs@.len(),
            r@ == segs_text(segs_view(segs@.subrange(lo as int, i as int))),
        decreases hi - i,
    {
        let ghost pre = segs@.subrange(lo as int, i as int);
        let ghost next = segs@.subrange(lo as int, i + 1);
        proof {
            lemma_segs_view_index(pre);
            lemma_segs_view_index(next);
            assert(next.drop_last() =~= pre);
            assert(segs_view(next).drop_last() =~= segs_view(pre));
        }
        if i > lo {
            r.append("::");
        }
        let one = render_segment(&segs[i]);
        r.append(one.as_str());
        proof {
            if i == lo {
                assert(segs_view(next)[0] == seg_view(segs@[i as int]));
            } else {
                assert(segs_view(next).last() == seg_view(segs@[i as int]));
            }
        }
        i = i + 1;
    }
    r
}

/// The source text of one path segment.
pub fn render_segment(seg: &PathSegment) -> (r: String)
    ensures
        r@ == seg_text(seg@),
    decreases seg,
{
    let mut r = seg.ident.clone();
    match &seg.arguments {
        PathArguments::Empty => {},
        PathArguments::AngleBracketed(args) => {
            r.append("<");
            let a = render_arguments(args);
            r.append(a.as_str());
            r.append(">");
        },
        PathArguments::Parenthesized { inputs, output } => {
            r.append("(");
            let a = render_types(inputs);
            r.append(a.as_str());
            r.append(")");
            match output {
                Some(t) => {
                    r.append(" -> ");
                    let o = render_type(&**t);
                    r.append(o.as_str());
                },
                None => {},
            }
        },
    }
    assert(r@ =~= seg_text(seg@));
    r
}

/// The source text of generic arguments, separated by `, `.
pub fn render_arguments(args: &Vec<GenericArgument>) -> (r: String)
    ensures
        r@ == arg_seq_text(arg_seq_view(args@)),
    decreases args,
{
    let mut r = String::new();
    let mut i: usize = 0;
    proof {
        assert(args@.subrange(0, 0) =~= Seq::<GenericArgument>::empty());
    }
    while i < args.len()
        invariant
            i <= args@.len(),
            r@ == arg_seq_text(arg_seq_view(args@.subrange(0, i as int))),
        decreases args@.len() - i,
    {
        let ghost pre = args@.subrange(0, i as int);
        let ghost next = args@.subrange(0, i + 1);
        proof {
            lemma_arg_seq_view_index(pre);
            lemma_arg_seq_view_index(next);
            assert(next.drop_last() =~= pre);
            assert(arg_seq_view(next).drop_last() =~= arg_seq_view(pre));
        }
        if i > 0 {
            r.append(", ");
        }
        let one = match &args[i] {
            GenericArgument::Lifetime(l) => l.clone(),
            GenericArgument::Type(t) => render_type(t),
            GenericArgument::Const(c) => c.clone(),
            GenericArgument::Other(o) => o.clone(),
        };
        assert(one@ == arg_text(args@[i as int]@));
        r.append(one.as_str());
        proof {
            if i == 0 {
                assert(arg_seq_view(next)[0] == args@[i as int]@);
            } else {
                assert(arg_seq_view(next).last() == args@[i as int]@);
            }
        }
        i = i + 1;
    }
    assert(args@.subrange(0, args@.len() as int) =~= args@);
    r
}

/// The source text of types, separated by `, `.
pub fn render_types(tys: &Vec<TypeExpr>) -> (r: String)
    ensures
        r@ == ty_seq_text(ty_seq_view(tys@)),
    decreases tys,
{
    let mut r = String::new();
    let mut i: usize = 0;
    proof {
        assert(tys@.subrange(0, 0) =~= Seq::<TypeExpr>::empty());
    }
    while i < tys.len()
        invariant
            i <= tys@.len(),
            r@ == ty_seq_text(ty_seq_view(tys@.subrange(0, i as int))),
        decreases tys@.len() - i,
    {
        let ghost pre = tys@.subrange(0, i as int);
        let ghost next = tys@.subrange(0, i + 1);
        proof {
            lemma_ty_seq_view_index(pre);
            lemma_ty_seq_view_index(next);
            assert(next.drop_last() =~= pre);
            assert(ty_seq_view(next).drop_last() =~= ty_seq_view(pre));
        }
        if i > 0 {
            r.append(", ");
        }
        let one = render_type(&tys[i]);
        r.append(one.as_str());
        i = i + 1;
    }
    assert(tys@.subrange(0, tys@.len() as int) =~= tys@);
    r
}

/// The source text of a field name.
pub fn render_member(m: &Member) -> (r: String)
    ensures
        r@ == member_text(m@),
{
    match m {
        Member::Named(s) => s.clone(),
        Member::Unnamed(i) => {
            let digits = decimal_text(*i as u128);
            let mut r = String::new();
            push_chars(&mut r, &digits);
            r
        },
    }
}

} // verus!
