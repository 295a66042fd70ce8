//! The codec generator: from a struct or enum declaration to an implementation of `Cuisiner`,
//! in source text. Parse, analyse, lower, emit.

use vstd::prelude::*;

use crate::layout::{parse_of, raw_layout_checks, raw_outcome, Attribute, LayoutError, LayoutErrorV, LayoutField, LayoutInput};
use crate::results::{
    fold_results, fold_state, lemma_fold_empty, lemma_fold_error_stays, lemma_fold_fails_if_some, lemma_fold_full,
    lemma_fold_step, lemma_fold_first_error, lemma_state_ends, lemma_state_error_stays, lemma_state_step,
};
use crate::render::{arg_text, decimal, decimal_text, push_chars, render_arguments, render_type, ty_text};
use crate::syntax::{
    GenericArgument, GenericParam, Member, Meta, MetaValue, TypeExpr, is_key, require_ident, single_ident, ArgV, MetaV, ValueV,
    meta_view, meta_seq_view, lemma_meta_seq_view_push, path_texts, arg_view, arg_seq_view,
    lemma_arg_seq_view_push, lemma_arg_seq_view_index, TypeParamBound, bound_view, param_view, TyV, TypePath,
};

verus! {

/// The integer type that an enum is read and written as.
#[derive(Clone, Copy, Debug, PartialEq, Eq, Structural)]
pub enum Repr {
    U8,
    U16,
    U32,
    U64,
    U128,
    Usize,
    I8,
    I16,
    I32,
    I64,
    I128,
    Isize,
}

/// Why a declaration cannot get a codec.
#[derive(Debug, PartialEq, Eq)]
pub enum DeriveError {
    /// Unions have no codec.
    Union,
    /// A configuration attribute that is not in list form.
    AttributeFormat,
    /// An argument of the configuration attribute that is not recognised.
    UnknownArgument,
    /// A representation name that is not one of the integer types.
    UnknownRepr(String),
    /// A `repr` value that is not an identifier.
    ExpectedIdent,
    /// An enum without `repr = ...`.
    MissingRepr,
    /// An enum variant with fields.
    NonUnitVariant(String),
    /// An enum variant without a literal discriminant.
    DiscriminantRequired(String),
    /// A discriminant that does not fit the target width.
    CannotParseDiscriminant(String),
    /// A discriminant literal that is neither an integer nor a byte.
    UnsupportedDiscriminant(String),
    /// The layout arguments of the raw form are refused.
    Layout(LayoutError),
}

/// The mathematical value of a [`DeriveError`].
pub enum DeriveErrorV {
    Union,
    AttributeFormat,
    UnknownArgument,
    UnknownRepr(Seq<char>),
    ExpectedIdent,
    MissingRepr,
    NonUnitVariant(Seq<char>),
    DiscriminantRequired(Seq<char>),
    CannotParseDiscriminant(Seq<char>),
    UnsupportedDiscriminant(Seq<char>),
    Layout(LayoutErrorV),
}

impl View for DeriveError {
    type V = DeriveErrorV;

    open spec fn view(&self) -> DeriveErrorV {
        match self {
            DeriveError::Union => DeriveErrorV::Union,
            DeriveError::AttributeFormat => DeriveErrorV::AttributeFormat,
            DeriveError::UnknownArgument => DeriveErrorV::UnknownArgument,
            DeriveError::UnknownRepr(s) => DeriveErrorV::UnknownRepr(s@),
            DeriveError::ExpectedIdent => DeriveErrorV::ExpectedIdent,
            DeriveError::MissingRepr => DeriveErrorV::MissingRepr,
            DeriveError::NonUnitVariant(s) => DeriveErrorV::NonUnitVariant(s@),
            DeriveError::DiscriminantRequired(s) => DeriveErrorV::DiscriminantRequired(s@),
            DeriveError::CannotParseDiscriminant(s) => DeriveErrorV::CannotParseDiscriminant(s@),
            DeriveError::UnsupportedDiscriminant(s) => DeriveErrorV::UnsupportedDiscriminant(s@),
            DeriveError::Layout(e) => DeriveErrorV::Layout(e@),
        }
    }
}

/// The representation named `name`, one of the twelve integer type names.
pub open spec fn repr_named(name: Seq<char>) -> Option<Repr> {
    if name == "u8"@ {
        Some(Repr::U8)
    } else if name == "u16"@ {
        Some(Repr::U16)
    } else if name == "u32"@ {
        Some(Repr::U32)
    } else if name == "u64"@ {
        Some(Repr::U64)
    } else if name == "u128"@ {
        Some(Repr::U128)
    } else if name == "usize"@ {
        Some(Repr::Usize)
    } else if name == "i8"@ {
        Some(Repr::I8)
    } else if name == "i16"@ {
        Some(Repr::I16)
    } else if name == "i32"@ {
        Some(Repr::I32)
    } else if name == "i64"@ {
        Some(Repr::I64)
    } else if name == "i128"@ {
        Some(Repr::I128)
    } else if name == "isize"@ {
        Some(Repr::Isize)
    } else {
        None
    }
}

/// The name of the integer type of a representation.
pub open spec fn repr_name(r: Repr) -> Seq<char> {
    match r {
        Repr::U8 => "u8"@,
        Repr::U16 => "u16"@,
        Repr::U32 => "u32"@,
        Repr::U64 => "u64"@,
        Repr::U128 => "u128"@,
        Repr::Usize => "usize"@,
        Repr::I8 => "i8"@,
        Repr::I16 => "i16"@,
        Repr::I32 => "i32"@,
        Repr::I64 => "i64"@,
        Repr::I128 => "i128"@,
        Repr::Isize => "isize"@,
    }
}

impl Repr {
    /// The largest value of the integer type.
    pub fn max_value(&self) -> (r: u128)
        ensures
            r as nat == repr_max(*self),
    {
        match self {
            Repr::U8 => 0xff,
            Repr::U16 => 0xffff,
            Repr::U32 => 0xffff_ffff,
            Repr::U64 => 0xffff_ffff_ffff_ffff,
            Repr::U128 => 0xffff_ffff_ffff_ffff_ffff_ffff_ffff_ffff,
            Repr::Usize => usize::MAX as u128,
            Repr::I8 => 0x7f,
            Repr::I16 => 0x7fff,
            Repr::I32 => 0x7fff_ffff,
            Repr::I64 => 0x7fff_ffff_ffff_ffff,
            Repr::I128 => 0x7fff_ffff_ffff_ffff_ffff_ffff_ffff_ffff,
            Repr::Isize => isize::MAX as u128,
        }
    }

    /// The representation named `name`; any other name is refused, naming it.
    pub fn from_name(name: &String) -> (r: Result<Repr, DeriveError>)
        ensures
            match r {
                Ok(x) => repr_named(name@) == Some(x),
                Err(e) => repr_named(name@) is None && e@ == DeriveErrorV::UnknownRepr(name@),
            },
    {
        if is_key(name, "u8") {
            Ok(Repr::U8)
        } else if is_key(name, "u16") {
            Ok(Repr::U16)
        } else if is_key(name, "u32") {
            Ok(Repr::U32)
        } else if is_key(name, "u64") {
            Ok(Repr::U64)
        } else if is_key(name, "u128") {
            Ok(Repr::U128)
        } else if is_key(name, "usize") {
            Ok(Repr::Usize)
        } else if is_key(name, "i8") {
            Ok(Repr::I8)
        } else if is_key(name, "i16") {
            Ok(Repr::I16)
        } else if is_key(name, "i32") {
            Ok(Repr::I32)
        } else if is_key(name, "i64") {
            Ok(Repr::I64)
        } else if is_key(name, "i128") {
            Ok(Repr::I128)
        } else if is_key(name, "isize") {
            Ok(Repr::Isize)
        } else {
            Err(DeriveError::UnknownRepr(name.clone()))
        }
    }

    /// The name of the integer type.
    pub fn int_name(&self) -> (r: &'static str)
        ensures
            r@ == repr_name(*self),
    {
        match self {
            Repr::U8 => "u8",
            Repr::U16 => "u16",
            Repr::U32 => "u32",
            Repr::U64 => "u64",
            Repr::U128 => "u128",
            Repr::Usize => "usize",
            Repr::I8 => "i8",
            Repr::I16 => "i16",
            Repr::I32 => "i32",
            Repr::I64 => "i64",
            Repr::I128 => "i128",
            Repr::Isize => "isize",
        }
    }

}

/// Whether the text `s` reads as one Rust identifier, as syn reads it.
pub uninterp spec fn reads_as_ident(s: Seq<char>) -> bool;

/// Relies on `syn::parse_str::<syn::Ident>`: whether the text parses as one identifier. The
/// answer depends on the text alone.
#[verifier::external_body]
fn parses_as_ident(s: &str) -> (r: bool)
    ensures
        r == reads_as_ident(s@),
{
    syn::parse_str::<syn::Ident>(s).is_ok()
}

/// Whether `s` reads as one Rust identifier.
pub fn is_identifier(s: &String) -> (r: bool)
    ensures
        r == reads_as_ident(s@),
{
    parses_as_ident(s.as_str())
}

/// Configuration given by the container's `cuisiner` attributes.
#[derive(Debug, PartialEq, Eq)]
pub struct DeriveConfig {
    pub repr: Option<Repr>,
    /// The arguments of `assert(...)`, to check the layout of the raw form with.
    pub container_assert_layout: Option<Vec<Meta>>,
}

/// The configuration read so far: representation and layout arguments.
pub type ConfigV = (Option<Repr>, Option<Seq<Meta>>);

/// Whether an attribute path is the single identifier `cuisiner`.
pub open spec fn is_config_path(path: Seq<String>) -> bool {
    single_ident(path) == Some("cuisiner"@)
}

/// One argument of a `cuisiner` attribute: `repr = <integer type>` or `assert(...)`. The
/// representation must read as an identifier and name one of the integer types.
pub open spec fn config_meta_step() -> spec_fn(ConfigV, Meta) -> Result<ConfigV, DeriveErrorV> {
    |st: ConfigV, m: Meta|
        match m {
            Meta::NameValue { path, value } => if single_ident(path@) == Some("repr"@) {
                match value {
                    MetaValue::Expr(e) => if !reads_as_ident(e@) {
                        Err(DeriveErrorV::ExpectedIdent)
                    } else {
                        match repr_named(e@) {
                            Some(r) => Ok((Some(r), st.1)),
                            None => Err(DeriveErrorV::UnknownRepr(e@)),
                        }
                    },
                    _ => Err(DeriveErrorV::ExpectedIdent),
                }
            } else {
                Err(DeriveErrorV::UnknownArgument)
            },
            Meta::List { path, nested } => if single_ident(path@) == Some("assert"@) {
                Ok((st.0, Some(nested@)))
            } else {
                Err(DeriveErrorV::UnknownArgument)
            },
            Meta::Path(_) => Err(DeriveErrorV::UnknownArgument),
        }
}

/// One container attribute: a `cuisiner` attribute in list form is read, others are skipped.
pub open spec fn config_attr_step() -> spec_fn(ConfigV, Attribute) -> Result<ConfigV, DeriveErrorV> {
    |st: ConfigV, a: Attribute|
        if !is_config_path(a.path@) {
            Ok(st)
        } else {
            match a.args {
                Some(ms) => fold_state(ms@, st, config_meta_step()),
                None => Err(DeriveErrorV::AttributeFormat),
            }
        }
}

/// The configuration of a container's attributes.
pub open spec fn config_of(attrs: Seq<Attribute>) -> Result<ConfigV, DeriveErrorV> {
    fold_state(attrs, (None, None), config_attr_step())
}

impl DeriveConfig {
    pub open spec fn view_config(&self) -> ConfigV {
        (
            self.repr,
            match self.container_assert_layout {
                Some(v) => Some(v@),
                None => None,
            },
        )
    }

    fn read_metas(&mut self, ms: Vec<Meta>) -> (r: Result<(), DeriveError>)
        ensures
            match r {
                Ok(_) => fold_state(ms@, old(self).view_config(), config_meta_step()) == Ok::<ConfigV, DeriveErrorV>(final(self).view_config()),
                Err(e) => fold_state(ms@, old(self).view_config(), config_meta_step()) == Err::<ConfigV, DeriveErrorV>(e@),
            },
    {
        let ghost all = ms@;
        let ghost f = config_meta_step();
        let ghost init = self.view_config();
        let mut rest = ms;
        let n = rest.len();
        let mut i: usize = 0;
        proof {
            lemma_state_ends(all, init, f);
        }
        while i < n
            invariant
                i <= n,
                n == all.len(),
                all == ms@,
                rest@ == all.subrange(i as int, n as int),
                f == config_meta_step(),
                init == old(self).view_config(),
                fold_state(all.subrange(0, i as int), init, f) == Ok::<ConfigV, DeriveErrorV>(self.view_config()),
            decreases n - i,
        {
            proof {
                lemma_state_step(all, i as int, init, f);
            }
            let m = rest.remove(0);
            assert(m == all[i as int]);
            let step: Result<(), DeriveError> = match m {
                Meta::NameValue { path, value } => {
                    let is_repr = match require_ident(&path) {
                        Some(k) => is_key(&k, "repr"),
                        None => false,
                    };
                    if is_repr {
                        match value {
                            MetaValue::Expr(e) => if !is_identifier(&e) {
                                Err(DeriveError::ExpectedIdent)
                            } else {
                                match Repr::from_name(&e) {
                                    Ok(r) => {
                                        self.repr = Some(r);
                                        Ok(())
                                    },
                                    Err(x) => Err(x),
                                }
                            },
                            _ => Err(DeriveError::ExpectedIdent),
                        }
                    } else {
                        Err(DeriveError::UnknownArgument)
                    }
                },
                Meta::List { path, nested } => {
                    let is_assert = match require_ident(&path) {
                        Some(k) => is_key(&k, "assert"),
                        None => false,
                    };
                    if is_assert {
                        self.container_assert_layout = Some(nested);
                        Ok(())
                    } else {
                        Err(DeriveError::UnknownArgument)
                    }
                },
                Meta::Path(_) => Err(DeriveError::UnknownArgument),
            };
            if let Err(e) = step {
                proof {
                    lemma_state_error_stays(all, i + 1, n as int, init, f);
                    lemma_state_ends(all, init, f);
                }
                return Err(e);
            }
            i = i + 1;
        }
        proof {
            lemma_state_ends(all, init, f);
        }
        Ok(())
    }

    /// Read the configuration from a container's attributes: every `cuisiner` attribute must be
    /// in list form and hold only `repr = <integer type>` and `assert(...)`.
    pub fn from_attrs(attrs: Vec<Attribute>) -> (r: Result<DeriveConfig, DeriveError>)
        ensures
            match r {
                Ok(c) => config_of(attrs@) == Ok::<ConfigV, DeriveErrorV>(c.view_config()),
                Err(e) => config_of(attrs@) == Err::<ConfigV, DeriveErrorV>(e@),
            },
    {
        let ghost all = attrs@;
        let ghost f = config_attr_step();
        let ghost init: ConfigV = (None, None);
        let mut config = DeriveConfig { repr: None, container_assert_layout: None };
        let mut rest = attrs;
        let n = rest.len();
        let mut i: usize = 0;
        proof {
            lemma_state_ends(all, init, f);
        }
        while i < n
            invariant
                i <= n,
                n == all.len(),
                all == attrs@,
                rest@ == all.subrange(i as int, n as int),
                f == config_attr_step(),
                init == (None::<Repr>, None::<Seq<Meta>>),
                fold_state(all.subrange(0, i as int), init, f) == Ok::<ConfigV, DeriveErrorV>(config.view_config()),
            decreases n - i,
        {
            proof {
                lemma_state_step(all, i as int, init, f);
            }
            let a = rest.remove(0);
            assert(a == all[i as int]);
            let is_config = match require_ident(&a.path) {
                Some(k) => is_key(&k, "cuisiner"),
                None => false,
            };
            if is_config {
                let step = match a.args {
                    Some(ms) => config.read_metas(ms),
                    None => Err(DeriveError::AttributeFormat),
                };
                if let Err(e) = step {
                    proof {
                        lemma_state_error_stays(all, i + 1, n as int, init, f);
                        lemma_state_ends(all, init, f);
                    }
                    return Err(e);
                }
            }
            i = i + 1;
        }
        proof {
            lemma_state_ends(all, init, f);
        }
        Ok(config)
    }
}

/// A field as declared: its name (empty in a tuple struct), type and attributes.
#[derive(Debug, PartialEq, Eq)]
pub struct InputField {
    pub ident: String,
    pub ty: TypeExpr,
    pub attrs: Vec<Attribute>,
}

/// The fields of a struct or variant as declared.
#[derive(Debug, PartialEq, Eq)]
pub enum InputFields {
    Named(Vec<InputField>),
    Unnamed(Vec<InputField>),
    Unit,
}

/// A discriminant expression of an enum variant.
#[derive(Debug, PartialEq, Eq)]
pub enum Discriminant {
    /// An integer literal, by its base-10 digits.
    Int(String),
    /// A byte literal.
    Byte(u8),
    /// Another literal, as source text.
    OtherLit(String),
    /// An expression that is no literal, as source text.
    Expr(String),
}

/// An enum variant as declared.
#[derive(Debug, PartialEq, Eq)]
pub struct InputVariant {
    pub ident: String,
    pub fields: InputFields,
    pub discriminant: Option<Discriminant>,
}

/// The body of a declaration.
#[derive(Debug, PartialEq, Eq)]
pub enum Data {
    Struct(InputFields),
    Enum(Vec<InputVariant>),
    Union,
}

/// A declaration that a codec is asked for.
#[derive(Debug, PartialEq, Eq)]
pub struct DeriveInput {
    pub attrs: Vec<Attribute>,
    /// Visibility, as source text.
    pub vis: String,
    pub ident: String,
    pub generics: Vec<GenericParam>,
    pub data: Data,
}

/// A declaration that can get a codec: a struct or an enum.
#[derive(Debug, PartialEq, Eq)]
pub enum Ast {
    Struct { attrs: Vec<Attribute>, vis: String, ident: String, generics: Vec<GenericParam>, fields: InputFields },
    Enum { attrs: Vec<Attribute>, vis: String, ident: String, generics: Vec<GenericParam>, variants: Vec<InputVariant> },
}

/// Take a struct or an enum out of a declaration; a union is refused.
pub fn parse(input: DeriveInput) -> (r: Result<Ast, DeriveError>)
    ensures
        input.data is Union <==> r is Err,
        r is Err ==> r->Err_0@ == DeriveErrorV::Union,
        match r {
            Ok(Ast::Struct { attrs, vis, ident, generics, fields }) => input.data == Data::Struct(fields)
                && attrs == input.attrs && vis == input.vis && ident == input.ident && generics == input.generics,
            Ok(Ast::Enum { attrs, vis, ident, generics, variants }) => input.data == Data::Enum(variants)
                && attrs == input.attrs && vis == input.vis && ident == input.ident && generics == input.generics,
            Err(_) => true,
        },
{
    let DeriveInput { attrs, vis, ident, generics, data } = input;
    match data {
        Data::Struct(fields) => Ok(Ast::Struct { attrs, vis, ident, generics, fields }),
        Data::Enum(variants) => Ok(Ast::Enum { attrs, vis, ident, generics, variants }),
        Data::Union => Err(DeriveError::Union),
    }
}

impl Ast {
    /// The attributes of the declaration.
    pub fn attrs(&self) -> (r: &Vec<Attribute>)
        ensures
            match self {
                Ast::Struct { attrs, .. } => r == attrs,
                Ast::Enum { attrs, .. } => r == attrs,
            },
    {
        match self {
            Ast::Struct { attrs, .. } => attrs,
            Ast::Enum { attrs, .. } => attrs,
        }
    }
}

/// One argument of a field's `cuisiner` attribute: only `assert(...)` is known.
pub open spec fn field_meta_step() -> spec_fn(Option<Seq<Meta>>, Meta) -> Result<Option<Seq<Meta>>, DeriveErrorV> {
    |st: Option<Seq<Meta>>, m: Meta|
        match m {
            Meta::List { path, nested } => if single_ident(path@) == Some("assert"@) {
                Ok(Some(nested@))
            } else {
                Err(DeriveErrorV::UnknownArgument)
            },
            _ => Err(DeriveErrorV::UnknownArgument),
        }
}

/// One attribute of a field.
pub open spec fn field_attr_step() -> spec_fn(Option<Seq<Meta>>, Attribute) -> Result<Option<Seq<Meta>>, DeriveErrorV> {
    |st: Option<Seq<Meta>>, a: Attribute|
        if !is_config_path(a.path@) {
            Ok(st)
        } else {
            match a.args {
                Some(ms) => fold_state(ms@, st, field_meta_step()),
                None => Err(DeriveErrorV::AttributeFormat),
            }
        }
}

/// The layout arguments that a field's attributes ask its raw form to be checked with.
pub open spec fn field_assert_of(attrs: Seq<Attribute>) -> Result<Option<Seq<Meta>>, DeriveErrorV> {
    fold_state(attrs, None, field_attr_step())
}

/// A field with its layout arguments.
#[derive(Debug, PartialEq, Eq)]
pub struct Field {
    pub ident: String,
    pub ty: TypeExpr,
    pub assert_layout: Option<Vec<Meta>>,
}

/// The fields of a struct with their layout arguments, in their shape.
#[derive(Debug, PartialEq, Eq)]
pub enum Fields {
    Named(Vec<Field>),
    Unnamed(Vec<Field>),
    Unit,
}

pub open spec fn opt_view(o: Option<Vec<Meta>>) -> Option<Seq<Meta>> {
    match o {
        Some(v) => Some(v@),
        None => None,
    }
}

/// `out` is `input` with each field's attributes read into its layout arguments.
pub open spec fn fields_read(input: Seq<InputField>, out: Seq<Field>) -> bool {
    &&& out.len() == input.len()
    &&& forall|i: int| 0 <= i < input.len() ==> {
        &&& (#[trigger] out[i]).ident == input[i].ident
        &&& out[i].ty == input[i].ty
        &&& field_assert_of(input[i].attrs@) == Ok::<Option<Seq<Meta>>, DeriveErrorV>(opt_view(out[i].assert_layout))
    }
}

/// Whether one field's attributes are read without error, as a step of a fold.
pub open spec fn field_check() -> spec_fn(InputField) -> Result<Seq<int>, DeriveErrorV> {
    |f: InputField|
        match field_assert_of(f.attrs@) {
            Ok(_) => Ok::<Seq<int>, DeriveErrorV>(Seq::empty()),
            Err(e) => Err(e),
        }
}

/// The first error among the fields' attributes, if one fails.
pub open spec fn fields_error(input: Seq<InputField>) -> Option<DeriveErrorV> {
    match fold_results(input, field_check()) {
        Ok(_) => None,
        Err(e) => Some(e),
    }
}

fn read_field_metas(ms: Vec<Meta>, cur: Option<Vec<Meta>>) -> (r: Result<Option<Vec<Meta>>, DeriveError>)
    ensures
        match r {
            Ok(x) => fold_state(ms@, opt_view(cur), field_meta_step()) == Ok::<Option<Seq<Meta>>, DeriveErrorV>(opt_view(x)),
            Err(e) => fold_state(ms@, opt_view(cur), field_meta_step()) == Err::<Option<Seq<Meta>>, DeriveErrorV>(e@),
        },
{
    let ghost all = ms@;
    let ghost f = field_meta_step();
    let ghost init = opt_view(cur);
    let mut st = cur;
    let mut rest = ms;
    let n = rest.len();
    let mut i: usize = 0;
    proof {
        lemma_state_ends(all, init, f);
    }
    while i < n
        invariant
            i <= n,
            n == all.len(),
            all == ms@,
            rest@ == all.subrange(i as int, n as int),
            f == field_meta_step(),
            init == opt_view(cur),
            fold_state(all.subrange(0, i as int), init, f) == Ok::<Option<Seq<Meta>>, DeriveErrorV>(opt_view(st)),
        decreases n - i,
    {
        proof {
            lemma_state_step(all, i as int, init, f);
        }
        let m = rest.remove(0);
        assert(m == all[i as int]);
        let ok = match m {
            Meta::List { path, nested } => {
                let is_assert = match require_ident(&path) {
                    Some(k) => is_key(&k, "assert"),
                    None => false,
                };
                if is_assert {
                    st = Some(nested);
                    true
                } else {
                    false
                }
            },
            _ => false,
        };
        if !ok {
            proof {
                lemma_state_error_stays(all, i + 1, n as int, init, f);
                lemma_state_ends(all, init, f);
            }
            return Err(DeriveError::UnknownArgument);
        }
        i = i + 1;
    }
    proof {
        lemma_state_ends(all, init, f);
    }
    Ok(st)
}

fn read_field_attrs(attrs: Vec<Attribute>) -> (r: Result<Option<Vec<Meta>>, DeriveError>)
    ensures
        match r {
            Ok(x) => field_assert_of(attrs@) == Ok::<Option<Seq<Meta>>, DeriveErrorV>(opt_view(x)),
            Err(e) => field_assert_of(attrs@) == Err::<Option<Seq<Meta>>, DeriveErrorV>(e@),
        },
{
    let ghost all = attrs@;
    let ghost f = field_attr_step();
    let ghost init: Option<Seq<Meta>> = None;
    let mut st: Option<Vec<Meta>> = None;
    let mut rest = attrs;
    let n = rest.len();
    let mut i: usize = 0;
    proof {
        lemma_state_ends(all, init, f);
    }
    while i < n
        invariant
            i <= n,
            n == all.len(),
            all == attrs@,
            rest@ == all.subrange(i as int, n as int),
            f == field_attr_step(),
            init == None::<Seq<Meta>>,
            fold_state(all.subrange(0, i as int), init, f) == Ok::<Option<Seq<Meta>>, DeriveErrorV>(opt_view(st)),
        decreases n - i,
    {
        proof {
            lemma_state_step(all, i as int, init, f);
        }
        let a = rest.remove(0);
        assert(a == all[i as int]);
        let is_config = match require_ident(&a.path) {
            Some(k) => is_key(&k, "cuisiner"),
            None => false,
        };
        if is_config {
            let step = match a.args {
                Some(ms) => read_field_metas(ms, st),
                None => Err(DeriveError::AttributeFormat),
            };
            match step {
                Ok(x) => {
                    st = x;
                },
                Err(e) => {
                    proof {
                        lemma_state_error_stays(all, i + 1, n as int, init, f);
                        lemma_state_ends(all, init, f);
                    }
                    return Err(e);
                },
            }
        }
        i = i + 1;
    }
    proof {
        lemma_state_ends(all, init, f);
    }
    Ok(st)
}

fn read_fields(input: Vec<InputField>) -> (r: Result<Vec<Field>, DeriveError>)
    ensures
        match r {
            Ok(out) => fields_error(input@) is None && fields_read(input@, out@),
            Err(e) => fields_error(input@) == Some(e@),
        },
{
    let ghost all = input@;
    let ghost g = field_check();
    let mut rest = input;
    let mut out: Vec<Field> = Vec::new();
    let n = rest.len();
    let mut i: usize = 0;
    proof {
        lemma_fold_empty(all, g);
    }
    while i < n
        invariant
            i <= n,
            n == all.len(),
            all == input@,
            rest@ == all.subrange(i as int, n as int),
            g == field_check(),
            fold_results(all.subrange(0, i as int), g) is Ok,
            fields_read(all.subrange(0, i as int), out@),
        decreases n - i,
    {
        proof {
            lemma_fold_step(all, i as int, g);
        }
        let fld = rest.remove(0);
        assert(fld == all[i as int]);
        let InputField { ident, ty, attrs } = fld;
        match read_field_attrs(attrs) {
            Ok(a) => {
                out.push(Field { ident, ty, assert_layout: a });
                assert(fold_results(all.subrange(0, i + 1), g) is Ok);
                assert(fields_read(all.subrange(0, i + 1), out@)) by {
                    assert forall|k: int| 0 <= k < i + 1 implies {
                        &&& (#[trigger] out@[k]).ident == all.subrange(0, i + 1)[k].ident
                        &&& out@[k].ty == all.subrange(0, i + 1)[k].ty
                        &&& field_assert_of(all.subrange(0, i + 1)[k].attrs@) == Ok::<Option<Seq<Meta>>, DeriveErrorV>(opt_view(out@[k].assert_layout))
                    } by {
                        if k < i {
                            assert(all.subrange(0, i + 1)[k] == all.subrange(0, i as int)[k]);
                        }
                    }
                }
            },
            Err(e) => {
                proof {
                    lemma_fold_error_stays(all, i + 1, n as int, g);
                    lemma_fold_full(all, g);
                }
                return Err(e);
            },
        }
        i = i + 1;
    }
    proof {
        lemma_fold_full(all, g);
        assert(all.subrange(0, n as int) =~= all);
    }
    Ok(out)
}

/// The layout arguments of a struct's fields, and the first error among them.
pub open spec fn shape_read(input: InputFields, out: Fields) -> bool {
    match (input, out) {
        (InputFields::Named(a), Fields::Named(b)) => fields_read(a@, b@),
        (InputFields::Unnamed(a), Fields::Unnamed(b)) => fields_read(a@, b@),
        (InputFields::Unit, Fields::Unit) => true,
        _ => false,
    }
}

pub open spec fn shape_error(input: InputFields) -> Option<DeriveErrorV> {
    match input {
        InputFields::Named(a) => fields_error(a@),
        InputFields::Unnamed(a) => fields_error(a@),
        InputFields::Unit => None,
    }
}

impl Fields {
    /// Read each field's `cuisiner` attributes into its layout arguments, keeping the shape.
    pub fn from_input(input: InputFields) -> (r: Result<Fields, DeriveError>)
        ensures
            match r {
                Ok(f) => shape_error(input) is None && shape_read(input, f),
                Err(e) => shape_error(input) == Some(e@),
            },
    {
        match input {
            InputFields::Named(v) => Ok(Fields::Named(read_fields(v)?)),
            InputFields::Unnamed(v) => Ok(Fields::Unnamed(read_fields(v)?)),
            InputFields::Unit => Ok(Fields::Unit),
        }
    }
}

/// Whether every character of `s` is a decimal digit.
pub open spec fn all_digits(s: Seq<char>) -> bool {
    forall|i: int| 0 <= i < s.len() ==> '0' <= #[trigger] s[i] && s[i] <= '9'
}

/// The number that the decimal digits `s` write.
pub open spec fn digits_value(s: Seq<char>) -> nat
    decreases s.len(),
{
    if s.len() == 0 {
        0
    } else {
        digits_value(s.drop_last()) * 10 + ((s.last() as int - '0' as int) as nat)
    }
}

/// The value of a discriminant written with the digits `s`, where it fits a `usize`.
pub open spec fn discriminant_value(s: Seq<char>) -> Option<nat> {
    if s.len() > 0 && all_digits(s) && digits_value(s) <= usize::MAX {
        Some(digits_value(s))
    } else {
        None
    }
}

proof fn lemma_digits_prefix_le(s: Seq<char>, i: int)
    requires
        0 <= i <= s.len(),
        all_digits(s),
    ensures
        digits_value(s.subrange(0, i)) <= digits_value(s),
    decreases s.len(),
{
    if i < s.len() {
        let t = s.drop_last();
        assert(all_digits(t)) by {
            assert forall|j: int| 0 <= j < t.len() implies '0' <= #[trigger] t[j] && t[j] <= '9' by {
                assert(t[j] == s[j]);
            }
        }
        lemma_digits_prefix_le(t, i);
        assert(t.subrange(0, i) =~= s.subrange(0, i));
    } else {
        assert(s.subrange(0, i) =~= s);
    }
}

/// The value of a discriminant written with the decimal digits `s`, where it fits a `usize`.
pub fn parse_discriminant(s: &String) -> (r: Option<usize>)
    ensures
        match r {
            Some(v) => discriminant_value(s@) == Some(v as nat),
            None => discriminant_value(s@) is None,
        },
{
    let t = s.as_str();
    let n = t.unicode_len();
    if n == 0 {
        return None;
    }
    let mut acc: usize = 0;
    let mut i: usize = 0;
    assert(s@.subrange(0, 0).len() == 0);
    while i < n
        invariant
            i <= n,
            n == s@.len(),
            t@ == s@,
            acc as nat == digits_value(s@.subrange(0, i as int)),
            forall|j: int| 0 <= j < i ==> '0' <= #[trigger] s@[j] && s@[j] <= '9',
        decreases n - i,
    {
        let c = t.get_char(i);
        if !('0' <= c && c <= '9') {
            return None;
        }
        let d = (c as u32 - '0' as u32) as usize;
        assert(s@.subrange(0, i + 1).drop_last() =~= s@.subrange(0, i as int));
        if acc > (usize::MAX - d) / 10 {
            proof {
                assert(acc * 10 + d > usize::MAX) by (nonlinear_arith)
                    requires
                        acc > (usize::MAX - d) / 10,
                        d <= 9,
                ;
                if all_digits(s@) {
                    lemma_digits_prefix_le(s@, i + 1);
                }
            }
            return None;
        }
        proof {
            assert(acc * 10 + d <= usize::MAX) by (nonlinear_arith)
                requires
                    acc <= (usize::MAX - d) / 10,
                    d <= 9,
            ;
        }
        acc = acc * 10 + d;
        i = i + 1;
    }
    assert(s@.subrange(0, n as int) =~= s@);
    Some(acc)
}

/// The largest value of the integer type of a representation.
pub open spec fn repr_max(r: Repr) -> nat {
    match r {
        Repr::U8 => 0xff,
        Repr::U16 => 0xffff,
        Repr::U32 => 0xffff_ffff,
        Repr::U64 => 0xffff_ffff_ffff_ffff,
        Repr::U128 => 0xffff_ffff_ffff_ffff_ffff_ffff_ffff_ffff,
        Repr::Usize => usize::MAX as nat,
        Repr::I8 => 0x7f,
        Repr::I16 => 0x7fff,
        Repr::I32 => 0x7fff_ffff,
        Repr::I64 => 0x7fff_ffff_ffff_ffff,
        Repr::I128 => 0x7fff_ffff_ffff_ffff_ffff_ffff_ffff_ffff,
        Repr::Isize => isize::MAX as nat,
    }
}

/// The value of a discriminant literal, where it fits the representation: a `usize` digit
/// string or a byte, no larger than the representation's largest value.
pub open spec fn literal_value(d: Discriminant, repr: Repr) -> Option<nat> {
    let x = match d {
        Discriminant::Int(s) => discriminant_value(s@),
        Discriminant::Byte(b) => Some(b as nat),
        _ => None,
    };
    match x {
        Some(v) => if v <= repr_max(repr) {
            Some(v)
        } else {
            None
        },
        None => None,
    }
}

/// The value of a variant's discriminant. A variant must be a unit variant with an integer or
/// byte literal discriminant that fits the representation `repr`.
pub open spec fn variant_value(v: InputVariant, repr: Repr) -> Result<nat, DeriveErrorV> {
    if !(v.fields is Unit) {
        Err(DeriveErrorV::NonUnitVariant(v.ident@))
    } else {
        match v.discriminant {
            None => Err(DeriveErrorV::DiscriminantRequired(v.ident@)),
            Some(Discriminant::Expr(_)) => Err(DeriveErrorV::DiscriminantRequired(v.ident@)),
            Some(Discriminant::OtherLit(_)) => Err(DeriveErrorV::UnsupportedDiscriminant(v.ident@)),
            Some(d) => match literal_value(d, repr) {
                Some(x) => Ok(x),
                None => Err(DeriveErrorV::CannotParseDiscriminant(v.ident@)),
            },
        }
    }
}

pub open spec fn variant_step(repr: Repr) -> spec_fn(InputVariant) -> Result<Seq<(Seq<char>, nat)>, DeriveErrorV> {
    |v: InputVariant|
        match variant_value(v, repr) {
            Ok(x) => Ok(seq![(v.ident@, x)]),
            Err(e) => Err(e),
        }
}

/// The variants with their discriminants, in order; the first refused variant decides the error.
pub open spec fn variants_of(vs: Seq<InputVariant>, repr: Repr) -> Result<Seq<(Seq<char>, nat)>, DeriveErrorV> {
    fold_results(vs, variant_step(repr))
}

/// The view of a list of variants with their discriminants.
pub open spec fn variants_view(v: Seq<(String, usize)>) -> Seq<(Seq<char>, nat)> {
    v.map_values(|e: (String, usize)| (e.0@, e.1 as nat))
}

fn variant_discriminant(v: &InputVariant, repr: Repr) -> (r: Result<usize, DeriveError>)
    ensures
        match r {
            Ok(x) => variant_value(*v, repr) == Ok::<nat, DeriveErrorV>(x as nat),
            Err(e) => variant_value(*v, repr) == Err::<nat, DeriveErrorV>(e@),
        },
{
    match &v.fields {
        InputFields::Unit => {},
        _ => return Err(DeriveError::NonUnitVariant(v.ident.clone())),
    }
    match &v.discriminant {
        None => Err(DeriveError::DiscriminantRequired(v.ident.clone())),
        Some(Discriminant::Expr(_)) => Err(DeriveError::DiscriminantRequired(v.ident.clone())),
        Some(Discriminant::OtherLit(_)) => Err(DeriveError::UnsupportedDiscriminant(v.ident.clone())),
        Some(d) => {
            let x = match d {
                Discriminant::Int(s) => parse_discriminant(s),
                Discriminant::Byte(b) => Some(*b as usize),
                _ => None,
            };
            match x {
                Some(x) => if (x as u128) <= repr.max_value() {
                    Ok(x)
                } else {
                    Err(DeriveError::CannotParseDiscriminant(v.ident.clone()))
                },
                None => Err(DeriveError::CannotParseDiscriminant(v.ident.clone())),
            }
        },
    }
}

fn read_variants(vs: &Vec<InputVariant>, repr: Repr) -> (r: Result<Vec<(String, usize)>, DeriveError>)
    ensures
        match r {
            Ok(out) => variants_of(vs@, repr) == Ok::<Seq<(Seq<char>, nat)>, DeriveErrorV>(variants_view(out@)),
            Err(e) => variants_of(vs@, repr) == Err::<Seq<(Seq<char>, nat)>, DeriveErrorV>(e@),
        },
{
    let ghost g = variant_step(repr);
    let mut out: Vec<(String, usize)> = Vec::new();
    let mut i: usize = 0;
    proof {
        lemma_fold_empty(vs@, g);
        assert(variants_view(out@) =~= Seq::<(Seq<char>, nat)>::empty());
    }
    while i < vs.len()
        invariant
            i <= vs@.len(),
            g == variant_step(repr),
            fold_results(vs@.subrange(0, i as int), g) == Ok::<Seq<(Seq<char>, nat)>, DeriveErrorV>(variants_view(out@)),
        decreases vs@.len() - i,
    {
        proof {
            lemma_fold_step(vs@, i as int, g);
        }
        match variant_discriminant(&vs[i], repr) {
            Ok(x) => {
                let ghost before = out@;
                out.push((vs[i].ident.clone(), x));
                assert(variants_view(out@) =~= variants_view(before) + seq![(vs@[i as int].ident@, x as nat)]);
            },
            Err(e) => {
                proof {
                    lemma_fold_error_stays(vs@, i + 1, vs@.len() as int, g);
                    lemma_fold_full(vs@, g);
                }
                return Err(e);
            },
        }
        i = i + 1;
    }
    proof {
        lemma_fold_full(vs@, g);
    }
    Ok(out)
}

/// What the codec is built from.
#[derive(Debug, PartialEq, Eq)]
pub struct DeriveModel {
    pub name: String,
    /// Visibility, as source text.
    pub visibility: String,
    pub item: DeriveModelItem,
}

/// The part of the model particular to structs or enums.
#[derive(Debug, PartialEq, Eq)]
pub enum DeriveModelItem {
    Struct { fields: Fields, generics: Vec<GenericParam>, container_assert_layout: Option<Vec<Meta>> },
    Enum { variants: Vec<(String, usize)>, repr: Repr },
}

/// Build the model of a declaration: its configuration, then for a struct its fields' layout
/// arguments, for an enum its representation and each variant's discriminant.
pub fn analyse(ast: Ast) -> (r: Result<DeriveModel, DeriveError>)
    ensures
        match ast {
            Ast::Struct { attrs, vis, ident, generics, fields } => match config_of(attrs@) {
                Err(e) => r is Err && r->Err_0@ == e,
                Ok(c) => match shape_error(fields) {
                    Some(e) => r is Err && r->Err_0@ == e,
                    None => r is Ok && r->Ok_0.name == ident && r->Ok_0.visibility == vis && match r->Ok_0.item {
                        DeriveModelItem::Struct { fields: f, generics: g, container_assert_layout: a } => shape_read(fields, f)
                            && g == generics && opt_view(a) == c.1,
                        _ => false,
                    },
                },
            },
            Ast::Enum { attrs, vis, ident, variants, .. } => match config_of(attrs@) {
                Err(e) => r is Err && r->Err_0@ == e,
                Ok(c) => match c.0 {
                    None => r is Err && r->Err_0@ == DeriveErrorV::MissingRepr,
                    Some(repr) => match variants_of(variants@, repr) {
                        Err(e) => r is Err && r->Err_0@ == e,
                        Ok(vs) => r is Ok && r->Ok_0.name == ident && r->Ok_0.visibility == vis && match r->Ok_0.item {
                            DeriveModelItem::Enum { variants: v, repr: x } => variants_view(v@) == vs && x == repr,
                            _ => false,
                        },
                    },
                },
            },
        },
{
    match ast {
        Ast::Struct { attrs, vis, ident, generics, fields } => {
            let config = DeriveConfig::from_attrs(attrs)?;
            let fields = Fields::from_input(fields)?;
            Ok(DeriveModel {
                name: ident,
                visibility: vis,
                item: DeriveModelItem::Struct { fields, generics, container_assert_layout: config.container_assert_layout },
            })
        },
        Ast::Enum { attrs, vis, ident, variants, .. } => {
            let config = DeriveConfig::from_attrs(attrs)?;
            let repr = match config.repr {
                Some(r) => r,
                None => return Err(DeriveError::MissingRepr),
            };
            let values = read_variants(&variants, repr)?;
            Ok(DeriveModel { name: ident, visibility: vis, item: DeriveModelItem::Enum { variants: values, repr } })
        },
    }
}

/// A variant without a literal discriminant makes the variants refused, whatever the other
/// variants hold.
pub proof fn lemma_missing_discriminant_refused(vs: Seq<InputVariant>, repr: Repr, k: int)
    requires
        0 <= k < vs.len(),
        vs[k].fields is Unit,
        vs[k].discriminant is None || vs[k].discriminant matches Some(Discriminant::Expr(_)),
    ensures
        variants_of(vs, repr) is Err,
{
    lemma_fold_fails_if_some(vs, k, variant_step(repr));
}

/// Where every variant before it is accepted, a variant without a literal discriminant is
/// refused with the error that a discriminant is required, naming it.
pub proof fn lemma_missing_discriminant_named(vs: Seq<InputVariant>, repr: Repr, k: int)
    requires
        0 <= k < vs.len(),
        vs[k].fields is Unit,
        vs[k].discriminant is None || vs[k].discriminant matches Some(Discriminant::Expr(_)),
        forall|i: int| 0 <= i < k ==> #[trigger] variant_value(vs[i], repr) is Ok,
    ensures
        variants_of(vs, repr) == Err::<Seq<(Seq<char>, nat)>, DeriveErrorV>(DeriveErrorV::DiscriminantRequired(vs[k].ident@)),
{
    let g = variant_step(repr);
    assert forall|i: int| 0 <= i < k implies #[trigger] g(vs[i]) is Ok by {
        assert(variant_value(vs[i], repr) is Ok);
    }
    lemma_fold_first_error(vs, k, g);
}

/// A literal discriminant larger than the representation's largest value makes the variants
/// refused.
pub proof fn lemma_wide_discriminant_refused(vs: Seq<InputVariant>, repr: Repr, k: int)
    requires
        0 <= k < vs.len(),
        vs[k].fields is Unit,
        vs[k].discriminant matches Some(Discriminant::Int(d)) && discriminant_value(d@) matches Some(x) && x > repr_max(repr),
    ensures
        variants_of(vs, repr) is Err,
{
    lemma_fold_fails_if_some(vs, k, variant_step(repr));
}

/// Generic arguments separated by ` , `, as a token stream prints them.
pub open spec fn spaced_text(s: Seq<ArgV>) -> Seq<char>
    decreases s.len(),
{
    if s.len() == 0 {
        Seq::empty()
    } else if s.len() == 1 {
        arg_text(s[0])
    } else {
        spaced_text(s.drop_last()) + " , "@ + arg_text(s.last())
    }
}

/// `t` as a string literal.
pub open spec fn quoted(t: Seq<char>) -> Seq<char> {
    "\""@ + t + "\""@
}

/// Whether a path is the single identifier `generics`.
pub open spec fn is_generics_path(p: Seq<Seq<char>>) -> bool {
    p.len() == 1 && p[0] == "generics"@
}

/// Whether an argument is a `generics = "..."` whose string is a generic argument list.
pub open spec fn is_generics_list(m: MetaV) -> bool {
    m matches MetaV::NameValue { path, value: ValueV::Str { generics: Some(_), .. } } && is_generics_path(path)
}

/// The number of `generics` lists among `s`, not looking into blocks.
pub open spec fn generics_count(s: Seq<MetaV>) -> nat
    decreases s.len(),
{
    if s.len() == 0 {
        0
    } else {
        generics_count(s.drop_last()) + if is_generics_list(s.last()) {
            1nat
        } else {
            0nat
        }
    }
}

/// The argument `generics = "<extra>"`.
pub open spec fn generics_arg(args: Seq<ArgV>) -> MetaV {
    MetaV::NameValue {
        path: seq!["generics"@],
        value: ValueV::Str { literal: quoted(spaced_text(args)), generics: Some(args) },
    }
}

/// One layout argument with `extra` added to its generic argument lists: a `generics` list gets
/// it last; a block is extended in the same way throughout.
pub open spec fn extend_one(m: MetaV, extra: ArgV, count: nat) -> MetaV
    decreases m,
{
    match m {
        MetaV::List { path, nested } => MetaV::List {
            path,
            nested: extend_each(nested, extra, count) + if generics_count(nested) == 0 && count == 0 {
                seq![generics_arg(seq![extra])]
            } else {
                Seq::empty()
            },
        },
        MetaV::NameValue { path, value: ValueV::Str { generics: Some(g), .. } } => if is_generics_path(path) {
            generics_arg(g.push(extra))
        } else {
            m
        },
        _ => m,
    }
}

pub open spec fn extend_each(s: Seq<MetaV>, extra: ArgV, count: nat) -> Seq<MetaV>
    decreases s,
{
    if s.len() == 0 {
        Seq::empty()
    } else {
        extend_each(s.drop_last(), extra, count).push(extend_one(s.last(), extra, count))
    }
}

/// Layout arguments with `extra` added to every generic argument list; where there is none and
/// the container has no generic parameters of its own, a list of `extra` alone is added.
pub open spec fn extend_all(s: Seq<MetaV>, extra: ArgV, count: nat) -> Seq<MetaV> {
    extend_each(s, extra, count) + if generics_count(s) == 0 && count == 0 {
        seq![generics_arg(seq![extra])]
    } else {
        Seq::empty()
    }
}

/// Generic arguments separated by ` , `.
pub fn render_spaced(args: &Vec<GenericArgument>) -> (r: String)
    ensures
        r@ == spaced_text(arg_seq_view(args@)),
{
    let mut r = String::new();
    let mut i: usize = 0;
    proof {
        lemma_arg_seq_view_index(args@);
    }
    while i < args.len()
        invariant
            i <= args@.len(),
            arg_seq_view(args@).len() == args@.len(),
            forall|k: int| 0 <= k < args@.len() ==> #[trigger] arg_seq_view(args@)[k] == arg_view(args@[k]),
            r@ == spaced_text(arg_seq_view(args@).subrange(0, i as int)),
        decreases args@.len() - i,
    {
        let ghost pre = arg_seq_view(args@).subrange(0, i as int);
        let ghost next = arg_seq_view(args@).subrange(0, i + 1);
        assert(next.drop_last() =~= pre);
        if i > 0 {
            r.append(" , ");
        }
        let mut one_vec: Vec<GenericArgument> = Vec::new();
        one_vec.push(args[i].copy());
        let one = render_arguments(&one_vec);
        proof {
            lemma_arg_seq_view_index(one_vec@);
            assert(arg_seq_view(one_vec@) =~= seq![arg_view(args@[i as int])]);
            assert(seq![arg_view(args@[i as int])].drop_last() =~= Seq::<ArgV>::empty());
        }
        r.append(one.as_str());
        i = i + 1;
    }
    assert(arg_seq_view(args@).subrange(0, args@.len() as int) =~= arg_seq_view(args@));
    r
}

fn generics_meta(args: Vec<GenericArgument>) -> (r: Meta)
    ensures
        meta_view(r) == generics_arg(arg_seq_view(args@)),
{
    let mut literal = String::new();
    literal.append("\"");
    let t = render_spaced(&args);
    literal.append(t.as_str());
    literal.append("\"");
    let mut path: Vec<String> = Vec::new();
    path.push(String::from_str("generics"));
    assert(path_texts(path@) =~= seq!["generics"@]);
    Meta::NameValue { path, value: MetaValue::Str { literal, generics: Some(args) } }
}

fn is_generics_key(path: &Vec<String>) -> (r: bool)
    ensures
        r == is_generics_path(path_texts(path@)),
{
    if path.len() == 1 {
        is_key(&path[0], "generics")
    } else {
        false
    }
}

/// Add `extra` to each generic argument list of layout arguments `attrs`, at every depth; where a
/// level has no list and the container has no generic parameters, add a list of `extra` alone.
pub fn extend_assert_generics(attrs: Vec<Meta>, extra: &GenericArgument, container_generic_count: usize) -> (r: Vec<Meta>)
    ensures
        meta_seq_view(r@) == extend_all(meta_seq_view(attrs@), extra@, container_generic_count as nat),
    decreases attrs,
{
    let ghost all = attrs@;
    let ghost count = container_generic_count as nat;
    let mut rest = attrs;
    let mut out: Vec<Meta> = Vec::new();
    let mut found: usize = 0;
    let n = rest.len();
    let mut i: usize = 0;
    assert(all.subrange(0, 0) =~= Seq::<Meta>::empty());
    while i < n
        invariant
            i <= n,
            n == all.len(),
            all == attrs@,
            count == container_generic_count as nat,
            rest@ == all.subrange(i as int, n as int),
            found <= i,
            found as nat == generics_count(meta_seq_view(all.subrange(0, i as int))),
            meta_seq_view(out@) == extend_each(meta_seq_view(all.subrange(0, i as int)), extra@, count),
        decreases n - i,
    {
        let ghost pre = all.subrange(0, i as int);
        let ghost next = all.subrange(0, i + 1);
        assert(next =~= pre.push(all[i as int]));
        proof {
            lemma_meta_seq_view_push(pre, all[i as int]);
        }
        let m = rest.remove(0);
        assert(m == all[i as int]);
        let ghost mv = meta_view(m);
        let ghost found_before = found;
        let x = match m {
            Meta::List { path, nested } => {
                proof {
                    assert(decreases_to!(attrs => attrs@[i as int]));
                }
                let inner = extend_assert_generics(nested, extra, container_generic_count);
                let x = Meta::List { path, nested: inner };
                assert(!is_generics_list(mv));
                assert(meta_view(x) == extend_one(mv, extra@, count));
                x
            },
            Meta::NameValue { path, value } => {
                if is_generics_key(&path) {
                    match value {
                        MetaValue::Str { literal, generics: Some(g) } => {
                            found = found + 1;
                            let mut g2 = g;
                            let e = extra.copy();
                            proof {
                                lemma_arg_seq_view_push(g2@, e);
                            }
                            g2.push(e);
                            let x = generics_meta(g2);
                            assert(is_generics_list(mv));
                            assert(meta_view(x) == extend_one(mv, extra@, count));
                            x
                        },
                        other => {
                            let x = Meta::NameValue { path, value: other };
                            assert(!is_generics_list(mv));
                            assert(meta_view(x) == extend_one(mv, extra@, count));
                            x
                        },
                    }
                } else {
                    let x = Meta::NameValue { path, value };
                    assert(!is_generics_list(mv));
                    assert(meta_view(x) == extend_one(mv, extra@, count));
                    x
                }
            },
            Meta::Path(p) => {
                let x = Meta::Path(p);
                assert(!is_generics_list(mv));
                assert(meta_view(x) == extend_one(mv, extra@, count));
                x
            },
        };
        assert(meta_seq_view(next).drop_last() =~= meta_seq_view(pre));
        proof {
            lemma_meta_seq_view_push(out@, x);
        }
        out.push(x);
        i = i + 1;
    }
    assert(all.subrange(0, n as int) =~= all);
    if found == 0 && container_generic_count == 0 {
        let mut one: Vec<GenericArgument> = Vec::new();
        let e = extra.copy();
        proof {
            lemma_arg_seq_view_push(one@, e);
            assert(arg_seq_view(Seq::<GenericArgument>::empty()) =~= Seq::<ArgV>::empty());
        }
        one.push(e);
        assert(one@ =~= Seq::<GenericArgument>::empty().push(e));
        let g = generics_meta(one);
        proof {
            lemma_meta_seq_view_push(out@, g);
        }
        out.push(g);
        assert(meta_seq_view(out@) =~= extend_all(meta_seq_view(all), extra@, count));
    } else {
        assert(meta_seq_view(out@) =~= extend_all(meta_seq_view(all), extra@, count));
    }
    out
}

/// The identifier of the byte-order parameter of the generated methods.
pub open spec fn order_param() -> Seq<char> {
    "___Cuisiner_Generic_B"@
}

/// The name of the raw form of a struct named `name`.
pub open spec fn raw_name(name: Seq<char>) -> Seq<char> {
    "___Cuisiner"@ + name + "Raw"@
}

/// The name of the raw form of a struct.
pub fn raw_ident(name: &String) -> (r: String)
    ensures
        r@ == raw_name(name@),
{
    let mut r = String::from_str("___Cuisiner");
    r.append(name.as_str());
    r.append("Raw");
    r
}

/// The source text of a bound.
pub open spec fn bound_text(b: TypeParamBound) -> Seq<char> {
    match b {
        TypeParamBound::Trait(p) => ty_text(TyV::Path(p@)),
        TypeParamBound::Lifetime(l) => l@,
        TypeParamBound::Other(o) => o@,
    }
}

/// The source text of bounds, separated by ` + `.
pub open spec fn bounds_text(s: Seq<TypeParamBound>) -> Seq<char>
    decreases s.len(),
{
    if s.len() == 0 {
        Seq::empty()
    } else if s.len() == 1 {
        bound_text(s[0])
    } else {
        bounds_text(s.drop_last()) + " + "@ + bound_text(s.last())
    }
}

/// A generic parameter as declared.
pub open spec fn param_decl_text(p: GenericParam) -> Seq<char> {
    match p {
        GenericParam::Lifetime(l) => l@,
        GenericParam::Type { ident, bounds } => ident@ + if bounds@.len() == 0 {
            Seq::empty()
        } else {
            ": "@ + bounds_text(bounds@)
        },
        GenericParam::Const { ident, ty } => "const "@ + ident@ + ": "@ + ty_text(ty@),
    }
}

/// A generic parameter as used.
pub open spec fn param_use_text(p: GenericParam) -> Seq<char> {
    match p {
        GenericParam::Lifetime(l) => l@,
        GenericParam::Type { ident, .. } => ident@,
        GenericParam::Const { ident, .. } => ident@,
    }
}

/// Texts joined by `sep`.
pub open spec fn joined(s: Seq<Seq<char>>, sep: Seq<char>) -> Seq<char>
    decreases s.len(),
{
    if s.len() == 0 {
        Seq::empty()
    } else if s.len() == 1 {
        s[0]
    } else {
        joined(s.drop_last(), sep) + sep + s.last()
    }
}

/// Texts one after the other.
pub open spec fn concat(s: Seq<Seq<char>>) -> Seq<char>
    decreases s.len(),
{
    if s.len() == 0 {
        Seq::empty()
    } else {
        concat(s.drop_last()) + s.last()
    }
}

/// `<...>` around the texts, or nothing where there are none.
pub open spec fn angled(s: Seq<Seq<char>>) -> Seq<char> {
    if s.len() == 0 {
        Seq::empty()
    } else {
        "<"@ + joined(s, ", "@) + ">"@
    }
}

/// `<T as ::cuisiner::Cuisiner>`
pub open spec fn as_codec(ty: Seq<char>) -> Seq<char> {
    "<"@ + ty + " as ::cuisiner::Cuisiner>"@
}

/// The statement that reads field `i` of type `ty` from the raw bytes.
pub open spec fn read_field_text(i: nat, ty: Seq<char>) -> Seq<char> {
    "let f"@ + decimal(i) + " = {\nlet n = "@ + as_codec(ty) + "::RAW_SIZE;\nlet v = "@ + as_codec(ty)
        + "::try_from_raw::<___Cuisiner_Generic_B>(&raw[at..at + n])?;\nat += n;\nv\n};\n"@
}

/// The statement that writes field `access` of type `ty` to the output bytes.
pub open spec fn write_field_text(access: Seq<char>, ty: Seq<char>) -> Seq<char> {
    "out.extend("@ + as_codec(ty) + "::try_to_raw::<___Cuisiner_Generic_B>(self."@ + access + ")?);\n"@
}

/// The text of field `i` as accessed on `self`: its name, or its position.
pub open spec fn access_text(named: bool, f: Field, i: nat) -> Seq<char> {
    if named {
        f.ident@
    } else {
        decimal(i)
    }
}

/// The fields of a struct, with whether they are named.
pub open spec fn field_list(fields: Fields) -> (bool, Seq<Field>) {
    match fields {
        Fields::Named(v) => (true, v@),
        Fields::Unnamed(v) => (false, v@),
        Fields::Unit => (false, Seq::empty()),
    }
}

/// The expression that builds the struct from the decoded fields `f0`, `f1`, ...
pub open spec fn construct_text(fields: Fields) -> Seq<char> {
    match fields {
        Fields::Named(v) => " { "@ + joined(
            Seq::new(v@.len(), |i: int| v@[i].ident@ + ": f"@ + decimal(i as nat)),
            ", "@,
        ) + " }"@,
        Fields::Unnamed(v) => "("@ + joined(Seq::new(v@.len(), |i: int| "f"@ + decimal(i as nat)), ", "@) + ")"@,
        Fields::Unit => Seq::empty(),
    }
}

/// The codec implementation of a struct: its raw size is the sum of its fields', and it is read
/// and written field by field in declaration order, each field by its own codec.
pub open spec fn struct_impl_text(name: Seq<char>, generics: Seq<GenericParam>, fields: Fields) -> Seq<char> {
    let fl = field_list(fields);
    let tys = Seq::new(fl.1.len(), |i: int| ty_text(fl.1[i].ty@));
    "impl"@ + angled(generics.map_values(|p: GenericParam| param_decl_text(p))) + " ::cuisiner::Cuisiner for "@ + name
        + angled(generics.map_values(|p: GenericParam| param_use_text(p))) + " {\nconst RAW_SIZE: usize = 0"@
        + concat(Seq::new(fl.1.len(), |i: int| " + "@ + as_codec(tys[i]) + "::RAW_SIZE"@))
        + ";\nfn try_from_raw<___Cuisiner_Generic_B: ::cuisiner::ByteOrder>(raw: &[u8]) -> ::core::result::Result<Self, ::cuisiner::CuisinerError> {\nlet mut at: usize = 0;\n"@
        + concat(Seq::new(fl.1.len(), |i: int| read_field_text(i as nat, tys[i])))
        + "let _ = at;\n::core::result::Result::Ok(Self"@ + construct_text(fields)
        + ")\n}\nfn try_to_raw<___Cuisiner_Generic_B: ::cuisiner::ByteOrder>(self) -> ::core::result::Result<::std::vec::Vec<u8>, ::cuisiner::CuisinerError> {\nlet mut out: ::std::vec::Vec<u8> = ::std::vec::Vec::new();\n"@
        + concat(Seq::new(fl.1.len(), |i: int| write_field_text(access_text(fl.0, fl.1[i], i as nat), tys[i])))
        + "::core::result::Result::Ok(out)\n}\n}\n"@
}

/// The codec implementation of an enum: it is read as its representation, whose value picks the
/// variant with that discriminant, and any other value is refused naming it; a variant is written
/// as its discriminant.
pub open spec fn enum_impl_text(name: Seq<char>, repr: Repr, variants: Seq<(Seq<char>, nat)>) -> Seq<char> {
    let r = repr_name(repr);
    "impl ::cuisiner::Cuisiner for "@ + name + " {\nconst RAW_SIZE: usize = "@ + as_codec(r)
        + "::RAW_SIZE;\nfn try_from_raw<___Cuisiner_Generic_B: ::cuisiner::ByteOrder>(raw: &[u8]) -> ::core::result::Result<Self, ::cuisiner::CuisinerError> {\nmatch "@
        + as_codec(r) + "::try_from_raw::<___Cuisiner_Generic_B>(raw)? {\n"@
        + concat(variants.map_values(|v: (Seq<char>, nat)| decimal(v.1) + " => ::core::result::Result::Ok(Self::"@ + v.0 + "),\n"@))
        + "n => ::core::result::Result::Err(::cuisiner::CuisinerError::Validation(::std::format!(\"invalid discriminant for "@
        + name + ": {}\", n))),\n}\n}\nfn try_to_raw<___Cuisiner_Generic_B: ::cuisiner::ByteOrder>(self) -> ::core::result::Result<::std::vec::Vec<u8>, ::cuisiner::CuisinerError> {\n"@
        + as_codec(r) + "::try_to_raw::<___Cuisiner_Generic_B>(match self {\n"@
        + concat(variants.map_values(|v: (Seq<char>, nat)| "Self::"@ + v.0 + " => "@ + decimal(v.1) + ",\n"@))
        + "})\n}\n}\n"@
}

proof fn lemma_concat_step(s: Seq<Seq<char>>, i: int)
    requires
        0 <= i < s.len(),
    ensures
        concat(s.subrange(0, i + 1)) == concat(s.subrange(0, i)) + s[i],
{
    assert(s.subrange(0, i + 1).drop_last() =~= s.subrange(0, i));
}

proof fn lemma_joined_step(s: Seq<Seq<char>>, i: int, sep: Seq<char>)
    requires
        0 <= i < s.len(),
    ensures
        joined(s.subrange(0, i + 1), sep) == if i == 0 {
            s[0]
        } else {
            joined(s.subrange(0, i), sep) + sep + s[i]
        },
{
    assert(s.subrange(0, i + 1).drop_last() =~= s.subrange(0, i));
}

proof fn lemma_full<A>(s: Seq<A>)
    ensures
        s.subrange(0, s.len() as int) == s,
        s.subrange(0, 0) == Seq::<A>::empty(),
{
    assert(s.subrange(0, s.len() as int) =~= s);
    assert(s.subrange(0, 0) =~= Seq::<A>::empty());
}

fn append_decimal(r: &mut String, n: usize)
    ensures
        final(r)@ == old(r)@ + decimal(n as nat),
{
    let d = decimal_text(n as u128);
    push_chars(r, &d);
}

fn render_bounds(bounds: &Vec<TypeParamBound>) -> (r: String)
    ensures
        r@ == bounds_text(bounds@),
{
    let ghost texts = bounds@.map_values(|b: TypeParamBound| bound_text(b));
    let mut r = String::new();
    let mut i: usize = 0;
    while i < bounds.len()
        invariant
            i <= bounds@.len(),
            texts == bounds@.map_values(|b: TypeParamBound| bound_text(b)),
            r@ == joined(texts.subrange(0, i as int), " + "@),
        decreases bounds@.len() - i,
    {
        proof {
            lemma_joined_step(texts, i as int, " + "@);
        }
        if i > 0 {
            r.append(" + ");
        }
        let one = match &bounds[i] {
            TypeParamBound::Trait(p) => render_type(&TypeExpr::Path(p.copy())),
            TypeParamBound::Lifetime(l) => l.clone(),
            TypeParamBound::Other(o) => o.clone(),
        };
        r.append(one.as_str());
        i = i + 1;
    }
    proof {
        lemma_full(texts);
        lemma_bounds_joined(bounds@);
    }
    r
}

proof fn lemma_bounds_joined(s: Seq<TypeParamBound>)
    ensures
        bounds_text(s) == joined(s.map_values(|b: TypeParamBound| bound_text(b)), " + "@),
    decreases s.len(),
{
    if s.len() > 1 {
        lemma_bounds_joined(s.drop_last());
        assert(s.drop_last().map_values(|b: TypeParamBound| bound_text(b)) =~= s.map_values(|b: TypeParamBound| bound_text(b)).drop_last());
    }
}

fn render_param(p: &GenericParam, decl: bool) -> (r: String)
    ensures
        r@ == if decl {
            param_decl_text(*p)
        } else {
            param_use_text(*p)
        },
{
    match p {
        GenericParam::Lifetime(l) => l.clone(),
        GenericParam::Type { ident, bounds } => {
            let mut r = ident.clone();
            if decl && bounds.len() > 0 {
                r.append(": ");
                let b = render_bounds(bounds);
                r.append(b.as_str());
            }
            r
        },
        GenericParam::Const { ident, ty } => {
            if decl {
                let mut r = String::from_str("const ");
                r.append(ident.as_str());
                r.append(": ");
                let t = render_type(ty);
                r.append(t.as_str());
                r
            } else {
                ident.clone()
            }
        },
    }
}

/// The parameters between `<` and `>`, as declared or as used; nothing where there are none.
fn render_angled(ps: &Vec<GenericParam>, decl: bool) -> (r: String)
    ensures
        r@ == angled(
            if decl {
                ps@.map_values(|p: GenericParam| param_decl_text(p))
            } else {
                ps@.map_values(|p: GenericParam| param_use_text(p))
            },
        ),
{
    let ghost texts = if decl {
        ps@.map_values(|p: GenericParam| param_decl_text(p))
    } else {
        ps@.map_values(|p: GenericParam| param_use_text(p))
    };
    if ps.len() == 0 {
        return String::new();
    }
    let mut r = String::from_str("<");
    let mut i: usize = 0;
    let ghost start = r@;
    while i < ps.len()
        invariant
            i <= ps@.len(),
            texts == (if decl {
                ps@.map_values(|p: GenericParam| param_decl_text(p))
            } else {
                ps@.map_values(|p: GenericParam| param_use_text(p))
            }),
            start == "<"@,
            r@ == start + joined(texts.subrange(0, i as int), ", "@),
        decreases ps@.len() - i,
    {
        proof {
            lemma_joined_step(texts, i as int, ", "@);
        }
        if i > 0 {
            r.append(", ");
        }
        let one = render_param(&ps[i], decl);
        r.append(one.as_str());
        i = i + 1;
    }
    r.append(">");
    proof {
        lemma_full(texts);
    }
    r
}

fn codec_of(r: &mut String, ty: &String)
    ensures
        final(r)@ == old(r)@ + as_codec(ty@),
{
    r.append("<");
    r.append(ty.as_str());
    r.append(" as ::cuisiner::Cuisiner>");
}

fn construct(fields: &Fields) -> (r: String)
    ensures
        r@ == construct_text(*fields),
{
    match fields {
        Fields::Named(v) => {
            let ghost texts = Seq::new(v@.len(), |i: int| v@[i].ident@ + ": f"@ + decimal(i as nat));
            let mut r = String::from_str(" { ");
            let ghost start = r@;
            let mut i: usize = 0;
            while i < v.len()
                invariant
                    i <= v@.len(),
                    texts == Seq::new(v@.len(), |i: int| v@[i].ident@ + ": f"@ + decimal(i as nat)),
                    start == " { "@,
                    r@ == start + joined(texts.subrange(0, i as int), ", "@),
                decreases v@.len() - i,
            {
                proof {
                    lemma_joined_step(texts, i as int, ", "@);
                }
                if i > 0 {
                    r.append(", ");
                }
                r.append(v[i].ident.as_str());
                r.append(": f");
                append_decimal(&mut r, i);
                i = i + 1;
            }
            r.append(" }");
            proof {
                lemma_full(texts);
            }
            r
        },
        Fields::Unnamed(v) => {
            let ghost texts = Seq::new(v@.len(), |i: int| "f"@ + decimal(i as nat));
            let mut r = String::from_str("(");
            let ghost start = r@;
            let mut i: usize = 0;
            while i < v.len()
                invariant
                    i <= v@.len(),
                    texts == Seq::new(v@.len(), |i: int| "f"@ + decimal(i as nat)),
                    start == "("@,
                    r@ == start + joined(texts.subrange(0, i as int), ", "@),
                decreases v@.len() - i,
            {
                proof {
                    lemma_joined_step(texts, i as int, ", "@);
                }
                if i > 0 {
                    r.append(", ");
                }
                r.append("f");
                append_decimal(&mut r, i);
                i = i + 1;
            }
            r.append(")");
            proof {
                lemma_full(texts);
            }
            r
        },
        Fields::Unit => String::new(),
    }
}

/// The codec implementation of a struct, as source text.
pub fn struct_impl(name: &String, generics: &Vec<GenericParam>, fields: &Fields) -> (r: String)
    ensures
        r@ == struct_impl_text(name@, generics@, *fields),
{
    let (named, list) = match fields {
        Fields::Named(v) => (true, v),
        Fields::Unnamed(v) => (false, v),
        Fields::Unit => (false, &Vec::new()),
    };
    assert(field_list(*fields) == (named, list@));
    let ghost n = list@.len();
    let mut tys: Vec<String> = Vec::new();
    let mut k: usize = 0;
    while k < list.len()
        invariant
            k <= list@.len(),
            tys@.len() == k,
            forall|j: int| 0 <= j < k ==> (#[trigger] tys@[j])@ == ty_text(list@[j].ty@),
        decreases list@.len() - k,
    {
        tys.push(render_type(&list[k].ty));
        k = k + 1;
    }
    let ghost tyt = Seq::new(n, |i: int| ty_text(list@[i].ty@));
    let mut r = String::from_str("impl");
    let a = render_angled(generics, true);
    r.append(a.as_str());
    r.append(" ::cuisiner::Cuisiner for ");
    r.append(name.as_str());
    let b = render_angled(generics, false);
    r.append(b.as_str());
    r.append(" {\nconst RAW_SIZE: usize = 0");
    let ghost s1 = Seq::new(n, |i: int| " + "@ + as_codec(tyt[i]) + "::RAW_SIZE"@);
    let ghost sizes_at = r@;
    let mut i: usize = 0;
    while i < list.len()
        invariant
            i <= n,
            n == list@.len(),
            tys@.len() == n,
            forall|j: int| 0 <= j < n ==> (#[trigger] tys@[j])@ == ty_text(list@[j].ty@),
            tyt == Seq::new(n, |i: int| ty_text(list@[i].ty@)),
            s1 == Seq::new(n, |i: int| " + "@ + as_codec(tyt[i]) + "::RAW_SIZE"@),
            r@ == sizes_at + concat(s1.subrange(0, i as int)),
        decreases n - i,
    {
        proof {
            lemma_concat_step(s1, i as int);
        }
        r.append(" + ");
        codec_of(&mut r, &tys[i]);
        r.append("::RAW_SIZE");
        i = i + 1;
    }
    proof {
        lemma_full(s1);
    }
    r.append(";\nfn try_from_raw<___Cuisiner_Generic_B: ::cuisiner::ByteOrder>(raw: &[u8]) -> ::core::result::Result<Self, ::cuisiner::CuisinerError> {\nlet mut at: usize = 0;\n");
    let ghost s2 = Seq::new(n, |i: int| read_field_text(i as nat, tyt[i]));
    let ghost reads_at = r@;
    let mut i: usize = 0;
    while i < list.len()
        invariant
            i <= n,
            n == list@.len(),
            tys@.len() == n,
            forall|j: int| 0 <= j < n ==> (#[trigger] tys@[j])@ == ty_text(list@[j].ty@),
            tyt == Seq::new(n, |i: int| ty_text(list@[i].ty@)),
            s2 == Seq::new(n, |i: int| read_field_text(i as nat, tyt[i])),
            r@ == reads_at + concat(s2.subrange(0, i as int)),
        decreases n - i,
    {
        proof {
            lemma_concat_step(s2, i as int);
        }
        r.append("let f");
        append_decimal(&mut r, i);
        r.append(" = {\nlet n = ");
        codec_of(&mut r, &tys[i]);
        r.append("::RAW_SIZE;\nlet v = ");
        codec_of(&mut r, &tys[i]);
        r.append("::try_from_raw::<___Cuisiner_Generic_B>(&raw[at..at + n])?;\nat += n;\nv\n};\n");
        i = i + 1;
    }
    proof {
        lemma_full(s2);
    }
    r.append("let _ = at;\n::core::result::Result::Ok(Self");
    let c = construct(fields);
    r.append(c.as_str());
    r.append(")\n}\nfn try_to_raw<___Cuisiner_Generic_B: ::cuisiner::ByteOrder>(self) -> ::core::result::Result<::std::vec::Vec<u8>, ::cuisiner::CuisinerError> {\nlet mut out: ::std::vec::Vec<u8> = ::std::vec::Vec::new();\n");
    let ghost s3 = Seq::new(n, |i: int| write_field_text(access_text(named, list@[i], i as nat), tyt[i]));
    let ghost writes_at = r@;
    let mut i: usize = 0;
    while i < list.len()
        invariant
            i <= n,
            n == list@.len(),
            tys@.len() == n,
            forall|j: int| 0 <= j < n ==> (#[trigger] tys@[j])@ == ty_text(list@[j].ty@),
            tyt == Seq::new(n, |i: int| ty_text(list@[i].ty@)),
            s3 == Seq::new(n, |i: int| write_field_text(access_text(named, list@[i], i as nat), tyt[i])),
            r@ == writes_at + concat(s3.subrange(0, i as int)),
        decreases n - i,
    {
        proof {
            lemma_concat_step(s3, i as int);
        }
        r.append("out.extend(");
        codec_of(&mut r, &tys[i]);
        r.append("::try_to_raw::<___Cuisiner_Generic_B>(self.");
        if named {
            r.append(list[i].ident.as_str());
        } else {
            append_decimal(&mut r, i);
        }
        r.append(")?);\n");
        i = i + 1;
    }
    proof {
        lemma_full(s3);
    }
    r.append("::core::result::Result::Ok(out)\n}\n}\n");
    assert(r@ =~= struct_impl_text(name@, generics@, *fields));
    r
}

/// The codec implementation of an enum, as source text.
pub fn enum_impl(name: &String, repr: Repr, variants: &Vec<(String, usize)>) -> (r: String)
    ensures
        r@ == enum_impl_text(name@, repr, variants_view(variants@)),
{
    let ghost vs = variants_view(variants@);
    let rn = String::from_str(repr.int_name());
    let mut r = String::from_str("impl ::cuisiner::Cuisiner for ");
    r.append(name.as_str());
    r.append(" {\nconst RAW_SIZE: usize = ");
    codec_of(&mut r, &rn);
    r.append("::RAW_SIZE;\nfn try_from_raw<___Cuisiner_Generic_B: ::cuisiner::ByteOrder>(raw: &[u8]) -> ::core::result::Result<Self, ::cuisiner::CuisinerError> {\nmatch ");
    codec_of(&mut r, &rn);
    r.append("::try_from_raw::<___Cuisiner_Generic_B>(raw)? {\n");
    let ghost s1 = vs.map_values(|v: (Seq<char>, nat)| decimal(v.1) + " => ::core::result::Result::Ok(Self::"@ + v.0 + "),\n"@);
    let ghost arms_at = r@;
    let mut i: usize = 0;
    while i < variants.len()
        invariant
            i <= variants@.len(),
            vs == variants_view(variants@),
            s1 == vs.map_values(|v: (Seq<char>, nat)| decimal(v.1) + " => ::core::result::Result::Ok(Self::"@ + v.0 + "),\n"@),
            r@ == arms_at + concat(s1.subrange(0, i as int)),
        decreases variants@.len() - i,
    {
        proof {
            lemma_concat_step(s1, i as int);
        }
        append_decimal(&mut r, variants[i].1);
        r.append(" => ::core::result::Result::Ok(Self::");
        r.append(variants[i].0.as_str());
        r.append("),\n");
        i = i + 1;
    }
    proof {
        lemma_full(s1);
    }
    r.append("n => ::core::result::Result::Err(::cuisiner::CuisinerError::Validation(::std::format!(\"invalid discriminant for ");
    r.append(name.as_str());
    r.append(": {}\", n))),\n}\n}\nfn try_to_raw<___Cuisiner_Generic_B: ::cuisiner::ByteOrder>(self) -> ::core::result::Result<::std::vec::Vec<u8>, ::cuisiner::CuisinerError> {\n");
    codec_of(&mut r, &rn);
    r.append("::try_to_raw::<___Cuisiner_Generic_B>(match self {\n");
    let ghost s2 = vs.map_values(|v: (Seq<char>, nat)| "Self::"@ + v.0 + " => "@ + decimal(v.1) + ",\n"@);
    let ghost values_at = r@;
    let mut i: usize = 0;
    while i < variants.len()
        invariant
            i <= variants@.len(),
            vs == variants_view(variants@),
            s2 == vs.map_values(|v: (Seq<char>, nat)| "Self::"@ + v.0 + " => "@ + decimal(v.1) + ",\n"@),
            r@ == values_at + concat(s2.subrange(0, i as int)),
        decreases variants@.len() - i,
    {
        proof {
            lemma_concat_step(s2, i as int);
        }
        r.append("Self::");
        r.append(variants[i].0.as_str());
        r.append(" => ");
        append_decimal(&mut r, variants[i].1);
        r.append(",\n");
        i = i + 1;
    }
    proof {
        lemma_full(s2);
    }
    r.append("})\n}\n}\n");
    assert(r@ =~= enum_impl_text(name@, repr, vs));
    r
}

/// The generics of a struct and the name of the byte-order parameter of its codec methods.
#[derive(Debug, PartialEq, Eq)]
pub struct StructGenerics {
    pub base: Vec<GenericParam>,
    pub b_ident: String,
}

impl StructGenerics {
    /// The generics of a struct, with the byte-order parameter's name.
    pub fn new(base: Vec<GenericParam>) -> (r: StructGenerics)
        ensures
            r.base == base,
            r.b_ident@ == order_param(),
    {
        StructGenerics { base, b_ident: String::from_str("___Cuisiner_Generic_B") }
    }
}

/// What the codec is generated from.
#[derive(Debug, PartialEq, Eq)]
pub enum ItemIr {
    Struct {
        fields: Fields,
        raw_ident: String,
        generics: StructGenerics,
        /// The container's layout arguments and the declaration with its fields' layout
        /// attributes, where any were given: the layout of the raw form to check.
        layout: Option<(Vec<Meta>, LayoutInput)>,
    },
    Enum { repr: Repr, variants: Vec<(String, usize)> },
}

/// The model of a declaration, ready for code generation.
#[derive(Debug, PartialEq, Eq)]
pub struct Ir {
    pub base_ident: String,
    pub visibility: String,
    pub item: ItemIr,
}

fn copy_bound(b: &TypeParamBound) -> (r: TypeParamBound)
    ensures
        bound_view(r) == bound_view(*b),
        bound_text(r) == bound_text(*b),
        r is Trait <==> b is Trait,
        r is Trait ==> r->Trait_0@ == b->Trait_0@,
{
    match b {
        TypeParamBound::Trait(p) => TypeParamBound::Trait(p.copy()),
        TypeParamBound::Lifetime(l) => TypeParamBound::Lifetime(l.clone()),
        TypeParamBound::Other(o) => TypeParamBound::Other(o.clone()),
    }
}

fn copy_param(p: &GenericParam) -> (r: GenericParam)
    ensures
        param_view(r) == param_view(*p),
        param_decl_text(r) == param_decl_text(*p),
        param_use_text(r) == param_use_text(*p),
{
    match p {
        GenericParam::Lifetime(l) => GenericParam::Lifetime(l.clone()),
        GenericParam::Type { ident, bounds } => {
            let mut out: Vec<TypeParamBound> = Vec::new();
            let mut i: usize = 0;
            while i < bounds.len()
                invariant
                    i <= bounds@.len(),
                    out@.len() == i,
                    forall|k: int| 0 <= k < i ==> bound_text(#[trigger] out@[k]) == bound_text(bounds@[k]),
                    forall|k: int| 0 <= k < i ==> bound_view(#[trigger] out@[k]) == bound_view(bounds@[k]),
                decreases bounds@.len() - i,
            {
                out.push(copy_bound(&bounds[i]));
                i = i + 1;
            }
            proof {
                lemma_bounds_text_same(out@, bounds@);
                assert(out@.map_values(|b: TypeParamBound| bound_view(b)) =~= bounds@.map_values(|b: TypeParamBound| bound_view(b)));
            }
            GenericParam::Type { ident: ident.clone(), bounds: out }
        },
        GenericParam::Const { ident, ty } => GenericParam::Const { ident: ident.clone(), ty: ty.copy() },
    }
}

proof fn lemma_bounds_text_same(a: Seq<TypeParamBound>, b: Seq<TypeParamBound>)
    requires
        a.len() == b.len(),
        forall|k: int| 0 <= k < a.len() ==> bound_text(#[trigger] a[k]) == bound_text(b[k]),
    ensures
        bounds_text(a) == bounds_text(b),
    decreases a.len(),
{
    if a.len() > 1 {
        lemma_bounds_text_same(a.drop_last(), b.drop_last());
    }
}

/// Whether a field or the container asks for layout checks.
fn wants_layout(fields: &Vec<Field>) -> (r: bool)
    ensures
        r == exists|i: int| 0 <= i < fields@.len() && (#[trigger] fields@[i]).assert_layout is Some,
{
    let mut i: usize = 0;
    while i < fields.len()
        invariant
            i <= fields@.len(),
            forall|j: int| 0 <= j < i ==> (#[trigger] fields@[j]).assert_layout is None,
        decreases fields@.len() - i,
    {
        if fields[i].assert_layout.is_some() {
            return true;
        }
        i = i + 1;
    }
    false
}

/// The declaration to check the raw layout of: the struct's name and generics, and its fields,
/// each with its layout arguments as a layout attribute. The layout arguments are taken out of
/// the fields.
/// The layout attributes that carry a field's layout arguments: one `assert_layout` attribute
/// holding them, or none.
pub open spec fn carries(attrs: Seq<Attribute>, a: Option<Vec<Meta>>) -> bool {
    match a {
        Some(ms) => {
            &&& attrs.len() == 1
            &&& path_texts(attrs[0].path@) == seq!["assert_layout"@]
            &&& attrs[0].args == Some(ms)
        },
        None => attrs.len() == 0,
    }
}

/// `inp` is the declaration whose layout is checked for a struct named `name` with generics
/// `generics` and fields `fields` (named where `named`): same name and parameters, and each
/// field by its name or position, with its type and its layout arguments as a layout attribute.
pub open spec fn layout_input_of(
    name: String,
    generics: Seq<GenericParam>,
    named: bool,
    fields: Seq<Field>,
    inp: LayoutInput,
) -> bool {
    &&& inp.ident == name
    &&& inp.generics@.len() == generics.len()
    &&& forall|i: int| 0 <= i < generics.len() ==> param_view(#[trigger] inp.generics@[i]) == param_view(generics[i])
    &&& inp.fields@.len() == fields.len()
    &&& forall|i: int| 0 <= i < fields.len() ==> {
        &&& (#[trigger] inp.fields@[i]).member == if named {
            Member::Named(fields[i].ident)
        } else {
            Member::Unnamed(i as usize)
        }
        &&& inp.fields@[i].ty@ == fields[i].ty@
        &&& carries(inp.fields@[i].attrs@, fields[i].assert_layout)
    }
}

/// The declaration to check the raw layout of: the struct's name and generics, and its fields,
/// each with its layout arguments as a layout attribute. The layout arguments are taken out of
/// the fields.
fn layout_input(name: &String, generics: &Vec<GenericParam>, fields: &mut Vec<Field>, named: bool) -> (r: LayoutInput)
    ensures
        layout_input_of(*name, generics@, named, old(fields)@, r),
        final(fields)@.len() == old(fields)@.len(),
        forall|i: int| 0 <= i < old(fields)@.len() ==> {
            &&& (#[trigger] final(fields)@[i]).ident == old(fields)@[i].ident
            &&& final(fields)@[i].ty == old(fields)@[i].ty
        },
{
    let mut gs: Vec<GenericParam> = Vec::new();
    let mut i: usize = 0;
    while i < generics.len()
        invariant
            i <= generics@.len(),
            gs@.len() == i,
            forall|k: int| 0 <= k < i ==> param_view(#[trigger] gs@[k]) == param_view(generics@[k]),
        decreases generics@.len() - i,
    {
        gs.push(copy_param(&generics[i]));
        i = i + 1;
    }
    let ghost before = fields@;
    let mut out: Vec<LayoutField> = Vec::new();
    let mut j: usize = 0;
    while j < fields.len()
        invariant
            j <= fields@.len(),
            fields@.len() == before.len(),
            out@.len() == j,
            forall|k: int| 0 <= k < before.len() ==> {
                &&& (#[trigger] fields@[k]).ident == before[k].ident
                &&& fields@[k].ty == before[k].ty
            },
            forall|k: int| j <= k < before.len() ==> #[trigger] fields@[k] == before[k],
            forall|k: int| 0 <= k < j ==> {
                &&& (#[trigger] out@[k]).member == if named {
                    Member::Named(before[k].ident)
                } else {
                    Member::Unnamed(k as usize)
                }
                &&& out@[k].ty@ == before[k].ty@
                &&& carries(out@[k].attrs@, before[k].assert_layout)
            },
        decreases fields@.len() - j,
    {
        let f = fields.remove(j);
        assert(f == before[j as int]);
        let Field { ident, ty, assert_layout } = f;
        let member = if named {
            Member::Named(ident.clone())
        } else {
            Member::Unnamed(j)
        };
        let mut attrs: Vec<Attribute> = Vec::new();
        match assert_layout {
            Some(ms) => {
                let mut path: Vec<String> = Vec::new();
                path.push(String::from_str("assert_layout"));
                assert(path_texts(path@) =~= seq!["assert_layout"@]);
                attrs.push(Attribute { path, args: Some(ms) });
            },
            None => {},
        }
        out.push(LayoutField { member, ty: ty.copy(), attrs });
        fields.insert(j, Field { ident, ty, assert_layout: None });
        j = j + 1;
    }
    LayoutInput { ident: name.clone(), generics: gs, fields: out }
}

/// Whether two field lists have the same shape: named, unnamed or unit.
pub open spec fn same_shape(a: Fields, b: Fields) -> bool {
    &&& (a is Named <==> b is Named)
    &&& (a is Unnamed <==> b is Unnamed)
    &&& (a is Unit <==> b is Unit)
}

/// The codec implementation of a struct depends on its fields' names and types alone.
proof fn lemma_struct_text_same(name: Seq<char>, g: Seq<GenericParam>, a: Fields, b: Fields)
    requires
        same_shape(a, b),
        field_list(a).1.len() == field_list(b).1.len(),
        forall|i: int| 0 <= i < field_list(a).1.len() ==> {
            &&& (#[trigger] field_list(a).1[i]).ident == field_list(b).1[i].ident
            &&& field_list(a).1[i].ty == field_list(b).1[i].ty
        },
    ensures
        struct_impl_text(name, g, a) == struct_impl_text(name, g, b),
{
    let fa = field_list(a);
    let fb = field_list(b);
    let n = fa.1.len();
    assert(fa.0 == fb.0);
    let ta = Seq::new(n, |i: int| ty_text(fa.1[i].ty@));
    let tb = Seq::new(n, |i: int| ty_text(fb.1[i].ty@));
    assert(ta =~= tb);
    assert(Seq::new(n, |i: int| " + "@ + as_codec(ta[i]) + "::RAW_SIZE"@) =~= Seq::new(n, |i: int| " + "@ + as_codec(tb[i]) + "::RAW_SIZE"@));
    assert(Seq::new(n, |i: int| read_field_text(i as nat, ta[i])) =~= Seq::new(n, |i: int| read_field_text(i as nat, tb[i])));
    assert(Seq::new(n, |i: int| write_field_text(access_text(fa.0, fa.1[i], i as nat), ta[i])) =~= Seq::new(n, |i: int| write_field_text(access_text(fb.0, fb.1[i], i as nat), tb[i])));
    match (a, b) {
        (Fields::Named(va), Fields::Named(vb)) => {
            assert(Seq::new(va@.len(), |i: int| va@[i].ident@ + ": f"@ + decimal(i as nat)) =~= Seq::new(vb@.len(), |i: int| vb@[i].ident@ + ": f"@ + decimal(i as nat)));
        },
        _ => {},
    }
}

/// Prepare the model for code generation: a struct gets the name of its raw form and, where its
/// container or a field asks for layout checks, the declaration to check; an enum passes as it
/// is.
pub fn lower(model: DeriveModel) -> (r: Ir)
    ensures
        r.base_ident == model.name,
        r.visibility == model.visibility,
        match (model.item, r.item) {
            (
                DeriveModelItem::Struct { fields, generics, container_assert_layout },
                ItemIr::Struct { fields: f, raw_ident, generics: g, layout },
            ) => {
                &&& same_shape(f, fields)
                &&& field_list(f).0 == field_list(fields).0
                &&& field_list(f).1.len() == field_list(fields).1.len()
                &&& forall|i: int| 0 <= i < field_list(fields).1.len() ==> {
                    &&& (#[trigger] field_list(f).1[i]).ident == field_list(fields).1[i].ident
                    &&& field_list(f).1[i].ty == field_list(fields).1[i].ty
                }
                &&& g.base == generics
                &&& raw_ident@ == raw_name(model.name@)
                &&& (layout is Some <==> (container_assert_layout is Some || exists|i: int|
                    0 <= i < field_list(fields).1.len() && (#[trigger] field_list(fields).1[i]).assert_layout is Some))
                &&& layout is Some ==> {
                    let x = layout->0;
                    &&& x.0@ == match container_assert_layout {
                        Some(c) => c@,
                        None => Seq::empty(),
                    }
                    &&& layout_input_of(model.name, generics@, field_list(fields).0, field_list(fields).1, x.1)
                }
            },
            (DeriveModelItem::Enum { variants, repr }, ItemIr::Enum { repr: x, variants: v }) => v == variants && x == repr,
            _ => false,
        },
{
    let DeriveModel { name, visibility, item } = model;
    let item = match item {
        DeriveModelItem::Struct { fields, generics, container_assert_layout } => {
            let raw = raw_ident(&name);
            let (named, mut list, shape) = match fields {
                Fields::Named(v) => (true, v, 0u8),
                Fields::Unnamed(v) => (false, v, 1u8),
                Fields::Unit => (false, Vec::new(), 2u8),
            };
            let ghost before = list@;
            let wanted = container_assert_layout.is_some() || wants_layout(&list);
            let layout = if wanted {
                let input = layout_input(&name, &generics, &mut list, named);
                let metas = match container_assert_layout {
                    Some(c) => c,
                    None => Vec::new(),
                };
                Some((metas, input))
            } else {
                None
            };
            let fields = if shape == 0 {
                Fields::Named(list)
            } else if shape == 1 {
                Fields::Unnamed(list)
            } else {
                Fields::Unit
            };
            ItemIr::Struct { fields, raw_ident: raw, generics: StructGenerics::new(generics), layout }
        },
        DeriveModelItem::Enum { variants, repr } => ItemIr::Enum { repr, variants },
    };
    Ir { base_ident: name, visibility, item }
}

/// Emit the codec implementation of the declaration, as source text; for a struct that asks for
/// layout checks, followed by the checks of the layout of its raw form.
pub fn codegen(ir: Ir) -> (r: Result<String, DeriveError>)
    ensures
        match ir.item {
            ItemIr::Struct { fields, generics, layout, .. } => match layout {
                None => r is Ok && r->Ok_0@ == struct_impl_text(ir.base_ident@, generics.base@, fields),
                Some(x) => with_checks(struct_impl_text(ir.base_ident@, generics.base@, fields), x.0@, x.1, r),
            },
            ItemIr::Enum { repr, variants } => r is Ok && r->Ok_0@ == enum_impl_text(
                ir.base_ident@,
                repr,
                variants_view(variants@),
            ),
        },
{
    let Ir { base_ident, visibility, item } = ir;
    match item {
        ItemIr::Struct { fields, generics, layout, .. } => {
            let mut text = struct_impl(&base_ident, &generics.base, &fields);
            let ghost head = text@;
            match layout {
                None => Ok(text),
                Some((metas, input)) => {
                    let ghost ma = metas@;
                    let ghost li = input;
                    match raw_layout_checks(metas, input) {
                        Ok(checks) => {
                            text.append(checks.as_str());
                            assert(text@.subrange(0, head.len() as int) =~= head);
                            assert(text@.subrange(head.len() as int, text@.len() as int) =~= checks@);
                            let r = Ok(text);
                            assert(with_checks(head, ma, li, r));
                            r
                        },
                        Err(e) => {
                            let r = Err(DeriveError::Layout(e));
                            assert(with_checks(head, ma, li, r));
                            r
                        },
                    }
                },
            }
        },
        ItemIr::Enum { repr, variants } => Ok(enum_impl(&base_ident, repr, &variants)),
    }
}

/// `r` is the codec text `head` followed by the checks of the raw layout of `inp` under the
/// container arguments `attrs`, or the error of those checks.
pub open spec fn with_checks(head: Seq<char>, attrs: Seq<Meta>, inp: LayoutInput, r: Result<String, DeriveError>) -> bool {
    match r {
        Ok(t) => {
            &&& t@.len() >= head.len()
            &&& t@.subrange(0, head.len() as int) == head
            &&& raw_outcome(attrs, inp, Ok::<Seq<char>, LayoutErrorV>(t@.subrange(head.len() as int, t@.len() as int)))
        },
        Err(e) => e is Layout && raw_outcome(attrs, inp, Err::<Seq<char>, LayoutErrorV>(e->Layout_0@)),
    }
}

/// Whether the container arguments `c` or a field of `f` ask for layout checks.
pub open spec fn asks_layout(c: Option<Seq<Meta>>, f: Fields) -> bool {
    c is Some || exists|i: int| 0 <= i < field_list(f).1.len() && (#[trigger] field_list(f).1[i]).assert_layout is Some
}

/// The container arguments, none where there is no `assert(...)`.
pub open spec fn metas_of(c: Option<Seq<Meta>>) -> Seq<Meta> {
    match c {
        Some(m) => m,
        None => Seq::empty(),
    }
}

pub open spec fn ir_generics(ir: Ir) -> Seq<GenericParam> {
    match ir.item {
        ItemIr::Struct { generics, .. } => generics.base@,
        _ => Seq::empty(),
    }
}

/// Generate the codec implementation of a declaration: parse, analyse, lower, emit. Any failure
/// stops the pipeline and is returned.
pub fn derive_cuisiner_inner(input: DeriveInput) -> (r: Result<String, DeriveError>)
    ensures
        input.data is Union ==> r is Err && r->Err_0@ == DeriveErrorV::Union,
        config_of(input.attrs@) is Err && !(input.data is Union) ==> r is Err && r->Err_0@ == config_of(input.attrs@)->Err_0,
        match input.data {
            Data::Enum(variants) => match config_of(input.attrs@) {
                Ok(c) => match c.0 {
                    None => r is Err && r->Err_0@ == DeriveErrorV::MissingRepr,
                    Some(repr) => match variants_of(variants@, repr) {
                        Err(e) => r is Err && r->Err_0@ == e,
                        Ok(vs) => r is Ok && r->Ok_0@ == enum_impl_text(input.ident@, repr, vs),
                    },
                },
                Err(_) => true,
            },
            Data::Struct(fields) => match config_of(input.attrs@) {
                Ok(c) => match shape_error(fields) {
                    Some(e) => r is Err && r->Err_0@ == e,
                    None => exists|f: Fields|
                        {
                            let head = struct_impl_text(input.ident@, input.generics@, f);
                            &&& #[trigger] shape_read(fields, f)
                            &&& !asks_layout(c.1, f) ==> r is Ok && r->Ok_0@ == head
                            &&& asks_layout(c.1, f) ==> exists|inp: LayoutInput|
                                {
                                    &&& #[trigger] layout_input_of(input.ident, input.generics@, field_list(f).0, field_list(f).1, inp)
                                    &&& with_checks(head, metas_of(c.1), inp, r)
                                }
                        },
                },
                Err(_) => true,
            },
            Data::Union => true,
        },
{
    let ghost inp0 = input;
    let ast = parse(input)?;
    let model = analyse(ast)?;
    let ghost m = model;
    let ir = lower(model);
    let ghost gi = ir;
    proof {
        match (m.item, gi.item) {
            (DeriveModelItem::Struct { fields, generics, container_assert_layout }, ItemIr::Struct { fields: f, layout, .. }) => {
                lemma_struct_text_same(m.name@, ir_generics(gi), f, fields);
                assert(asks_layout(opt_view(container_assert_layout), fields) <==> layout is Some);
                if layout is Some {
                    let x = layout->0;
                    assert(layout_input_of(m.name, generics@, field_list(fields).0, field_list(fields).1, x.1));
                    assert(metas_of(opt_view(container_assert_layout)) == x.0@);
                }
            },
            _ => {},
        }
    }
    let r = codegen(ir);
    proof {
        match (inp0.data, m.item) {
            (Data::Struct(fs), DeriveModelItem::Struct { fields, .. }) => {
                assert(shape_read(fs, fields));
            },
            _ => {},
        }
    }
    r
}

} // verus!
