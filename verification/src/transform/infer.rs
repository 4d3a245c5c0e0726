//! The type of the iterated expression of an `{#each}` block, and the form
//! of it that the generated code iterates: a `Vec` and its item type.

use quote::ToTokens;
use vstd::prelude::*;
use vstd::string::StringExecFns;

use crate::numtext::{spec_digits, to_decimal};
use crate::transform::derived::ReactiveVar;
use crate::transform::node::EachVar;

verus! {

/// The shape of a scalar expression (a range bound, an array element), as far
/// as its type depends on it.
pub enum ScalarShape {
    /// An integer literal, with its suffix (empty where there is none).
    IntLit(String),
    /// A floating-point literal, with its suffix (empty where there is none).
    FloatLit(String),
    StrLit,
    BoolLit,
    CharLit,
    /// Any other literal.
    OtherLit,
    /// A path, with its identifier where it is one.
    Path(Option<String>),
    /// A parenthesized, grouped, referenced or negated expression.
    Inner(Box<ScalarShape>),
    /// Any other expression.
    Other,
}

/// The shape of an `{#each}` expression, as far as its type depends on it.
pub enum EachShape {
    /// A parenthesized, grouped or referenced expression.
    Inner(Box<EachShape>),
    /// A range, with its start bound, or its end bound where it has no start.
    Range(Option<ScalarShape>),
    /// A method call: the receiver and the method's name.
    MethodCall(Box<EachShape>, String),
    /// An array literal: its length and its first element.
    Array(usize, Option<ScalarShape>),
    /// `vec![x]`, with `x` where the macro holds one expression.
    VecMacro(Option<ScalarShape>),
    /// A path, with its identifier where it is one.
    Path(Option<String>),
    /// Any other expression, other macros included.
    Other,
}

/// A type as the inference builds it: a type written as text, a range, a
/// `Vec`, or an array of a given length.
pub enum TypeRepr {
    Named(String),
    Range(Box<TypeRepr>),
    Vec(Box<TypeRepr>),
    Array(Box<TypeRepr>, usize),
}

/// A type over character sequences.
pub enum SType {
    Named(Seq<char>),
    Range(Box<SType>),
    Vec(Box<SType>),
    Array(Box<SType>, nat),
}

pub open spec fn type_view(t: TypeRepr) -> SType
    decreases t,
{
    match t {
        TypeRepr::Named(s) => SType::Named(s@),
        TypeRepr::Range(x) => SType::Range(Box::new(type_view(*x))),
        TypeRepr::Vec(x) => SType::Vec(Box::new(type_view(*x))),
        TypeRepr::Array(x, n) => SType::Array(Box::new(type_view(*x)), n as nat),
    }
}

/// What `syn::parse_str::<syn::Type>` gives for a text, in parts: kind 0 for
/// an array type, with the text of its element type; kind 1 for a path type,
/// with the identifier of its last segment and the text of the first generic
/// argument of that segment where it is a type in angle brackets; kind 2 for
/// any other type; kind 3 for a text that is no type.
pub uninterp spec fn spec_type_split(s: Seq<char>) -> (int, Seq<char>, Option<Seq<char>>);

/// Parses `s` with `syn::parse_str::<syn::Type>` and takes it apart as
/// `spec_type_split` says. Claimed: the result is `spec_type_split(s)`, a
/// function of `s` alone.
#[verifier::external_body]
fn type_split(s: &str) -> (r: (u8, String, Option<String>))
    ensures
        (r.0 as int, r.1@, match r.2 {
            Some(t) => Some(t@),
            None => None,
        }) == spec_type_split(s@),
{
    match syn::parse_str::<syn::Type>(s) {
        Ok(syn::Type::Array(a)) => (0, a.elem.to_token_stream().to_string(), None),
        Ok(syn::Type::Path(p)) => match p.path.segments.last() {
            Some(seg) => (1, seg.ident.to_string(), match &seg.arguments {
                syn::PathArguments::AngleBracketed(a) => match a.args.first() {
                    Some(syn::GenericArgument::Type(t)) => Some(t.to_token_stream().to_string()),
                    _ => None,
                },
                _ => None,
            }),
            None => (2, String::new(), None),
        },
        Ok(_) => (2, String::new(), None),
        Err(_) => (3, String::new(), None),
    }
}

/// Whether `s` is a Rust type.
pub(crate) fn type_ok(s: &str) -> (r: bool)
    ensures
        r == (spec_type_split(s@).0 != 3),
{
    type_split(s).0 != 3
}

/// The type of the first variable named `id`: the `{#each}` items in scope
/// first, by the name written in the template, then the reactive variables.
pub open spec fn var_type(id: Seq<char>, reactive: Seq<ReactiveVar>, scoped: Seq<EachVar>) -> Option<Seq<char>>
    decreases reactive.len() + scoped.len(),
{
    if scoped.len() > 0 {
        if scoped[0].original_name@ == id {
            Some(scoped[0].ty@)
        } else {
            var_type(id, reactive, scoped.drop_first())
        }
    } else if reactive.len() > 0 {
        if reactive[0].name@ == id {
            Some(reactive[0].ty@)
        } else {
            var_type(id, reactive.drop_first(), scoped)
        }
    } else {
        None
    }
}

/// The type of a scalar expression: the suffix of a number, or `i32` and
/// `f64` without one; `String`, `bool` and `char` for those literals; the type
/// of the variable a path names; `None` where no type can be inferred.
pub open spec fn infer_scalar(e: ScalarShape, reactive: Seq<ReactiveVar>, scoped: Seq<EachVar>) -> Option<SType>
    decreases e,
{
    match e {
        ScalarShape::IntLit(x) => Some(SType::Named(if x@.len() > 0 { x@ } else { "i32"@ })),
        ScalarShape::FloatLit(x) => Some(SType::Named(if x@.len() > 0 { x@ } else { "f64"@ })),
        ScalarShape::StrLit => Some(SType::Named("String"@)),
        ScalarShape::BoolLit => Some(SType::Named("bool"@)),
        ScalarShape::CharLit => Some(SType::Named("char"@)),
        ScalarShape::OtherLit => None,
        ScalarShape::Path(Some(id)) => match var_type(id@, reactive, scoped) {
            Some(t) => Some(SType::Named(t)),
            None => None,
        },
        ScalarShape::Path(None) => None,
        ScalarShape::Inner(b) => infer_scalar(*b, reactive, scoped),
        ScalarShape::Other => None,
    }
}

/// The item type of an iterable type: the argument of a range or a `Vec`,
/// the element of an array, and for a written type the element of an array
/// type or the first generic argument of a path type.
pub open spec fn item_of(t: SType) -> Option<SType> {
    match t {
        SType::Range(x) => Some(*x),
        SType::Vec(x) => Some(*x),
        SType::Array(x, _) => Some(*x),
        SType::Named(s) => {
            let p = spec_type_split(s);
            if p.0 == 0 {
                Some(SType::Named(p.1))
            } else if p.0 == 1 && p.2 is Some {
                Some(SType::Named(p.2->Some_0))
            } else {
                None
            }
        },
    }
}

/// The type of an `{#each}` expression: a range of its bound's type; for a
/// `.collect()` call a `Vec` of the item type of the receiver's type, and for
/// another method call the receiver's type; an array of its first element's
/// type; a `Vec` for `vec![x]`; the type of the variable a path names. `None`
/// where no type can be inferred.
pub open spec fn infer_each(e: EachShape, reactive: Seq<ReactiveVar>, scoped: Seq<EachVar>) -> Option<SType>
    decreases e,
{
    match e {
        EachShape::Inner(b) => infer_each(*b, reactive, scoped),
        EachShape::Range(Some(x)) => match infer_scalar(x, reactive, scoped) {
            Some(t) => Some(SType::Range(Box::new(t))),
            None => None,
        },
        EachShape::Range(None) => None,
        EachShape::MethodCall(recv, m) => match infer_each(*recv, reactive, scoped) {
            None => None,
            Some(t) => if m@ == "collect"@ {
                match item_of(t) {
                    Some(i) => Some(SType::Vec(Box::new(i))),
                    None => None,
                }
            } else {
                Some(t)
            },
        },
        EachShape::Array(n, Some(x)) => match infer_scalar(x, reactive, scoped) {
            Some(t) => Some(SType::Array(Box::new(t), n as nat)),
            None => None,
        },
        EachShape::Array(_, None) => None,
        EachShape::VecMacro(Some(x)) => match infer_scalar(x, reactive, scoped) {
            Some(t) => Some(SType::Vec(Box::new(t))),
            None => None,
        },
        EachShape::VecMacro(None) => None,
        EachShape::Path(Some(id)) => match var_type(id@, reactive, scoped) {
            Some(t) => Some(SType::Named(t)),
            None => None,
        },
        EachShape::Path(None) => None,
        EachShape::Other => None,
    }
}

/// The source text of a type.
pub open spec fn type_text(t: SType) -> Seq<char>
    decreases t,
{
    match t {
        SType::Named(s) => s,
        SType::Range(x) => "std::ops::Range<"@ + type_text(*x) + ">"@,
        SType::Vec(x) => "Vec<"@ + type_text(*x) + ">"@,
        SType::Array(x, n) => "["@ + type_text(*x) + "; "@ + spec_digits(n, 10) + "]"@,
    }
}

/// An expression iterated with `into_iter()` and collected into a `Vec`.
pub open spec fn collected(x: Seq<char>) -> Seq<char> {
    "("@ + x + ").into_iter().collect::<Vec<_>>()"@
}

/// The item type of an iterable of type `t`, as `IntoIterator` names it.
pub open spec fn into_iter_item(t: Seq<char>) -> Seq<char> {
    "<"@ + t + " as IntoIterator>::Item"@
}

/// The `{#each}` expression `x` of type `t` as a `Vec`, and its item type: an
/// array gets `.to_vec()`; a `Vec` stays as it is; anything else of a path
/// type is collected. `None` for a `Vec` type without an element type and for
/// a type that is neither an array nor a path.
pub open spec fn vec_form(x: Seq<char>, t: SType) -> Option<(Seq<char>, SType)> {
    match t {
        SType::Array(el, _) => Some((x + ".to_vec()"@, *el)),
        SType::Vec(el) => Some((x, *el)),
        SType::Range(_) => Some((collected(x), SType::Named(into_iter_item(type_text(t))))),
        SType::Named(s) => {
            let p = spec_type_split(s);
            if p.0 == 0 {
                Some((x + ".to_vec()"@, SType::Named(p.1)))
            } else if p.0 == 1 {
                if p.1 == "Vec"@ {
                    match p.2 {
                        Some(a) => Some((x, SType::Named(a))),
                        None => None,
                    }
                } else {
                    Some((collected(x), SType::Named(into_iter_item(s))))
                }
            } else {
                None
            }
        },
    }
}

/// The type of the first variable named `id`; see `var_type`.
fn find_var_type(id: &String, reactive: &Vec<ReactiveVar>, scoped: &Vec<EachVar>) -> (r: Option<String>)
    ensures
        match r {
            Some(t) => var_type(id@, reactive@, scoped@) == Some(t@),
            None => var_type(id@, reactive@, scoped@) is None,
        },
{
    let mut i: usize = 0;
    assert(scoped@.skip(0) =~= scoped@);
    while i < scoped.len()
        invariant
            i <= scoped@.len(),
            var_type(id@, reactive@, scoped@) == var_type(id@, reactive@, scoped@.skip(i as int)),
        decreases scoped@.len() - i,
    {
        let ghost rest = scoped@.skip(i as int);
        assert(rest[0] == scoped@[i as int]);
        if crate::text::str_eq(scoped[i].original_name.as_str(), id.as_str()) {
            return Some(scoped[i].ty.clone());
        }
        assert(rest.drop_first() =~= scoped@.skip(i + 1));
        i = i + 1;
    }
    let ghost none = scoped@.skip(i as int);
    assert(none.len() == 0);
    let mut j: usize = 0;
    assert(reactive@.skip(0) =~= reactive@);
    while j < reactive.len()
        invariant
            j <= reactive@.len(),
            none.len() == 0,
            var_type(id@, reactive@, scoped@) == var_type(id@, reactive@.skip(j as int), none),
        decreases reactive@.len() - j,
    {
        let ghost rest = reactive@.skip(j as int);
        assert(rest[0] == reactive@[j as int]);
        if crate::text::str_eq(reactive[j].name.as_str(), id.as_str()) {
            return Some(reactive[j].ty.clone());
        }
        assert(rest.drop_first() =~= reactive@.skip(j + 1));
        j = j + 1;
    }
    assert(reactive@.skip(j as int).len() == 0);
    None
}

/// The type of a scalar expression; see `infer_scalar`.
fn try_infer_scalar_type(e: &ScalarShape, reactive: &Vec<ReactiveVar>, scoped: &Vec<EachVar>) -> (r: Option<TypeRepr>)
    ensures
        match r {
            Some(t) => infer_scalar(*e, reactive@, scoped@) == Some(type_view(t)),
            None => infer_scalar(*e, reactive@, scoped@) is None,
        },
    decreases e,
{
    match e {
        ScalarShape::IntLit(x) => Some(TypeRepr::Named(if x.as_str().is_empty() {
            String::from_str("i32")
        } else {
            x.clone()
        })),
        ScalarShape::FloatLit(x) => Some(TypeRepr::Named(if x.as_str().is_empty() {
            String::from_str("f64")
        } else {
            x.clone()
        })),
        ScalarShape::StrLit => Some(TypeRepr::Named(String::from_str("String"))),
        ScalarShape::BoolLit => Some(TypeRepr::Named(String::from_str("bool"))),
        ScalarShape::CharLit => Some(TypeRepr::Named(String::from_str("char"))),
        ScalarShape::OtherLit => None,
        ScalarShape::Path(Some(id)) => match find_var_type(id, reactive, scoped) {
            Some(t) => Some(TypeRepr::Named(t)),
            None => None,
        },
        ScalarShape::Path(None) => None,
        ScalarShape::Inner(b) => {
            proof {
                assert(decreases_to!(*e => e->Inner_0));
            }
            try_infer_scalar_type(&**b, reactive, scoped)
        },
        ScalarShape::Other => None,
    }
}

/// The item type of an iterable type; see `item_of`.
pub fn try_extract_iterable_item_type(t: TypeRepr) -> (r: Option<TypeRepr>)
    ensures
        match r {
            Some(i) => item_of(type_view(t)) == Some(type_view(i)),
            None => item_of(type_view(t)) is None,
        },
{
    match t {
        TypeRepr::Range(x) => Some(*x),
        TypeRepr::Vec(x) => Some(*x),
        TypeRepr::Array(x, _) => Some(*x),
        TypeRepr::Named(s) => {
            let p = type_split(s.as_str());
            if p.0 == 0 {
                Some(TypeRepr::Named(p.1))
            } else if p.0 == 1 {
                match p.2 {
                    Some(a) => Some(TypeRepr::Named(a)),
                    None => None,
                }
            } else {
                None
            }
        },
    }
}

/// The type of an `{#each}` expression, `None` where none can be inferred;
/// see `infer_each`.
pub fn try_infer_each_expr_type(e: &EachShape, reactive: &Vec<ReactiveVar>, scoped: &Vec<EachVar>) -> (r: Option<TypeRepr>)
    ensures
        match r {
            Some(t) => infer_each(*e, reactive@, scoped@) == Some(type_view(t)),
            None => infer_each(*e, reactive@, scoped@) is None,
        },
    decreases e,
{
    match e {
        EachShape::Inner(b) => {
            proof {
                assert(decreases_to!(*e => e->Inner_0));
            }
            try_infer_each_expr_type(&**b, reactive, scoped)
        },
        EachShape::Range(Some(x)) => match try_infer_scalar_type(x, reactive, scoped) {
            Some(t) => Some(TypeRepr::Range(Box::new(t))),
            None => None,
        },
        EachShape::Range(None) => None,
        EachShape::MethodCall(recv, m) => {
            proof {
                assert(decreases_to!(*e => e->MethodCall_0));
            }
            match try_infer_each_expr_type(&**recv, reactive, scoped) {
                None => None,
                Some(t) => {
                    if crate::text::str_eq(m.as_str(), "collect") {
                        match try_extract_iterable_item_type(t) {
                            Some(i) => Some(TypeRepr::Vec(Box::new(i))),
                            None => None,
                        }
                    } else {
                        Some(t)
                    }
                },
            }
        },
        EachShape::Array(n, Some(x)) => match try_infer_scalar_type(x, reactive, scoped) {
            Some(t) => Some(TypeRepr::Array(Box::new(t), *n)),
            None => None,
        },
        EachShape::Array(_, None) => None,
        EachShape::VecMacro(Some(x)) => match try_infer_scalar_type(x, reactive, scoped) {
            Some(t) => Some(TypeRepr::Vec(Box::new(t))),
            None => None,
        },
        EachShape::VecMacro(None) => None,
        EachShape::Path(Some(id)) => match find_var_type(id, reactive, scoped) {
            Some(t) => Some(TypeRepr::Named(t)),
            None => None,
        },
        EachShape::Path(None) => None,
        EachShape::Other => None,
    }
}

/// The source text of a type; see `type_text`.
pub fn get_type_text(t: &TypeRepr) -> (r: String)
    ensures
        r@ == type_text(type_view(*t)),
    decreases t,
{
    match t {
        TypeRepr::Named(s) => s.clone(),
        TypeRepr::Range(x) => {
            proof {
                assert(decreases_to!(*t => t->Range_0));
            }
            let mut r = String::from_str("std::ops::Range<");
            r.append(get_type_text(&**x).as_str());
            r.append(">");
            r
        },
        TypeRepr::Vec(x) => {
            proof {
                assert(decreases_to!(*t => t->Vec_0));
            }
            let mut r = String::from_str("Vec<");
            r.append(get_type_text(&**x).as_str());
            r.append(">");
            r
        },
        TypeRepr::Array(x, n) => {
            proof {
                assert(decreases_to!(*t => t->Array_0));
            }
            let mut r = String::from_str("[");
            r.append(get_type_text(&**x).as_str());
            r.append("; ");
            r.append(to_decimal(*n as u64).as_str());
            r.append("]");
            r
        },
    }
}

/// The `{#each}` expression `expr` of type `t` as a `Vec`, with its item
/// type; `None` where that cannot be done. See `vec_form`.
pub fn try_each_expr_to_vec_and_item_type(expr: String, t: TypeRepr) -> (r: Option<(String, TypeRepr)>)
    ensures
        match r {
            Some(p) => vec_form(expr@, type_view(t)) == Some((p.0@, type_view(p.1))),
            None => vec_form(expr@, type_view(t)) is None,
        },
{
    let ghost tv = type_view(t);
    match t {
        TypeRepr::Array(el, _) => {
            let mut x = expr;
            x.append(".to_vec()");
            Some((x, *el))
        },
        TypeRepr::Vec(el) => Some((expr, *el)),
        TypeRepr::Range(el) => {
            let whole = TypeRepr::Range(el);
            let tt = get_type_text(&whole);
            let mut x = String::from_str("(");
            x.append(expr.as_str());
            x.append(").into_iter().collect::<Vec<_>>()");
            let mut item = String::from_str("<");
            item.append(tt.as_str());
            item.append(" as IntoIterator>::Item");
            Some((x, TypeRepr::Named(item)))
        },
        TypeRepr::Named(s) => {
            let p = type_split(s.as_str());
            if p.0 == 0 {
                let mut x = expr;
                x.append(".to_vec()");
                Some((x, TypeRepr::Named(p.1)))
            } else if p.0 == 1 {
                if crate::text::str_eq(p.1.as_str(), "Vec") {
                    match p.2 {
                        Some(a) => Some((expr, TypeRepr::Named(a))),
                        None => None,
                    }
                } else {
                    let mut x = String::from_str("(");
                    x.append(expr.as_str());
                    x.append(").into_iter().collect::<Vec<_>>()");
                    let mut item = String::from_str("<");
                    item.append(s.as_str());
                    item.append(" as IntoIterator>::Item");
                    Some((x, TypeRepr::Named(item)))
                }
            } else {
                None
            }
        },
    }
}


/// Every literal gives its own type, whatever variables are in scope: an
/// integer its suffix or `i32`, a float its suffix or `f64`, a string
/// `String`, a `bool` literal `bool`, a character `char`; and an array,
/// range or `vec![..]` of character literals is an array of `n` chars, a
/// range of chars or a `Vec` of chars.
pub proof fn lemma_literal_types(reactive: Seq<ReactiveVar>, scoped: Seq<EachVar>, suffix: String, n: usize)
    ensures
        infer_scalar(ScalarShape::CharLit, reactive, scoped) == Some(SType::Named("char"@)),
        infer_scalar(ScalarShape::StrLit, reactive, scoped) == Some(SType::Named("String"@)),
        infer_scalar(ScalarShape::BoolLit, reactive, scoped) == Some(SType::Named("bool"@)),
        infer_scalar(ScalarShape::IntLit(suffix), reactive, scoped) == Some(SType::Named(
            if suffix@.len() > 0 { suffix@ } else { "i32"@ },
        )),
        infer_scalar(ScalarShape::FloatLit(suffix), reactive, scoped) == Some(SType::Named(
            if suffix@.len() > 0 { suffix@ } else { "f64"@ },
        )),
        infer_scalar(ScalarShape::OtherLit, reactive, scoped) is None,
        infer_each(EachShape::Array(n, Some(ScalarShape::CharLit)), reactive, scoped) == Some(
            SType::Array(Box::new(SType::Named("char"@)), n as nat),
        ),
        type_text(infer_each(EachShape::Array(n, Some(ScalarShape::CharLit)), reactive, scoped)->Some_0)
            == "[char; "@ + spec_digits(n as nat, 10) + "]"@,
        infer_each(EachShape::Range(Some(ScalarShape::CharLit)), reactive, scoped) == Some(
            SType::Range(Box::new(SType::Named("char"@))),
        ),
        infer_each(EachShape::VecMacro(Some(ScalarShape::CharLit)), reactive, scoped) == Some(
            SType::Vec(Box::new(SType::Named("char"@))),
        ),
{
    reveal_strlit("[");
    reveal_strlit("char");
    reveal_strlit("; ");
    reveal_strlit("[char; ");
    assert("["@ + "char"@ + "; "@ =~= "[char; "@);
    let c = SType::Named("char"@);
    let t = SType::Array(Box::new(c), n as nat);
    assert(type_text(c) == "char"@);
    assert(type_text(t) == "["@ + type_text(c) + "; "@ + spec_digits(n as nat, 10) + "]"@);
}

/// The type of an array literal is an array of the type of its first
/// element, with its length; the type of a `vec![..]` a `Vec` of it; the
/// type of a range a range of the type of its bound; and an expression in
/// parentheses has the type of what it holds.
pub proof fn lemma_each_structure(x: ScalarShape, e: EachShape, reactive: Seq<ReactiveVar>, scoped: Seq<EachVar>, n: usize)
    ensures
        infer_each(EachShape::Array(n, Some(x)), reactive, scoped) == match infer_scalar(x, reactive, scoped) {
            Some(t) => Some(SType::Array(Box::new(t), n as nat)),
            None => None::<SType>,
        },
        infer_each(EachShape::VecMacro(Some(x)), reactive, scoped) == match infer_scalar(x, reactive, scoped) {
            Some(t) => Some(SType::Vec(Box::new(t))),
            None => None::<SType>,
        },
        infer_each(EachShape::Range(Some(x)), reactive, scoped) == match infer_scalar(x, reactive, scoped) {
            Some(t) => Some(SType::Range(Box::new(t))),
            None => None::<SType>,
        },
        infer_each(EachShape::Inner(Box::new(e)), reactive, scoped) == infer_each(e, reactive, scoped),
        infer_scalar(ScalarShape::Inner(Box::new(x)), reactive, scoped) == infer_scalar(x, reactive, scoped),
{
}


/// A path takes the type of the variable it names: an `{#each}` item named
/// so in the template comes before a reactive variable, the innermost item
/// first; a path that names no variable has no type.
pub proof fn lemma_path_types(id: String, reactive: Seq<ReactiveVar>, scoped: Seq<EachVar>)
    ensures
        scoped.len() > 0 && scoped[0].original_name@ == id@ ==> infer_scalar(
            ScalarShape::Path(Some(id)),
            reactive,
            scoped,
        ) == Some(SType::Named(scoped[0].ty@)),
        scoped.len() == 0 && reactive.len() > 0 && reactive[0].name@ == id@ ==> infer_scalar(
            ScalarShape::Path(Some(id)),
            reactive,
            scoped,
        ) == Some(SType::Named(reactive[0].ty@)),
        (forall|j: int| 0 <= j < scoped.len() ==> (#[trigger] scoped[j]).original_name@ != id@) && (forall|j: int|
            0 <= j < reactive.len() ==> (#[trigger] reactive[j]).name@ != id@) ==> infer_scalar(
            ScalarShape::Path(Some(id)),
            reactive,
            scoped,
        ) is None,
{
    if (forall|j: int| 0 <= j < scoped.len() ==> (#[trigger] scoped[j]).original_name@ != id@) && (forall|j: int|
        0 <= j < reactive.len() ==> (#[trigger] reactive[j]).name@ != id@) {
        lemma_var_type_none(id@, reactive, scoped);
    }
}

proof fn lemma_var_type_none(id: Seq<char>, reactive: Seq<ReactiveVar>, scoped: Seq<EachVar>)
    requires
        forall|j: int| 0 <= j < scoped.len() ==> (#[trigger] scoped[j]).original_name@ != id,
        forall|j: int| 0 <= j < reactive.len() ==> (#[trigger] reactive[j]).name@ != id,
    ensures
        var_type(id, reactive, scoped) is None,
    decreases reactive.len() + scoped.len(),
{
    if scoped.len() > 0 {
        assert(scoped[0].original_name@ != id);
        assert forall|j: int| 0 <= j < scoped.drop_first().len() implies (#[trigger] scoped.drop_first()[j]).original_name@ != id by {
            assert(scoped.drop_first()[j] == scoped[j + 1]);
        }
        lemma_var_type_none(id, reactive, scoped.drop_first());
    } else if reactive.len() > 0 {
        assert(reactive[0].name@ != id);
        assert forall|j: int| 0 <= j < reactive.drop_first().len() implies (#[trigger] reactive.drop_first()[j]).name@ != id by {
            assert(reactive.drop_first()[j] == reactive[j + 1]);
        }
        lemma_var_type_none(id, reactive.drop_first(), scoped);
    }
}

} // verus!
