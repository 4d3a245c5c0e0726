//! The declarations of a component's state, `struct $state { name: T =
//! $kind(default), ... }`: the type a default value implies, and what each
//! declaration becomes.

use vstd::prelude::*;
use vstd::string::StringExecFns;

use crate::numtext::{spec_digits, to_decimal};
use crate::parse::rs_parse::{ExprHead, Prop, SHead, StateVar, expr_head, spec_head};
use crate::utils::CompileError;

verus! {

/// The shape of a default value, as far as the type it implies depends on
/// it.
pub enum ExprShape {
    /// An integer literal, with its suffix (empty where there is none).
    IntLit(String),
    /// A floating-point literal, with its suffix (empty where there is none).
    FloatLit(String),
    StrLit,
    BoolLit,
    CharLit,
    ByteLit,
    ByteStrLit,
    /// Any other literal.
    OtherLit,
    /// A method call, with the method's name.
    MethodCall(String),
    /// A macro call, and whether its path is `vec`.
    Macro(bool),
    Array(Vec<ExprShape>),
    Tuple(Vec<ExprShape>),
    /// A reference, whether it is `&mut`, and what it refers to.
    Reference(bool, Box<ExprShape>),
    /// Any other expression.
    Other,
}

/// The texts `ts` separated by `, `.
pub open spec fn join(ts: Seq<Seq<char>>) -> Seq<char>
    decreases ts.len(),
{
    if ts.len() == 0 {
        seq![]
    } else if ts.len() == 1 {
        ts[0]
    } else {
        join(ts.drop_last()) + ", "@ + ts.last()
    }
}

/// The source text of the type that a default value of shape `e` implies:
/// the suffix of a number, or `i32` and `f64` without one; `String`, `bool`,
/// `char`, `u8` and `Vec<u8>` for the other literals; `String` for a
/// `.to_string()` call; `Vec<_>` for `vec![..]`; `[T; n]` for an array whose
/// first element implies `T`; a tuple of the types of all the elements; and
/// a reference to the type of what is referred to. `None` where no type is
/// implied.
pub open spec fn infer_type(e: ExprShape) -> Option<Seq<char>>
    decreases e,
{
    match e {
        ExprShape::IntLit(s) => if s@.len() > 0 {
            Some(s@)
        } else {
            Some("i32"@)
        },
        ExprShape::FloatLit(s) => if s@.len() > 0 {
            Some(s@)
        } else {
            Some("f64"@)
        },
        ExprShape::StrLit => Some("String"@),
        ExprShape::BoolLit => Some("bool"@),
        ExprShape::CharLit => Some("char"@),
        ExprShape::ByteLit => Some("u8"@),
        ExprShape::ByteStrLit => Some("Vec<u8>"@),
        ExprShape::OtherLit => None,
        ExprShape::MethodCall(m) => if m@ == "to_string"@ {
            Some("String"@)
        } else {
            None
        },
        ExprShape::Macro(is_vec) => if is_vec {
            Some("Vec<_>"@)
        } else {
            None
        },
        ExprShape::Array(elems) => if elems@.len() > 0 {
            match infer_type(elems@[0]) {
                Some(t) => Some("["@ + t + "; "@ + spec_digits(elems@.len(), 10) + "]"@),
                None => None,
            }
        } else {
            None
        },
        ExprShape::Tuple(elems) => match infer_types(elems@) {
            Some(ts) => Some("("@ + join(ts) + ")"@),
            None => None,
        },
        ExprShape::Reference(m, inner) => match infer_type(*inner) {
            Some(t) => Some("&"@ + (if m {
                "mut "@
            } else {
                seq![]
            }) + t),
            None => None,
        },
        ExprShape::Other => None,
    }
}

/// The types of all of `es`, where each implies one.
pub open spec fn infer_types(es: Seq<ExprShape>) -> Option<Seq<Seq<char>>>
    decreases es,
{
    if es.len() == 0 {
        Some(seq![])
    } else {
        match (infer_types(es.drop_last()), infer_type(es.last())) {
            (Some(ts), Some(t)) => Some(ts.push(t)),
            _ => None,
        }
    }
}

/// The source text of the type that a default value of shape `expr`
/// implies; see `infer_type`.
pub fn infer_type_from_expr(expr: &ExprShape) -> (r: Option<String>)
    ensures
        match r {
            Some(t) => infer_type(*expr) == Some(t@),
            None => infer_type(*expr) is None,
        },
    decreases expr,
{
    match expr {
        ExprShape::IntLit(s) => {
            if !s.as_str().is_empty() {
                Some(s.clone())
            } else {
                Some(String::from_str("i32"))
            }
        },
        ExprShape::FloatLit(s) => {
            if !s.as_str().is_empty() {
                Some(s.clone())
            } else {
                Some(String::from_str("f64"))
            }
        },
        ExprShape::StrLit => Some(String::from_str("String")),
        ExprShape::BoolLit => Some(String::from_str("bool")),
        ExprShape::CharLit => Some(String::from_str("char")),
        ExprShape::ByteLit => Some(String::from_str("u8")),
        ExprShape::ByteStrLit => Some(String::from_str("Vec<u8>")),
        ExprShape::OtherLit => None,
        ExprShape::MethodCall(m) => {
            if crate::text::str_eq(m.as_str(), "to_string") {
                Some(String::from_str("String"))
            } else {
                None
            }
        },
        ExprShape::Macro(is_vec) => {
            if *is_vec {
                Some(String::from_str("Vec<_>"))
            } else {
                None
            }
        },
        ExprShape::Array(elems) => {
            if elems.len() > 0 {
                proof {
                    assert(decreases_to!(*expr => expr->Array_0));
                    assert(decreases_to!(expr->Array_0 => expr->Array_0@));
                    assert(decreases_to!(expr->Array_0@ => expr->Array_0@[0]));
                }
                match infer_type_from_expr(&elems[0]) {
                    Some(t) => {
                        let mut r = String::from_str("[");
                        r.append(t.as_str());
                        r.append("; ");
                        r.append(to_decimal(elems.len() as u64).as_str());
                        r.append("]");
                        Some(r)
                    },
                    None => None,
                }
            } else {
                None
            }
        },
        ExprShape::Tuple(elems) => {
            let mut r = String::from_str("(");
            let mut i: usize = 0;
            while i < elems.len()
                invariant
                    i <= elems@.len(),
                    *expr == ExprShape::Tuple(*elems),
                    infer_types(elems@.take(i as int)) matches Some(ts) && r@ == "("@ + join(ts) && ts.len() == i,
                decreases elems@.len() - i,
            {
                proof {
                    assert(decreases_to!(*expr => expr->Tuple_0));
                    assert(decreases_to!(expr->Tuple_0 => expr->Tuple_0@));
                    assert(decreases_to!(expr->Tuple_0@ => expr->Tuple_0@[i as int]));
                    assert(elems@.take(i + 1).drop_last() =~= elems@.take(i as int));
                    assert(elems@.take(i + 1).last() == elems@[i as int]);
                }
                let ghost ts = infer_types(elems@.take(i as int))->Some_0;
                match infer_type_from_expr(&elems[i]) {
                    Some(t) => {
                        if i > 0 {
                            r.append(", ");
                        }
                        r.append(t.as_str());
                        proof {
                            let ts1 = ts.push(t@);
                            assert(ts1.drop_last() =~= ts);
                            if i == 0 {
                                assert(join(ts1) == t@);
                                assert(r@ =~= "("@ + join(ts1));
                            } else {
                                assert(join(ts1) == join(ts) + ", "@ + t@);
                                assert(r@ =~= "("@ + join(ts1));
                            }
                        }
                    },
                    None => {
                        proof {
                            lemma_infer_types_prefix(elems@, (i + 1) as int);
                        }
                        return None;
                    },
                }
                i = i + 1;
            }
            assert(elems@.take(i as int) =~= elems@);
            r.append(")");
            Some(r)
        },
        ExprShape::Reference(m, inner) => {
            proof {
                assert(decreases_to!(*expr => expr->Reference_1));
            }
            match infer_type_from_expr(&**inner) {
                Some(t) => {
                    let mut r = String::from_str("&");
                    if *m {
                        r.append("mut ");
                    }
                    r.append(t.as_str());
                    Some(r)
                },
                None => None,
            }
        },
        ExprShape::Other => None,
    }
}

/// Where a prefix of `es` has an element that implies no type, so does the
/// whole.
pub proof fn lemma_infer_types_prefix(es: Seq<ExprShape>, k: int)
    requires
        0 <= k <= es.len(),
        infer_types(es.take(k)) is None,
    ensures
        infer_types(es) is None,
    decreases es.len() - k,
{
    if k < es.len() {
        assert(es.take(k + 1).drop_last() =~= es.take(k));
        lemma_infer_types_prefix(es, k + 1);
    } else {
        assert(es.take(k) =~= es);
    }
}

/// A declaration of a component's state.
pub enum ScriptVar {
    /// `name: T = $prop(default)`.
    Prop(Prop),
    /// `name: T = $bindable(default)`.
    Bindable(Prop),
    /// `name: T = $state(default)`.
    State(StateVar),
    /// `name: T = $derived(expr)`.
    Derived(StateVar),
}

pub open spec fn msg_cannot_infer() -> Seq<char> {
    "Could not infer type for reactive state variable; please specify type explicitly"@
}

pub open spec fn msg_type_required() -> Seq<char> {
    "Type annotation is required if no default value is provided"@
}

pub open spec fn msg_default_required() -> Seq<char> {
    "Default value is required for reactive state variables"@
}

pub open spec fn msg_bad_kind() -> Seq<char> {
    "Expected 'prop' or 'bindable' after '$'"@
}

/// A default value as the outcome of a declaration sees it: its source text,
/// the type it implies, and whether it is a string literal.
pub open spec fn default_facts(default: Option<(String, ExprShape)>) -> Option<(Seq<char>, Option<Seq<char>>, bool)> {
    match default {
        Some((t, sh)) => Some((t@, infer_type(sh), sh is StrLit)),
        None => None,
    }
}

/// The source text of the default value of a declaration of type `ty`: the
/// text as written, with `.to_string()` appended to a string literal where
/// the type is `String`.
pub open spec fn default_text(ty: Seq<char>, default: Option<(Seq<char>, Option<Seq<char>>, bool)>) -> Option<Seq<char>> {
    match default {
        Some((t, _, is_str)) => if ty == "String"@ && is_str {
            Some(t + ".to_string()"@)
        } else {
            Some(t)
        },
        None => None,
    }
}

/// The type of a declaration: the written type where there is one, and
/// otherwise the type its default value implies.
pub open spec fn decl_type(declared: Option<Seq<char>>, default: Option<(Seq<char>, Option<Seq<char>>, bool)>) -> Option<Seq<char>> {
    match declared {
        Some(t) => Some(t),
        None => match default {
            Some((_, inferred, _)) => inferred,
            None => None,
        },
    }
}

/// What a declaration `name: declared = $kind(default)` is, for a default
/// value given by its text, the type it implies and whether it is a string
/// literal: the index of its kind (`prop`, `bindable`, `state`, `derived`),
/// its type, and its default value; or the message of its error. A written
/// type is the type; without one, the default value must imply a type, and
/// without either there is no type. A `$state` or `$derived` variable needs a
/// default value.
pub open spec fn outcome_of(
    declared: Option<Seq<char>>,
    kind: Seq<char>,
    default: Option<(Seq<char>, Option<Seq<char>>, bool)>,
) -> Result<(int, Seq<char>, Option<Seq<char>>), Seq<char>> {
    let ty = decl_type(declared, default);
    if declared is None && (default matches Some((_, inferred, _)) && inferred is None) {
        Err(msg_cannot_infer())
    } else if ty is None {
        Err(msg_type_required())
    } else if kind == "prop"@ {
        Ok((0, ty->Some_0, default_text(ty->Some_0, default)))
    } else if kind == "bindable"@ {
        Ok((1, ty->Some_0, default_text(ty->Some_0, default)))
    } else if kind == "state"@ || kind == "derived"@ {
        if default is None {
            Err(msg_default_required())
        } else if kind == "state"@ {
            Ok((2, ty->Some_0, default_text(ty->Some_0, default)))
        } else {
            Ok((3, ty->Some_0, default_text(ty->Some_0, default)))
        }
    } else {
        Err(msg_bad_kind())
    }
}

/// What a declaration `name: declared = $kind(default)` is, with its default
/// value given by text and shape; see `outcome_of`.
pub open spec fn var_outcome(
    declared: Option<String>,
    kind: Seq<char>,
    default: Option<(String, ExprShape)>,
) -> Result<(int, Seq<char>, Option<Seq<char>>), Seq<char>> {
    outcome_of(
        match declared {
            Some(t) => Some(t@),
            None => None,
        },
        kind,
        default_facts(default),
    )
}

/// The declaration `name: declared_ty = $kind(default)` of a component's
/// state (see `var_outcome`), with the flag bit `flag_pos`; the next
/// declaration gets the next bit. `default` is the source text of the
/// default value and its shape.
pub fn parse_var(
    name: String,
    declared_ty: Option<String>,
    kind: &str,
    default: Option<(String, ExprShape)>,
    flag_pos: &mut u8,
) -> (r: Result<ScriptVar, CompileError>)
    requires
        *old(flag_pos) < 255,
    ensures
        match var_outcome(declared_ty, kind@, default) {
            Err(m) => r matches Err(CompileError::GenericError(e)) && e@ == m && *final(flag_pos)
                == *old(flag_pos),
            Ok((k, ty, d)) => *final(flag_pos) == *old(flag_pos) + 1 && match r {
                Ok(ScriptVar::Prop(p)) => k == 0 && p.name == name && p.ty@ == ty && (match p.default {
                    Some(x) => d == Some(x@),
                    None => d is None,
                }) && p.flag_pos == *old(flag_pos),
                Ok(ScriptVar::Bindable(p)) => k == 1 && p.name == name && p.ty@ == ty && (match p.default {
                    Some(x) => d == Some(x@),
                    None => d is None,
                }) && p.flag_pos == *old(flag_pos),
                Ok(ScriptVar::State(v)) => k == 2 && v.name == name && v.ty@ == ty && d == Some(
                    v.default@,
                ) && v.flag_pos == *old(flag_pos),
                Ok(ScriptVar::Derived(v)) => k == 3 && v.name == name && v.ty@ == ty && d == Some(
                    v.default@,
                ) && v.flag_pos == *old(flag_pos),
                Err(_) => false,
            },
        },
{
    let mut ty = declared_ty;
    if ty.is_none() {
        match &default {
            Some((_, shape)) => {
                match infer_type_from_expr(shape) {
                    None => {
                        return Err(CompileError::GenericError(String::from_str(
                            "Could not infer type for reactive state variable; please specify type explicitly",
                        )));
                    },
                    Some(inferred) => {
                        ty = Some(inferred);
                    },
                }
            },
            None => {},
        }
    }
    let ty = match ty {
        Some(t) => t,
        None => {
            return Err(CompileError::GenericError(String::from_str(
                "Type annotation is required if no default value is provided",
            )));
        },
    };
    let default_expr: Option<String> = match default {
        Some((text, shape)) => {
            let is_str = match &shape {
                ExprShape::StrLit => true,
                _ => false,
            };
            if crate::text::str_eq(ty.as_str(), "String") && is_str {
                let mut d = text;
                d.append(".to_string()");
                Some(d)
            } else {
                Some(text)
            }
        },
        None => None,
    };
    let pos = *flag_pos;
    let r = if crate::text::str_eq(kind, "prop") {
        ScriptVar::Prop(Prop { name, ty, default: default_expr, flag_pos: pos })
    } else if crate::text::str_eq(kind, "bindable") {
        ScriptVar::Bindable(Prop { name, ty, default: default_expr, flag_pos: pos })
    } else if crate::text::str_eq(kind, "state") || crate::text::str_eq(kind, "derived") {
        let d = match default_expr {
            Some(d) => d,
            None => {
                return Err(CompileError::GenericError(String::from_str(
                    "Default value is required for reactive state variables",
                )));
            },
        };
        if crate::text::str_eq(kind, "state") {
            ScriptVar::State(StateVar { name, ty, default: d, flag_pos: pos })
        } else {
            ScriptVar::Derived(StateVar { name, ty, default: d, flag_pos: pos })
        }
    } else {
        return Err(CompileError::GenericError(String::from_str(
            "Expected 'prop' or 'bindable' after '$'",
        )));
    };
    *flag_pos = pos + 1;
    Ok(r)
}


// ---------------------------------------------------------------------------
// The shape of a default value, read from its text.

/// What `syn::parse_str::<syn::Lit>` gives for a literal's text: 0 for an
/// integer and 1 for a float, each with its suffix; 2 for a string, 3 for a
/// `bool`, 4 for a `char`, 5 for a byte and 6 for a byte string; 7 for any
/// other literal or for a text that is no literal.
pub uninterp spec fn spec_lit_kind(s: Seq<char>) -> (int, Seq<char>);

/// Parses `s` with `syn::parse_str::<syn::Lit>`. Claimed: the result is
/// `spec_lit_kind(s)`: the variant of the literal, with `suffix()` of a
/// number.
#[verifier::external_body]
fn lit_kind(s: &str) -> (r: (u8, String))
    ensures
        (r.0 as int, r.1@) == spec_lit_kind(s@),
{
    match syn::parse_str::<syn::Lit>(s) {
        Ok(syn::Lit::Int(i)) => (0, i.suffix().to_string()),
        Ok(syn::Lit::Float(f)) => (1, f.suffix().to_string()),
        Ok(syn::Lit::Str(_)) => (2, String::new()),
        Ok(syn::Lit::Bool(_)) => (3, String::new()),
        Ok(syn::Lit::Char(_)) => (4, String::new()),
        Ok(syn::Lit::Byte(_)) => (5, String::new()),
        Ok(syn::Lit::ByteStr(_)) => (6, String::new()),
        _ => (7, String::new()),
    }
}

/// `e` is the shape of the literal with text `t`.
pub open spec fn lit_shape_ok(e: ExprShape, t: Seq<char>) -> bool {
    let k = spec_lit_kind(t);
    if k.0 == 0 {
        e matches ExprShape::IntLit(x) && x@ == k.1
    } else if k.0 == 1 {
        e matches ExprShape::FloatLit(x) && x@ == k.1
    } else if k.0 == 2 {
        e is StrLit
    } else if k.0 == 3 {
        e is BoolLit
    } else if k.0 == 4 {
        e is CharLit
    } else if k.0 == 5 {
        e is ByteLit
    } else if k.0 == 6 {
        e is ByteStrLit
    } else {
        e is OtherLit
    }
}

/// `e` is the shape of the expression with text `s`, read down to `fuel`
/// levels of nesting (below them, `Other`): literals by their kind, method
/// calls by the method, macro calls by whether they are `vec!`, arrays and
/// tuples by the shapes of their elements, references by what they refer to.
pub open spec fn shape_of(e: ExprShape, s: Seq<char>, fuel: nat) -> bool
    decreases fuel,
{
    if fuel == 0 {
        e is Other
    } else {
        match spec_head(s) {
            SHead::Lit(t) => lit_shape_ok(e, t),
            SHead::MethodCall(m) => e matches ExprShape::MethodCall(x) && x@ == m,
            SHead::Macro(b) => e matches ExprShape::Macro(c) && c == b,
            SHead::Array(es) => e matches ExprShape::Array(v) && v@.len() == es.len() && forall|i: int|
                0 <= i < es.len() ==> shape_of(#[trigger] v@[i], es[i], (fuel - 1) as nat),
            SHead::Tuple(es) => e matches ExprShape::Tuple(v) && v@.len() == es.len() && forall|i: int|
                0 <= i < es.len() ==> shape_of(#[trigger] v@[i], es[i], (fuel - 1) as nat),
            SHead::Reference(m, t) => e matches ExprShape::Reference(n, b) && n == m && shape_of(*b, t, (fuel - 1) as nat),
            _ => e is Other,
        }
    }
}

/// The type that the expression with text `s` implies, read to `fuel`
/// levels; see `infer_type`.
pub open spec fn text_type(s: Seq<char>, fuel: nat) -> Option<Seq<char>>
    decreases fuel, 0int, 0int,
{
    if fuel == 0 {
        None
    } else {
        match spec_head(s) {
            SHead::Lit(t) => {
                let k = spec_lit_kind(t);
                if k.0 == 0 {
                    Some(if k.1.len() > 0 { k.1 } else { "i32"@ })
                } else if k.0 == 1 {
                    Some(if k.1.len() > 0 { k.1 } else { "f64"@ })
                } else if k.0 == 2 {
                    Some("String"@)
                } else if k.0 == 3 {
                    Some("bool"@)
                } else if k.0 == 4 {
                    Some("char"@)
                } else if k.0 == 5 {
                    Some("u8"@)
                } else if k.0 == 6 {
                    Some("Vec<u8>"@)
                } else {
                    None
                }
            },
            SHead::MethodCall(m) => if m == "to_string"@ { Some("String"@) } else { None },
            SHead::Macro(b) => if b { Some("Vec<_>"@) } else { None },
            SHead::Array(es) => if es.len() > 0 {
                match text_type(es[0], (fuel - 1) as nat) {
                    Some(t) => Some("["@ + t + "; "@ + spec_digits(es.len(), 10) + "]"@),
                    None => None,
                }
            } else {
                None
            },
            SHead::Tuple(es) => match text_types(es, (fuel - 1) as nat) {
                Some(ts) => Some("("@ + join(ts) + ")"@),
                None => None,
            },
            SHead::Reference(m, t) => match text_type(t, (fuel - 1) as nat) {
                Some(x) => Some("&"@ + (if m { "mut "@ } else { seq![] }) + x),
                None => None,
            },
            _ => None,
        }
    }
}

/// The types of all of `es`, where each implies one.
pub open spec fn text_types(es: Seq<Seq<char>>, fuel: nat) -> Option<Seq<Seq<char>>>
    decreases fuel, 1int, es.len(),
{
    if es.len() == 0 {
        Some(seq![])
    } else {
        match (text_types(es.drop_last(), fuel), text_type(es.last(), fuel)) {
            (Some(ts), Some(t)) => Some(ts.push(t)),
            _ => None,
        }
    }
}

/// Whether the text `s` is a string literal.
pub open spec fn text_is_str(s: Seq<char>) -> bool {
    spec_head(s) matches SHead::Lit(t) && spec_lit_kind(t).0 == 2
}

/// The shape of an expression determines the type it implies as its text
/// does, and whether it is a string literal.
pub proof fn lemma_shape_type(e: ExprShape, s: Seq<char>, fuel: nat)
    requires
        shape_of(e, s, fuel),
    ensures
        infer_type(e) == text_type(s, fuel),
        fuel > 0 ==> ((e is StrLit) == text_is_str(s)),
    decreases fuel, 0int, 0int,
{
    if fuel > 0 {
        match spec_head(s) {
            SHead::Array(es) => {
                let v = e->Array_0;
                if es.len() > 0 {
                    lemma_shape_type(v@[0], es[0], (fuel - 1) as nat);
                }
            },
            SHead::Tuple(es) => {
                let v = e->Tuple_0;
                lemma_shape_types(v@, es, (fuel - 1) as nat);
            },
            SHead::Reference(m, t) => {
                lemma_shape_type(*e->Reference_1, t, (fuel - 1) as nat);
            },
            _ => {},
        }
    }
}

pub proof fn lemma_shape_types(v: Seq<ExprShape>, es: Seq<Seq<char>>, fuel: nat)
    requires
        v.len() == es.len(),
        forall|i: int| 0 <= i < es.len() ==> shape_of(#[trigger] v[i], es[i], fuel),
    ensures
        infer_types(v) == text_types(es, fuel),
    decreases fuel, 1int, es.len(),
{
    if es.len() > 0 {
        let n = es.len() - 1;
        assert forall|i: int| 0 <= i < n implies shape_of(#[trigger] v.drop_last()[i], es.drop_last()[i], fuel) by {
            assert(v.drop_last()[i] == v[i]);
        }
        lemma_shape_types(v.drop_last(), es.drop_last(), fuel);
        assert(shape_of(v[n], es[n], fuel));
        lemma_shape_type(v.last(), es.last(), fuel);
    }
}

/// The shape of the expression with text `s`, read to `fuel` levels; see
/// `shape_of`.
pub fn shape_of_text(s: &str, fuel: usize) -> (e: ExprShape)
    ensures
        shape_of(e, s@, fuel as nat),
    decreases fuel, 0int,
{
    if fuel == 0 {
        return ExprShape::Other;
    }
    match expr_head(s).1 {
        ExprHead::Lit(t) => {
            let (k, suffix) = lit_kind(t.as_str());
            if k == 0 {
                ExprShape::IntLit(suffix)
            } else if k == 1 {
                ExprShape::FloatLit(suffix)
            } else if k == 2 {
                ExprShape::StrLit
            } else if k == 3 {
                ExprShape::BoolLit
            } else if k == 4 {
                ExprShape::CharLit
            } else if k == 5 {
                ExprShape::ByteLit
            } else if k == 6 {
                ExprShape::ByteStrLit
            } else {
                ExprShape::OtherLit
            }
        },
        ExprHead::MethodCall(m) => ExprShape::MethodCall(m),
        ExprHead::Macro(b) => ExprShape::Macro(b),
        ExprHead::Array(es) => ExprShape::Array(shapes_of_texts(&es, fuel - 1)),
        ExprHead::Tuple(es) => ExprShape::Tuple(shapes_of_texts(&es, fuel - 1)),
        ExprHead::Reference(m, t) => ExprShape::Reference(m, Box::new(shape_of_text(t.as_str(), fuel - 1))),
        _ => ExprShape::Other,
    }
}

fn shapes_of_texts(es: &Vec<String>, fuel: usize) -> (v: Vec<ExprShape>)
    ensures
        v@.len() == es@.len(),
        forall|i: int| 0 <= i < es@.len() ==> shape_of(#[trigger] v@[i], es@[i]@, fuel as nat),
    decreases fuel, 1int,
{
    let mut v: Vec<ExprShape> = Vec::new();
    let mut i: usize = 0;
    while i < es.len()
        invariant
            i <= es@.len(),
            v@.len() == i,
            forall|k: int| 0 <= k < i ==> shape_of(#[trigger] v@[k], es@[k]@, fuel as nat),
        decreases es@.len() - i,
    {
        let e = shape_of_text(es[i].as_str(), fuel);
        v.push(e);
        i = i + 1;
    }
    v
}

} // verus!
