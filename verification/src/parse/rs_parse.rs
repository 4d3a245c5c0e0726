//! The Rust pieces of a component: expressions written in the template, and
//! the closures attached to attributes. Whether a text is a Rust expression is
//! decided by `syn`.

use syn::Expr;
use vstd::prelude::*;

use crate::parse::html_parse::{AttrType, SAttr, attr_view};
use crate::text::{split, split_chars, trim, trim_chars, find, find_char, lemma_find, slice_chars};
use crate::utils::{CompileError, string_from_chars, chars_of};

verus! {

/// A closure attached to an attribute, `|arg| body` or `|| body`: its event
/// argument (its name and the source text of its type), and the source text
/// of its body.
pub struct AttrClosure {
    pub event_arg: Option<(String, String)>,
    pub body: String,
}

/// A `$prop()` or `$bindable()` property of a component's state: its name,
/// the source text of its type and of its default value, and its flag bit.
pub struct Prop {
    pub name: String,
    pub ty: String,
    pub default: Option<String>,
    pub flag_pos: u8,
}

/// A `$state()` or `$derived()` variable of a component's state: its name,
/// the source text of its type and of its initial value, and its flag bit.
pub struct StateVar {
    pub name: String,
    pub ty: String,
    pub default: String,
    pub flag_pos: u8,
}

/// The outermost form of a Rust expression, with the source text of its
/// parts: a path (its identifier where it is one, as `syn::Path::get_ident`
/// gives it); a call (the callee's text and the number of arguments); a
/// literal; a method call (the method's name); a macro call (whether its path
/// is `vec`); an array or tuple (the elements); a reference (whether `&mut`,
/// and what it refers to); anything else.
pub enum ExprHead {
    Path(Option<String>),
    Call(String, usize),
    Lit(String),
    MethodCall(String),
    Macro(bool),
    Array(Vec<String>),
    Tuple(Vec<String>),
    Reference(bool, String),
    Other,
}

pub enum SHead {
    Path(Option<Seq<char>>),
    Call(Seq<char>, nat),
    Lit(Seq<char>),
    MethodCall(Seq<char>),
    Macro(bool),
    Array(Seq<Seq<char>>),
    Tuple(Seq<Seq<char>>),
    Reference(bool, Seq<char>),
    Other,
}

pub open spec fn texts(v: Seq<String>) -> Seq<Seq<char>> {
    v.map_values(|t: String| t@)
}

pub open spec fn head_view(h: ExprHead) -> SHead {
    match h {
        ExprHead::Path(i) => SHead::Path(opt_text(i)),
        ExprHead::Call(f, n) => SHead::Call(f@, n as nat),
        ExprHead::Lit(t) => SHead::Lit(t@),
        ExprHead::MethodCall(m) => SHead::MethodCall(m@),
        ExprHead::Macro(b) => SHead::Macro(b),
        ExprHead::Array(es) => SHead::Array(texts(es@)),
        ExprHead::Tuple(es) => SHead::Tuple(texts(es@)),
        ExprHead::Reference(m, e) => SHead::Reference(m, e@),
        ExprHead::Other => SHead::Other,
    }
}

/// What `syn::parse_str::<syn::Expr>` gives for a text: the message of its
/// error where the text is not one Rust expression; and the variant of the
/// expression: 0 a path, 1 a call, 2 a literal, 3 a method call, 4 a macro
/// call, 5 an array, 6 a tuple, 7 a reference, 8 anything else.
pub uninterp spec fn spec_parse_expr(s: Seq<char>) -> (Option<Seq<char>>, int);

/// The identifier that `syn::parse_str::<syn::Path>` reads in a text, as
/// `syn::Path::get_ident` gives it.
pub uninterp spec fn spec_path_get_ident(s: Seq<char>) -> Option<Seq<char>>;

/// The callee's text and the number of arguments of the call that
/// `syn::parse_str::<syn::ExprCall>` reads in a text.
pub uninterp spec fn spec_call_parts(s: Seq<char>) -> Option<(Seq<char>, nat)>;

/// The method's name of the method call that
/// `syn::parse_str::<syn::ExprMethodCall>` reads in a text.
pub uninterp spec fn spec_method_name(s: Seq<char>) -> Option<Seq<char>>;

/// Whether the macro call that `syn::parse_str::<syn::ExprMacro>` reads in a
/// text has the path `vec`.
pub uninterp spec fn spec_macro_is_vec(s: Seq<char>) -> bool;

/// The texts of the elements of the array that
/// `syn::parse_str::<syn::ExprArray>` reads in a text.
pub uninterp spec fn spec_array_elems(s: Seq<char>) -> Seq<Seq<char>>;

/// The texts of the elements of the tuple that
/// `syn::parse_str::<syn::ExprTuple>` reads in a text.
pub uninterp spec fn spec_tuple_elems(s: Seq<char>) -> Seq<Seq<char>>;

/// Whether the reference that `syn::parse_str::<syn::ExprReference>` reads in
/// a text is `&mut`, and the text of what it refers to.
pub uninterp spec fn spec_ref_parts(s: Seq<char>) -> Option<(bool, Seq<char>)>;

/// The outermost form of the expression with text `s`: its variant (see
/// `spec_parse_expr`) with its parts.
pub open spec fn spec_head(s: Seq<char>) -> SHead {
    let k = spec_parse_expr(s).1;
    if k == 0 {
        SHead::Path(spec_path_get_ident(s))
    } else if k == 1 && spec_call_parts(s) is Some {
        SHead::Call(spec_call_parts(s)->Some_0.0, spec_call_parts(s)->Some_0.1)
    } else if k == 2 {
        SHead::Lit(s)
    } else if k == 3 && spec_method_name(s) is Some {
        SHead::MethodCall(spec_method_name(s)->Some_0)
    } else if k == 4 {
        SHead::Macro(spec_macro_is_vec(s))
    } else if k == 5 {
        SHead::Array(spec_array_elems(s))
    } else if k == 6 {
        SHead::Tuple(spec_tuple_elems(s))
    } else if k == 7 && spec_ref_parts(s) is Some {
        SHead::Reference(spec_ref_parts(s)->Some_0.0, spec_ref_parts(s)->Some_0.1)
    } else {
        SHead::Other
    }
}

/// What `syn::parse_str::<syn::Expr>` reports for a text: nothing when the
/// text is one Rust expression, otherwise the message of its error.
pub open spec fn spec_expr_check(s: Seq<char>) -> Option<Seq<char>> {
    spec_parse_expr(s).0
}

/// The identifier that a text is, as a path expression.
pub open spec fn spec_path_ident(s: Seq<char>) -> Option<Seq<char>> {
    match spec_head(s) {
        SHead::Path(i) => i,
        _ => None,
    }
}

/// The identifier that a text calls with no arguments, as in `f()`.
pub open spec fn spec_call_ident(s: Seq<char>) -> Option<Seq<char>> {
    match spec_head(s) {
        SHead::Call(f, n) => if n == 0 { spec_path_ident(f) } else { None },
        _ => None,
    }
}

/// The function that a text names as a handler: the identifier it is, or the
/// identifier it calls with no arguments (`f` and `f()` alike).
pub open spec fn spec_handler_ident(s: Seq<char>) -> Option<Seq<char>> {
    match spec_path_ident(s) {
        Some(id) => Some(id),
        None => spec_call_ident(s),
    }
}

/// The text of an optional string.
pub open spec fn opt_text(o: Option<String>) -> Option<Seq<char>> {
    match o {
        Some(t) => Some(t@),
        None => None,
    }
}

/// What `syn::parse_str::<syn::FnArg>` gives for a text, when that is a typed
/// argument whose pattern is a plain identifier: the identifier and the token
/// text of its type.
pub uninterp spec fn spec_typed_arg(s: Seq<char>) -> Option<(Seq<char>, Seq<char>)>;

/// Whether `s` is one identifier token (keywords included), as
/// `syn::ext::IdentExt::parse_any` reads it.
pub uninterp spec fn spec_ident_ok(s: Seq<char>) -> bool;

/// Parses `s` with `syn::parse_str::<syn::Expr>`. Claimed: the result is
/// `spec_parse_expr(s)`: the text of `syn`'s error where parsing fails, and
/// otherwise the variant of the expression.
#[verifier::external_body]
fn parse_expr(s: &str) -> (r: (Option<String>, u8))
    ensures
        (opt_text(r.0), r.1 as int) == spec_parse_expr(s@),
{
    match syn::parse_str::<Expr>(s) {
        Ok(Expr::Path(_)) => (None, 0),
        Ok(Expr::Call(_)) => (None, 1),
        Ok(Expr::Lit(_)) => (None, 2),
        Ok(Expr::MethodCall(_)) => (None, 3),
        Ok(Expr::Macro(_)) => (None, 4),
        Ok(Expr::Array(_)) => (None, 5),
        Ok(Expr::Tuple(_)) => (None, 6),
        Ok(Expr::Reference(_)) => (None, 7),
        Ok(_) => (None, 8),
        Err(e) => (Some(e.to_string()), 8),
    }
}

/// Parses `s` with `syn::parse_str::<syn::Path>` and takes `get_ident`.
/// Claimed: the result is `spec_path_get_ident(s)`.
#[verifier::external_body]
fn path_get_ident(s: &str) -> (r: Option<String>)
    ensures
        opt_text(r) == spec_path_get_ident(s@),
{
    syn::parse_str::<syn::Path>(s).ok().and_then(|p| p.get_ident().map(|i| i.to_string()))
}

/// Parses `s` with `syn::parse_str::<syn::ExprCall>`. Claimed: the result is
/// `spec_call_parts(s)`, the callee's token text and the number of
/// arguments.
#[verifier::external_body]
fn call_parts(s: &str) -> (r: Option<(String, usize)>)
    ensures
        match r {
            Some((f, n)) => spec_call_parts(s@) == Some((f@, n as nat)),
            None => spec_call_parts(s@) is None,
        },
{
    syn::parse_str::<syn::ExprCall>(s).ok().map(|c| (quote::ToTokens::to_token_stream(&c.func).to_string(), c.args.len()))
}

/// Parses `s` with `syn::parse_str::<syn::ExprMethodCall>`. Claimed: the
/// result is `spec_method_name(s)`, the method's name.
#[verifier::external_body]
fn method_name(s: &str) -> (r: Option<String>)
    ensures
        opt_text(r) == spec_method_name(s@),
{
    syn::parse_str::<syn::ExprMethodCall>(s).ok().map(|m| m.method.to_string())
}

/// Parses `s` with `syn::parse_str::<syn::ExprMacro>`. Claimed: the result is
/// `spec_macro_is_vec(s)`, whether it succeeds with the path `vec`.
#[verifier::external_body]
fn macro_is_vec(s: &str) -> (r: bool)
    ensures
        r == spec_macro_is_vec(s@),
{
    syn::parse_str::<syn::ExprMacro>(s).map(|m| m.mac.path.is_ident("vec")).unwrap_or(false)
}

/// Parses `s` with `syn::parse_str::<syn::ExprArray>`. Claimed: the result is
/// `spec_array_elems(s)`, the token texts of the elements (none where parsing
/// fails).
#[verifier::external_body]
fn array_elems(s: &str) -> (r: Vec<String>)
    ensures
        texts(r@) == spec_array_elems(s@),
{
    syn::parse_str::<syn::ExprArray>(s)
        .map(|a| a.elems.iter().map(|x| quote::ToTokens::to_token_stream(x).to_string()).collect())
        .unwrap_or_default()
}

/// Parses `s` with `syn::parse_str::<syn::ExprTuple>`. Claimed: the result is
/// `spec_tuple_elems(s)`, the token texts of the elements (none where parsing
/// fails).
#[verifier::external_body]
fn tuple_elems(s: &str) -> (r: Vec<String>)
    ensures
        texts(r@) == spec_tuple_elems(s@),
{
    syn::parse_str::<syn::ExprTuple>(s)
        .map(|a| a.elems.iter().map(|x| quote::ToTokens::to_token_stream(x).to_string()).collect())
        .unwrap_or_default()
}

/// Parses `s` with `syn::parse_str::<syn::ExprReference>`. Claimed: the
/// result is `spec_ref_parts(s)`: whether it is `&mut`, and the token text of
/// what it refers to.
#[verifier::external_body]
fn ref_parts(s: &str) -> (r: Option<(bool, String)>)
    ensures
        match r {
            Some((m, e)) => spec_ref_parts(s@) == Some((m, e@)),
            None => spec_ref_parts(s@) is None,
        },
{
    syn::parse_str::<syn::ExprReference>(s)
        .ok()
        .map(|r| (r.mutability.is_some(), quote::ToTokens::to_token_stream(&r.expr).to_string()))
}

/// The error of the text `s` as an expression, and its outermost form; see
/// `spec_head`.
pub(crate) fn expr_head(s: &str) -> (r: (Option<String>, ExprHead))
    ensures
        opt_text(r.0) == spec_parse_expr(s@).0,
        head_view(r.1) == spec_head(s@),
{
    let (err, k) = parse_expr(s);
    let head = if k == 0 {
        ExprHead::Path(path_get_ident(s))
    } else if k == 1 {
        match call_parts(s) {
            Some((f, n)) => ExprHead::Call(f, n),
            None => ExprHead::Other,
        }
    } else if k == 2 {
        ExprHead::Lit(s.to_string())
    } else if k == 3 {
        match method_name(s) {
            Some(m) => ExprHead::MethodCall(m),
            None => ExprHead::Other,
        }
    } else if k == 4 {
        ExprHead::Macro(macro_is_vec(s))
    } else if k == 5 {
        ExprHead::Array(array_elems(s))
    } else if k == 6 {
        ExprHead::Tuple(tuple_elems(s))
    } else if k == 7 {
        match ref_parts(s) {
            Some((m, e)) => ExprHead::Reference(m, e),
            None => ExprHead::Other,
        }
    } else {
        ExprHead::Other
    };
    (err, head)
}

/// Whether `s` is a Rust expression: `None` when it is, the message of the
/// parse error otherwise.
pub(crate) fn check_expr(s: &str) -> (r: Option<String>)
    ensures
        r is None <==> spec_expr_check(s@) is None,
        r matches Some(m) ==> spec_expr_check(s@) == Some(m@),
{
    expr_head(s).0
}

/// The function that `s` names as a handler: the identifier it is, or the
/// identifier it calls with no arguments.
pub(crate) fn handler_ident(s: &str) -> (r: Option<String>)
    ensures
        r is None <==> spec_handler_ident(s@) is None,
        r matches Some(i) ==> spec_handler_ident(s@) == Some(i@),
{
    match expr_head(s).1 {
        ExprHead::Path(Some(id)) => Some(id),
        ExprHead::Path(None) => None,
        ExprHead::Call(f, n) => if n == 0 {
            match expr_head(f.as_str()).1 {
                ExprHead::Path(i) => i,
                _ => None,
            }
        } else {
            None
        },
        _ => None,
    }
}

/// Parses `s` with `syn::parse_str::<syn::FnArg>`. Claimed: when the result is
/// a typed argument whose pattern is an identifier, that identifier and the
/// token text of the type are returned; otherwise `None`.
#[verifier::external_body]
fn typed_fn_arg(s: &str) -> (r: Option<(String, String)>)
    ensures
        r is None <==> spec_typed_arg(s@) is None,
        r matches Some(p) ==> spec_typed_arg(s@) == Some((p.0@, p.1@)),
{
    match syn::parse_str::<syn::FnArg>(s) {
        Ok(syn::FnArg::Typed(arg)) => match *arg.pat {
            syn::Pat::Ident(id) => Some(
                (id.ident.to_string(), quote::ToTokens::to_token_stream(&*arg.ty).to_string()),
            ),
            _ => None,
        },
        _ => None,
    }
}

/// Reads `s` with `syn::ext::IdentExt::parse_any`. Claimed: the result is
/// `spec_ident_ok(s)`.
#[verifier::external_body]
pub(crate) fn ident_ok(s: &str) -> (r: bool)
    ensures
        r == spec_ident_ok(s@),
{
    syn::parse::Parser::parse_str(<syn::Ident as syn::ext::IdentExt>::parse_any, s).is_ok()
}

/// The length of a closure's header `|...|` at the start of `s` (which begins
/// with `|`): up to the next `|`, or all of `s`.
pub open spec fn closure_header_len(s: Seq<char>) -> int {
    match find(s.drop_first(), '|') {
        Some(i) => i + 2,
        None => s.len() as int,
    }
}

/// The text between the bars of a closure's header.
pub open spec fn closure_inner(s: Seq<char>) -> Seq<char> {
    match find(s.drop_first(), '|') {
        Some(i) => s.subrange(1, i + 1),
        None => s.drop_first(),
    }
}

/// The trimmed, non-empty pieces of `pieces`, in order.
pub open spec fn nonempty_trimmed(pieces: Seq<Seq<char>>) -> Seq<Seq<char>>
    decreases pieces.len(),
{
    if pieces.len() == 0 {
        seq![]
    } else {
        let t = trim(pieces[0]);
        if t.len() == 0 {
            nonempty_trimmed(pieces.drop_first())
        } else {
            seq![t] + nonempty_trimmed(pieces.drop_first())
        }
    }
}

/// The arguments of a closure whose header is at the start of `s`.
pub open spec fn closure_args(s: Seq<char>) -> Seq<Seq<char>> {
    nonempty_trimmed(split(closure_inner(s), ','))
}

/// The message for an argument of a closure that is not an event handler.
pub open spec fn msg_non_event_arg() -> Seq<char> {
    "Non-event handler closures cannot have non-reactive arguments"@
}

/// The message for a closure with more than one argument.
pub open spec fn msg_multiple_args() -> Seq<char> {
    "Multiple event arguments found in closure; only one event argument is allowed"@
}

/// The type of an event argument written without one.
pub open spec fn default_event_type() -> Seq<char> {
    "web_sys::Event"@
}

/// How an attribute's value is read, `None` where the reading cannot go on
/// (an untyped closure argument that is not an identifier). A value that
/// starts with `|` is a closure: only an event attribute's closure may have an
/// argument, and at most one; an argument without a type has type
/// `web_sys::Event`; the text after the header must be an expression. Any
/// other value must be an expression.
pub open spec fn spec_parse_attr_expression(expr: Seq<char>, is_event: bool) -> Option<
    Result<SAttr, Seq<char>>,
> {
    if expr.len() > 0 && expr[0] == '|' {
        let args = closure_args(expr);
        let body = expr.skip(closure_header_len(expr));
        if args.len() == 0 {
            match spec_expr_check(body) {
                Some(m) => Some(Err(m)),
                None => Some(Ok(SAttr::Closure(None, body))),
            }
        } else if !is_event {
            Some(Err(msg_non_event_arg()))
        } else {
            let a = args[0];
            let ev = match spec_typed_arg(a) {
                Some(p) => Some(p),
                None => if spec_ident_ok(a) {
                    Some((a, default_event_type()))
                } else {
                    None
                },
            };
            match ev {
                None => None,
                Some(p) => if args.len() > 1 {
                    Some(Err(msg_multiple_args()))
                } else {
                    match spec_expr_check(body) {
                        Some(m) => Some(Err(m)),
                        None => Some(Ok(SAttr::Closure(Some(p), body))),
                    }
                },
            }
        }
    } else {
        match spec_expr_check(expr) {
            Some(m) => Some(Err(m)),
            None => Some(Ok(SAttr::Expr(expr))),
        }
    }
}

/// The trimmed, non-empty pieces of `pieces`.
fn nonempty_trimmed_exec(pieces: &Vec<Vec<char>>) -> (r: Vec<Vec<char>>)
    ensures
        r@.map_values(|w: Vec<char>| w@) == nonempty_trimmed(
            pieces@.map_values(|w: Vec<char>| w@),
        ),
{
    let ghost all = pieces@.map_values(|w: Vec<char>| w@);
    assert(all.skip(0) =~= all);
    let mut kept: Vec<Vec<char>> = Vec::new();
    let mut k: usize = 0;
    while k < pieces.len()
        invariant
            k <= pieces@.len(),
            all == pieces@.map_values(|w: Vec<char>| w@),
            nonempty_trimmed(all) == kept@.map_values(|w: Vec<char>| w@) + nonempty_trimmed(
                all.skip(k as int),
            ),
        decreases pieces@.len() - k,
    {
        let t = trim_chars(pieces[k].as_slice());
        let ghost s = all.skip(k as int);
        assert(s[0] == pieces@[k as int]@);
        assert(s.drop_first() =~= all.skip(k + 1));
        if t.len() > 0 {
            let ghost old_kept = kept@;
            kept.push(t);
            assert(kept@.map_values(|w: Vec<char>| w@) =~= old_kept.map_values(|w: Vec<char>| w@).push(
                t@,
            ));
        }
        k = k + 1;
        proof {
            assert(nonempty_trimmed(all) =~= kept@.map_values(|w: Vec<char>| w@) + nonempty_trimmed(
                all.skip(k as int),
            ));
        }
    }
    proof {
        assert(all.skip(k as int) =~= Seq::<Seq<char>>::empty());
        assert(nonempty_trimmed(all) =~= kept@.map_values(|w: Vec<char>| w@));
    }
    kept
}

/// Reads an attribute's value; see `spec_parse_attr_expression`. The value must
/// not hold an untyped closure argument that is not an identifier.
pub fn parse_attr_expression(expr: &str, is_event: bool) -> (r: Result<AttrType, CompileError>)
    requires
        spec_parse_attr_expression(expr@, is_event) is Some,
    ensures
        match spec_parse_attr_expression(expr@, is_event)->Some_0 {
            Ok(a) => r matches Ok(x) && attr_view(x) == a,
            Err(m) => r matches Err(CompileError::GenericError(e)) && e@ == m,
        },
{
    let v = chars_of(expr);
    match parse_attr_value(v.as_slice(), is_event) {
        Some(r) => r,
        None => Err(CompileError::GenericError(String::new())),
    }
}

/// Reads an attribute's value; `None` where the reading cannot go on.
pub fn parse_attr_value(v: &[char], is_event: bool) -> (r: Option<Result<AttrType, CompileError>>)
    ensures
        match spec_parse_attr_expression(v@, is_event) {
            None => r is None,
            Some(Ok(a)) => r matches Some(Ok(x)) && attr_view(x) == a,
            Some(Err(m)) => r matches Some(Err(CompileError::GenericError(e))) && e@ == m,
        },
{
    let n = v.len();
    if n > 0 && v[0] == '|' {
        let tail = slice_chars(v, 1, n);
        assert(tail@ =~= v@.drop_first());
        proof {
            lemma_find(tail@, '|');
        }
        let (inner, hlen) = match find_char(tail.as_slice(), '|') {
            Some(i) => (slice_chars(v, 1, i + 1), i + 2),
            None => (tail, n),
        };
        proof {
            lemma_find(v@.drop_first(), '|');
            assert(inner@ =~= closure_inner(v@));
        }
        let body_chars = slice_chars(v, hlen, n);
        assert(body_chars@ =~= v@.skip(closure_header_len(v@)));
        let body = string_from_chars(body_chars.as_slice());
        let pieces = split_chars(inner.as_slice(), ',');
        assert(pieces@.map_values(|w: Vec<char>| w@) =~= split(closure_inner(v@), ','));
        let args = nonempty_trimmed_exec(&pieces);
        let ghost sargs = closure_args(v@);
        assert(args@.len() == sargs.len());
        if args.len() == 0 {
            return match check_expr(&body) {
                Some(m) => Some(Err(CompileError::GenericError(m))),
                None => Some(Ok(AttrType::Closure(AttrClosure { event_arg: None, body }))),
            };
        }
        if !is_event {
            let m = "Non-event handler closures cannot have non-reactive arguments";
            return Some(Err(CompileError::GenericError(m.to_string())));
        }
        assert(args@[0]@ == sargs[0]);
        let a = string_from_chars(args[0].as_slice());
        let ev: (String, String) = match typed_fn_arg(&a) {
            Some(p) => p,
            None => {
                if ident_ok(&a) {
                    (a, "web_sys::Event".to_string())
                } else {
                    return None;
                }
            },
        };
        if args.len() > 1 {
            let m = "Multiple event arguments found in closure; only one event argument is allowed";
            return Some(Err(CompileError::GenericError(m.to_string())));
        }
        match check_expr(&body) {
            Some(m) => Some(Err(CompileError::GenericError(m))),
            None => Some(Ok(AttrType::Closure(AttrClosure { event_arg: Some(ev), body }))),
        }
    } else {
        let s = string_from_chars(v);
        match check_expr(&s) {
            Some(m) => Some(Err(CompileError::GenericError(m))),
            None => Some(Ok(AttrType::Expr(s))),
        }
    }
}

} // verus!
