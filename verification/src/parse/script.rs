//! The `<script>` section of a component: its own items (`struct $state {..}`
//! with the state declarations, `impl $state {..}` with the state functions
//! and `$init`, and `import Name from "path";`) among ordinary Rust items.
//! The text is read as Rust tokens (`proc_macro2`); whether a run of tokens
//! is a Rust item, function, type or expression is decided by `syn`.

use vstd::prelude::*;
use vstd::string::StringExecFns;

use crate::parse::ComponentImport;
use crate::parse::gen_vars::{ScriptVar, lemma_shape_type, outcome_of, parse_var, shape_of_text, text_is_str, text_type};
use crate::parse::rs_parse::{Prop, StateVar, check_expr, opt_text, spec_expr_check};
use crate::transform::infer::{spec_type_split, type_ok};
use crate::utils::{CompileError, chars_of, push_char, string_from_chars};
use crate::text::slice_chars;

verus! {

// ---------------------------------------------------------------------------
// Tokens.

/// A Rust token: an identifier (keywords included), a punctuation character
/// and whether it is joined to the next one (as in `->`), a literal, or a
/// delimited group with its text (`(..)`, `[..]`, `{ .. }`).
pub enum Tok {
    Ident(String),
    Punct(char, bool),
    Lit(String),
    Group(String),
}

pub enum STok {
    Ident(Seq<char>),
    Punct(char, bool),
    Lit(Seq<char>),
    Group(Seq<char>),
}

pub open spec fn tok_view(t: Tok) -> STok {
    match t {
        Tok::Ident(x) => STok::Ident(x@),
        Tok::Punct(c, j) => STok::Punct(c, j),
        Tok::Lit(x) => STok::Lit(x@),
        Tok::Group(x) => STok::Group(x@),
    }
}

pub open spec fn toks_view(v: Seq<Tok>) -> Seq<STok> {
    v.map_values(|t: Tok| tok_view(t))
}

/// The tokens of a text as `proc_macro2` reads it (`str::parse` into a
/// `TokenStream`): `None` where the text is no token stream (an unclosed
/// delimiter, an unterminated literal).
pub uninterp spec fn spec_tokens(s: Seq<char>) -> Option<Seq<STok>>;

/// Reads `s` into `proc_macro2` tokens. Claimed: the result is
/// `spec_tokens(s)`; each token is converted to its variant with its text,
/// a punctuation character with whether its spacing is `Joint`.
#[verifier::external_body]
fn tokenize(s: &str) -> (r: Option<Vec<Tok>>)
    ensures
        match r {
            Some(v) => spec_tokens(s@) == Some(toks_view(v@)),
            None => spec_tokens(s@) is None,
        },
{
    match s.parse::<proc_macro2::TokenStream>() {
        Ok(ts) => Some(ts.into_iter().map(|t| match t {
            proc_macro2::TokenTree::Ident(i) => Tok::Ident(i.to_string()),
            proc_macro2::TokenTree::Punct(p) => Tok::Punct(p.as_char(), p.spacing() == proc_macro2::Spacing::Joint),
            proc_macro2::TokenTree::Literal(l) => Tok::Lit(l.to_string()),
            proc_macro2::TokenTree::Group(g) => Tok::Group(g.to_string()),
        }).collect()),
        Err(_) => None,
    }
}

/// Whether `syn::parse_str::<syn::Item>` accepts a text.
pub uninterp spec fn spec_item_ok(s: Seq<char>) -> bool;

/// Whether `syn::parse_str::<syn::ItemFn>` accepts a text.
pub uninterp spec fn spec_fn_ok(s: Seq<char>) -> bool;

/// The value of a string literal, as `syn::LitStr::value` gives it; `None`
/// where the text is no string literal.
pub uninterp spec fn spec_lit_str(s: Seq<char>) -> Option<Seq<char>>;

/// Parses `s` with `syn::parse_str::<syn::Item>`. Claimed: the result is
/// `spec_item_ok(s)`, whether it succeeds.
#[verifier::external_body]
fn item_ok(s: &str) -> (r: bool)
    ensures
        r == spec_item_ok(s@),
{
    syn::parse_str::<syn::Item>(s).is_ok()
}

/// Parses `s` with `syn::parse_str::<syn::ItemFn>`. Claimed: the result is
/// `spec_fn_ok(s)`, whether it succeeds.
#[verifier::external_body]
fn fn_ok(s: &str) -> (r: bool)
    ensures
        r == spec_fn_ok(s@),
{
    syn::parse_str::<syn::ItemFn>(s).is_ok()
}

/// Parses `s` with `syn::parse_str::<syn::LitStr>` and takes its value.
/// Claimed: the result is `spec_lit_str(s)`.
#[verifier::external_body]
fn lit_str(s: &str) -> (r: Option<String>)
    ensures
        opt_text(r) == spec_lit_str(s@),
{
    syn::parse_str::<syn::LitStr>(s).ok().map(|l| l.value())
}

/// Whether `syn` reads a text as a type.
pub open spec fn spec_type_ok(s: Seq<char>) -> bool {
    spec_type_split(s).0 != 3
}

/// The text of a token.
pub open spec fn tok_text(t: STok) -> Seq<char> {
    match t {
        STok::Ident(x) => x,
        STok::Punct(c, _) => seq![c],
        STok::Lit(x) => x,
        STok::Group(x) => x,
    }
}

/// The text of a run of tokens, as `proc_macro2` prints it: a space between
/// two tokens unless the first is a joined punctuation character.
pub open spec fn toks_text(ts: Seq<STok>) -> Seq<char>
    decreases ts.len(),
{
    if ts.len() == 0 {
        seq![]
    } else if ts.len() == 1 {
        tok_text(ts[0])
    } else {
        toks_text(ts.drop_last()) + (if ts[ts.len() - 2] matches STok::Punct(_, true) {
            seq![]
        } else {
            seq![' ']
        }) + tok_text(ts.last())
    }
}

/// A group delimited by `open`.
pub open spec fn is_group(t: STok, open: char) -> bool {
    t matches STok::Group(x) && x.len() >= 2 && x[0] == open
}

/// The text inside a group's delimiters.
pub open spec fn group_inner(t: STok) -> Seq<char> {
    let x = tok_text(t);
    if x.len() >= 2 {
        x.subrange(1, x.len() - 1)
    } else {
        seq![]
    }
}

pub open spec fn is_ident(t: STok, name: Seq<char>) -> bool {
    t matches STok::Ident(x) && x == name
}

pub open spec fn is_punct(t: STok, c: char) -> bool {
    t matches STok::Punct(d, _) && d == c
}

fn tok_text_of(t: &Tok) -> (r: String)
    ensures
        r@ == tok_text(tok_view(*t)),
{
    match t {
        Tok::Ident(x) => x.clone(),
        Tok::Punct(c, _) => {
            let mut s = String::new();
            push_char(&mut s, *c);
            assert(s@ =~= seq![*c]);
            s
        },
        Tok::Lit(x) => x.clone(),
        Tok::Group(x) => x.clone(),
    }
}

fn group_inner_of(t: &Tok) -> (r: String)
    ensures
        r@ == group_inner(tok_view(*t)),
{
    let x = tok_text_of(t);
    let cs = chars_of(x.as_str());
    if cs.len() >= 2 {
        let inner = slice_chars(cs.as_slice(), 1, cs.len() - 1);
        string_from_chars(inner.as_slice())
    } else {
        String::new()
    }
}

fn ident_is(t: &Tok, name: &str) -> (r: bool)
    ensures
        r == is_ident(tok_view(*t), name@),
{
    match t {
        Tok::Ident(x) => crate::text::str_eq(x.as_str(), name),
        _ => false,
    }
}

fn punct_is(t: &Tok, c: char) -> (r: bool)
    ensures
        r == is_punct(tok_view(*t), c),
{
    match t {
        Tok::Punct(d, _) => *d == c,
        _ => false,
    }
}

fn group_is(t: &Tok, open: char) -> (r: bool)
    ensures
        r == is_group(tok_view(*t), open),
{
    match t {
        Tok::Group(x) => {
            let cs = chars_of(x.as_str());
            cs.len() >= 2 && cs[0] == open
        },
        _ => false,
    }
}

/// Appends token `j` to the text of tokens `i..j`.
proof fn lemma_text_step(ts: Seq<STok>, i: int, j: int)
    requires
        0 <= i < j < ts.len(),
    ensures
        toks_text(ts.subrange(i, j + 1)) == toks_text(ts.subrange(i, j)) + (if ts[j - 1] matches STok::Punct(_, true) {
            seq![]
        } else {
            seq![' ']
        }) + tok_text(ts[j]),
{
    let a = ts.subrange(i, j + 1);
    assert(a.drop_last() =~= ts.subrange(i, j));
    assert(a[a.len() - 2] == ts[j - 1]);
}

// ---------------------------------------------------------------------------
// Runs of tokens that `syn` accepts.

/// Which acceptance a search asks for: 0 an item, 1 a function.
pub open spec fn accepts(kind: u8, s: Seq<char>) -> bool {
    if kind == 0 {
        spec_item_ok(s)
    } else {
        spec_fn_ok(s)
    }
}

/// The end of the shortest run of tokens from `i`, ending at `j` or later,
/// that `syn` accepts (see `accepts`).
pub open spec fn first_accepted(ts: Seq<STok>, i: int, j: int, kind: u8) -> Option<int>
    decreases ts.len() + 1 - j,
{
    if j > ts.len() || j <= i {
        None
    } else if accepts(kind, toks_text(ts.subrange(i, j))) {
        Some(j)
    } else {
        first_accepted(ts, i, j + 1, kind)
    }
}

pub proof fn lemma_first_accepted(ts: Seq<STok>, i: int, j: int, kind: u8)
    ensures
        first_accepted(ts, i, j, kind) matches Some(x) ==> i < x <= ts.len() && j <= x,
    decreases ts.len() + 1 - j,
{
    if !(j > ts.len() || j <= i) && !accepts(kind, toks_text(ts.subrange(i, j))) {
        lemma_first_accepted(ts, i, j + 1, kind);
    }
}

/// The end of the shortest type from `i` that is followed by `=`, at `j` or
/// later.
pub open spec fn type_end(ts: Seq<STok>, i: int, j: int) -> Option<int>
    decreases ts.len() - j,
{
    if j >= ts.len() || j <= i {
        None
    } else if is_punct(ts[j], '=') && spec_type_ok(toks_text(ts.subrange(i, j))) {
        Some(j)
    } else {
        type_end(ts, i, j + 1)
    }
}

pub proof fn lemma_type_end(ts: Seq<STok>, i: int, j: int)
    ensures
        type_end(ts, i, j) matches Some(x) ==> i < x < ts.len() && j <= x,
    decreases ts.len() - j,
{
    if !(j >= ts.len() || j <= i) && !(is_punct(ts[j], '=') && spec_type_ok(toks_text(ts.subrange(i, j)))) {
        lemma_type_end(ts, i, j + 1);
    }
}

fn search_accepted(ts: &Vec<Tok>, i: usize, kind: u8) -> (r: Option<(usize, String)>)
    requires
        i < ts.len(),
    ensures
        match first_accepted(toks_view(ts@), i as int, i + 1, kind) {
            Some(j) => r matches Some(p) && p.0 == j && p.1@ == toks_text(toks_view(ts@).subrange(i as int, j)),
            None => r is None,
        },
{
    let ghost tv = toks_view(ts@);
    let mut j: usize = i + 1;
    let mut text = tok_text_of(&ts[i]);
    assert(tv[i as int] == tok_view(ts@[i as int]));
    assert(tv.subrange(i as int, i + 1) =~= seq![tv[i as int]]);
    loop
        invariant
            i < j <= ts@.len(),
            tv == toks_view(ts@),
            text@ == toks_text(tv.subrange(i as int, j as int)),
            first_accepted(tv, i as int, i + 1, kind) == first_accepted(tv, i as int, j as int, kind),
        decreases ts@.len() - j,
    {
        let ok = if kind == 0 { item_ok(text.as_str()) } else { fn_ok(text.as_str()) };
        if ok {
            return Some((j, text));
        }
        if j == ts.len() {
            assert(first_accepted(tv, i as int, j + 1, kind) is None);
            return None;
        }
        proof {
            lemma_text_step(tv, i as int, j as int);
            assert(tv[j - 1] == tok_view(ts@[j - 1]));
            assert(tv[j as int] == tok_view(ts@[j as int]));
        }
        let joined = match &ts[j - 1] {
            Tok::Punct(_, true) => true,
            _ => false,
        };
        let ghost before = text@;
        if !joined {
            push_char(&mut text, ' ');
        }
        let ghost mid = text@;
        assert(mid == before + (if tv[j - 1] matches STok::Punct(_, true) {
            seq![]
        } else {
            seq![' ']
        }));
        let next = tok_text_of(&ts[j]);
        text.append(next.as_str());
        assert(text@ == mid + tok_text(tv[j as int]));
        j = j + 1;
    }
}

fn search_type_end(ts: &Vec<Tok>, i: usize) -> (r: Option<(usize, String)>)
    requires
        i < ts.len(),
    ensures
        match type_end(toks_view(ts@), i as int, i + 1) {
            Some(j) => r matches Some(p) && p.0 == j && p.1@ == toks_text(toks_view(ts@).subrange(i as int, j)),
            None => r is None,
        },
{
    let ghost tv = toks_view(ts@);
    let mut j: usize = i + 1;
    let mut text = tok_text_of(&ts[i]);
    assert(tv[i as int] == tok_view(ts@[i as int]));
    assert(tv.subrange(i as int, i + 1) =~= seq![tv[i as int]]);
    loop
        invariant
            i < j <= ts@.len(),
            tv == toks_view(ts@),
            text@ == toks_text(tv.subrange(i as int, j as int)),
            type_end(tv, i as int, i + 1) == type_end(tv, i as int, j as int),
        decreases ts@.len() - j,
    {
        if j == ts.len() {
            return None;
        }
        assert(tv[j as int] == tok_view(ts@[j as int]));
        if punct_is(&ts[j], '=') && type_ok(text.as_str()) {
            return Some((j, text));
        }
        proof {
            lemma_text_step(tv, i as int, j as int);
            assert(tv[j - 1] == tok_view(ts@[j - 1]));
        }
        let joined = match &ts[j - 1] {
            Tok::Punct(_, true) => true,
            _ => false,
        };
        let ghost before = text@;
        if !joined {
            push_char(&mut text, ' ');
        }
        let ghost mid = text@;
        assert(mid == before + (if tv[j - 1] matches STok::Punct(_, true) {
            seq![]
        } else {
            seq![' ']
        }));
        let next = tok_text_of(&ts[j]);
        text.append(next.as_str());
        assert(text@ == mid + tok_text(tv[j as int]));
        j = j + 1;
    }
}

// ---------------------------------------------------------------------------
// The script model.

/// A parsed script: the props, bindable props, `$state` and `$derived`
/// variables, each as `(name, type, default, flag position)`; the body of
/// `$init`; the texts of the state functions; the imports (name, path); and
/// the texts of the other items.
pub struct SScript {
    pub props: Seq<(Seq<char>, Seq<char>, Option<Seq<char>>, u8)>,
    pub bindable: Seq<(Seq<char>, Seq<char>, Option<Seq<char>>, u8)>,
    pub state: Seq<(Seq<char>, Seq<char>, Option<Seq<char>>, u8)>,
    pub derived: Seq<(Seq<char>, Seq<char>, Option<Seq<char>>, u8)>,
    pub init_body: Option<Seq<char>>,
    pub funcs: Seq<Seq<char>>,
    pub imports: Seq<(Seq<char>, Seq<char>)>,
    pub items: Seq<Seq<char>>,
}

/// The parsed script of a component.
pub struct ScriptModel {
    pub props: Vec<Prop>,
    pub bindable_props: Vec<Prop>,
    pub state_vars: Vec<StateVar>,
    pub derived_vars: Vec<StateVar>,
    /// The block of `fn $init() { .. }`, as text.
    pub init_body: Option<String>,
    /// The state functions, as text.
    pub state_functions: Vec<String>,
    pub imports: Vec<ComponentImport>,
    /// The other items, as text.
    pub items: Vec<String>,
}

pub open spec fn prop_entry(p: Prop) -> (Seq<char>, Seq<char>, Option<Seq<char>>, u8) {
    (p.name@, p.ty@, opt_text(p.default), p.flag_pos)
}

pub open spec fn var_entry(v: StateVar) -> (Seq<char>, Seq<char>, Option<Seq<char>>, u8) {
    (v.name@, v.ty@, Some(v.default@), v.flag_pos)
}

pub open spec fn script_view(m: ScriptModel) -> SScript {
    SScript {
        props: m.props@.map_values(|p: Prop| prop_entry(p)),
        bindable: m.bindable_props@.map_values(|p: Prop| prop_entry(p)),
        state: m.state_vars@.map_values(|v: StateVar| var_entry(v)),
        derived: m.derived_vars@.map_values(|v: StateVar| var_entry(v)),
        init_body: opt_text(m.init_body),
        funcs: m.state_functions@.map_values(|f: String| f@),
        imports: m.imports@.map_values(|i: ComponentImport| (i.name@, i.path@)),
        items: m.items@.map_values(|t: String| t@),
    }
}

pub open spec fn msg_tokens() -> Seq<char> {
    "The script could not be read as Rust tokens"@
}

pub open spec fn msg_expected_state() -> Seq<char> {
    "Expected 'state' after '$'"@
}

pub open spec fn msg_expected_init() -> Seq<char> {
    "Expected 'init' after '$' in state impl block"@
}

pub open spec fn msg_block() -> Seq<char> {
    "Expected a `{ ... }` block after `$state`"@
}

pub open spec fn msg_decl() -> Seq<char> {
    "Expected a state declaration `name: Type = $kind(default)`"@
}

pub open spec fn msg_import() -> Seq<char> {
    "Expected an import `import Name from \"path\";`"@
}

pub open spec fn msg_item() -> Seq<char> {
    "Expected a Rust item in the script"@
}

pub open spec fn msg_func() -> Seq<char> {
    "Expected a function in the state impl block"@
}

pub open spec fn msg_too_many() -> Seq<char> {
    "Too many state variables: flag positions must fit in a u8"@
}

/// The default value in the group `g` of a declaration: `None` for `()`;
/// otherwise its text, which must be an expression, with the type it implies
/// and whether it is a string literal.
pub open spec fn decl_default(g: STok) -> Result<Option<(Seq<char>, Option<Seq<char>>, bool)>, Seq<char>> {
    let inner = group_inner(g);
    match spec_tokens(inner) {
        None => Err(msg_tokens()),
        Some(u) => if u.len() == 0 {
            Ok(None)
        } else {
            match spec_expr_check(inner) {
                Some(e) => Err(e),
                None => Ok(Some((inner, text_type(inner, inner.len()), inner.len() > 0 && text_is_str(inner)))),
            }
        },
    }
}

/// `m` with the declaration `name` added, with outcome `(kind, ty, default)`
/// and flag position `flag`.
pub open spec fn add_var(m: SScript, name: Seq<char>, o: (int, Seq<char>, Option<Seq<char>>), flag: u8) -> SScript {
    let e = (name, o.1, o.2, flag);
    if o.0 == 0 {
        SScript { props: m.props.push(e), ..m }
    } else if o.0 == 1 {
        SScript { bindable: m.bindable.push(e), ..m }
    } else if o.0 == 2 {
        SScript { state: m.state.push(e), ..m }
    } else {
        SScript { derived: m.derived.push(e), ..m }
    }
}

/// Reads the declarations `name[: T] = $kind(default)[,]` of a `struct
/// $state` block from token `k` on, the next taking flag position `flag`;
/// what each is, is `outcome_of`.
pub open spec fn read_decls(u: Seq<STok>, k: int, m: SScript, flag: u8) -> Result<SScript, Seq<char>>
    decreases u.len() - k,
{
    if k < 0 || k >= u.len() {
        Ok(m)
    } else if !(u[k] is Ident) {
        Err(msg_decl())
    } else {
        let name = u[k]->Ident_0;
        let typed = k + 1 < u.len() && is_punct(u[k + 1], ':');
        let te = if typed && k + 2 < u.len() { type_end(u, k + 2, k + 3) } else { None };
        proof {
            lemma_type_end(u, k + 2, k + 3);
        }
        if typed && te is None {
            Err(msg_decl())
        } else {
            let p = if typed { te->Some_0 } else { k + 1 };
            let declared = if typed { Some(toks_text(u.subrange(k + 2, p))) } else { None };
            if !(p + 3 < u.len() && is_punct(u[p], '=') && is_punct(u[p + 1], '$') && u[p + 2] is Ident
                && is_group(u[p + 3], '(')) {
                Err(msg_decl())
            } else {
                match decl_default(u[p + 3]) {
                    Err(e) => Err(e),
                    Ok(d) => if flag == 255 {
                        Err(msg_too_many())
                    } else {
                        match outcome_of(declared, u[p + 2]->Ident_0, d) {
                            Err(e) => Err(e),
                            Ok(o) => {
                                let q = if p + 4 < u.len() && is_punct(u[p + 4], ',') { p + 5 } else { p + 4 };
                                read_decls(u, q, add_var(m, name, o, flag), (flag + 1) as u8)
                            },
                        }
                    },
                }
            }
        }
    }
}

/// The first brace group after token `j`.
pub open spec fn next_brace(u: Seq<STok>, j: int) -> Option<int>
    decreases u.len() - j,
{
    if j < 0 || j >= u.len() {
        None
    } else if is_group(u[j], '{') {
        Some(j)
    } else {
        next_brace(u, j + 1)
    }
}

pub proof fn lemma_next_brace(u: Seq<STok>, j: int)
    ensures
        next_brace(u, j) matches Some(x) ==> j <= x < u.len(),
    decreases u.len() - j,
{
    if !(j < 0 || j >= u.len()) && !is_group(u[j], '{') {
        lemma_next_brace(u, j + 1);
    }
}

/// Reads the state functions of an `impl $state` block from token `k` on:
/// `fn $init(..) { .. }` gives the body of `$init`; any other run of tokens
/// must be a function, the shortest that `syn` accepts.
pub open spec fn read_fns(u: Seq<STok>, k: int, m: SScript) -> Result<SScript, Seq<char>>
    decreases u.len() - k,
{
    if k < 0 || k >= u.len() {
        Ok(m)
    } else if k + 1 < u.len() && is_punct(u[k + 1], '$') {
        if !(is_ident(u[k], "fn"@) && k + 2 < u.len() && u[k + 2] is Ident) {
            Err(msg_func())
        } else if u[k + 2]->Ident_0 != "init"@ {
            Err(msg_expected_init())
        } else {
            proof {
                lemma_next_brace(u, k + 3);
            }
            match next_brace(u, k + 3) {
                None => Err(msg_func()),
                Some(b) => read_fns(u, b + 1, SScript { init_body: Some(tok_text(u[b])), ..m }),
            }
        }
    } else {
        proof {
            lemma_first_accepted(u, k, k + 1, 1);
        }
        match first_accepted(u, k, k + 1, 1) {
            None => Err(msg_func()),
            Some(j) => read_fns(u, j, SScript { funcs: m.funcs.push(toks_text(u.subrange(k, j))), ..m }),
        }
    }
}

/// Reads the items of a script from token `i` on: `struct $state { .. }`
/// (see `read_decls`), `impl $state { .. }` (see `read_fns`), `import Name
/// from "path";`, and any other Rust item, the shortest run of tokens that
/// `syn` accepts as one.
pub open spec fn read_items(t: Seq<STok>, i: int, m: SScript) -> Result<SScript, Seq<char>>
    decreases t.len() - i,
{
    if i < 0 || i >= t.len() {
        Ok(m)
    } else if (is_ident(t[i], "struct"@) || is_ident(t[i], "impl"@)) && i + 1 < t.len() && is_punct(
        t[i + 1],
        '$',
    ) {
        if !(i + 2 < t.len() && t[i + 2] is Ident) {
            Err(msg_expected_state())
        } else if t[i + 2]->Ident_0 != "state"@ {
            Err(msg_expected_state())
        } else if !(i + 3 < t.len() && is_group(t[i + 3], '{')) {
            Err(msg_block())
        } else {
            match spec_tokens(group_inner(t[i + 3])) {
                None => Err(msg_tokens()),
                Some(u) => {
                    let r = if is_ident(t[i], "struct"@) { read_decls(u, 0, m, 0) } else { read_fns(u, 0, m) };
                    match r {
                        Err(e) => Err(e),
                        Ok(m2) => read_items(t, i + 4, m2),
                    }
                },
            }
        }
    } else if is_ident(t[i], "import"@) {
        if i + 4 < t.len() && t[i + 1] is Ident && t[i + 2] is Ident && t[i + 3] is Lit && spec_lit_str(
            t[i + 3]->Lit_0,
        ) is Some && is_punct(t[i + 4], ';') {
            read_items(
                t,
                i + 5,
                SScript { imports: m.imports.push((t[i + 1]->Ident_0, spec_lit_str(t[i + 3]->Lit_0)->Some_0)), ..m },
            )
        } else {
            Err(msg_import())
        }
    } else {
        proof {
            lemma_first_accepted(t, i, i + 1, 0);
        }
        match first_accepted(t, i, i + 1, 0) {
            None => Err(msg_item()),
            Some(j) => read_items(t, j, SScript { items: m.items.push(toks_text(t.subrange(i, j))), ..m }),
        }
    }
}

pub open spec fn empty_script() -> SScript {
    SScript {
        props: seq![],
        bindable: seq![],
        state: seq![],
        derived: seq![],
        init_body: None,
        funcs: seq![],
        imports: seq![],
        items: seq![],
    }
}

/// What the text of a `<script>` section parses to; see `read_items`.
pub open spec fn spec_parse_script(s: Seq<char>) -> Result<SScript, Seq<char>> {
    match spec_tokens(s) {
        None => Err(msg_tokens()),
        Some(t) => read_items(t, 0, empty_script()),
    }
}


// ---------------------------------------------------------------------------
// Reading.

/// The result of a reader: the model, or the error with its message.
pub open spec fn read_result(r: Result<ScriptModel, CompileError>, s: Result<SScript, Seq<char>>) -> bool {
    match s {
        Ok(x) => r matches Ok(y) && script_view(y) == x,
        Err(e) => r matches Err(CompileError::GenericError(m)) && m@ == e,
    }
}

fn error(m: &str) -> (e: CompileError)
    ensures
        e matches CompileError::GenericError(x) && x@ == m@,
{
    CompileError::GenericError(String::from_str(m))
}

/// The default value in a declaration's group `g`; see `decl_default`.
fn read_default(g: &Tok) -> (r: Result<Option<(String, crate::parse::gen_vars::ExprShape)>, CompileError>)
    ensures
        match decl_default(tok_view(*g)) {
            Err(e) => r matches Err(CompileError::GenericError(m)) && m@ == e,
            Ok(d) => r matches Ok(x) && crate::parse::gen_vars::default_facts(x) == d,
        },
{
    let inner = group_inner_of(g);
    let toks = match tokenize(inner.as_str()) {
        None => {
            return Err(error("The script could not be read as Rust tokens"));
        },
        Some(v) => v,
    };
    if toks.len() == 0 {
        return Ok(None);
    }
    match check_expr(inner.as_str()) {
        Some(e) => {
            return Err(CompileError::GenericError(e));
        },
        None => {},
    }
    let cs = chars_of(inner.as_str());
    let shape = shape_of_text(inner.as_str(), cs.len());
    proof {
        lemma_shape_type(shape, inner@, cs.len() as nat);
    }
    Ok(Some((inner, shape)))
}

fn add_script_var(m: ScriptModel, v: ScriptVar) -> (r: ScriptModel)
    ensures
        script_view(r) == match v {
            ScriptVar::Prop(p) => SScript { props: script_view(m).props.push(prop_entry(p)), ..script_view(m) },
            ScriptVar::Bindable(p) => SScript { bindable: script_view(m).bindable.push(prop_entry(p)), ..script_view(m) },
            ScriptVar::State(x) => SScript { state: script_view(m).state.push(var_entry(x)), ..script_view(m) },
            ScriptVar::Derived(x) => SScript { derived: script_view(m).derived.push(var_entry(x)), ..script_view(m) },
        },
{
    let mut m = m;
    let ghost m0 = m;
    match v {
        ScriptVar::Prop(p) => {
            let ghost e = prop_entry(p);
            m.props.push(p);
            assert(m.props@.map_values(|p: Prop| prop_entry(p)) =~= m0.props@.map_values(|p: Prop| prop_entry(p)).push(e));
        },
        ScriptVar::Bindable(p) => {
            let ghost e = prop_entry(p);
            m.bindable_props.push(p);
            assert(m.bindable_props@.map_values(|p: Prop| prop_entry(p)) =~= m0.bindable_props@.map_values(|p: Prop| prop_entry(p)).push(e));
        },
        ScriptVar::State(x) => {
            let ghost e = var_entry(x);
            m.state_vars.push(x);
            assert(m.state_vars@.map_values(|v: StateVar| var_entry(v)) =~= m0.state_vars@.map_values(|v: StateVar| var_entry(v)).push(e));
        },
        ScriptVar::Derived(x) => {
            let ghost e = var_entry(x);
            m.derived_vars.push(x);
            assert(m.derived_vars@.map_values(|v: StateVar| var_entry(v)) =~= m0.derived_vars@.map_values(|v: StateVar| var_entry(v)).push(e));
        },
    }
    m
}

fn decls_from(u: &Vec<Tok>, k: usize, m: ScriptModel, flag: u8) -> (r: Result<ScriptModel, CompileError>)
    requires
        k <= u.len(),
    ensures
        read_result(r, read_decls(toks_view(u@), k as int, script_view(m), flag)),
    decreases u.len() - k,
{
    let ghost tv = toks_view(u@);
    if k >= u.len() {
        return Ok(m);
    }
    assert(tv[k as int] == tok_view(u@[k as int]));
    let name = match &u[k] {
        Tok::Ident(x) => x.clone(),
        _ => {
            return Err(error("Expected a state declaration `name: Type = $kind(default)`"));
        },
    };
    let typed = k + 1 < u.len() && punct_is(&u[k + 1], ':');
    proof {
        if k + 1 < u.len() {
            assert(tv[k + 1] == tok_view(u@[k + 1]));
        }
    }
    let mut declared: Option<String> = None;
    let mut p: usize = k + 1;
    if typed {
        if k + 2 >= u.len() {
            return Err(error("Expected a state declaration `name: Type = $kind(default)`"));
        }
        match search_type_end(u, k + 2) {
            None => {
                return Err(error("Expected a state declaration `name: Type = $kind(default)`"));
            },
            Some((e, text)) => {
                proof {
                    lemma_type_end(tv, k + 2, k + 3);
                }
                p = e;
                declared = Some(text);
            },
        }
    }
    if !(u.len() > 3 && p < u.len() - 3) {
        return Err(error("Expected a state declaration `name: Type = $kind(default)`"));
    }
    assert(tv[p as int] == tok_view(u@[p as int]));
    assert(tv[p + 1] == tok_view(u@[p + 1]));
    assert(tv[p + 2] == tok_view(u@[p + 2]));
    assert(tv[p + 3] == tok_view(u@[p + 3]));
    if !(punct_is(&u[p], '=') && punct_is(&u[p + 1], '$') && group_is(&u[p + 3], '(')) {
        return Err(error("Expected a state declaration `name: Type = $kind(default)`"));
    }
    let kind = match &u[p + 2] {
        Tok::Ident(x) => x.clone(),
        _ => {
            return Err(error("Expected a state declaration `name: Type = $kind(default)`"));
        },
    };
    let default = match read_default(&u[p + 3]) {
        Err(e) => {
            return Err(e);
        },
        Ok(d) => d,
    };
    if flag == 255 {
        return Err(error("Too many state variables: flag positions must fit in a u8"));
    }
    let mut pos = flag;
    let ghost declared_v = opt_text(declared);
    let v = match parse_var(name, declared, kind.as_str(), default, &mut pos) {
        Err(e) => {
            return Err(e);
        },
        Ok(v) => v,
    };
    let ghost mv = script_view(m);
    let m2 = add_script_var(m, v);
    let q = if p + 4 < u.len() && punct_is(&u[p + 4], ',') {
        p + 5
    } else {
        p + 4
    };
    proof {
        if p + 4 < u.len() {
            assert(tv[p + 4] == tok_view(u@[p + 4]));
        }
    }
    decls_from(u, q, m2, pos)
}

/// The first brace group at or after token `j`; see `next_brace`.
fn find_brace(u: &Vec<Tok>, j: usize) -> (r: Option<usize>)
    ensures
        match next_brace(toks_view(u@), j as int) {
            Some(x) => r == Some(x as usize),
            None => r is None,
        },
    decreases u.len() - j,
{
    if j >= u.len() {
        return None;
    }
    assert(toks_view(u@)[j as int] == tok_view(u@[j as int]));
    if group_is(&u[j], '{') {
        Some(j)
    } else {
        find_brace(u, j + 1)
    }
}

fn fns_from(u: &Vec<Tok>, k: usize, m: ScriptModel) -> (r: Result<ScriptModel, CompileError>)
    requires
        k <= u.len(),
    ensures
        read_result(r, read_fns(toks_view(u@), k as int, script_view(m))),
    decreases u.len() - k,
{
    let ghost tv = toks_view(u@);
    if k >= u.len() {
        return Ok(m);
    }
    assert(tv[k as int] == tok_view(u@[k as int]));
    proof {
        if k + 1 < u.len() {
            assert(tv[k + 1] == tok_view(u@[k + 1]));
        }
        if k + 2 < u.len() {
            assert(tv[k + 2] == tok_view(u@[k + 2]));
        }
    }
    if k + 1 < u.len() && punct_is(&u[k + 1], '$') {
        if !(ident_is(&u[k], "fn") && k + 2 < u.len()) {
            return Err(error("Expected a function in the state impl block"));
        }
        match &u[k + 2] {
            Tok::Ident(x) => {
                if !crate::text::str_eq(x.as_str(), "init") {
                    return Err(error("Expected 'init' after '$' in state impl block"));
                }
            },
            _ => {
                return Err(error("Expected a function in the state impl block"));
            },
        }
        proof {
            lemma_next_brace(tv, k + 3);
        }
        match find_brace(u, k + 3) {
            None => Err(error("Expected a function in the state impl block")),
            Some(b) => {
                assert(tv[b as int] == tok_view(u@[b as int]));
                let mut m = m;
                m.init_body = Some(tok_text_of(&u[b]));
                fns_from(u, b + 1, m)
            },
        }
    } else {
        proof {
            lemma_first_accepted(tv, k as int, k + 1, 1);
        }
        match search_accepted(u, k, 1) {
            None => Err(error("Expected a function in the state impl block")),
            Some((j, text)) => {
                let mut m = m;
                let ghost m0 = m;
                let ghost t = text@;
                m.state_functions.push(text);
                assert(m.state_functions@.map_values(|f: String| f@) =~= m0.state_functions@.map_values(|f: String| f@).push(t));
                fns_from(u, j, m)
            },
        }
    }
}

fn items_from(t: &Vec<Tok>, i: usize, m: ScriptModel) -> (r: Result<ScriptModel, CompileError>)
    requires
        i <= t.len(),
    ensures
        read_result(r, read_items(toks_view(t@), i as int, script_view(m))),
    decreases t.len() - i,
{
    let ghost tv = toks_view(t@);
    if i >= t.len() {
        return Ok(m);
    }
    proof {
        assert forall|x: int| i <= x < t@.len() implies tv[x] == tok_view(#[trigger] t@[x]) by {}
    }
    let is_struct = ident_is(&t[i], "struct");
    if (is_struct || ident_is(&t[i], "impl")) && i + 1 < t.len() && punct_is(&t[i + 1], '$') {
        if !(i + 2 < t.len()) {
            return Err(error("Expected 'state' after '$'"));
        }
        match &t[i + 2] {
            Tok::Ident(x) => {
                if !crate::text::str_eq(x.as_str(), "state") {
                    return Err(error("Expected 'state' after '$'"));
                }
            },
            _ => {
                return Err(error("Expected 'state' after '$'"));
            },
        }
        if !(i + 3 < t.len() && group_is(&t[i + 3], '{')) {
            return Err(error("Expected a `{ ... }` block after `$state`"));
        }
        let inner = group_inner_of(&t[i + 3]);
        let u = match tokenize(inner.as_str()) {
            None => {
                return Err(error("The script could not be read as Rust tokens"));
            },
            Some(u) => u,
        };
        let r = if is_struct {
            decls_from(&u, 0, m, 0)
        } else {
            fns_from(&u, 0, m)
        };
        match r {
            Err(e) => Err(e),
            Ok(m2) => items_from(t, i + 4, m2),
        }
    } else if ident_is(&t[i], "import") {
        if !(t.len() > 4 && i < t.len() - 4) {
            return Err(error("Expected an import `import Name from \"path\";`"));
        }
        let name = match &t[i + 1] {
            Tok::Ident(x) => x.clone(),
            _ => {
                return Err(error("Expected an import `import Name from \"path\";`"));
            },
        };
        let from_ok = match &t[i + 2] {
            Tok::Ident(_) => true,
            _ => false,
        };
        let path = match &t[i + 3] {
            Tok::Lit(x) => lit_str(x.as_str()),
            _ => None,
        };
        match path {
            Some(path) => {
                if !(from_ok && punct_is(&t[i + 4], ';')) {
                    return Err(error("Expected an import `import Name from \"path\";`"));
                }
                let mut m = m;
                let ghost m0 = m;
                let ghost e = (name@, path@);
                m.imports.push(ComponentImport { name, path });
                assert(m.imports@.map_values(|c: ComponentImport| (c.name@, c.path@)) =~= m0.imports@.map_values(|c: ComponentImport| (c.name@, c.path@)).push(e));
                items_from(t, i + 5, m)
            },
            None => Err(error("Expected an import `import Name from \"path\";`")),
        }
    } else {
        proof {
            lemma_first_accepted(tv, i as int, i + 1, 0);
        }
        match search_accepted(t, i, 0) {
            None => Err(error("Expected a Rust item in the script")),
            Some((j, text)) => {
                let mut m = m;
                let ghost m0 = m;
                let ghost x = text@;
                m.items.push(text);
                assert(m.items@.map_values(|f: String| f@) =~= m0.items@.map_values(|f: String| f@).push(x));
                items_from(t, j, m)
            },
        }
    }
}

/// Parses the text of a `<script>` section; see `spec_parse_script`.
pub fn parse_script(text: &str) -> (r: Result<ScriptModel, CompileError>)
    ensures
        read_result(r, spec_parse_script(text@)),
{
    let m = ScriptModel {
        props: Vec::new(),
        bindable_props: Vec::new(),
        state_vars: Vec::new(),
        derived_vars: Vec::new(),
        init_body: None,
        state_functions: Vec::new(),
        imports: Vec::new(),
        items: Vec::new(),
    };
    assert(script_view(m) =~= empty_script()) by {
        assert(script_view(m).props =~= empty_script().props);
        assert(script_view(m).bindable =~= empty_script().bindable);
        assert(script_view(m).state =~= empty_script().state);
        assert(script_view(m).derived =~= empty_script().derived);
        assert(script_view(m).funcs =~= empty_script().funcs);
        assert(script_view(m).imports =~= empty_script().imports);
        assert(script_view(m).items =~= empty_script().items);
    }
    match tokenize(text) {
        None => Err(error("The script could not be read as Rust tokens")),
        Some(t) => items_from(&t, 0, m),
    }
}

} // verus!
