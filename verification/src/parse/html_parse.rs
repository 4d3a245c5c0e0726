//! The template of a component: tags with attributes, text, `{expression}`s,
//! and the blocks `{#if ..}{:else if ..}{:else}{/if}` and
//! `{#each items as item}{/each}`.
//!
//! Every reader here comes with a specification over character sequences
//! (`spec_*`) that gives its result and what it leaves unread, or `None` for an
//! input on which reading cannot go on.

use vstd::prelude::*;

use crate::events::{find_event, is_event_attr};
use crate::parse::rs_parse::{AttrClosure, check_expr, ident_ok, parse_attr_value, spec_expr_check, spec_ident_ok, spec_parse_attr_expression};
use crate::text::{starts_with, starts_with_chars, trim, trim_chars, trim_start_matches, trim_start_matches_chars, words, split_whitespace_chars, chars_eq, join_spaced, join_words_from};
use crate::utils::{CharStream, Coord, expect_next, is_ws, is_whitespace, read_until, room, string_from_chars, chars_of, tracks, lemma_tracks_read, lemma_tracks_refl, lemma_tracks_step, lemma_tracks_trans};

verus! {

/// The value of an attribute: a string, a call of a state function, an
/// expression, a closure, or a binding to a variable. Expressions, names and
/// types are held as their source text.
pub enum AttrType {
    Str(String),
    Call(String),
    Expr(String),
    Closure(AttrClosure),
    Bind(String),
}

/// An opening tag: its name, its attributes in order, and whether it closes
/// itself (`<br/>`).
pub struct Tag {
    pub name: String,
    pub attributes: Vec<(String, AttrType)>,
    pub self_closing: bool,
}

/// A branch of an `{#if}` block: its condition and its contents.
pub struct IfBranch {
    pub condition: String,
    pub contents: Vec<Element>,
}

/// What an element of the template is.
pub enum ContentType {
    Text(String),
    Expr(String),
    /// A tag and its contents.
    Tag(Tag, Vec<Element>),
    /// The branches of an `{#if}` block and its `{:else}` contents.
    If(Vec<IfBranch>, Option<Vec<Element>>),
    /// The iterated expression, the item's name, and the contents.
    Each(String, String, Vec<Element>),
}

/// An element of the template, with its number.
pub struct Element {
    pub id: u32,
    pub content: ContentType,
}

/// A tag read from the template: an opening tag, or the name of a closing one.
pub enum TagType {
    Opening(Tag),
    Closing(String),
}

/// Why reading the contents of an element or block stopped.
pub enum ReadContentExitReason {
    /// A closing tag, with its name.
    ClosingTag(String),
    /// An `{:else if cond}`, with its condition.
    ElseIf(String),
    Else,
    IfClose,
    EachClose,
    /// The end of the input.
    End,
}

// ---------------------------------------------------------------------------
// The views of the template types.

pub enum SAttr {
    Str(Seq<char>),
    Call(Seq<char>),
    Expr(Seq<char>),
    Closure(Option<(Seq<char>, Seq<char>)>, Seq<char>),
    Bind(Seq<char>),
}

pub struct STag {
    pub name: Seq<char>,
    pub attributes: Seq<(Seq<char>, SAttr)>,
    pub self_closing: bool,
}

pub struct SIfBranch {
    pub condition: Seq<char>,
    pub contents: Seq<SElement>,
}

pub enum SContent {
    Text(Seq<char>),
    Expr(Seq<char>),
    Tag(STag, Seq<SElement>),
    If(Seq<SIfBranch>, Option<Seq<SElement>>),
    Each(Seq<char>, Seq<char>, Seq<SElement>),
}

pub struct SElement {
    pub id: u32,
    pub content: SContent,
}

pub enum STagType {
    Opening(STag),
    Closing(Seq<char>),
}

pub enum SExit {
    ClosingTag(Seq<char>),
    ElseIf(Seq<char>),
    Else,
    IfClose,
    EachClose,
    End,
}

pub open spec fn attr_view(a: AttrType) -> SAttr {
    match a {
        AttrType::Str(s) => SAttr::Str(s@),
        AttrType::Call(s) => SAttr::Call(s@),
        AttrType::Expr(s) => SAttr::Expr(s@),
        AttrType::Closure(c) => SAttr::Closure(
            match c.event_arg {
                Some(p) => Some((p.0@, p.1@)),
                None => None,
            },
            c.body@,
        ),
        AttrType::Bind(s) => SAttr::Bind(s@),
    }
}

pub open spec fn attrs_view(v: Seq<(String, AttrType)>) -> Seq<(Seq<char>, SAttr)> {
    v.map_values(|p: (String, AttrType)| (p.0@, attr_view(p.1)))
}

pub open spec fn tag_view(t: Tag) -> STag {
    STag { name: t.name@, attributes: attrs_view(t.attributes@), self_closing: t.self_closing }
}

pub open spec fn tag_type_view(t: TagType) -> STagType {
    match t {
        TagType::Opening(tag) => STagType::Opening(tag_view(tag)),
        TagType::Closing(n) => STagType::Closing(n@),
    }
}

pub open spec fn exit_view(e: ReadContentExitReason) -> SExit {
    match e {
        ReadContentExitReason::ClosingTag(n) => SExit::ClosingTag(n@),
        ReadContentExitReason::ElseIf(c) => SExit::ElseIf(c@),
        ReadContentExitReason::Else => SExit::Else,
        ReadContentExitReason::IfClose => SExit::IfClose,
        ReadContentExitReason::EachClose => SExit::EachClose,
        ReadContentExitReason::End => SExit::End,
    }
}

pub open spec fn element_view(e: Element) -> SElement
    decreases e,
{
    SElement {
        id: e.id,
        content: match e.content {
            ContentType::Text(t) => SContent::Text(t@),
            ContentType::Expr(x) => SContent::Expr(x@),
            ContentType::Tag(t, c) => SContent::Tag(tag_view(t), elements_view(c@)),
            ContentType::If(bs, els) => SContent::If(
                branches_view(bs@),
                match els {
                    Some(c) => Some(elements_view(c@)),
                    None => None,
                },
            ),
            ContentType::Each(x, item, c) => SContent::Each(x@, item@, elements_view(c@)),
        },
    }
}

pub open spec fn elements_view(v: Seq<Element>) -> Seq<SElement>
    decreases v,
{
    if v.len() == 0 {
        seq![]
    } else {
        elements_view(v.drop_last()).push(element_view(v.last()))
    }
}

pub open spec fn branches_view(v: Seq<IfBranch>) -> Seq<SIfBranch>
    decreases v,
{
    if v.len() == 0 {
        seq![]
    } else {
        branches_view(v.drop_last()).push(
            SIfBranch { condition: v.last().condition@, contents: elements_view(v.last().contents@) },
        )
    }
}

// ---------------------------------------------------------------------------
// Reading up to a stop character.

/// The conditions on which the template readers stop reading a run of
/// characters.
pub enum StopKind {
    /// Any character that is not white space.
    NonWs,
    /// White space or `>`.
    WsOrGt,
    /// White space, `/` or `>`.
    WsSlashGt,
    /// `=` or white space.
    EqOrWs,
    /// `"`.
    Quote,
    /// `{` or `<`.
    BraceOrLt,
    /// `<`.
    Lt,
}

pub open spec fn stops(k: StopKind, c: char) -> bool {
    match k {
        StopKind::NonWs => !is_ws(c),
        StopKind::WsOrGt => is_ws(c) || c == '>',
        StopKind::WsSlashGt => is_ws(c) || c == '/' || c == '>',
        StopKind::EqOrWs => c == '=' || is_ws(c),
        StopKind::Quote => c == '"',
        StopKind::BraceOrLt => c == '{' || c == '<',
        StopKind::Lt => c == '<',
    }
}

/// The length of the run at the start of `s` that ends before the first
/// character on which `k` stops.
pub open spec fn until_len(s: Seq<char>, k: StopKind) -> int
    decreases s.len(),
{
    if s.len() == 0 || stops(k, s[0]) {
        0
    } else {
        1 + until_len(s.drop_first(), k)
    }
}

pub proof fn lemma_until_len_bounds(s: Seq<char>, k: StopKind)
    ensures
        0 <= until_len(s, k) <= s.len(),
    decreases s.len(),
{
    if s.len() > 0 && !stops(k, s[0]) {
        lemma_until_len_bounds(s.drop_first(), k);
    }
}

proof fn lemma_until_len(s: Seq<char>, k: StopKind, r: Seq<char>, t: Seq<char>)
    requires
        s == r + t,
        forall|i: int| 0 <= i < r.len() ==> !stops(k, #[trigger] r[i]),
        t.len() > 0 ==> stops(k, t[0]),
    ensures
        until_len(s, k) == r.len(),
        s.take(r.len() as int) == r,
        s.skip(r.len() as int) == t,
    decreases r.len(),
{
    if r.len() > 0 {
        assert(s.drop_first() =~= r.drop_first() + t);
        assert(s[0] == r[0]);
        assert forall|i: int| 0 <= i < r.drop_first().len() implies !stops(
            k,
            #[trigger] r.drop_first()[i],
        ) by {
            assert(r.drop_first()[i] == r[i + 1]);
        }
        lemma_until_len(s.drop_first(), k, r.drop_first(), t);
    } else {
        assert(s =~= t);
    }
    assert(s.take(r.len() as int) =~= r);
    assert(s.skip(r.len() as int) =~= t);
}

fn stop_non_ws(c: char) -> (r: bool)
    ensures
        r == stops(StopKind::NonWs, c),
{
    !is_whitespace(c)
}

fn stop_ws_or_gt(c: char) -> (r: bool)
    ensures
        r == stops(StopKind::WsOrGt, c),
{
    is_whitespace(c) || c == '>'
}

fn stop_ws_slash_gt(c: char) -> (r: bool)
    ensures
        r == stops(StopKind::WsSlashGt, c),
{
    is_whitespace(c) || c == '/' || c == '>'
}

fn stop_eq_or_ws(c: char) -> (r: bool)
    ensures
        r == stops(StopKind::EqOrWs, c),
{
    c == '=' || is_whitespace(c)
}

fn stop_quote(c: char) -> (r: bool)
    ensures
        r == stops(StopKind::Quote, c),
{
    c == '"'
}

fn stop_brace_or_lt(c: char) -> (r: bool)
    ensures
        r == stops(StopKind::BraceOrLt, c),
{
    c == '{' || c == '<'
}

fn stop_lt(c: char) -> (r: bool)
    ensures
        r == stops(StopKind::Lt, c),
{
    c == '<'
}

fn read_until_stop<F: Fn(char) -> bool>(
    chars: &mut CharStream,
    f: F,
    Ghost(k): Ghost<StopKind>,
    coord: &mut Coord,
) -> (r: String)
    requires
        forall|c: char| f.requires((c,)),
        forall|c: char, b: bool| f.ensures((c,), b) ==> b == stops(k, c),
        room(*old(coord), old(chars).rest().len()),
    ensures
        r@ == old(chars).rest().take(until_len(old(chars).rest(), k)),
        final(chars).rest() == old(chars).rest().skip(until_len(old(chars).rest(), k)),
        room(*final(coord), final(chars).rest().len()),
        tracks(*old(coord), old(chars).rest(), *final(coord), final(chars).rest()),
{
    let ghost s = chars.rest();
    let ghost c0 = *coord;
    let r = read_until(chars, f, coord);
    proof {
        lemma_until_len(s, k, r@, chars.rest());
        lemma_tracks_read(c0, s, *coord, chars.rest(), r@);
    }
    r
}

/// Reads the run of characters up to the first one on which `k` stops.
pub fn read_until_kind(chars: &mut CharStream, k: StopKind, coord: &mut Coord) -> (r: String)
    requires
        room(*old(coord), old(chars).rest().len()),
    ensures
        r@ == old(chars).rest().take(until_len(old(chars).rest(), k)),
        final(chars).rest() == old(chars).rest().skip(until_len(old(chars).rest(), k)),
        final(chars).rest().len() <= old(chars).rest().len(),
        room(*final(coord), final(chars).rest().len()),
        tracks(*old(coord), old(chars).rest(), *final(coord), final(chars).rest()),
{
    proof {
        lemma_until_len_bounds(old(chars).rest(), k);
    }
    match k {
        StopKind::NonWs => read_until_stop(chars, stop_non_ws, Ghost(StopKind::NonWs), coord),
        StopKind::WsOrGt => read_until_stop(chars, stop_ws_or_gt, Ghost(StopKind::WsOrGt), coord),
        StopKind::WsSlashGt => read_until_stop(
            chars,
            stop_ws_slash_gt,
            Ghost(StopKind::WsSlashGt),
            coord,
        ),
        StopKind::EqOrWs => read_until_stop(chars, stop_eq_or_ws, Ghost(StopKind::EqOrWs), coord),
        StopKind::Quote => read_until_stop(chars, stop_quote, Ghost(StopKind::Quote), coord),
        StopKind::BraceOrLt => read_until_stop(
            chars,
            stop_brace_or_lt,
            Ghost(StopKind::BraceOrLt),
            coord,
        ),
        StopKind::Lt => read_until_stop(chars, stop_lt, Ghost(StopKind::Lt), coord),
    }
}

// ---------------------------------------------------------------------------
// Expressions in braces, tags and attributes.

/// The length of the text of a `{...}` expression at the start of `s`, the
/// opening brace being already read: up to the `}` that closes it (which is not
/// part of the text), or all of `s`. Nested braces are counted with an `i32`,
/// and `None` stands for its overflow.
pub open spec fn attr_expr_len(s: Seq<char>, depth: int) -> Option<int>
    decreases s.len(),
{
    if s.len() == 0 {
        Some(0)
    } else if s[0] == '{' {
        if depth >= i32::MAX {
            None
        } else {
            match attr_expr_len(s.drop_first(), depth + 1) {
                Some(k) => Some(k + 1),
                None => None,
            }
        }
    } else if s[0] == '}' && depth - 1 == 0 {
        Some(0)
    } else {
        match attr_expr_len(s.drop_first(), if s[0] == '}' { depth - 1 } else { depth }) {
            Some(k) => Some(k + 1),
            None => None,
        }
    }
}

pub proof fn lemma_attr_expr_len_bounds(s: Seq<char>, depth: int)
    ensures
        attr_expr_len(s, depth) matches Some(k) ==> 0 <= k <= s.len() && (k < s.len() ==> s[k]
            == '}'),
    decreases s.len(),
{
    if s.len() > 0 {
        let d = if s[0] == '{' { depth + 1 } else if s[0] == '}' { depth - 1 } else { depth };
        lemma_attr_expr_len_bounds(s.drop_first(), d);
        if attr_expr_len(s, depth) is Some {
            let k = attr_expr_len(s, depth)->Some_0;
            if k > 0 && k < s.len() {
                assert(s[k] == s.drop_first()[k - 1]);
            }
        }
    }
}

/// Reads the text of a `{...}` expression whose opening brace was read, up to
/// (and not including) the brace that closes it; `None` where the brace count
/// overflows.
pub fn try_read_attr_expression(chars: &mut CharStream, coord: &mut Coord) -> (r: Option<String>)
    requires
        room(*old(coord), old(chars).rest().len()),
    ensures
        match attr_expr_len(old(chars).rest(), 1) {
            None => r is None,
            Some(m) => r matches Some(x) && x@ == old(chars).rest().take(m) && final(chars).rest()
                == old(chars).rest().skip(m),
        },
        final(chars).rest().len() <= old(chars).rest().len(),
        room(*final(coord), final(chars).rest().len()),
        tracks(*old(coord), old(chars).rest(), *final(coord), final(chars).rest()),
{
    let ghost start = chars.rest();
    let ghost c0 = *coord;
    let mut result = String::new();
    let mut open_count: i32 = 1;
    proof {
        lemma_tracks_refl(c0, start);
    }
    loop
        invariant_except_break
            1 <= open_count,
            attr_expr_len(start, 1) == match attr_expr_len(chars.rest(), open_count as int) {
                Some(k) => Some(k + result@.len()),
                None => None::<int>,
            },
        invariant
            start == old(chars).rest(),
            c0 == *old(coord),
            start == result@ + chars.rest(),
            room(*coord, chars.rest().len()),
            tracks(c0, start, *coord, chars.rest()),
        ensures
            start == result@ + chars.rest(),
            attr_expr_len(start, 1) == Some(result@.len() as int),
            room(*coord, chars.rest().len()),
            tracks(c0, start, *coord, chars.rest()),
        decreases chars.rest().len(),
    {
        let ghost rest = chars.rest();
        match chars.peek() {
            None => {
                break ;
            },
            Some(ch) => {
                if ch == '{' {
                    if open_count == i32::MAX {
                        assert(attr_expr_len(rest, open_count as int) is None);
                        return None;
                    }
                    open_count = open_count + 1;
                } else if ch == '}' {
                    open_count = open_count - 1;
                    if open_count == 0 {
                        assert(attr_expr_len(rest, 1) == Some(0int));
                        break ;
                    }
                }
                let ghost before = result@;
                let ghost cb = *coord;
                chars.next();
                proof {
                    crate::utils::lemma_coord_after_bound(crate::utils::pos_of(*coord), seq![ch]);
                }
                crate::utils::update_coord(ch, coord);
                crate::utils::push_char(&mut result, ch);
                assert(result@ =~= before.push(ch));
                assert(start =~= result@ + chars.rest());
                assert(rest.drop_first() =~= chars.rest());
                proof {
                    lemma_tracks_step(cb, rest, *coord, chars.rest());
                    lemma_tracks_trans(c0, start, cb, rest, *coord, chars.rest());
                }
            },
        }
    }
    Some(result)
}

/// `bind:`
pub open spec fn bind_prefix() -> Seq<char> {
    seq!['b', 'i', 'n', 'd', ':']
}

/// Reads an attribute `name="text"` or `name={value}` at the start of `s`. A
/// `bind:name={var}` attribute binds the attribute `name` to the variable
/// `var`, which must be an identifier; the value of any other braced
/// attribute is read by `spec_parse_attr_expression`, and must be read
/// without error.
pub open spec fn spec_parse_attr(s: Seq<char>) -> Option<((Seq<char>, SAttr), Seq<char>)> {
    let n = until_len(s, StopKind::EqOrWs);
    let name = s.take(n);
    let s1 = s.skip(n);
    if !(s1.len() > 0 && s1[0] == '=') {
        None
    } else {
        let s2 = s1.drop_first();
        if s2.len() == 0 {
            None
        } else if s2[0] == '"' {
            let s3 = s2.drop_first();
            let m = until_len(s3, StopKind::Quote);
            let s4 = s3.skip(m);
            if s4.len() > 0 && s4[0] == '"' {
                Some(((name, SAttr::Str(s3.take(m))), s4.drop_first()))
            } else {
                None
            }
        } else if s2[0] == '{' {
            let s3 = s2.drop_first();
            match attr_expr_len(s3, 1) {
                None => None,
                Some(m) => {
                    let s4 = s3.skip(m);
                    if !(s4.len() > 0 && s4[0] == '}') {
                        None
                    } else {
                        let value = trim(s3.take(m));
                        let rest = s4.drop_first();
                        if starts_with(name, bind_prefix()) {
                            let bn = trim_start_matches(name, bind_prefix());
                            if spec_ident_ok(value) {
                                Some(((bn, SAttr::Bind(value)), rest))
                            } else {
                                None
                            }
                        } else {
                            match spec_parse_attr_expression(value, is_event_attr(name)) {
                                Some(Ok(a)) => Some(((name, a), rest)),
                                _ => None,
                            }
                        }
                    }
                },
            }
        } else {
            None
        }
    }
}

pub proof fn lemma_parse_attr_shrinks(s: Seq<char>)
    ensures
        spec_parse_attr(s) matches Some(p) ==> p.1.len() < s.len(),
{
    lemma_until_len_bounds(s, StopKind::EqOrWs);
    let n = until_len(s, StopKind::EqOrWs);
    let s1 = s.skip(n);
    if s1.len() > 1 {
        let s3 = s1.drop_first().drop_first();
        lemma_until_len_bounds(s3, StopKind::Quote);
        lemma_attr_expr_len_bounds(s3, 1);
    }
}

/// Reads an attribute; `None` where reading cannot go on.
pub fn try_parse_attr(chars: &mut CharStream, coord: &mut Coord) -> (r: Option<(String, AttrType)>)
    requires
        room(*old(coord), old(chars).rest().len()),
    ensures
        match spec_parse_attr(old(chars).rest()) {
            None => r is None,
            Some(p) => r matches Some(x) && x.0@ == p.0.0 && attr_view(x.1) == p.0.1
                && final(chars).rest() == p.1,
        },
        final(chars).rest().len() <= old(chars).rest().len(),
        room(*final(coord), final(chars).rest().len()),
{
    let ghost s = chars.rest();
    proof {
        lemma_until_len_bounds(s, StopKind::EqOrWs);
    }
    let attr_name = read_until_kind(chars, StopKind::EqOrWs, coord);
    match chars.peek() {
        Some(c) => {
            if c != '=' {
                return None;
            }
        },
        None => {
            return None;
        },
    }
    expect_next(chars, '=', coord);
    let ghost s2 = chars.rest();
    match chars.peek() {
        Some(ch) => {
            if ch == '"' {
                chars.next();
                let value = read_until_kind(chars, StopKind::Quote, coord);
                match chars.peek() {
                    Some(c) => {
                        if c != '"' {
                            return None;
                        }
                    },
                    None => {
                        return None;
                    },
                }
                expect_next(chars, '"', coord);
                Some((attr_name, AttrType::Str(value)))
            } else if ch == '{' {
                chars.next();
                let raw = match try_read_attr_expression(chars, coord) {
                    Some(x) => x,
                    None => {
                        return None;
                    },
                };
                match chars.peek() {
                    Some(c) => {
                        if c != '}' {
                            return None;
                        }
                    },
                    None => {
                        return None;
                    },
                }
                expect_next(chars, '}', coord);
                let raw_chars = chars_of(&raw);
                let value = trim_chars(raw_chars.as_slice());
                let name_chars = chars_of(&attr_name);
                let bind = vec!['b', 'i', 'n', 'd', ':'];
                assert(bind@ =~= bind_prefix());
                if starts_with_chars(name_chars.as_slice(), bind.as_slice()) {
                    let bn = trim_start_matches_chars(name_chars.as_slice(), bind.as_slice());
                    let name = string_from_chars(bn.as_slice());
                    let var_name = string_from_chars(value.as_slice());
                    if ident_ok(&var_name) {
                        return Some((name, AttrType::Bind(var_name)));
                    } else {
                        return None;
                    }
                }
                let is_event = match find_event(name_chars.as_slice()) {
                    Some(_) => true,
                    None => false,
                };
                match parse_attr_value(value.as_slice(), is_event) {
                    Some(Ok(a)) => Some((attr_name, a)),
                    _ => None,
                }
            } else {
                None
            }
        },
        None => None,
    }
}

/// Reads an attribute `name="text"` or `name={value}`.
pub fn parse_attr(chars: &mut CharStream, coord: &mut Coord) -> (r: (String, AttrType))
    requires
        room(*old(coord), old(chars).rest().len()),
        spec_parse_attr(old(chars).rest()) is Some,
    ensures
        r.0@ == spec_parse_attr(old(chars).rest())->Some_0.0.0,
        attr_view(r.1) == spec_parse_attr(old(chars).rest())->Some_0.0.1,
        final(chars).rest() == spec_parse_attr(old(chars).rest())->Some_0.1,
        room(*final(coord), final(chars).rest().len()),
{
    match try_parse_attr(chars, coord) {
        Some(p) => p,
        None => (String::new(), AttrType::Str(String::new())),
    }
}

/// The attributes at the start of `s`, each after optional white space, up to
/// the `/` or `>` that ends them (left unread).
pub open spec fn spec_tag_attrs(s: Seq<char>) -> Option<(Seq<(Seq<char>, SAttr)>, Seq<char>)>
    decreases s.len(),
{
    let t = s.skip(until_len(s, StopKind::NonWs));
    if t.len() == 0 {
        None
    } else if t[0] == '/' || t[0] == '>' {
        Some((seq![], t))
    } else {
        match spec_parse_attr(t) {
            None => None,
            Some(p) => if p.1.len() < s.len() {
                match spec_tag_attrs(p.1) {
                    None => None,
                    Some(q) => Some((seq![p.0] + q.0, q.1)),
                }
            } else {
                None
            },
        }
    }
}

/// Reads a tag at the start of `s`: `</name>`, or `<name attr...>` or
/// `<name attr.../>`.
pub open spec fn spec_read_tag(s: Seq<char>) -> Option<(STagType, Seq<char>)> {
    if s.len() == 0 || s[0] != '<' {
        None
    } else {
        let s1 = s.drop_first();
        if s1.len() > 0 && s1[0] == '/' {
            let s2 = s1.drop_first();
            let n = until_len(s2, StopKind::WsOrGt);
            let s3 = s2.skip(n);
            if s3.len() > 0 && s3[0] == '>' {
                Some((STagType::Closing(s2.take(n)), s3.drop_first()))
            } else {
                None
            }
        } else {
            let n = until_len(s1, StopKind::WsSlashGt);
            match spec_tag_attrs(s1.skip(n)) {
                None => None,
                Some(q) => {
                    let sc = q.1.len() > 0 && q.1[0] == '/';
                    let s4 = if sc {
                        q.1.drop_first()
                    } else {
                        q.1
                    };
                    if s4.len() > 0 && s4[0] == '>' {
                        Some(
                            (
                                STagType::Opening(
                                    STag { name: s1.take(n), attributes: q.0, self_closing: sc },
                                ),
                                s4.drop_first(),
                            ),
                        )
                    } else {
                        None
                    }
                },
            }
        }
    }
}

proof fn lemma_tag_attrs_suffix(s: Seq<char>)
    ensures
        spec_tag_attrs(s) matches Some(q) ==> q.1.len() <= s.len(),
    decreases s.len(),
{
    lemma_until_len_bounds(s, StopKind::NonWs);
    let t = s.skip(until_len(s, StopKind::NonWs));
    if t.len() > 0 && !(t[0] == '/' || t[0] == '>') {
        if let Some(p) = spec_parse_attr(t) {
            if p.1.len() < s.len() {
                lemma_tag_attrs_suffix(p.1);
            }
        }
    }
}

pub proof fn lemma_read_tag_shrinks(s: Seq<char>)
    ensures
        spec_read_tag(s) matches Some(p) ==> p.1.len() < s.len(),
{
    if s.len() > 1 {
        let s1 = s.drop_first();
        lemma_until_len_bounds(s1.drop_first(), StopKind::WsOrGt);
        lemma_until_len_bounds(s1, StopKind::WsSlashGt);
        lemma_tag_attrs_suffix(s1.skip(until_len(s1, StopKind::WsSlashGt)));
    }
}

/// Reads a tag; `None` where reading cannot go on.
pub fn try_read_tag(chars: &mut CharStream, coord: &mut Coord) -> (r: Option<TagType>)
    requires
        room(*old(coord), old(chars).rest().len()),
    ensures
        match spec_read_tag(old(chars).rest()) {
            None => r is None,
            Some(p) => r matches Some(x) && tag_type_view(x) == p.0 && final(chars).rest() == p.1,
        },
        final(chars).rest().len() <= old(chars).rest().len(),
        room(*final(coord), final(chars).rest().len()),
{
    match chars.peek() {
        Some(c) => {
            if c != '<' {
                return None;
            }
        },
        None => {
            return None;
        },
    }
    let ghost s0 = chars.rest();
    expect_next(chars, '<', coord);
    let ghost s1 = chars.rest();
    if chars.peek() == Some('/') {
        chars.next();
        let name = read_until_kind(chars, StopKind::WsOrGt, coord);
        match chars.peek() {
            Some(c) => {
                if c != '>' {
                    return None;
                }
            },
            None => {
                return None;
            },
        }
        expect_next(chars, '>', coord);
        return Some(TagType::Closing(name));
    }
    let name = read_until_kind(chars, StopKind::WsSlashGt, coord);
    let ghost attrs_start = chars.rest();
    assert(attrs_start == s1.skip(until_len(s1, StopKind::WsSlashGt)));
    assert(name@ == s1.take(until_len(s1, StopKind::WsSlashGt)));
    let mut attributes: Vec<(String, AttrType)> = Vec::new();
    loop
        invariant
            s0 == old(chars).rest(),
            s0.len() > 0 && s0[0] == '<',
            s1 == s0.drop_first(),
            !(s1.len() > 0 && s1[0] == '/'),
            attrs_start == s1.skip(until_len(s1, StopKind::WsSlashGt)),
            chars.rest().len() <= s0.len(),
            room(*coord, chars.rest().len()),
            spec_tag_attrs(attrs_start) == match spec_tag_attrs(chars.rest()) {
                Some(q) => Some((attrs_view(attributes@) + q.0, q.1)),
                None => None::<(Seq<(Seq<char>, SAttr)>, Seq<char>)>,
            },
        ensures
            room(*coord, chars.rest().len()),
            spec_tag_attrs(attrs_start) == Some((attrs_view(attributes@), chars.rest())),
        decreases chars.rest().len(),
    {
        let ghost s = chars.rest();
        proof {
            lemma_until_len_bounds(s, StopKind::NonWs);
        }
        read_until_kind(chars, StopKind::NonWs, coord);
        assert(chars.rest() == s.skip(until_len(s, StopKind::NonWs)));
        match chars.peek() {
            Some(ch) => {
                if ch == '/' || ch == '>' {
                    proof {
                        assert(attrs_view(attributes@) + seq![] =~= attrs_view(attributes@));
                    }
                    break ;
                }
                proof {
                    lemma_parse_attr_shrinks(chars.rest());
                }
                let attr = match try_parse_attr(chars, coord) {
                    Some(a) => a,
                    None => {
                        return None;
                    },
                };
                let ghost old_attrs = attributes@;
                attributes.push(attr);
                proof {
                    assert(attrs_view(attributes@) =~= attrs_view(old_attrs).push(
                        (attr.0@, attr_view(attr.1)),
                    ));
                    match spec_tag_attrs(chars.rest()) {
                        Some(q) => {
                            assert(attrs_view(attributes@) + q.0 =~= attrs_view(old_attrs) + (seq![
                                (attr.0@, attr_view(attr.1)),
                            ] + q.0));
                        },
                        None => {},
                    }
                }
            },
            None => {
                assert(spec_tag_attrs(s) is None);
                return None;
            },
        }
    }
    let ghost q1 = chars.rest();
    assert(spec_tag_attrs(s1.skip(until_len(s1, StopKind::WsSlashGt))) == Some(
        (attrs_view(attributes@), q1),
    ));
    let self_closing = if chars.peek() == Some('/') {
        chars.next();
        proof {
            crate::utils::lemma_coord_after_bound(crate::utils::pos_of(*coord), seq!['/']);
        }
        crate::utils::update_coord('/', coord);
        true
    } else {
        false
    };
    match chars.peek() {
        Some(c) => {
            if c != '>' {
                return None;
            }
        },
        None => {
            return None;
        },
    }
    expect_next(chars, '>', coord);
    Some(TagType::Opening(Tag { name, attributes, self_closing }))
}

/// Reads a tag.
pub fn read_tag(chars: &mut CharStream, coord: &mut Coord) -> (r: TagType)
    requires
        room(*old(coord), old(chars).rest().len()),
        spec_read_tag(old(chars).rest()) is Some,
    ensures
        tag_type_view(r) == spec_read_tag(old(chars).rest())->Some_0.0,
        final(chars).rest() == spec_read_tag(old(chars).rest())->Some_0.1,
        room(*final(coord), final(chars).rest().len()),
{
    match try_read_tag(chars, coord) {
        Some(t) => t,
        None => TagType::Closing(String::new()),
    }
}

/// Reads `</name>` at the start of `s`, where `name` must be `expected`.
pub open spec fn spec_read_closing_tag(s: Seq<char>, expected: Seq<char>) -> Option<Seq<char>> {
    if s.len() < 2 || s[0] != '<' || s[1] != '/' {
        None
    } else {
        let s2 = s.skip(2);
        let n = until_len(s2, StopKind::WsOrGt);
        let s3 = s2.skip(n);
        if s2.take(n) == expected && s3.len() > 0 && s3[0] == '>' {
            Some(s3.drop_first())
        } else {
            None
        }
    }
}

/// Reads `</expected_name>`; `None` where the input holds no such tag. When
/// it is read, `coord` moves past it.
pub fn try_read_closing_tag(chars: &mut CharStream, coord: &mut Coord, expected_name: &str) -> (r: Option<()>)
    requires
        room(*old(coord), old(chars).rest().len()),
    ensures
        match spec_read_closing_tag(old(chars).rest(), expected_name@) {
            None => r is None,
            Some(rest) => r is Some && final(chars).rest() == rest,
        },
        r is Some ==> tracks(*old(coord), old(chars).rest(), *final(coord), final(chars).rest()),
        final(chars).rest().len() <= old(chars).rest().len(),
        room(*final(coord), final(chars).rest().len()),
{
    let ghost s = chars.rest();
    let ghost c0 = *coord;
    match chars.peek() {
        Some(c) => {
            if c != '<' {
                return None;
            }
        },
        None => {
            return None;
        },
    }
    expect_next(chars, '<', coord);
    let ghost s1 = chars.rest();
    let ghost c1 = *coord;
    proof {
        lemma_tracks_step(c0, s, c1, s1);
    }
    match chars.peek() {
        Some(c) => {
            if c != '/' {
                return None;
            }
        },
        None => {
            return None;
        },
    }
    expect_next(chars, '/', coord);
    let ghost s2 = chars.rest();
    let ghost c2 = *coord;
    proof {
        lemma_tracks_step(c1, s1, c2, s2);
        lemma_tracks_trans(c0, s, c1, s1, c2, s2);
    }
    assert(chars.rest() =~= s.skip(2));
    let name = read_until_kind(chars, StopKind::WsOrGt, coord);
    let ghost s3 = chars.rest();
    let ghost c3 = *coord;
    proof {
        lemma_tracks_trans(c0, s, c2, s2, c3, s3);
    }
    let name_chars = chars_of(&name);
    let expected = chars_of(expected_name);
    if !crate::text::chars_eq(name_chars.as_slice(), expected.as_slice()) {
        return None;
    }
    match chars.peek() {
        Some(c) => {
            if c != '>' {
                return None;
            }
        },
        None => {
            return None;
        },
    }
    expect_next(chars, '>', coord);
    proof {
        lemma_tracks_step(c3, s3, *coord, chars.rest());
        lemma_tracks_trans(c0, s, c3, s3, *coord, chars.rest());
    }
    Some(())
}

/// Reads `</expected_name>`, and moves `coord` past it.
pub fn read_closing_tag(chars: &mut CharStream, coord: &mut Coord, expected_name: &str)
    requires
        room(*old(coord), old(chars).rest().len()),
        spec_read_closing_tag(old(chars).rest(), expected_name@) is Some,
    ensures
        final(chars).rest() == spec_read_closing_tag(old(chars).rest(), expected_name@)->Some_0,
        tracks(*old(coord), old(chars).rest(), *final(coord), final(chars).rest()),
        room(*final(coord), final(chars).rest().len()),
{
    try_read_closing_tag(chars, coord, expected_name);
}

// ---------------------------------------------------------------------------
// Contents of elements and blocks.

pub open spec fn kw_if() -> Seq<char> {
    seq!['#', 'i', 'f']
}

pub open spec fn kw_each() -> Seq<char> {
    seq!['#', 'e', 'a', 'c', 'h']
}

pub open spec fn kw_else_if() -> Seq<char> {
    seq![':', 'e', 'l', 's', 'e', ' ', 'i', 'f']
}

pub open spec fn kw_else() -> Seq<char> {
    seq![':', 'e', 'l', 's', 'e']
}

pub open spec fn kw_end_if() -> Seq<char> {
    seq!['/', 'i', 'f']
}

pub open spec fn kw_end_each() -> Seq<char> {
    seq!['/', 'e', 'a', 'c', 'h']
}

pub open spec fn kw_as() -> Seq<char> {
    seq!['a', 's']
}

/// `s` without its leading white space.
pub open spec fn skip_ws(s: Seq<char>) -> Seq<char> {
    s.skip(until_len(s, StopKind::NonWs))
}

/// Reads the contents of an element or block, after leading white space: the
/// elements up to a closing tag, a block keyword (`{:else if ..}`, `{:else}`,
/// `{/if}`, `{/each}`) or the end of the input, with the reason it stopped,
/// what is left, and the next free element number. The contents take one
/// number, which their text, expression and block elements share; each tag
/// element takes one more.
pub open spec fn spec_read_contents(s: Seq<char>, ids: u32) -> Option<
    (Seq<SElement>, SExit, Seq<char>, u32),
>
    decreases s.len(), 2int,
{
    if ids == u32::MAX {
        None
    } else {
        proof {
            lemma_until_len_bounds(s, StopKind::NonWs);
        }
        spec_contents_loop(skip_ws(s), ids, (ids + 1) as u32, seq![])
    }
}

/// The elements of contents numbered `id`, after the elements `acc`.
pub open spec fn spec_contents_loop(s: Seq<char>, id: u32, ids: u32, acc: Seq<SElement>) -> Option<
    (Seq<SElement>, SExit, Seq<char>, u32),
>
    decreases s.len(), 1int,
{
    if s.len() == 0 {
        Some((acc, SExit::End, s, ids))
    } else if s[0] == '<' {
        match spec_read_tag(s) {
            None => None,
            Some(p) => match p.0 {
                STagType::Closing(name) => Some((acc, SExit::ClosingTag(name), p.1, ids)),
                STagType::Opening(tag) => {
                    proof {
                        lemma_read_tag_shrinks(s);
                    }
                    match spec_read_element_with_tag(p.1, ids, tag) {
                        None => None,
                        Some(q) => {
                            let r = skip_ws(q.1);
                            if r.len() < s.len() {
                                spec_contents_loop(r, id, q.2, acc.push(q.0))
                            } else {
                                None
                            }
                        },
                    }
                },
            },
        }
    } else if s[0] == '{' {
        let s1 = s.drop_first();
        match attr_expr_len(s1, 1) {
            None => None,
            Some(m) => {
                proof {
                    lemma_attr_expr_len_bounds(s1, 1);
                }
                let content = s1.take(m);
                let s2 = s1.skip(m);
                if !(s2.len() > 0 && s2[0] == '}') {
                    None
                } else {
                    let r = s2.drop_first();
                    spec_block_or_expr(s, r, content, id, ids, acc)
                }
            },
        }
    } else {
        let n = until_len(s, StopKind::BraceOrLt);
        proof {
            lemma_until_len_bounds(s, StopKind::BraceOrLt);
        }
        if n > 0 {
            spec_contents_loop(
                s.skip(n),
                id,
                ids,
                acc.push(SElement { id, content: SContent::Text(s.take(n)) }),
            )
        } else {
            None
        }
    }
}

/// The contents after a `{content}` that stood at the start of `s` and was
/// followed by `r`: an `{#if}` or `{#each}` block, a block keyword that ends
/// the contents, or an expression element. An `{#each iter as item}` header
/// names the iterated expression and, after `as`, the item's pattern (one
/// name, or a tuple such as `(a, b)`), whose words are kept with single
/// spaces between them.
pub open spec fn spec_block_or_expr(
    s: Seq<char>,
    r: Seq<char>,
    content: Seq<char>,
    id: u32,
    ids: u32,
    acc: Seq<SElement>,
) -> Option<(Seq<SElement>, SExit, Seq<char>, u32)>
    decreases s.len(), 0int,
{
    if !(r.len() < s.len()) {
        None
    } else if starts_with(content, kw_if()) {
        let cond = trim(trim_start_matches(content, kw_if()));
        if spec_expr_check(cond) is Some {
            None
        } else {
            match spec_read_contents(r, ids) {
                None => None,
                Some(c) => {
                    let first = SIfBranch { condition: cond, contents: c.0 };
                    let tail = match c.1 {
                        SExit::ElseIf(_) => if c.2.len() < r.len() {
                            spec_if_rest(c.1, c.2, c.3)
                        } else {
                            None
                        },
                        SExit::Else => if c.2.len() < r.len() {
                            spec_if_rest(c.1, c.2, c.3)
                        } else {
                            None
                        },
                        _ => Some((seq![], None, c.2, c.3)),
                    };
                    match tail {
                        None => None,
                        Some(t) => {
                            let el = SElement {
                                id,
                                content: SContent::If(seq![first] + t.0, t.1),
                            };
                            let r3 = skip_ws(t.2);
                            if r3.len() < s.len() {
                                spec_contents_loop(r3, id, t.3, acc.push(el))
                            } else {
                                None
                            }
                        },
                    }
                },
            }
        }
    } else if starts_with(content, kw_each()) {
        let parts = words(trim(trim_start_matches(content, kw_each())));
        if parts.len() < 3 || parts[1] != kw_as() || spec_expr_check(parts[0]) is Some {
            None
        } else {
            match spec_read_contents(r, ids) {
                None => None,
                Some(c) => if c.1 != SExit::EachClose {
                    None
                } else {
                    let el = SElement {
                        id,
                        content: SContent::Each(parts[0], join_spaced(parts.skip(2)), c.0),
                    };
                    let r3 = skip_ws(c.2);
                    if r3.len() < s.len() {
                        spec_contents_loop(r3, id, c.3, acc.push(el))
                    } else {
                        None
                    }
                },
            }
        }
    } else if starts_with(content, kw_else_if()) {
        let cond = trim(trim_start_matches(content, kw_else_if()));
        if spec_expr_check(cond) is Some {
            None
        } else {
            Some((acc, SExit::ElseIf(cond), r, ids))
        }
    } else if starts_with(content, kw_else()) {
        Some((acc, SExit::Else, r, ids))
    } else if starts_with(content, kw_end_if()) {
        Some((acc, SExit::IfClose, r, ids))
    } else if starts_with(content, kw_end_each()) {
        Some((acc, SExit::EachClose, r, ids))
    } else if spec_expr_check(content) is Some {
        None
    } else {
        let r3 = skip_ws(r);
        proof {
            lemma_until_len_bounds(r, StopKind::NonWs);
        }
        spec_contents_loop(r3, id, ids, acc.push(SElement { id, content: SContent::Expr(content) }))
    }
}

/// The branches of an `{#if}` block after its first one, and its `{:else}`
/// contents, given why the previous branch stopped.
pub open spec fn spec_if_rest(exit: SExit, s: Seq<char>, ids: u32) -> Option<
    (Seq<SIfBranch>, Option<Seq<SElement>>, Seq<char>, u32),
>
    decreases s.len(), 3int,
{
    match exit {
        SExit::ElseIf(cond) => match spec_read_contents(s, ids) {
            None => None,
            Some(c) => {
                let b = SIfBranch { condition: cond, contents: c.0 };
                match c.1 {
                    SExit::ElseIf(_) => if c.2.len() < s.len() {
                        match spec_if_rest(c.1, c.2, c.3) {
                            None => None,
                            Some(t) => Some((seq![b] + t.0, t.1, t.2, t.3)),
                        }
                    } else {
                        None
                    },
                    SExit::Else => if c.2.len() < s.len() {
                        match spec_if_rest(c.1, c.2, c.3) {
                            None => None,
                            Some(t) => Some((seq![b] + t.0, t.1, t.2, t.3)),
                        }
                    } else {
                        None
                    },
                    _ => Some((seq![b], None, c.2, c.3)),
                }
            },
        },
        SExit::Else => match spec_read_contents(s, ids) {
            None => None,
            Some(c) => Some((seq![], Some(c.0), c.2, c.3)),
        },
        _ => Some((seq![], None, s, ids)),
    }
}

/// Reads the contents of an element whose opening tag `tag` was read, and its
/// closing tag, which must have the same name. The element takes the next
/// number.
pub open spec fn spec_read_element_with_tag(s: Seq<char>, ids: u32, tag: STag) -> Option<
    (SElement, Seq<char>, u32),
>
    decreases s.len(), 3int,
{
    if ids == u32::MAX {
        None
    } else if tag.self_closing {
        Some((SElement { id: ids, content: SContent::Tag(tag, seq![]) }, s, (ids + 1) as u32))
    } else {
        match spec_read_contents(s, (ids + 1) as u32) {
            None => None,
            Some(c) => if c.1 == SExit::ClosingTag(tag.name) {
                Some((SElement { id: ids, content: SContent::Tag(tag, c.0) }, c.2, c.3))
            } else {
                None
            },
        }
    }
}

/// Whether a contents reader's result is what its specification gives.
pub open spec fn contents_result_ok(
    r: Option<(Vec<Element>, ReadContentExitReason)>,
    spec: Option<(Seq<SElement>, SExit, Seq<char>, u32)>,
    rest: Seq<char>,
    ids: u32,
) -> bool {
    match spec {
        None => r is None,
        Some(c) => r matches Some(x) && elements_view(x.0@) == c.0 && exit_view(x.1) == c.1 && rest
            == c.2 && ids == c.3,
    }
}

pub proof fn lemma_elements_view_push(v: Seq<Element>, e: Element)
    ensures
        elements_view(v.push(e)) == elements_view(v).push(element_view(e)),
{
    assert(v.push(e).drop_last() =~= v);
}

pub proof fn lemma_branches_view_prepend(b: IfBranch, v: Seq<IfBranch>)
    ensures
        branches_view(seq![b] + v) == seq![
            SIfBranch { condition: b.condition@, contents: elements_view(b.contents@) },
        ] + branches_view(v),
    decreases v.len(),
{
    let bv = SIfBranch { condition: b.condition@, contents: elements_view(b.contents@) };
    if v.len() == 0 {
        assert(seq![b] + v =~= seq![b]);
        assert(seq![b].drop_last() =~= Seq::<IfBranch>::empty());
        assert(branches_view(Seq::<IfBranch>::empty()) =~= Seq::<SIfBranch>::empty());
        assert(branches_view(seq![b]) == branches_view(Seq::<IfBranch>::empty()).push(bv));
        assert(seq![bv] + branches_view(v) =~= Seq::<SIfBranch>::empty().push(bv));
    } else {
        lemma_branches_view_prepend(b, v.drop_last());
        assert((seq![b] + v).drop_last() =~= seq![b] + v.drop_last());
        assert((seq![b] + v).last() == v.last());
        let lv = SIfBranch {
            condition: v.last().condition@,
            contents: elements_view(v.last().contents@),
        };
        assert(branches_view(seq![b] + v) == branches_view(seq![b] + v.drop_last()).push(lv));
        assert(branches_view(v) == branches_view(v.drop_last()).push(lv));
        assert((seq![bv] + branches_view(v.drop_last())).push(lv) =~= seq![bv] + branches_view(v.drop_last()).push(lv));
    }
}

/// One step of reading contents after a `{...}`: an element to add, or the
/// reason the contents stop.
enum BlockStep {
    Push(Element),
    Stop(ReadContentExitReason),
}

/// Reads what follows a `{content}`: an `{#if}` or `{#each}` block, a block
/// keyword, or an expression. `s` is the input the contents loop stood at
/// before the `{`, `acc` the elements it read so far.
fn try_read_block(
    chars: &mut CharStream,
    coord: &mut Coord,
    id_counter: &mut u32,
    content: &Vec<char>,
    id: u32,
    Ghost(s): Ghost<Seq<char>>,
    Ghost(acc): Ghost<Seq<SElement>>,
) -> (r: Option<BlockStep>)
    requires
        room(*old(coord), old(chars).rest().len()),
        old(chars).rest().len() < s.len(),
    ensures
        final(chars).rest().len() <= old(chars).rest().len(),
        room(*final(coord), final(chars).rest().len()),
        match r {
            None => spec_block_or_expr(s, old(chars).rest(), content@, id, *old(id_counter), acc) is None,
            Some(BlockStep::Push(el)) => spec_block_or_expr(
                s,
                old(chars).rest(),
                content@,
                id,
                *old(id_counter),
                acc,
            ) == spec_contents_loop(
                final(chars).rest(),
                id,
                *final(id_counter),
                acc.push(element_view(el)),
            ) && final(chars).rest().len() < s.len(),
            Some(BlockStep::Stop(e)) => spec_block_or_expr(
                s,
                old(chars).rest(),
                content@,
                id,
                *old(id_counter),
                acc,
            ) == Some((acc, exit_view(e), final(chars).rest(), *final(id_counter))),
        },
    decreases s.len(), 1int,
{
    let ghost r0 = chars.rest();
    let kw_if_v = vec!['#', 'i', 'f'];
    let kw_each_v = vec!['#', 'e', 'a', 'c', 'h'];
    let kw_else_if_v = vec![':', 'e', 'l', 's', 'e', ' ', 'i', 'f'];
    let kw_else_v = vec![':', 'e', 'l', 's', 'e'];
    let kw_end_if_v = vec!['/', 'i', 'f'];
    let kw_end_each_v = vec!['/', 'e', 'a', 'c', 'h'];
    proof {
        assert(kw_if_v@ =~= kw_if());
        assert(kw_each_v@ =~= kw_each());
        assert(kw_else_if_v@ =~= kw_else_if());
        assert(kw_else_v@ =~= kw_else());
        assert(kw_end_if_v@ =~= kw_end_if());
        assert(kw_end_each_v@ =~= kw_end_each());
    }
    if starts_with_chars(content.as_slice(), kw_if_v.as_slice()) {
        let t = trim_start_matches_chars(content.as_slice(), kw_if_v.as_slice());
        let cond_chars = trim_chars(t.as_slice());
        let cond = string_from_chars(cond_chars.as_slice());
        if check_expr(&cond).is_some() {
            return None;
        }
        let (c, e) = match try_read_contents(chars, coord, id_counter) {
            None => {
                return None;
            },
            Some(x) => x,
        };
        let ghost r1 = chars.rest();
        let first = IfBranch { condition: cond, contents: c };
        let (mut bs, els) = match e {
            ReadContentExitReason::ElseIf(ec) => match try_read_if_rest(
                ReadContentExitReason::ElseIf(ec),
                chars,
                coord,
                id_counter,
            ) {
                None => {
                    return None;
                },
                Some(x) => x,
            },
            ReadContentExitReason::Else => match try_read_if_rest(
                ReadContentExitReason::Else,
                chars,
                coord,
                id_counter,
            ) {
                None => {
                    return None;
                },
                Some(x) => x,
            },
            _ => (Vec::new(), None),
        };
        let ghost tail_bs = bs@;
        bs.insert(0, first);
        proof {
            assert(bs@ =~= seq![first] + tail_bs);
            lemma_branches_view_prepend(first, tail_bs);
            if tail_bs.len() == 0 {
                assert(branches_view(tail_bs) =~= Seq::<SIfBranch>::empty());
            }
        }
        let ghost r2 = chars.rest();
        read_until_kind(chars, StopKind::NonWs, coord);
        proof {
            lemma_until_len_bounds(r2, StopKind::NonWs);
        }
        return Some(BlockStep::Push(Element { id, content: ContentType::If(bs, els) }));
    }
    if starts_with_chars(content.as_slice(), kw_each_v.as_slice()) {
        let t = trim_start_matches_chars(content.as_slice(), kw_each_v.as_slice());
        let each_str = trim_chars(t.as_slice());
        let parts = split_whitespace_chars(each_str.as_slice());
        let as_v = vec!['a', 's'];
        assert(as_v@ =~= kw_as());
        if parts.len() < 3 {
            return None;
        }
        if !chars_eq(parts[1].as_slice(), as_v.as_slice()) {
            return None;
        }
        let iter = string_from_chars(parts[0].as_slice());
        if check_expr(&iter).is_some() {
            return None;
        }
        let item_chars = join_words_from(&parts, 2, Ghost(words(each_str@)));
        let item = string_from_chars(item_chars.as_slice());
        let (c, e) = match try_read_contents(chars, coord, id_counter) {
            None => {
                return None;
            },
            Some(x) => x,
        };
        match e {
            ReadContentExitReason::EachClose => {},
            _ => {
                return None;
            },
        }
        let ghost r2 = chars.rest();
        read_until_kind(chars, StopKind::NonWs, coord);
        proof {
            lemma_until_len_bounds(r2, StopKind::NonWs);
        }
        return Some(BlockStep::Push(Element { id, content: ContentType::Each(iter, item, c) }));
    }
    if starts_with_chars(content.as_slice(), kw_else_if_v.as_slice()) {
        let t = trim_start_matches_chars(content.as_slice(), kw_else_if_v.as_slice());
        let cond_chars = trim_chars(t.as_slice());
        let cond = string_from_chars(cond_chars.as_slice());
        if check_expr(&cond).is_some() {
            return None;
        }
        return Some(BlockStep::Stop(ReadContentExitReason::ElseIf(cond)));
    }
    if starts_with_chars(content.as_slice(), kw_else_v.as_slice()) {
        return Some(BlockStep::Stop(ReadContentExitReason::Else));
    }
    if starts_with_chars(content.as_slice(), kw_end_if_v.as_slice()) {
        return Some(BlockStep::Stop(ReadContentExitReason::IfClose));
    }
    if starts_with_chars(content.as_slice(), kw_end_each_v.as_slice()) {
        return Some(BlockStep::Stop(ReadContentExitReason::EachClose));
    }
    let x = string_from_chars(content.as_slice());
    if check_expr(&x).is_some() {
        return None;
    }
    proof {
        lemma_until_len_bounds(r0, StopKind::NonWs);
    }
    read_until_kind(chars, StopKind::NonWs, coord);
    Some(BlockStep::Push(Element { id, content: ContentType::Expr(x) }))
}

/// Reads the branches of an `{#if}` block after its first one, and its
/// `{:else}` contents; `None` where reading cannot go on.
pub fn try_read_if_rest(
    exit: ReadContentExitReason,
    chars: &mut CharStream,
    coord: &mut Coord,
    id_counter: &mut u32,
) -> (r: Option<(Vec<IfBranch>, Option<Vec<Element>>)>)
    requires
        room(*old(coord), old(chars).rest().len()),
    ensures
        final(chars).rest().len() <= old(chars).rest().len(),
        room(*final(coord), final(chars).rest().len()),
        match spec_if_rest(exit_view(exit), old(chars).rest(), *old(id_counter)) {
            None => r is None,
            Some(t) => r matches Some(x) && branches_view(x.0@) == t.0 && t.1 == match x.1 {
                Some(c) => Some(elements_view(c@)),
                None => None,
            } && final(chars).rest() == t.2 && *final(id_counter) == t.3,
        },
    decreases old(chars).rest().len(), 3int,
{
    match exit {
        ReadContentExitReason::ElseIf(cond) => {
            let (c, e) = match try_read_contents(chars, coord, id_counter) {
                None => {
                    return None;
                },
                Some(x) => x,
            };
            let b = IfBranch { condition: cond, contents: c };
            let (mut bs, els) = match e {
                ReadContentExitReason::ElseIf(ec) => match try_read_if_rest(
                    ReadContentExitReason::ElseIf(ec),
                    chars,
                    coord,
                    id_counter,
                ) {
                    None => {
                        return None;
                    },
                    Some(x) => x,
                },
                ReadContentExitReason::Else => match try_read_if_rest(
                    ReadContentExitReason::Else,
                    chars,
                    coord,
                    id_counter,
                ) {
                    None => {
                        return None;
                    },
                    Some(x) => x,
                },
                _ => (Vec::new(), None),
            };
            let ghost tail_bs = bs@;
            bs.insert(0, b);
            proof {
                assert(bs@ =~= seq![b] + tail_bs);
                lemma_branches_view_prepend(b, tail_bs);
                if tail_bs.len() == 0 {
                    assert(branches_view(tail_bs) =~= Seq::<SIfBranch>::empty());
                }
            }
            Some((bs, els))
        },
        ReadContentExitReason::Else => {
            let (c, _e) = match try_read_contents(chars, coord, id_counter) {
                None => {
                    return None;
                },
                Some(x) => x,
            };
            proof {
                assert(branches_view(Seq::<IfBranch>::empty()) =~= Seq::<SIfBranch>::empty());
            }
            Some((Vec::new(), Some(c)))
        },
        _ => {
            proof {
                assert(branches_view(Seq::<IfBranch>::empty()) =~= Seq::<SIfBranch>::empty());
            }
            Some((Vec::new(), None))
        },
    }
}

/// Reads the contents of an element or block; `None` where reading cannot go
/// on. See `spec_read_contents`.
pub fn try_read_contents(chars: &mut CharStream, coord: &mut Coord, id_counter: &mut u32) -> (r: Option<
    (Vec<Element>, ReadContentExitReason),
>)
    requires
        room(*old(coord), old(chars).rest().len()),
    ensures
        contents_result_ok(
            r,
            spec_read_contents(old(chars).rest(), *old(id_counter)),
            final(chars).rest(),
            *final(id_counter),
        ),
        final(chars).rest().len() <= old(chars).rest().len(),
        r matches Some(x) && !(x.1 is End) ==> final(chars).rest().len() < old(chars).rest().len(),
        room(*final(coord), final(chars).rest().len()),
    decreases old(chars).rest().len(), 2int,
{
    let ghost s0 = chars.rest();
    let ghost ids0 = *id_counter;
    proof {
        lemma_until_len_bounds(s0, StopKind::NonWs);
    }
    read_until_kind(chars, StopKind::NonWs, coord);
    if *id_counter == u32::MAX {
        return None;
    }
    let id = *id_counter;
    *id_counter = *id_counter + 1;
    let mut elems: Vec<Element> = Vec::new();
    assert(elements_view(elems@) =~= Seq::<SElement>::empty());
    loop
        invariant
            s0 == old(chars).rest(),
            ids0 == *old(id_counter),
            ids0 < u32::MAX,
            id == ids0,
            chars.rest().len() <= s0.len(),
            room(*coord, chars.rest().len()),
            spec_read_contents(s0, ids0) == spec_contents_loop(
                chars.rest(),
                id,
                *id_counter,
                elements_view(elems@),
            ),
        decreases chars.rest().len(),
    {
        let ghost s = chars.rest();
        let ghost ids_s = *id_counter;
        let ghost acc = elements_view(elems@);
        match chars.peek() {
            None => {
                return Some((elems, ReadContentExitReason::End));
            },
            Some(ch) => {
                if ch == '<' {
                    proof {
                        lemma_read_tag_shrinks(s);
                    }
                    let t = match try_read_tag(chars, coord) {
                        None => {
                            return None;
                        },
                        Some(t) => t,
                    };
                    match t {
                        TagType::Closing(name) => {
                            return Some((elems, ReadContentExitReason::ClosingTag(name)));
                        },
                        TagType::Opening(tag) => {
                            let el = match try_read_element_with_tag(chars, coord, id_counter, tag) {
                                None => {
                                    return None;
                                },
                                Some(e) => e,
                            };
                            let ghost r2 = chars.rest();
                            proof {
                                lemma_until_len_bounds(r2, StopKind::NonWs);
                            }
                            read_until_kind(chars, StopKind::NonWs, coord);
                            let ghost old_elems = elems@;
                            elems.push(el);
                            proof {
                                lemma_elements_view_push(old_elems, el);
                            }
                            assert(chars.rest().len() < s.len());
                            assert(spec_contents_loop(s, id, ids_s, acc) == spec_contents_loop(chars.rest(), id, *id_counter, elements_view(elems@)));
                        },
                    }
                } else if ch == '{' {
                    chars.next();
                    crate::utils::update_coord('{', coord);
                    let ghost s1 = chars.rest();
                    proof {
                        lemma_attr_expr_len_bounds(s1, 1);
                    }
                    let content_s = match try_read_attr_expression(chars, coord) {
                        None => {
                            return None;
                        },
                        Some(x) => x,
                    };
                    match chars.peek() {
                        Some(c) => {
                            if c != '}' {
                                return None;
                            }
                        },
                        None => {
                            return None;
                        },
                    }
                    expect_next(chars, '}', coord);
                    let content = chars_of(&content_s);
                    match try_read_block(
                        chars,
                        coord,
                        id_counter,
                        &content,
                        id,
                        Ghost(s),
                        Ghost(acc),
                    ) {
                        None => {
                            return None;
                        },
                        Some(BlockStep::Stop(e)) => {
                            return Some((elems, e));
                        },
                        Some(BlockStep::Push(el)) => {
                            let ghost old_elems = elems@;
                            elems.push(el);
                            proof {
                                lemma_elements_view_push(old_elems, el);
                            }
                        },
                    }
                } else {
                    proof {
                        lemma_until_len_bounds(s, StopKind::BraceOrLt);
                        lemma_until_len_bounds(s.drop_first(), StopKind::BraceOrLt);
                        assert(until_len(s, StopKind::BraceOrLt) == 1 + until_len(
                            s.drop_first(),
                            StopKind::BraceOrLt,
                        ));
                    }
                    let text = read_until_kind(chars, StopKind::BraceOrLt, coord);
                    let el = Element { id, content: ContentType::Text(text) };
                    let ghost old_elems = elems@;
                    elems.push(el);
                    proof {
                        lemma_elements_view_push(old_elems, el);
                    }
                    assert(chars.rest().len() < s.len());
                    assert(spec_contents_loop(s, id, ids_s, acc) == spec_contents_loop(chars.rest(), id, *id_counter, elements_view(elems@)));
                }
            },
        }
    }
}

/// Reads the contents of an element or block. See `spec_read_contents`.
pub fn read_contents(chars: &mut CharStream, coord: &mut Coord, id_counter: &mut u32) -> (r: (
    Vec<Element>,
    ReadContentExitReason,
))
    requires
        room(*old(coord), old(chars).rest().len()),
        spec_read_contents(old(chars).rest(), *old(id_counter)) is Some,
    ensures
        contents_result_ok(
            Some(r),
            spec_read_contents(old(chars).rest(), *old(id_counter)),
            final(chars).rest(),
            *final(id_counter),
        ),
        room(*final(coord), final(chars).rest().len()),
{
    match try_read_contents(chars, coord, id_counter) {
        Some(r) => r,
        None => (Vec::new(), ReadContentExitReason::End),
    }
}

/// Reads the contents and the closing tag of an element whose opening tag
/// was read; `None` where reading cannot go on.
pub fn try_read_element_with_tag(
    chars: &mut CharStream,
    coord: &mut Coord,
    id_counter: &mut u32,
    tag: Tag,
) -> (r: Option<Element>)
    requires
        room(*old(coord), old(chars).rest().len()),
    ensures
        match spec_read_element_with_tag(old(chars).rest(), *old(id_counter), tag_view(tag)) {
            None => r is None,
            Some(q) => r matches Some(e) && element_view(e) == q.0 && final(chars).rest() == q.1
                && *final(id_counter) == q.2,
        },
        final(chars).rest().len() <= old(chars).rest().len(),
        room(*final(coord), final(chars).rest().len()),
    decreases old(chars).rest().len(), 3int,
{
    if *id_counter == u32::MAX {
        return None;
    }
    let id = *id_counter;
    *id_counter = *id_counter + 1;
    if tag.self_closing {
        let e = Element { id, content: ContentType::Tag(tag, Vec::new()) };
        assert(elements_view(Seq::<Element>::empty()) =~= Seq::<SElement>::empty());
        return Some(e);
    }
    let (c, e) = match try_read_contents(chars, coord, id_counter) {
        None => {
            return None;
        },
        Some(x) => x,
    };
    match e {
        ReadContentExitReason::ClosingTag(name) => {
            let n1 = chars_of(&name);
            let n2 = chars_of(&tag.name);
            if chars_eq(n1.as_slice(), n2.as_slice()) {
                Some(Element { id, content: ContentType::Tag(tag, c) })
            } else {
                None
            }
        },
        _ => None,
    }
}

/// Reads the contents and the closing tag of an element whose opening tag
/// `tag` was read; the element takes the next number.
pub fn read_element_with_tag(
    chars: &mut CharStream,
    coord: &mut Coord,
    id_counter: &mut u32,
    tag: Tag,
) -> (r: Element)
    requires
        room(*old(coord), old(chars).rest().len()),
        spec_read_element_with_tag(old(chars).rest(), *old(id_counter), tag_view(tag)) is Some,
    ensures
        element_view(r) == spec_read_element_with_tag(
            old(chars).rest(),
            *old(id_counter),
            tag_view(tag),
        )->Some_0.0,
        final(chars).rest() == spec_read_element_with_tag(
            old(chars).rest(),
            *old(id_counter),
            tag_view(tag),
        )->Some_0.1,
        *final(id_counter) == spec_read_element_with_tag(
            old(chars).rest(),
            *old(id_counter),
            tag_view(tag),
        )->Some_0.2,
        room(*final(coord), final(chars).rest().len()),
{
    match try_read_element_with_tag(chars, coord, id_counter, tag) {
        Some(e) => e,
        None => Element { id: 0, content: ContentType::Text(String::new()) },
    }
}

} // verus!
