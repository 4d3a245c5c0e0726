//! The attributes of a tag in the transformed template: which are reactive,
//! which call a state function, and which are fixed.

use vstd::prelude::*;

use crate::parse::html_parse::{AttrType, Tag};
use crate::parse::rs_parse::{AttrClosure, handler_ident, spec_handler_ident};
use crate::transform::derived::ReactiveVar;
use crate::transform::node::{EachVar, TagAttribute};

verus! {

/// The mask of the first reactive variable named `name`, or 0.
pub open spec fn bind_mask(vars: Seq<ReactiveVar>, name: Seq<char>) -> u64
    decreases vars.len(),
{
    if vars.len() == 0 {
        0
    } else if vars[0].name@ == name {
        vars[0].flag_mask
    } else {
        bind_mask(vars.drop_first(), name)
    }
}

/// Whether `name` is among `names`.
pub open spec fn has_name(names: Seq<String>, name: Seq<char>) -> bool {
    exists|i: int| 0 <= i < names.len() && (#[trigger] names[i])@ == name
}

/// Two closures with the same argument and body text.
pub open spec fn closure_same(a: AttrClosure, b: AttrClosure) -> bool {
    &&& a.body@ == b.body@
    &&& match (a.event_arg, b.event_arg) {
        (Some(x), Some(y)) => x.0@ == y.0@ && x.1@ == y.1@,
        (None, None) => true,
        _ => false,
    }
}

/// `out` is the transformed attribute for the attribute `(name, value)` of a
/// tag whose expressions `content_expr` rewrites with `scoped` in scope:
/// strings and closures are kept and fixed; an expression that reads no
/// reactive state is a call where it names one of `state_funcs` (as `f` or as
/// `f()`), and a fixed expression otherwise; one that reads state is reactive, with the mask of
/// what it reads; a binding is reactive with the mask of the variable it
/// binds. `None` for a call, which the parser does not produce.
pub open spec fn attr_rel<F1: Fn(&String, &Vec<EachVar>) -> (String, u64)>(
    content_expr: F1,
    reactive: Seq<ReactiveVar>,
    state_funcs: Seq<String>,
    scoped: Vec<EachVar>,
    name: String,
    value: AttrType,
    out: Option<TagAttribute>,
) -> bool {
    match value {
        AttrType::Str(s) => out matches Some(o) && o.name@ == name@ && o.flag_mask is None
            && (o.value matches AttrType::Str(t) && t@ == s@),
        AttrType::Closure(c) => out matches Some(o) && o.name@ == name@ && o.flag_mask is None
            && (o.value matches AttrType::Closure(d) && closure_same(c, d)),
        AttrType::Expr(e) => out matches Some(o) && o.name@ == name@ && exists|x2: String, m: u64|
            #![trigger call_ensures(content_expr, (&e, &scoped), (x2, m))]
            call_ensures(content_expr, (&e, &scoped), (x2, m)) && if m == 0 {
                o.flag_mask is None && (match spec_handler_ident(x2@) {
                    Some(id) => if has_name(state_funcs, id) {
                        o.value matches AttrType::Call(f) && f@ == id
                    } else {
                        o.value matches AttrType::Expr(t) && t@ == x2@
                    },
                    None => o.value matches AttrType::Expr(t) && t@ == x2@,
                })
            } else {
                o.flag_mask == Some(m) && (o.value matches AttrType::Expr(t) && t@ == x2@)
            },
        AttrType::Bind(v) => out matches Some(o) && o.name@ == name@ && o.flag_mask == Some(
            bind_mask(reactive, v@),
        ) && (o.value matches AttrType::Bind(w) && w@ == v@),
        AttrType::Call(_) => out is None,
    }
}

/// The mask of the first reactive variable named `name`, or 0.
fn find_bind_mask(vars: &Vec<ReactiveVar>, name: &String) -> (m: u64)
    ensures
        m == bind_mask(vars@, name@),
{
    let mut i: usize = 0;
    assert(vars@.skip(0) =~= vars@);
    while i < vars.len()
        invariant
            i <= vars@.len(),
            bind_mask(vars@, name@) == bind_mask(vars@.skip(i as int), name@),
        decreases vars@.len() - i,
    {
        let ghost rest = vars@.skip(i as int);
        assert(rest[0] == vars@[i as int]);
        if crate::text::str_eq(vars[i].name.as_str(), name.as_str()) {
            return vars[i].flag_mask;
        }
        assert(rest.drop_first() =~= vars@.skip(i + 1));
        i = i + 1;
    }
    assert(vars@.skip(i as int).len() == 0);
    0
}

/// Whether `name` is among `names`.
fn contains(names: &Vec<String>, name: &String) -> (r: bool)
    ensures
        r == has_name(names@, name@),
{
    let mut i: usize = 0;
    while i < names.len()
        invariant
            i <= names@.len(),
            forall|j: int| 0 <= j < i ==> (#[trigger] names@[j])@ != name@,
        decreases names@.len() - i,
    {
        if crate::text::str_eq(names[i].as_str(), name.as_str()) {
            return true;
        }
        i = i + 1;
    }
    false
}

/// The transformed attribute of `(name, value)`; see `attr_rel`.
fn transform_one<F1: Fn(&String, &Vec<EachVar>) -> (String, u64)>(
    name: &String,
    value: &AttrType,
    content_expr: &F1,
    reactive_vars: &Vec<ReactiveVar>,
    state_funcs: &Vec<String>,
    scoped: &Vec<EachVar>,
) -> (out: Option<TagAttribute>)
    requires
        forall|a: String, b: Vec<EachVar>| content_expr.requires((&a, &b)),
    ensures
        attr_rel(*content_expr, reactive_vars@, state_funcs@, *scoped, *name, *value, out),
{
    match value {
        AttrType::Str(s) => Some(
            TagAttribute { name: name.clone(), value: AttrType::Str(s.clone()), flag_mask: None },
        ),
        AttrType::Closure(c) => {
            let event_arg = match &c.event_arg {
                Some(p) => Some((p.0.clone(), p.1.clone())),
                None => None,
            };
            let copy = AttrClosure { event_arg, body: c.body.clone() };
            Some(TagAttribute { name: name.clone(), value: AttrType::Closure(copy), flag_mask: None })
        },
        AttrType::Expr(e) => {
            let (x2, m) = content_expr(e, scoped);
            if m == 0 {
                let v = match handler_ident(x2.as_str()) {
                    Some(id) => {
                        if contains(state_funcs, &id) {
                            AttrType::Call(id)
                        } else {
                            AttrType::Expr(x2)
                        }
                    },
                    None => AttrType::Expr(x2),
                };
                Some(TagAttribute { name: name.clone(), value: v, flag_mask: None })
            } else {
                Some(TagAttribute { name: name.clone(), value: AttrType::Expr(x2), flag_mask: Some(m) })
            }
        },
        AttrType::Bind(v) => {
            let mask = find_bind_mask(reactive_vars, v);
            Some(TagAttribute { name: name.clone(), value: AttrType::Bind(v.clone()), flag_mask: Some(mask) })
        },
        AttrType::Call(_) => None,
    }
}

/// The transformed attributes of `attrs`, in order.
pub open spec fn attrs_rel<F1: Fn(&String, &Vec<EachVar>) -> (String, u64)>(
    content_expr: F1,
    reactive: Seq<ReactiveVar>,
    state_funcs: Seq<String>,
    scoped: Vec<EachVar>,
    attrs: Seq<(String, AttrType)>,
    out: Seq<TagAttribute>,
) -> bool
    decreases attrs.len(),
{
    if attrs.len() == 0 {
        out.len() == 0
    } else {
        exists|o: Option<TagAttribute>, k: int|
            #![trigger attr_rel(content_expr, reactive, state_funcs, scoped, attrs.last().0, attrs.last().1, o), out.take(k)]
            0 <= k <= out.len() && attr_rel(
                content_expr,
                reactive,
                state_funcs,
                scoped,
                attrs.last().0,
                attrs.last().1,
                o,
            ) && attrs_rel(content_expr, reactive, state_funcs, scoped, attrs.drop_last(), out.take(k))
                && match o {
                Some(a) => out.len() == k + 1 && out[k] == a,
                None => out.len() == k,
            }
    }
}

/// Distinguishes the reactive attributes of `tag` from the calls of state
/// functions and the fixed values, and gives reactive attributes their flag
/// masks; expressions are rewritten by `content_expr` with the `{#each}`
/// items `scoped` in scope. See `attr_rel`.
pub fn transform_attr<F1: Fn(&String, &Vec<EachVar>) -> (String, u64)>(
    tag: &Tag,
    content_expr: &F1,
    reactive_vars: &Vec<ReactiveVar>,
    state_funcs: &Vec<String>,
    scoped: &Vec<EachVar>,
) -> (r: Vec<TagAttribute>)
    requires
        forall|a: String, b: Vec<EachVar>| content_expr.requires((&a, &b)),
    ensures
        attrs_rel(*content_expr, reactive_vars@, state_funcs@, *scoped, tag.attributes@, r@),
{
    let mut r: Vec<TagAttribute> = Vec::new();
    let mut i: usize = 0;
    while i < tag.attributes.len()
        invariant
            i <= tag.attributes@.len(),
            forall|a: String, b: Vec<EachVar>| content_expr.requires((&a, &b)),
            attrs_rel(
                *content_expr,
                reactive_vars@,
                state_funcs@,
                *scoped,
                tag.attributes@.take(i as int),
                r@,
            ),
        decreases tag.attributes@.len() - i,
    {
        let ghost before = r@;
        let attr = &tag.attributes[i];
        let o = transform_one(&attr.0, &attr.1, content_expr, reactive_vars, state_funcs, scoped);
        let ghost og = o;
        match o {
            Some(a) => {
                r.push(a);
            },
            None => {},
        }
        proof {
            let t1 = tag.attributes@.take(i + 1);
            assert(t1.drop_last() =~= tag.attributes@.take(i as int));
            assert(t1.last() == tag.attributes@[i as int]);
            assert(r@.take(before.len() as int) =~= before);
            assert(attr_rel(
                *content_expr,
                reactive_vars@,
                state_funcs@,
                *scoped,
                t1.last().0,
                t1.last().1,
                og,
            ));
        }
        i = i + 1;
    }
    assert(tag.attributes@.take(i as int) =~= tag.attributes@);
    r
}

} // verus!
