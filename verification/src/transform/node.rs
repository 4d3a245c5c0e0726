//! Names and attributes of the nodes of a transformed template.

use vstd::prelude::*;

use vstd::string::StringExecFns;

use crate::numtext::{spec_digits, to_decimal};
use crate::parse::html_parse::{AttrType, ContentType, Element, IfBranch, SAttr, Tag, attr_view};
use crate::text::spec_is_uppercase;
use crate::parse::ComponentImport;
use crate::parse::rs_parse::Prop;
use crate::utils::CompileError;
use crate::utils::string_from_chars;

verus! {

/// The kind of type of an `{#each}` expression.
pub enum ExprType {
    Vec,
    Iterable,
    Array,
}

/// The letter for `d < 26`: `a` for 0, `b` for 1, and so on.
pub open spec fn letter(d: nat) -> char {
    (97 + d) as char
}

/// The name of the field numbered `n - 1` when `n >= 1`: `a`, ..., `z`, `aa`,
/// `ab`, ... (bijective base 26); empty for `n == 0`.
pub open spec fn letters(n: nat) -> Seq<char>
    decreases n,
{
    if n == 0 {
        seq![]
    } else {
        letters(((n - 1) / 26) as nat).push(letter(((n - 1) % 26) as nat))
    }
}

/// The name of the field numbered `num`: "a", "b", ..., "z", "aa", "ab", ...
pub fn num_to_letter(num: usize) -> (r: String)
    requires
        num < usize::MAX,
    ensures
        r@ == letters(num as nat + 1),
{
    let mut result: Vec<char> = Vec::new();
    let mut n: usize = num + 1;
    while n > 0
        invariant
            letters(num as nat + 1) == letters(n as nat) + result@,
        decreases n,
    {
        n = n - 1;
        let d: u8 = (n % 26) as u8;
        let letter_ch = (97u8 + d) as char;
        let ghost old_result = result@;
        result.insert(0, letter_ch);
        let ghost m = n as nat;
        n = n / 26;
        proof {
            assert(letter_ch == letter((m % 26) as nat));
            assert(letters(m + 1) == letters((m / 26) as nat).push(letter((m % 26) as nat)));
            assert(result@ =~= seq![letter_ch] + old_result);
            assert(letters((m / 26) as nat).push(letter_ch) + old_result =~= letters(
                (m / 26) as nat,
            ) + result@);
        }
    }
    assert(letters(0) + result@ =~= result@);
    string_from_chars(result.as_slice())
}

/// Only 0 has an empty name.
pub proof fn lemma_letters_shape(n: nat)
    ensures
        n > 0 ==> letters(n).len() > 0,
    decreases n,
{
    if n > 0 {
        lemma_letters_shape(((n - 1) / 26) as nat);
    }
}

/// Distinct field numbers get distinct names: `num_to_letter` is injective.
pub proof fn lemma_num_to_letter_injective(a: nat, b: nat)
    requires
        letters(a + 1) == letters(b + 1),
    ensures
        a == b,
    decreases a + b,
{
    let pa = ((a / 26)) as nat;
    let pb = ((b / 26)) as nat;
    let la = letters(a + 1);
    let lb = letters(b + 1);
    assert(la.last() == letter((a % 26) as nat));
    assert(lb.last() == letter((b % 26) as nat));
    assert(a % 26 == b % 26);
    assert(la.drop_last() =~= letters(pa));
    assert(lb.drop_last() =~= letters(pb));
    if pa == 0 || pb == 0 {
        lemma_letters_shape(pa);
        lemma_letters_shape(pb);
        assert(pa == pb);
    } else {
        lemma_num_to_letter_injective((pa - 1) as nat, (pb - 1) as nat);
    }
}

/// An attribute of a tag in the transformed template: its name, its value,
/// and for a reactive attribute the mask of the state flags it depends on.
pub struct TagAttribute {
    pub name: String,
    pub value: AttrType,
    pub flag_mask: Option<u64>,
}

/// The class that scopes the styles of the component with hash `scope_id`.
pub open spec fn scope_class(scope_id: Seq<char>) -> Seq<char> {
    "C"@ + scope_id
}

/// The source text of the expression that appends `class` to the value of
/// expression `expr`, separated by a space.
pub open spec fn class_expr(expr: Seq<char>, class: Seq<char>) -> Seq<char> {
    "format!(\"{} {}\", "@ + expr + ", \""@ + class + "\")"@
}

/// Whether an attribute is the `class` attribute.
pub open spec fn is_class(a: TagAttribute) -> bool {
    a.name@ == "class"@
}

/// A `class` attribute can be scoped: its value is a string or an expression.
pub open spec fn class_scopable(a: TagAttribute) -> bool {
    is_class(a) ==> (a.value is Str || a.value is Expr)
}

/// `a` with the scope class added to its value if it is the `class`
/// attribute; `a` unchanged otherwise.
pub open spec fn scoped_attr(a: TagAttribute, class: Seq<char>) -> (Seq<char>, SAttr, Option<u64>) {
    (
        a.name@,
        if is_class(a) {
            match a.value {
                AttrType::Str(s) => SAttr::Str(s@ + " "@ + class),
                AttrType::Expr(e) => SAttr::Expr(class_expr(e@, class)),
                _ => attr_view(a.value),
            }
        } else {
            attr_view(a.value)
        },
        a.flag_mask,
    )
}

/// The name, value and mask of an attribute.
pub open spec fn tag_attr_view(a: TagAttribute) -> (Seq<char>, SAttr, Option<u64>) {
    (a.name@, attr_view(a.value), a.flag_mask)
}

/// `r` is `orig` with the style scope class `class` added: appended to the
/// value of each `class` attribute, or as a new `class` attribute at the end
/// where there is none.
pub open spec fn attrs_scoped(orig: Seq<TagAttribute>, class: Seq<char>, r: Seq<TagAttribute>) -> bool {
    &&& (exists|i: int| 0 <= i < orig.len() && is_class(#[trigger] orig[i])) ==> r.len()
        == orig.len()
    &&& !(exists|i: int| 0 <= i < orig.len() && is_class(#[trigger] orig[i])) ==> r.len()
        == orig.len() + 1 && tag_attr_view(r.last()) == ("class"@, SAttr::Str(class), None::<u64>)
    &&& forall|i: int|
        0 <= i < orig.len() ==> tag_attr_view(#[trigger] r[i]) == scoped_attr(orig[i], class)
}

/// Adds the style scope class of the component with hash `scope_id` to the
/// attributes of a tag: appended to the value of its `class` attribute, or as
/// a new `class` attribute at the end where it has none.
pub fn add_css_scope_to_class_attr(attributes: Vec<TagAttribute>, scope_id: &String) -> (r: Vec<
    TagAttribute,
>)
    requires
        forall|i: int| 0 <= i < attributes@.len() ==> class_scopable(#[trigger] attributes@[i]),
    ensures
        attrs_scoped(attributes@, scope_class(scope_id@), r@),
{
    let mut class = String::new();
    class.append("C");
    class.append(scope_id.as_str());
    let ghost cls = scope_class(scope_id@);
    assert(class@ == cls);
    let ghost orig = attributes@;
    let mut rest = attributes;
    let mut result: Vec<TagAttribute> = Vec::new();
    let mut has_class_attr = false;
    while rest.len() > 0
        invariant
            class@ == cls,
            result@.len() + rest@.len() == orig.len(),
            rest@ == orig.skip(result@.len() as int),
            forall|i: int| 0 <= i < orig.len() ==> class_scopable(#[trigger] orig[i]),
            forall|i: int|
                0 <= i < result@.len() ==> tag_attr_view(#[trigger] result@[i]) == scoped_attr(
                    orig[i],
                    cls,
                ),
            has_class_attr == exists|i: int| 0 <= i < result@.len() && is_class(#[trigger] orig[i]),
        decreases rest@.len(),
    {
        let k = result.len();
        let attr = rest.remove(0);
        assert(attr == orig[k as int]);
        assert(rest@ =~= orig.skip(k + 1));
        if crate::text::str_eq(attr.name.as_str(), "class") {
            has_class_attr = true;
            let new_value = match attr.value {
                AttrType::Str(s) => {
                    let mut v = s;
                    v.append(" ");
                    v.append(class.as_str());
                    AttrType::Str(v)
                },
                AttrType::Expr(e) => {
                    let mut v = String::new();
                    v.append("format!(\"{} {}\", ");
                    v.append(e.as_str());
                    v.append(", \"");
                    v.append(class.as_str());
                    v.append("\")");
                    AttrType::Expr(v)
                },
                other => other,
            };
            result.push(TagAttribute { name: attr.name, value: new_value, flag_mask: attr.flag_mask });
        } else {
            result.push(attr);
        }
        assert(tag_attr_view(result@[k as int]) == scoped_attr(orig[k as int], cls));
        assert forall|i: int| 0 <= i < result@.len() implies tag_attr_view(#[trigger] result@[i])
            == scoped_attr(orig[i], cls) by {
            if i < k {
            }
        }
        assert(has_class_attr == exists|i: int| 0 <= i < result@.len() && is_class(#[trigger] orig[i])) by {
            if is_class(orig[k as int]) {
                assert(0 <= k < result@.len() && is_class(orig[k as int]));
            }
        }
    }
    if !has_class_attr {
        let mut name = String::new();
        name.append("class");
        result.push(TagAttribute { name, value: AttrType::Str(class), flag_mask: None });
    }
    result
}

// ---------------------------------------------------------------------------
// The transformed template.

/// The item variable of an `{#each}` block: its name in the scope
/// (`item_scope`), its name in the template (`item`), and the source text of
/// its type.
pub struct EachVar {
    pub name: String,
    pub original_name: String,
    pub ty: String,
}

impl EachVar {
    /// A copy of the variable.
    pub fn copy(&self) -> (r: EachVar)
        ensures
            r == *self,
    {
        EachVar { name: self.name.clone(), original_name: self.original_name.clone(), ty: self.ty.clone() }
    }
}

/// A branch of an `{#if}` block: its transformed condition, its nodes, and the
/// name of its variant in the block's enum.
pub struct NodeIfBranch {
    pub condition: String,
    pub contents: Vec<Node>,
    pub name: String,
}

/// The `{:else}` branch of an `{#if}` block: its nodes and the name of its
/// variant.
pub struct NodeElseBranch {
    pub contents: Vec<Node>,
    pub name: String,
}

/// What a node of the transformed template is.
pub enum NodeType {
    Text(String),
    /// A transformed expression and the mask of the flags it depends on.
    Expr(String, u64),
    /// A tag: its name, its attributes and its children.
    Tag(String, Vec<TagAttribute>, Vec<Node>),
    /// An `{#if}` block: its branches, its `{:else}` branch, the name of its
    /// enum, and the mask of the flags its conditions depend on.
    If(Vec<NodeIfBranch>, Option<NodeElseBranch>, String, u64),
    /// An `{#each}` block: the iterated expression as a `Vec`, the item
    /// variable, the nodes, the name of the fragment, and the mask of the
    /// flags the expression depends on.
    Each(String, EachVar, Vec<Node>, String, u64),
    /// A child component: its type name, and its props with the mask of the
    /// child's flag that each of them sets.
    Comp(String, Vec<(TagAttribute, u64)>),
}

/// A node of the transformed template: the number of its element, its index
/// among the fields of its fragment, the name of that field, and what it is.
pub struct Node {
    pub id: u32,
    pub frag_field_idx: usize,
    pub struct_field: String,
    pub content: NodeType,
}

/// A component that templates can use: its name in the importing script, the
/// hash of its source path, and its props (`None` where it has no script).
pub struct ComponentRef {
    pub name: String,
    pub id_hash: String,
    pub props: Option<Vec<Prop>>,
}

/// The first component named `name`.
pub open spec fn comp_of(comps: Seq<ComponentRef>, name: Seq<char>) -> Option<ComponentRef>
    decreases comps.len(),
{
    if comps.len() == 0 {
        None
    } else if comps[0].name@ == name {
        Some(comps[0])
    } else {
        comp_of(comps.drop_first(), name)
    }
}

/// The mask of the flag of the first prop named `name`.
pub open spec fn prop_mask(props: Seq<Prop>, name: Seq<char>) -> u64
    decreases props.len(),
{
    if props.len() == 0 {
        0
    } else if props[0].name@ == name {
        1u64 << props[0].flag_pos
    } else {
        prop_mask(props.drop_first(), name)
    }
}

/// A prop is named `name`, and the first such has a flag bit that fits a
/// `u64`.
pub open spec fn prop_ok(props: Seq<Prop>, name: Seq<char>) -> bool
    decreases props.len(),
{
    if props.len() == 0 {
        false
    } else if props[0].name@ == name {
        props[0].flag_pos < 64
    } else {
        prop_ok(props.drop_first(), name)
    }
}

/// The mask of the flag of the first prop named `name`, which must exist.
fn find_prop_mask(props: &Vec<Prop>, name: &String) -> (m: u64)
    requires
        prop_ok(props@, name@),
    ensures
        m == prop_mask(props@, name@),
{
    let mut i: usize = 0;
    assert(props@.skip(0) =~= props@);
    while i < props.len()
        invariant
            i <= props@.len(),
            prop_ok(props@.skip(i as int), name@),
            prop_mask(props@, name@) == prop_mask(props@.skip(i as int), name@),
        decreases props@.len() - i,
    {
        let ghost rest = props@.skip(i as int);
        assert(rest[0] == props@[i as int]);
        if crate::text::str_eq(props[i].name.as_str(), name.as_str()) {
            return 1u64 << props[i].flag_pos;
        }
        assert(rest.drop_first() =~= props@.skip(i + 1));
        i = i + 1;
    }
    assert(props@.skip(i as int).len() == 0);
    0
}

/// The props passed to a child component: each attribute with the mask of
/// the flag of the prop it sets.
pub open spec fn comp_props(attrs: Seq<TagAttribute>, props: Seq<Prop>, r: Seq<(TagAttribute, u64)>) -> bool {
    &&& r.len() == attrs.len()
    &&& forall|i: int|
        0 <= i < attrs.len() ==> (#[trigger] r[i]).0 == attrs[i] && r[i].1 == prop_mask(
            props,
            attrs[i].name@,
        )
}

/// Pairs each attribute with the mask of the flag of the prop of the same
/// name; every attribute must name a prop.
fn comp_attrs(attrs: Vec<TagAttribute>, props: &Vec<Prop>) -> (r: Vec<(TagAttribute, u64)>)
    requires
        forall|i: int| 0 <= i < attrs@.len() ==> prop_ok(props@, (#[trigger] attrs@[i]).name@),
    ensures
        comp_props(attrs@, props@, r@),
{
    let ghost orig = attrs@;
    let mut rest = attrs;
    let mut r: Vec<(TagAttribute, u64)> = Vec::new();
    while rest.len() > 0
        invariant
            r@.len() + rest@.len() == orig.len(),
            rest@ == orig.skip(r@.len() as int),
            forall|i: int| 0 <= i < orig.len() ==> prop_ok(props@, (#[trigger] orig[i]).name@),
            forall|i: int|
                0 <= i < r@.len() ==> (#[trigger] r@[i]).0 == orig[i] && r@[i].1 == prop_mask(
                    props@,
                    orig[i].name@,
                ),
        decreases rest@.len(),
    {
        let k = r.len();
        let attr = rest.remove(0);
        assert(attr == orig[k as int]);
        assert(rest@ =~= orig.skip(k + 1));
        let m = find_prop_mask(props, &attr.name);
        r.push((attr, m));
    }
    r
}

// ---------------------------------------------------------------------------
// From template elements to nodes.

/// A tag whose name starts with an upper-case letter is a child component.
pub open spec fn is_comp_tag(name: Seq<char>) -> bool {
    name.len() > 0 && spec_is_uppercase(name[0])
}

/// The name of the enum of the `{#if}` block numbered `id` in the component
/// with hash `h`.
pub open spec fn if_enum_name(h: Seq<char>, id: u32) -> Seq<char> {
    "C"@ + h + "If"@ + spec_digits(id as nat, 10)
}

/// The name of branch `i` of that block.
pub open spec fn if_branch_name(h: Seq<char>, id: u32, i: nat) -> Seq<char> {
    if_enum_name(h, id) + "Branch"@ + spec_digits(i, 10)
}

/// The name of the `{:else}` branch of that block.
pub open spec fn else_branch_name(h: Seq<char>, id: u32) -> Seq<char> {
    if_enum_name(h, id) + "ElseBranch"@
}

/// The name of the fragment of the `{#each}` block numbered `id`.
pub open spec fn each_frag_name(h: Seq<char>, id: u32) -> Seq<char> {
    "C"@ + h + "EachFrag"@ + spec_digits(id as nat, 10)
}

/// The number of fields that element `e` takes in its fragment: one for
/// itself, and for a tag that is not a component one more for each field of
/// its children; the contents of blocks live in fragments of their own.
pub open spec fn field_count(e: Element) -> nat
    decreases e,
{
    match e.content {
        ContentType::Tag(tag, ch) => if is_comp_tag(tag.name@) {
            1
        } else {
            1 + fields_count(ch@)
        },
        _ => 1,
    }
}

/// The number of fields of the elements `es`.
pub open spec fn fields_count(es: Seq<Element>) -> nat
    decreases es,
{
    if es.len() == 0 {
        0
    } else {
        fields_count(es.drop_last()) + field_count(es.last())
    }
}

/// The number of elements in the tree of `e`, blocks included.
pub open spec fn size(e: Element) -> nat
    decreases e,
{
    match e.content {
        ContentType::Tag(_, ch) => 1 + sizes(ch@),
        ContentType::If(bs, els) => 1 + branch_sizes(bs@) + match els {
            Some(c) => sizes(c@),
            None => 0,
        },
        ContentType::Each(_, _, ch) => 1 + sizes(ch@),
        _ => 1,
    }
}

/// The number of elements in the trees of `es`.
pub open spec fn sizes(es: Seq<Element>) -> nat
    decreases es,
{
    if es.len() == 0 {
        0
    } else {
        sizes(es.drop_last()) + size(es.last())
    }
}

/// The number of elements in the trees of the branches `bs`.
pub open spec fn branch_sizes(bs: Seq<IfBranch>) -> nat
    decreases bs,
{
    if bs.len() == 0 {
        0
    } else {
        branch_sizes(bs.drop_last()) + sizes(bs.last().contents@)
    }
}

pub proof fn lemma_field_count_le_size(e: Element)
    ensures
        field_count(e) <= size(e),
    decreases e,
{
    match e.content {
        ContentType::Tag(tag, ch) => {
            lemma_fields_count_le_sizes(ch@);
        },
        _ => {},
    }
}

pub proof fn lemma_fields_count_le_sizes(es: Seq<Element>)
    ensures
        fields_count(es) <= sizes(es),
    decreases es,
{
    if es.len() > 0 {
        lemma_fields_count_le_sizes(es.drop_last());
        lemma_field_count_le_size(es.last());
    }
}

/// The attributes that the transformation gives a tag can be placed: on a
/// component tag, the component is known and, where it has props, every
/// attribute names one of them; on any other tag, a `class` attribute holds a
/// string or an expression, to which the style scope class can be added.
pub open spec fn attrs_fit(comps: Seq<ComponentRef>, tag_name: Seq<char>, out: Seq<TagAttribute>) -> bool {
    if is_comp_tag(tag_name) {
        match comp_of(comps, tag_name) {
            None => false,
            Some(c) => match c.props {
                None => true,
                Some(ps) => forall|i: int| 0 <= i < out.len() ==> prop_ok(ps@, (#[trigger] out[i]).name@),
            },
        }
    } else {
        forall|i: int| 0 <= i < out.len() ==> class_scopable(#[trigger] out[i])
    }
}

/// The elements of the tree of `e` can be transformed: every component tag
/// names a known component, and the attributes that `attrs_of` gives a tag
/// fit it.
pub open spec fn tree_ok<F2: Fn(&Tag, &Vec<EachVar>) -> Vec<TagAttribute>>(
    attrs_of: F2,
    comps: Seq<ComponentRef>,
    e: Element,
) -> bool
    decreases e,
{
    match e.content {
        ContentType::Tag(tag, ch) => (forall|s: Vec<EachVar>, out: Vec<TagAttribute>|
            #[trigger] call_ensures(attrs_of, (&tag, &s), out) ==> attrs_fit(comps, tag.name@, out@))
            && (!is_comp_tag(tag.name@) ==> trees_ok(attrs_of, comps, ch@)),
        ContentType::If(bs, els) => branches_ok(attrs_of, comps, bs@) && match els {
            Some(c) => trees_ok(attrs_of, comps, c@),
            None => true,
        },
        ContentType::Each(_, _, ch) => trees_ok(attrs_of, comps, ch@),
        _ => true,
    }
}

pub open spec fn trees_ok<F2: Fn(&Tag, &Vec<EachVar>) -> Vec<TagAttribute>>(
    attrs_of: F2,
    comps: Seq<ComponentRef>,
    es: Seq<Element>,
) -> bool
    decreases es,
{
    if es.len() == 0 {
        true
    } else {
        trees_ok(attrs_of, comps, es.drop_last()) && tree_ok(attrs_of, comps, es.last())
    }
}

pub open spec fn branches_ok<F2: Fn(&Tag, &Vec<EachVar>) -> Vec<TagAttribute>>(
    attrs_of: F2,
    comps: Seq<ComponentRef>,
    bs: Seq<IfBranch>,
) -> bool
    decreases bs,
{
    if bs.len() == 0 {
        true
    } else {
        branches_ok(attrs_of, comps, bs.drop_last()) && trees_ok(attrs_of, comps, bs.last().contents@)
    }
}

/// `n` is the node for element `e`, taking field `c` of its fragment, in the
/// component with hash `h` whose enclosing `{#each}` items are `scoped`:
/// expressions are rewritten by `content_expr`, the attributes of a tag are
/// given by `attrs_of` and then scoped for the component's styles, and the
/// iterated expression of an `{#each}` block is turned into a `Vec` and its
/// item type found by `each_expr`. The children of a tag follow it in the
/// same fragment; the contents of each block branch start a fragment of their
/// own, at field 0.
pub open spec fn node_rel<
    F1: Fn(&String, &Vec<EachVar>) -> (String, u64),
    F2: Fn(&Tag, &Vec<EachVar>) -> Vec<TagAttribute>,
    F3: Fn(&String, &Vec<EachVar>) -> (String, String),
>(
    content_expr: F1,
    attrs_of: F2,
    each_expr: F3,
    comps: Seq<ComponentRef>,
    h: Seq<char>,
    scoped: Vec<EachVar>,
    e: Element,
    c: nat,
    n: Node,
) -> bool
    decreases e,
{
    &&& n.id == e.id
    &&& n.frag_field_idx == c
    &&& n.struct_field@ == letters(c + 1)
    &&& match e.content {
        ContentType::Text(t) => n.content == NodeType::Text(t),
        ContentType::Expr(x) => n.content matches NodeType::Expr(x2, m) && call_ensures(
            content_expr,
            (&x, &scoped),
            (x2, m),
        ),
        ContentType::Tag(tag, ch) => exists|out: Vec<TagAttribute>|
            #![trigger call_ensures(attrs_of, (&tag, &scoped), out)]
            call_ensures(attrs_of, (&tag, &scoped), out) && if is_comp_tag(tag.name@) {
                n.content matches NodeType::Comp(name, pairs) && name@ == "C"@ + comp_of(
                    comps,
                    tag.name@,
                )->Some_0.id_hash@ && match comp_of(comps, tag.name@)->Some_0.props {
                    None => pairs@.len() == 0,
                    Some(ps) => comp_props(out@, ps@, pairs@),
                }
            } else {
                n.content matches NodeType::Tag(name, na, kids) && name == tag.name && attrs_scoped(
                    out@,
                    scope_class(h),
                    na@,
                ) && nodes_rel(content_expr, attrs_of, each_expr, comps, h, scoped, ch@, c + 1, kids@)
            },
        ContentType::If(bs, els) => n.content matches NodeType::If(nbs, nels, en, mask) && en@
            == if_enum_name(h, e.id) && branches_rel(
            content_expr,
            attrs_of,
            each_expr,
            comps,
            h,
            scoped,
            e.id,
            bs@,
            nbs@,
            mask,
        ) && match els {
            None => nels is None,
            Some(ec) => nels matches Some(ne) && ne.name@ == else_branch_name(h, e.id) && nodes_rel(
                content_expr,
                attrs_of,
                each_expr,
                comps,
                h,
                scoped,
                ec@,
                0,
                ne.contents@,
            ),
        },
        ContentType::Each(x, item, ch) => n.content matches NodeType::Each(x2, ev, kids, frag, m)
            && frag@ == each_frag_name(h, e.id) && ev.name@ == item@ + "_scope"@
            && ev.original_name == item && exists|vx: String, s2: Vec<EachVar>|
            #![trigger call_ensures(each_expr, (&x, &scoped), (vx, ev.ty)), s2@]
            call_ensures(each_expr, (&x, &scoped), (vx, ev.ty)) && call_ensures(
                content_expr,
                (&vx, &scoped),
                (x2, m),
            ) && s2@ == scoped@.push(ev) && nodes_rel(
                content_expr,
                attrs_of,
                each_expr,
                comps,
                h,
                s2,
                ch@,
                0,
                kids@,
            ),
    }
}

/// `ns` are the nodes for the elements `es`, the first taking field `c` and
/// each following one taking the fields after those of the one before.
pub open spec fn nodes_rel<
    F1: Fn(&String, &Vec<EachVar>) -> (String, u64),
    F2: Fn(&Tag, &Vec<EachVar>) -> Vec<TagAttribute>,
    F3: Fn(&String, &Vec<EachVar>) -> (String, String),
>(
    content_expr: F1,
    attrs_of: F2,
    each_expr: F3,
    comps: Seq<ComponentRef>,
    h: Seq<char>,
    scoped: Vec<EachVar>,
    es: Seq<Element>,
    c: nat,
    ns: Seq<Node>,
) -> bool
    decreases es,
{
    if es.len() == 0 {
        ns.len() == 0
    } else {
        &&& ns.len() == es.len()
        &&& nodes_rel(content_expr, attrs_of, each_expr, comps, h, scoped, es.drop_last(), c, ns.drop_last())
        &&& node_rel(
            content_expr,
            attrs_of,
            each_expr,
            comps,
            h,
            scoped,
            es.last(),
            c + fields_count(es.drop_last()),
            ns.last(),
        )
    }
}

/// `nbs` are the branches for the `{#if}` branches `bs` of block `id`, and
/// `mask` joins the flag masks of their conditions.
pub open spec fn branches_rel<
    F1: Fn(&String, &Vec<EachVar>) -> (String, u64),
    F2: Fn(&Tag, &Vec<EachVar>) -> Vec<TagAttribute>,
    F3: Fn(&String, &Vec<EachVar>) -> (String, String),
>(
    content_expr: F1,
    attrs_of: F2,
    each_expr: F3,
    comps: Seq<ComponentRef>,
    h: Seq<char>,
    scoped: Vec<EachVar>,
    id: u32,
    bs: Seq<IfBranch>,
    nbs: Seq<NodeIfBranch>,
    mask: u64,
) -> bool
    decreases bs,
{
    if bs.len() == 0 {
        nbs.len() == 0 && mask == 0
    } else {
        &&& nbs.len() == bs.len()
        &&& nbs.last().name@ == if_branch_name(h, id, (bs.len() - 1) as nat)
        &&& nodes_rel(
            content_expr,
            attrs_of,
            each_expr,
            comps,
            h,
            scoped,
            bs.last().contents@,
            0,
            nbs.last().contents@,
        )
        &&& exists|m0: u64, m1: u64|
            #![trigger call_ensures(content_expr, (&bs.last().condition, &scoped), (nbs.last().condition, m1)), (m0 | m1)]
            branches_rel(
                content_expr,
                attrs_of,
                each_expr,
                comps,
                h,
                scoped,
                id,
                bs.drop_last(),
                nbs.drop_last(),
                m0,
            ) && call_ensures(content_expr, (&bs.last().condition, &scoped), (nbs.last().condition, m1))
                && mask == (m0 | m1)
    }
}

/// The index of the first component named `name`, which must exist.
fn find_comp(comps: &Vec<ComponentRef>, name: &String) -> (i: usize)
    requires
        comp_of(comps@, name@) is Some,
    ensures
        i < comps@.len(),
        comp_of(comps@, name@) == Some(comps@[i as int]),
{
    let mut i: usize = 0;
    assert(comps@.skip(0) =~= comps@);
    while i < comps.len()
        invariant
            i <= comps@.len(),
            comp_of(comps@, name@) == comp_of(comps@.skip(i as int), name@),
            comp_of(comps@, name@) is Some,
        decreases comps@.len() - i,
    {
        let ghost rest = comps@.skip(i as int);
        assert(rest[0] == comps@[i as int]);
        if crate::text::str_eq(comps[i].name.as_str(), name.as_str()) {
            return i;
        }
        assert(rest.drop_first() =~= comps@.skip(i + 1));
        i = i + 1;
    }
    assert(comps@.skip(i as int).len() == 0);
    0
}

pub proof fn lemma_trees_ok_index<F2: Fn(&Tag, &Vec<EachVar>) -> Vec<TagAttribute>>(
    attrs_of: F2,
    comps: Seq<ComponentRef>,
    es: Seq<Element>,
    i: int,
)
    requires
        trees_ok(attrs_of, comps, es),
        0 <= i < es.len(),
    ensures
        tree_ok(attrs_of, comps, es[i]),
    decreases es.len(),
{
    if i < es.len() - 1 {
        lemma_trees_ok_index(attrs_of, comps, es.drop_last(), i);
    }
}

pub proof fn lemma_branches_ok_index<F2: Fn(&Tag, &Vec<EachVar>) -> Vec<TagAttribute>>(
    attrs_of: F2,
    comps: Seq<ComponentRef>,
    bs: Seq<IfBranch>,
    i: int,
)
    requires
        branches_ok(attrs_of, comps, bs),
        0 <= i < bs.len(),
    ensures
        trees_ok(attrs_of, comps, bs[i].contents@),
    decreases bs.len(),
{
    if i < bs.len() - 1 {
        lemma_branches_ok_index(attrs_of, comps, bs.drop_last(), i);
    }
}

pub proof fn lemma_branch_sizes_prefix(bs: Seq<IfBranch>, k: int)
    requires
        0 <= k <= bs.len(),
    ensures
        branch_sizes(bs.take(k)) <= branch_sizes(bs),
        k < bs.len() ==> branch_sizes(bs.take(k + 1)) == branch_sizes(bs.take(k)) + sizes(
            bs[k].contents@,
        ),
    decreases bs.len() - k,
{
    if k < bs.len() {
        assert(bs.take(k + 1).drop_last() =~= bs.take(k));
        lemma_branch_sizes_prefix(bs, k + 1);
    } else {
        assert(bs.take(k) =~= bs);
    }
}

/// A copy of the variables `v`.
fn copy_vars(v: &Vec<EachVar>) -> (r: Vec<EachVar>)
    ensures
        r@ == v@,
{
    let mut r: Vec<EachVar> = Vec::new();
    let mut i: usize = 0;
    while i < v.len()
        invariant
            i <= v@.len(),
            r@ == v@.take(i as int),
        decreases v@.len() - i,
    {
        r.push(v[i].copy());
        assert(r@ =~= v@.take(i + 1));
        i = i + 1;
    }
    assert(v@.take(i as int) =~= v@);
    r
}

impl Node {
    /// The node for element `value`, taking the next field of its fragment
    /// from `frag_field_idx_counter`; see `node_rel`. Expressions are rewritten
    /// by `content_expr`, the attributes of a tag given by `attrs_of`, and the
    /// iterated expression of an `{#each}` block turned into a `Vec` with its
    /// item type by `each_expr`, each given the `{#each}` items in scope.
    pub fn from_element<F1, F2, F3>(
        value: Element,
        frag_field_idx_counter: &mut usize,
        content_expr: &F1,
        attrs_of: &F2,
        each_expr: &F3,
        components: &Vec<ComponentRef>,
        comp_id_hash: &String,
        scoped_vars: &Vec<EachVar>,
    ) -> (n: Node) where
        F1: Fn(&String, &Vec<EachVar>) -> (String, u64),
        F2: Fn(&Tag, &Vec<EachVar>) -> Vec<TagAttribute>,
        F3: Fn(&String, &Vec<EachVar>) -> (String, String),

        requires
            forall|a: String, b: Vec<EachVar>| content_expr.requires((&a, &b)),
            forall|a: Tag, b: Vec<EachVar>| attrs_of.requires((&a, &b)),
            forall|a: String, b: Vec<EachVar>| each_expr.requires((&a, &b)),
            tree_ok(*attrs_of, components@, value),
            *old(frag_field_idx_counter) + size(value) < usize::MAX,
        ensures
            node_rel(
                *content_expr,
                *attrs_of,
                *each_expr,
                components@,
                comp_id_hash@,
                *scoped_vars,
                value,
                *old(frag_field_idx_counter) as nat,
                n,
            ),
            *final(frag_field_idx_counter) == *old(frag_field_idx_counter) + field_count(value),
        decreases value,
    {
        let frag_field_idx = *frag_field_idx_counter;
        *frag_field_idx_counter = frag_field_idx + 1;
        let struct_field = num_to_letter(frag_field_idx);
        let id = value.id;
        let ghost v = value;
        match value.content {
            ContentType::Text(txt) => Node { id, frag_field_idx, struct_field, content: NodeType::Text(txt) },
            ContentType::Expr(expr) => {
                let (x2, m) = content_expr(&expr, scoped_vars);
                Node { id, frag_field_idx, struct_field, content: NodeType::Expr(x2, m) }
            },
            ContentType::Tag(tag, children) => {
                let out = attrs_of(&tag, scoped_vars);
                let name_chars = crate::utils::chars_of(tag.name.as_str());
                if name_chars.len() > 0 && crate::text::is_uppercase(name_chars[0]) {
                    let i = find_comp(components, &tag.name);
                    let comp = &components[i];
                    let mut comp_name = String::new();
                    comp_name.append("C");
                    comp_name.append(comp.id_hash.as_str());
                    let pairs = match &comp.props {
                        None => Vec::new(),
                        Some(ps) => comp_attrs(out, ps),
                    };
                    Node { id, frag_field_idx, struct_field, content: NodeType::Comp(comp_name, pairs) }
                } else {
                    let sa = add_css_scope_to_class_attr(out, comp_id_hash);
                    proof {
                        assert(decreases_to!(v.content => v.content->Tag_1));
                        assert(decreases_to!(v.content->Tag_1 => v.content->Tag_1@));
                    }
                    let kids = Node::from_elements(
                        children,
                        frag_field_idx_counter,
                        content_expr,
                        attrs_of,
                        each_expr,
                        components,
                        comp_id_hash,
                        scoped_vars,
                    );
                    Node { id, frag_field_idx, struct_field, content: NodeType::Tag(tag.name, sa, kids) }
                }
            },
            ContentType::If(branches, else_branch) => {
                proof {
                    assert(decreases_to!(v.content => v.content->If_0));
                    assert(decreases_to!(v.content->If_0 => v.content->If_0@));
                }
                let (nbs, mask) = Node::from_branches(
                    branches,
                    id,
                    content_expr,
                    attrs_of,
                    each_expr,
                    components,
                    comp_id_hash,
                    scoped_vars,
                );
                let mut enum_name = String::new();
                enum_name.append("C");
                enum_name.append(comp_id_hash.as_str());
                enum_name.append("If");
                enum_name.append(to_decimal(id as u64).as_str());
                let nels = match else_branch {
                    None => None,
                    Some(ec) => {
                        proof {
                            assert(decreases_to!(v.content => v.content->If_1));
                            assert(decreases_to!(v.content->If_1 => v.content->If_1->Some_0));
                            assert(decreases_to!(v.content->If_1->Some_0 => v.content->If_1->Some_0@));
                        }
                        let mut else_counter: usize = 0;
                        let kids = Node::from_elements(
                            ec,
                            &mut else_counter,
                            content_expr,
                            attrs_of,
                            each_expr,
                            components,
                            comp_id_hash,
                            scoped_vars,
                        );
                        let mut name = String::new();
                        name.append(enum_name.as_str());
                        name.append("ElseBranch");
                        Some(NodeElseBranch { contents: kids, name })
                    },
                };
                Node { id, frag_field_idx, struct_field, content: NodeType::If(nbs, nels, enum_name, mask) }
            },
            ContentType::Each(each, item, children) => {
                let (vx, item_type) = each_expr(&each, scoped_vars);
                let (x2, m) = content_expr(&vx, scoped_vars);
                let mut var_name = String::new();
                var_name.append(item.as_str());
                var_name.append("_scope");
                let each_var = EachVar { name: var_name, original_name: item, ty: item_type };
                let mut inner = copy_vars(scoped_vars);
                inner.push(each_var.copy());
                let mut each_counter: usize = 0;
                proof {
                    assert(decreases_to!(v.content => v.content->Each_2));
                    assert(decreases_to!(v.content->Each_2 => v.content->Each_2@));
                }
                let kids = Node::from_elements(
                    children,
                    &mut each_counter,
                    content_expr,
                    attrs_of,
                    each_expr,
                    components,
                    comp_id_hash,
                    &inner,
                );
                let mut frag_name = String::new();
                frag_name.append("C");
                frag_name.append(comp_id_hash.as_str());
                frag_name.append("EachFrag");
                frag_name.append(to_decimal(id as u64).as_str());
                Node {
                    id,
                    frag_field_idx,
                    struct_field,
                    content: NodeType::Each(x2, each_var, kids, frag_name, m),
                }
            },
        }
    }

    /// The nodes for the elements `children`, taking fields one after the
    /// other from `frag_field_idx_counter`.
    pub fn from_elements<F1, F2, F3>(
        children: Vec<Element>,
        frag_field_idx_counter: &mut usize,
        content_expr: &F1,
        attrs_of: &F2,
        each_expr: &F3,
        components: &Vec<ComponentRef>,
        comp_id_hash: &String,
        scoped_vars: &Vec<EachVar>,
    ) -> (ns: Vec<Node>) where
        F1: Fn(&String, &Vec<EachVar>) -> (String, u64),
        F2: Fn(&Tag, &Vec<EachVar>) -> Vec<TagAttribute>,
        F3: Fn(&String, &Vec<EachVar>) -> (String, String),

        requires
            forall|a: String, b: Vec<EachVar>| content_expr.requires((&a, &b)),
            forall|a: Tag, b: Vec<EachVar>| attrs_of.requires((&a, &b)),
            forall|a: String, b: Vec<EachVar>| each_expr.requires((&a, &b)),
            trees_ok(*attrs_of, components@, children@),
            *old(frag_field_idx_counter) + sizes(children@) < usize::MAX,
        ensures
            nodes_rel(
                *content_expr,
                *attrs_of,
                *each_expr,
                components@,
                comp_id_hash@,
                *scoped_vars,
                children@,
                *old(frag_field_idx_counter) as nat,
                ns@,
            ),
            *final(frag_field_idx_counter) == *old(frag_field_idx_counter) + fields_count(children@),
        decreases children@,
    {
        let ghost orig = children@;
        let mut rest = children;
        match rest.pop() {
            None => {
                proof {
                    assert(orig.len() == 0);
                }
                Vec::new()
            },
            Some(last) => {
                let ghost prefix = rest@;
                proof {
                    assert(prefix =~= orig.drop_last());
                    assert(last == orig.last());
                    assert(decreases_to!(orig => orig.subrange(0, orig.len() - 1)));
                    assert(orig.subrange(0, orig.len() - 1) =~= prefix);
                    lemma_trees_ok_index(*attrs_of, components@, orig, orig.len() - 1);
                    lemma_fields_count_le_sizes(prefix);
                }
                let mut ns = Node::from_elements(
                    rest,
                    frag_field_idx_counter,
                    content_expr,
                    attrs_of,
                    each_expr,
                    components,
                    comp_id_hash,
                    scoped_vars,
                );
                proof {
                    assert(decreases_to!(orig => orig[orig.len() - 1]));
                }
                let node = Node::from_element(
                    last,
                    frag_field_idx_counter,
                    content_expr,
                    attrs_of,
                    each_expr,
                    components,
                    comp_id_hash,
                    scoped_vars,
                );
                let ghost old_ns = ns@;
                ns.push(node);
                proof {
                    assert(ns@.drop_last() =~= old_ns);
                }
                ns
            },
        }
    }

    /// The branches for the `{#if}` branches `branches` of block `id`, with
    /// the joined flag mask of their conditions.
    pub fn from_branches<F1, F2, F3>(
        branches: Vec<IfBranch>,
        id: u32,
        content_expr: &F1,
        attrs_of: &F2,
        each_expr: &F3,
        components: &Vec<ComponentRef>,
        comp_id_hash: &String,
        scoped_vars: &Vec<EachVar>,
    ) -> (r: (Vec<NodeIfBranch>, u64)) where
        F1: Fn(&String, &Vec<EachVar>) -> (String, u64),
        F2: Fn(&Tag, &Vec<EachVar>) -> Vec<TagAttribute>,
        F3: Fn(&String, &Vec<EachVar>) -> (String, String),

        requires
            forall|a: String, b: Vec<EachVar>| content_expr.requires((&a, &b)),
            forall|a: Tag, b: Vec<EachVar>| attrs_of.requires((&a, &b)),
            forall|a: String, b: Vec<EachVar>| each_expr.requires((&a, &b)),
            branches_ok(*attrs_of, components@, branches@),
            branch_sizes(branches@) < usize::MAX,
        ensures
            branches_rel(
                *content_expr,
                *attrs_of,
                *each_expr,
                components@,
                comp_id_hash@,
                *scoped_vars,
                id,
                branches@,
                r.0@,
                r.1,
            ),
        decreases branches@,
    {
        let ghost orig = branches@;
        let mut rest = branches;
        match rest.pop() {
            None => {
                proof {
                    assert(orig.len() == 0);
                }
                (Vec::new(), 0)
            },
            Some(branch) => {
                let ghost prefix = rest@;
                let k = rest.len();
                proof {
                    assert(prefix =~= orig.drop_last());
                    assert(branch == orig.last());
                    assert(decreases_to!(orig => orig.subrange(0, orig.len() - 1)));
                    assert(orig.subrange(0, orig.len() - 1) =~= prefix);
                    lemma_branches_ok_index(*attrs_of, components@, orig, orig.len() - 1);
                    assert(orig.take(orig.len() - 1) =~= prefix);
                    lemma_branch_sizes_prefix(orig, orig.len() - 1);
                    assert(orig.take(orig.len() as int) =~= orig);
                }
                let (mut nbs, old_mask) = Node::from_branches(
                    rest,
                    id,
                    content_expr,
                    attrs_of,
                    each_expr,
                    components,
                    comp_id_hash,
                    scoped_vars,
                );
                let (condition, flags) = content_expr(&branch.condition, scoped_vars);
                let flag_mask = old_mask | flags;
                proof {
                    assert(decreases_to!(orig => orig[orig.len() - 1]));
                    assert(decreases_to!(orig[orig.len() - 1] => orig[orig.len() - 1].contents));
                    assert(decreases_to!(orig[orig.len() - 1].contents => orig[orig.len() - 1].contents@));
                }
                let mut counter: usize = 0;
                let contents = Node::from_elements(
                    branch.contents,
                    &mut counter,
                    content_expr,
                    attrs_of,
                    each_expr,
                    components,
                    comp_id_hash,
                    scoped_vars,
                );
                let mut name = String::new();
                name.append("C");
                name.append(comp_id_hash.as_str());
                name.append("If");
                name.append(to_decimal(id as u64).as_str());
                name.append("Branch");
                name.append(to_decimal(k as u64).as_str());
                let ghost old_nbs = nbs@;
                let ghost cond = condition;
                nbs.push(NodeIfBranch { condition, contents, name });
                proof {
                    assert(nbs@.drop_last() =~= old_nbs);
                    assert(nbs@.last().condition == cond);
                }
                (nbs, flag_mask)
            },
        }
    }
}

// ---------------------------------------------------------------------------
// The fields and fragments of a node tree.

/// The fragment blocks (`{#if}` and `{#each}`) among `ns` and inside their
/// tags, in order; blocks inside blocks belong to the inner fragments.
pub open spec fn fragments(ns: Seq<Node>) -> Seq<Node>
    decreases ns,
{
    if ns.len() == 0 {
        seq![]
    } else {
        fragments(ns.drop_last()) + match ns.last().content {
            NodeType::If(_, _, _, _) | NodeType::Each(_, _, _, _, _) => seq![ns.last()],
            NodeType::Tag(_, _, kids) => fragments(kids@),
            _ => seq![],
        }
    }
}

/// The fragment blocks among `nodes` and inside their tags, in order.
pub fn find_all_fragments(nodes: &Vec<Node>) -> (r: Vec<&Node>)
    ensures
        r@.map_values(|x: &Node| *x) == fragments(nodes@),
    decreases nodes@,
{
    let mut r: Vec<&Node> = Vec::new();
    let mut i: usize = 0;
    while i < nodes.len()
        invariant
            i <= nodes@.len(),
            r@.map_values(|x: &Node| *x) == fragments(nodes@.take(i as int)),
        decreases nodes@.len() - i,
    {
        let ghost before = r@.map_values(|x: &Node| *x);
        let node = &nodes[i];
        match &node.content {
            NodeType::If(_, _, _, _) | NodeType::Each(_, _, _, _, _) => {
                r.push(node);
                assert(r@.map_values(|x: &Node| *x) =~= before + seq![*node]);
            },
            NodeType::Tag(_, _, kids) => {
                proof {
                    assert(decreases_to!(nodes@ => nodes@[i as int]));
                    assert(decreases_to!(nodes@[i as int] => nodes@[i as int].content));
                    assert(decreases_to!(nodes@[i as int].content => nodes@[i as int].content->Tag_2));
                    assert(decreases_to!(nodes@[i as int].content->Tag_2 => nodes@[i as int].content->Tag_2@));
                }
                let inner = find_all_fragments(kids);
                let ghost mid = r@;
                let mut j: usize = 0;
                while j < inner.len()
                    invariant
                        j <= inner@.len(),
                        r@ == mid + inner@.take(j as int),
                    decreases inner@.len() - j,
                {
                    r.push(inner[j]);
                    assert(r@ =~= mid + inner@.take(j + 1));
                    j = j + 1;
                }
                assert(inner@.take(j as int) =~= inner@);
                assert(r@.map_values(|x: &Node| *x) =~= before + inner@.map_values(|x: &Node| *x));
            },
            _ => {
                assert(r@.map_values(|x: &Node| *x) =~= before + Seq::<Node>::empty());
            },
        }
        assert(nodes@.take(i + 1).drop_last() =~= nodes@.take(i as int));
        i = i + 1;
    }
    assert(nodes@.take(i as int) =~= nodes@);
    r
}

/// The names of the fields that node `n` takes in its fragment: its own, and
/// for a tag those of its children after it.
pub open spec fn node_fields(n: Node) -> Seq<Seq<char>>
    decreases n,
{
    match n.content {
        NodeType::Tag(_, _, kids) => seq![n.struct_field@] + nodes_fields(kids@),
        _ => seq![n.struct_field@],
    }
}

pub open spec fn nodes_fields(ns: Seq<Node>) -> Seq<Seq<char>>
    decreases ns,
{
    if ns.len() == 0 {
        seq![]
    } else {
        nodes_fields(ns.drop_last()) + node_fields(ns.last())
    }
}

/// The source text of the type of the field of node `n`.
pub open spec fn field_type(n: Node) -> Seq<char> {
    match n.content {
        NodeType::Text(_) | NodeType::Expr(_, _) => "web_sys::Text"@,
        NodeType::Tag(_, _, _) => "web_sys::Element"@,
        NodeType::If(_, _, en, _) => "crate::IfElement<"@ + en@ + ">"@,
        NodeType::Each(_, _, _, frag, _) => "crate::EachElement<"@ + frag@ + ">"@,
        NodeType::Comp(name, _) => "crate::Component<"@ + name@ + ">"@,
    }
}

/// The types of the fields that node `n` takes, in the order of
/// `node_fields`.
pub open spec fn node_field_types(n: Node) -> Seq<Seq<char>>
    decreases n,
{
    match n.content {
        NodeType::Tag(_, _, kids) => seq![field_type(n)] + nodes_field_types(kids@),
        _ => seq![field_type(n)],
    }
}

pub open spec fn nodes_field_types(ns: Seq<Node>) -> Seq<Seq<char>>
    decreases ns,
{
    if ns.len() == 0 {
        seq![]
    } else {
        nodes_field_types(ns.drop_last()) + node_field_types(ns.last())
    }
}

/// The source text of the type of the field of `n`.
fn field_type_of(n: &Node) -> (t: String)
    ensures
        t@ == field_type(*n),
{
    let mut t = String::new();
    match &n.content {
        NodeType::Text(_) | NodeType::Expr(_, _) => t.append("web_sys::Text"),
        NodeType::Tag(_, _, _) => t.append("web_sys::Element"),
        NodeType::If(_, _, en, _) => {
            t.append("crate::IfElement<");
            t.append(en.as_str());
            t.append(">");
        },
        NodeType::Each(_, _, _, frag, _) => {
            t.append("crate::EachElement<");
            t.append(frag.as_str());
            t.append(">");
        },
        NodeType::Comp(name, _) => {
            t.append("crate::Component<");
            t.append(name.as_str());
            t.append(">");
        },
    }
    t
}

impl Node {
    /// The source text of the types of the fields this node takes in its
    /// fragment, in order.
    pub fn get_field_types(&self) -> (r: Vec<String>)
        ensures
            r@.map_values(|s: String| s@) == node_field_types(*self),
        decreases *self,
    {
        let mut r: Vec<String> = Vec::new();
        r.push(field_type_of(self));
        assert(r@.map_values(|s: String| s@) =~= seq![field_type(*self)]);
        match &self.content {
            NodeType::Tag(_, _, kids) => {
                let mut i: usize = 0;
                while i < kids.len()
                    invariant
                        i <= kids@.len(),
                        self.content == NodeType::Tag(self.content->Tag_0, self.content->Tag_1, *kids),
                        r@.map_values(|s: String| s@) == seq![field_type(*self)] + nodes_field_types(kids@.take(i as int)),
                    decreases kids@.len() - i,
                {
                    proof {
                        assert(decreases_to!(*self => self.content));
                        assert(decreases_to!(self.content => self.content->Tag_2));
                        assert(decreases_to!(self.content->Tag_2 => self.content->Tag_2@));
                        assert(decreases_to!(kids@ => kids@[i as int]));
                    }
                    let sub = kids[i].get_field_types();
                    let ghost before = r@;
                    let mut j: usize = 0;
                    while j < sub.len()
                        invariant
                            j <= sub@.len(),
                            r@ == before + sub@.take(j as int),
                        decreases sub@.len() - j,
                    {
                        r.push(sub[j].clone());
                        assert(r@ =~= before + sub@.take(j + 1));
                        j = j + 1;
                    }
                    assert(sub@.take(j as int) =~= sub@);
                    assert(kids@.take(i + 1).drop_last() =~= kids@.take(i as int));
                    assert(r@.map_values(|s: String| s@) =~= before.map_values(|s: String| s@) + sub@.map_values(|s: String| s@));
                    i = i + 1;
                }
                assert(kids@.take(i as int) =~= kids@);
            },
            _ => {},
        }
        r
    }

    /// The names of the fields this node takes in its fragment, in order.
    pub fn get_fields(&self) -> (r: Vec<String>)
        ensures
            r@.map_values(|s: String| s@) == node_fields(*self),
        decreases *self,
    {
        let mut r: Vec<String> = Vec::new();
        r.push(self.struct_field.clone());
        assert(r@.map_values(|s: String| s@) =~= seq![self.struct_field@]);
        match &self.content {
            NodeType::Tag(_, _, kids) => {
                let mut i: usize = 0;
                while i < kids.len()
                    invariant
                        i <= kids@.len(),
                        self.content == NodeType::Tag(self.content->Tag_0, self.content->Tag_1, *kids),
                        r@.map_values(|s: String| s@) == seq![self.struct_field@] + nodes_fields(kids@.take(i as int)),
                    decreases kids@.len() - i,
                {
                    proof {
                        assert(decreases_to!(*self => self.content));
                        assert(decreases_to!(self.content => self.content->Tag_2));
                        assert(decreases_to!(self.content->Tag_2 => self.content->Tag_2@));
                        assert(decreases_to!(kids@ => kids@[i as int]));
                    }
                    let sub = kids[i].get_fields();
                    let ghost before = r@;
                    let mut j: usize = 0;
                    while j < sub.len()
                        invariant
                            j <= sub@.len(),
                            r@ == before + sub@.take(j as int),
                        decreases sub@.len() - j,
                    {
                        r.push(sub[j].clone());
                        assert(r@ =~= before + sub@.take(j + 1));
                        j = j + 1;
                    }
                    assert(sub@.take(j as int) =~= sub@);
                    assert(kids@.take(i + 1).drop_last() =~= kids@.take(i as int));
                    assert(r@.map_values(|s: String| s@) =~= before.map_values(|s: String| s@) + sub@.map_values(|s: String| s@));
                    i = i + 1;
                }
                assert(kids@.take(i as int) =~= kids@);
            },
            _ => {},
        }
        r
    }
}

/// How a fragment reaches its `idx`-th content node among `node_len`: the
/// contents themselves where there is only one, a tuple field otherwise.
pub fn get_content_accessor(node_len: usize, idx: usize) -> (r: String)
    ensures
        r@ == if node_len == 1 {
            "contents"@
        } else {
            "contents"@ + "."@ + spec_digits(idx as nat, 10)
        },
{
    let mut r = String::new();
    r.append("contents");
    if node_len != 1 {
        r.append(".");
        r.append(to_decimal(idx as u64).as_str());
    }
    r
}

// ---------------------------------------------------------------------------
// The components a template can use.

/// The index of the first import of `path`.
pub open spec fn import_of(imports: Seq<ComponentImport>, path: Seq<char>) -> Option<int>
    decreases imports.len(),
{
    if imports.len() == 0 {
        None
    } else if imports.last().path@ == path && import_of(imports.drop_last(), path) is None {
        Some(imports.len() - 1)
    } else {
        import_of(imports.drop_last(), path)
    }
}

/// The index of the first component named `name`.
pub open spec fn ref_index(refs: Seq<ComponentRef>, name: Seq<char>) -> Option<int>
    decreases refs.len(),
{
    if refs.len() == 0 {
        None
    } else if ref_index(refs.drop_last(), name) is Some {
        ref_index(refs.drop_last(), name)
    } else if refs.last().name@ == name {
        Some(refs.len() - 1)
    } else {
        None
    }
}

/// `refs` with `r` in place of the component of the same name, or added at
/// the end where there is none.
pub open spec fn upsert(refs: Seq<ComponentRef>, r: ComponentRef) -> Seq<ComponentRef> {
    match ref_index(refs, r.name@) {
        Some(i) => refs.update(i, r),
        None => refs.push(r),
    }
}

/// The components of the project that the script's `imports` name, each
/// under the name it is imported by; a later component imported under the
/// same name takes the place of an earlier one.
pub open spec fn refs_of(
    imports: Seq<ComponentImport>,
    comps: Seq<(String, String, Option<Vec<Prop>>)>,
) -> Seq<ComponentRef>
    decreases comps.len(),
{
    if comps.len() == 0 {
        seq![]
    } else {
        let c = comps.last();
        upsert(
            refs_of(imports, comps.drop_last()),
            ComponentRef {
                name: imports[import_of(imports, c.0@)->Some_0].name,
                id_hash: c.1,
                props: c.2,
            },
        )
    }
}

/// The first component, by index, whose source path no import names.
pub open spec fn first_unimported(
    imports: Seq<ComponentImport>,
    comps: Seq<(String, String, Option<Vec<Prop>>)>,
) -> Option<int>
    decreases comps.len(),
{
    if comps.len() == 0 {
        None
    } else if first_unimported(imports, comps.drop_last()) is Some {
        first_unimported(imports, comps.drop_last())
    } else if import_of(imports, comps.last().0@) is None {
        Some(comps.len() - 1)
    } else {
        None
    }
}

/// The message for a component of the project that the script does not
/// import.
pub open spec fn msg_not_imported(path: Seq<char>) -> Seq<char> {
    "Component '"@ + path + "' imported but not found in project"@
}

pub proof fn lemma_import_of(imports: Seq<ComponentImport>, path: Seq<char>)
    ensures
        import_of(imports, path) matches Some(i) ==> 0 <= i < imports.len() && imports[i].path@ == path
            && forall|j: int| 0 <= j < i ==> (#[trigger] imports[j]).path@ != path,
        import_of(imports, path) is None ==> forall|j: int|
            0 <= j < imports.len() ==> (#[trigger] imports[j]).path@ != path,
    decreases imports.len(),
{
    if imports.len() > 0 {
        lemma_import_of(imports.drop_last(), path);
        assert forall|j: int| 0 <= j < imports.len() - 1 implies imports[j] == imports.drop_last()[j] by {}
    }
}

pub proof fn lemma_ref_index(refs: Seq<ComponentRef>, name: Seq<char>)
    ensures
        ref_index(refs, name) matches Some(i) ==> 0 <= i < refs.len() && refs[i].name@ == name
            && forall|j: int| 0 <= j < i ==> (#[trigger] refs[j]).name@ != name,
        ref_index(refs, name) is None ==> forall|j: int|
            0 <= j < refs.len() ==> (#[trigger] refs[j]).name@ != name,
    decreases refs.len(),
{
    if refs.len() > 0 {
        lemma_ref_index(refs.drop_last(), name);
        assert forall|j: int| 0 <= j < refs.len() - 1 implies refs[j] == refs.drop_last()[j] by {}
    }
}

/// The index of the first import of `path`.
fn find_import(imports: &Vec<ComponentImport>, path: &String) -> (r: Option<usize>)
    ensures
        match r {
            Some(i) => import_of(imports@, path@) == Some(i as int),
            None => import_of(imports@, path@) is None,
        },
{
    proof {
        lemma_import_of(imports@, path@);
    }
    let mut i: usize = 0;
    while i < imports.len()
        invariant
            i <= imports@.len(),
            forall|j: int| 0 <= j < i ==> (#[trigger] imports@[j]).path@ != path@,
            import_of(imports@, path@) matches Some(k) ==> i <= k,
        decreases imports@.len() - i,
    {
        proof {
            lemma_import_of(imports@, path@);
        }
        if crate::text::str_eq(imports[i].path.as_str(), path.as_str()) {
            return Some(i);
        }
        i = i + 1;
    }
    proof {
        lemma_import_of(imports@, path@);
    }
    None
}

/// The index of the first component named `name`.
fn find_ref(refs: &Vec<ComponentRef>, name: &String) -> (r: Option<usize>)
    ensures
        match r {
            Some(i) => ref_index(refs@, name@) == Some(i as int),
            None => ref_index(refs@, name@) is None,
        },
{
    proof {
        lemma_ref_index(refs@, name@);
    }
    let mut i: usize = 0;
    while i < refs.len()
        invariant
            i <= refs@.len(),
            forall|j: int| 0 <= j < i ==> (#[trigger] refs@[j]).name@ != name@,
            ref_index(refs@, name@) matches Some(k) ==> i <= k,
        decreases refs@.len() - i,
    {
        proof {
            lemma_ref_index(refs@, name@);
        }
        if crate::text::str_eq(refs[i].name.as_str(), name.as_str()) {
            return Some(i);
        }
        i = i + 1;
    }
    proof {
        lemma_ref_index(refs@, name@);
    }
    None
}

/// The components that a template can use, from the script's `imports` and
/// the other components of the project (source path, hash, props): each
/// under the name its path is first imported by. A component whose path no
/// import names is an error.
pub fn component_refs(
    imports: &Vec<ComponentImport>,
    comps: Vec<(String, String, Option<Vec<Prop>>)>,
) -> (r: Result<Vec<ComponentRef>, CompileError>)
    ensures
        match first_unimported(imports@, comps@) {
            Some(i) => r matches Err(CompileError::GenericError(m)) && m@ == msg_not_imported(
                comps@[i].0@,
            ),
            None => r matches Ok(refs) && refs@ == refs_of(imports@, comps@),
        },
{
    let ghost orig = comps@;
    let mut rest = comps;
    let mut refs: Vec<ComponentRef> = Vec::new();
    let mut k: usize = 0;
    let total = rest.len();
    assert(orig.take(0) =~= Seq::<(String, String, Option<Vec<Prop>>)>::empty());
    while rest.len() > 0
        invariant
            orig == comps@,
            orig.len() == total,
            k + rest@.len() == orig.len(),
            rest@ == orig.skip(k as int),
            first_unimported(imports@, orig.take(k as int)) is None,
            refs@ == refs_of(imports@, orig.take(k as int)),
        decreases rest@.len(),
    {
        let c = rest.remove(0);
        proof {
            assert(c == orig[k as int]);
            assert(rest@ =~= orig.skip(k + 1));
            assert(orig.take(k + 1).drop_last() =~= orig.take(k as int));
            assert(orig.take(k + 1).last() == orig[k as int]);
        }
        match find_import(imports, &c.0) {
            None => {
                proof {
                    let t1 = orig.take(k + 1);
                    assert(t1.drop_last() =~= orig.take(k as int));
                    assert(t1.last().0@ == c.0@);
                    assert(first_unimported(imports@, t1) == Some(k as int));
                    lemma_first_unimported_prefix(imports@, orig, (k + 1) as int);
                }
                let mut m = String::new();
                m.append("Component '");
                m.append(c.0.as_str());
                m.append("' imported but not found in project");
                return Err(CompileError::GenericError(m));
            },
            Some(i) => {
                proof {
                    lemma_import_of(imports@, c.0@);
                }
                let name = imports[i].name.clone();
                let r = ComponentRef { name, id_hash: c.1, props: c.2 };
                let found = find_ref(&refs, &r.name);
                proof {
                    lemma_ref_index(refs@, r.name@);
                }
                match found {
                    Some(j) => {
                        refs.set(j, r);
                    },
                    None => {
                        refs.push(r);
                    },
                }
                k = k + 1;
            },
        }
    }
    assert(orig.take(k as int) =~= orig);
    Ok(refs)
}

/// Where a prefix of `comps` has a component that is not imported, so has
/// the whole, at the same index.
pub proof fn lemma_first_unimported_prefix(
    imports: Seq<ComponentImport>,
    comps: Seq<(String, String, Option<Vec<Prop>>)>,
    k: int,
)
    requires
        0 <= k <= comps.len(),
        first_unimported(imports, comps.take(k)) is Some,
    ensures
        first_unimported(imports, comps) == first_unimported(imports, comps.take(k)),
    decreases comps.len() - k,
{
    if k < comps.len() {
        assert(comps.take(k + 1).drop_last() =~= comps.take(k));
        lemma_first_unimported_prefix(imports, comps, k + 1);
    } else {
        assert(comps.take(k) =~= comps);
    }
}

// ---------------------------------------------------------------------------
// The fields of a fragment are named in order.

/// The names of the `k` fields from field `c` on: `letters(c + 1)`, ...
pub open spec fn field_names(c: nat, k: nat) -> Seq<Seq<char>> {
    Seq::new(k, |i: int| letters((c + i + 1) as nat))
}

/// A node built from element `e` at field `c` names its fields, and those of
/// the nodes after it in its fragment, `c`, `c + 1`, ... in order: the
/// fields of a fragment are named `a`, `b`, `c`, ... without gaps, and so
/// (by `lemma_num_to_letter_injective`) without repeats.
pub proof fn lemma_node_fields_in_order<
    F1: Fn(&String, &Vec<EachVar>) -> (String, u64),
    F2: Fn(&Tag, &Vec<EachVar>) -> Vec<TagAttribute>,
    F3: Fn(&String, &Vec<EachVar>) -> (String, String),
>(
    content_expr: F1,
    attrs_of: F2,
    each_expr: F3,
    comps: Seq<ComponentRef>,
    h: Seq<char>,
    scoped: Vec<EachVar>,
    e: Element,
    c: nat,
    n: Node,
)
    requires
        node_rel(content_expr, attrs_of, each_expr, comps, h, scoped, e, c, n),
    ensures
        node_fields(n) == field_names(c, field_count(e)),
    decreases e,
{
    match e.content {
        ContentType::Tag(tag, ch) => {
            if !is_comp_tag(tag.name@) {
                let kids = n.content->Tag_2;
                assert(decreases_to!(e.content => e.content->Tag_1));
                assert(decreases_to!(e.content->Tag_1 => e.content->Tag_1@));
                lemma_nodes_fields_in_order(
                    content_expr,
                    attrs_of,
                    each_expr,
                    comps,
                    h,
                    scoped,
                    ch@,
                    c + 1,
                    kids@,
                );
                assert(node_fields(n) =~= field_names(c, field_count(e)));
            } else {
                assert(node_fields(n) =~= field_names(c, field_count(e)));
            }
        },
        _ => {
            assert(node_fields(n) =~= field_names(c, field_count(e)));
        },
    }
}

/// The nodes built from the elements `es` from field `c` on name their
/// fields `c`, `c + 1`, ... in order.
pub proof fn lemma_nodes_fields_in_order<
    F1: Fn(&String, &Vec<EachVar>) -> (String, u64),
    F2: Fn(&Tag, &Vec<EachVar>) -> Vec<TagAttribute>,
    F3: Fn(&String, &Vec<EachVar>) -> (String, String),
>(
    content_expr: F1,
    attrs_of: F2,
    each_expr: F3,
    comps: Seq<ComponentRef>,
    h: Seq<char>,
    scoped: Vec<EachVar>,
    es: Seq<Element>,
    c: nat,
    ns: Seq<Node>,
)
    requires
        nodes_rel(content_expr, attrs_of, each_expr, comps, h, scoped, es, c, ns),
    ensures
        nodes_fields(ns) == field_names(c, fields_count(es)),
    decreases es,
{
    if es.len() == 0 {
        assert(nodes_fields(ns) =~= field_names(c, 0));
    } else {
        lemma_nodes_fields_in_order(
            content_expr,
            attrs_of,
            each_expr,
            comps,
            h,
            scoped,
            es.drop_last(),
            c,
            ns.drop_last(),
        );
        let c2 = c + fields_count(es.drop_last());
        assert(decreases_to!(es => es[es.len() - 1]));
        lemma_node_fields_in_order(
            content_expr,
            attrs_of,
            each_expr,
            comps,
            h,
            scoped,
            es.last(),
            c2,
            ns.last(),
        );
        assert(nodes_fields(ns) =~= field_names(c, fields_count(es)));
    }
}

} // verus!
