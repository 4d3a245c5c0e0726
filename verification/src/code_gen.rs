//! The JavaScript side of the generated application: the code that builds the
//! page's nodes from the template and the code that wires their event
//! listeners to the WebAssembly module.

use vstd::prelude::*;
use vstd::string::StringExecFns;

use crate::numtext::{spec_digits, to_decimal};
use crate::events::{get_js_event_str, is_event_attr, spec_event, spec_event_index};
use crate::parse::html_parse::{AttrType, ContentType, Element, IfBranch};

verus! {

/// The shape of the elements array of a fragment: plain elements, and the
/// nested arrays of `{#if}` and `{#each}` blocks.
pub enum ElementArrayItem {
    Element,
    If(Vec<ElementArrayItem>),
    Each(Vec<ElementArrayItem>),
}

/// An event listener to install: the element it listens on and the
/// JavaScript name of the event (`click`, `input`, ...).
pub struct EventHandler {
    pub js_event_type: String,
    pub target_id: u32,
}

/// `n` in decimal.
pub open spec fn dec(n: u32) -> Seq<char> {
    spec_digits(n as nat, 10)
}

/// The JavaScript line that creates the element numbered `id` with tag `name`.
pub open spec fn create_line(id: u32, name: Seq<char>) -> Seq<char> {
    "nodeMap["@ + dec(id) + "] = document.createElement('"@ + name + "');\n"@
}

/// The JavaScript line that sets a string attribute on element `id`.
pub open spec fn set_attribute_line(id: u32, name: Seq<char>, value: Seq<char>) -> Seq<char> {
    "nodeMap["@ + dec(id) + "].setAttribute('"@ + name + "', `"@ + value + "`);\n"@
}

/// The JavaScript line that appends element `child` to element `parent`.
pub open spec fn append_line(parent: u32, child: u32) -> Seq<char> {
    "nodeMap["@ + dec(parent) + "].appendChild(nodeMap["@ + dec(child) + "]);\n"@
}

/// The JavaScript line that sets the text of element `id`.
pub open spec fn text_line(id: u32, text: Seq<char>) -> Seq<char> {
    "nodeMap["@ + dec(id) + "].textContent = `"@ + text + "`;\n"@
}

/// The lines that set the string-valued attributes, in order; attributes of
/// other kinds are set by the WebAssembly module.
pub open spec fn attr_lines(id: u32, attrs: Seq<(String, AttrType)>) -> Seq<char>
    decreases attrs.len(),
{
    if attrs.len() == 0 {
        seq![]
    } else {
        attr_lines(id, attrs.drop_last()) + match attrs.last().1 {
            AttrType::Str(s) => set_attribute_line(id, attrs.last().0@, s@),
            _ => seq![],
        }
    }
}

/// The code that builds element `e` and everything under it: nothing unless
/// it is a tag; for a tag, its creation, its string attributes, and then for
/// each child in order either the child's own code and its insertion (a tag),
/// or the text of the tag (text).
pub open spec fn node_map_js(e: Element) -> Seq<char>
    decreases e,
{
    match e.content {
        ContentType::Tag(tag, children) => create_line(e.id, tag.name@) + attr_lines(
            e.id,
            tag.attributes@,
        ) + children_js(e.id, children@),
        _ => seq![],
    }
}

/// The code for the children `cs` of element `parent`, in order.
pub open spec fn children_js(parent: u32, cs: Seq<Element>) -> Seq<char>
    decreases cs,
{
    if cs.len() == 0 {
        seq![]
    } else {
        children_js(parent, cs.drop_last()) + match cs.last().content {
            ContentType::Tag(_, _) => node_map_js(cs.last()) + append_line(parent, cs.last().id),
            ContentType::Text(t) => text_line(parent, t@),
            _ => seq![],
        }
    }
}

/// The JavaScript that builds the node map for the template rooted at `ast`:
/// the statements that create each tag, set its string attributes and text,
/// and append it to its parent.
pub fn gen_node_map_builder(ast: &Element) -> (js: String)
    ensures
        js@ == node_map_js(*ast),
    decreases ast,
{
    match &ast.content {
        ContentType::Tag(tag, children) => {
            let id = to_decimal(ast.id as u64);
            let mut builder = String::new();
            builder.append("nodeMap[");
            builder.append(id.as_str());
            builder.append("] = document.createElement('");
            builder.append(tag.name.as_str());
            builder.append("');\n");
            let ghost head = builder@;
            assert(head == create_line(ast.id, tag.name@));
            let mut i: usize = 0;
            while i < tag.attributes.len()
                invariant
                    i <= tag.attributes@.len(),
                    id@ == dec(ast.id),
                    builder@ == head + attr_lines(ast.id, tag.attributes@.take(i as int)),
                decreases tag.attributes@.len() - i,
            {
                let ghost before = builder@;
                let attr = &tag.attributes[i];
                match &attr.1 {
                    AttrType::Str(s) => {
                        builder.append("nodeMap[");
                        builder.append(id.as_str());
                        builder.append("].setAttribute('");
                        builder.append(attr.0.as_str());
                        builder.append("', `");
                        builder.append(s.as_str());
                        builder.append("`);\n");
                        assert(builder@ =~= before + set_attribute_line(ast.id, attr.0@, s@));
                    },
                    _ => {},
                }
                assert(tag.attributes@.take(i + 1).drop_last() =~= tag.attributes@.take(i as int));
                i = i + 1;
            }
            assert(tag.attributes@.take(i as int) =~= tag.attributes@);
            let ghost mid = builder@;
            let mut j: usize = 0;
            while j < children.len()
                invariant
                    j <= children@.len(),
                    id@ == dec(ast.id),
                    ast.content == ContentType::Tag(*tag, *children),
                    builder@ == mid + children_js(ast.id, children@.take(j as int)),
                decreases children@.len() - j,
            {
                let ghost before = builder@;
                let child = &children[j];
                match &child.content {
                    ContentType::Tag(_, _) => {
                        proof {
                            assert(decreases_to!(ast.content => ast.content->Tag_1));
                            assert(decreases_to!(children@ => children@[j as int]));
                        }
                        let sub = gen_node_map_builder(child);
                        let child_id = to_decimal(child.id as u64);
                        builder.append(sub.as_str());
                        builder.append("nodeMap[");
                        builder.append(id.as_str());
                        builder.append("].appendChild(nodeMap[");
                        builder.append(child_id.as_str());
                        builder.append("]);\n");
                        assert(builder@ =~= before + (node_map_js(*child) + append_line(
                            ast.id,
                            child.id,
                        )));
                    },
                    ContentType::Text(t) => {
                        builder.append("nodeMap[");
                        builder.append(id.as_str());
                        builder.append("].textContent = `");
                        builder.append(t.as_str());
                        builder.append("`;\n");
                        assert(builder@ =~= before + text_line(ast.id, t@));
                    },
                    _ => {},
                }
                assert(children@.take(j + 1).drop_last() =~= children@.take(j as int));
                assert(children@.take(j + 1).last() == children@[j as int]);
                j = j + 1;
            }
            assert(children@.take(j as int) =~= children@);
            builder
        },
        _ => String::new(),
    }
}

/// The JavaScript line that installs the listener of `h`, which hands the
/// event and its target's number to the WebAssembly module.
pub open spec fn listener_line(h: EventHandler) -> Seq<char> {
    "nodeMap["@ + dec(h.target_id) + "].addEventListener('"@ + h.js_event_type@
        + "', (e) => handle_js_event(e, nodeMap, "@ + dec(h.target_id) + "));\n"@
}

/// The listener lines of `events`, in order.
pub open spec fn listeners_js(events: Seq<EventHandler>) -> Seq<char>
    decreases events.len(),
{
    if events.len() == 0 {
        seq![]
    } else {
        listeners_js(events.drop_last()) + listener_line(events.last())
    }
}

/// The JavaScript that installs the event listeners of `events`, one line
/// each, in order.
pub fn gen_event_listeners(events: &Vec<EventHandler>) -> (js: String)
    ensures
        js@ == listeners_js(events@),
{
    let mut builder = String::new();
    let mut i: usize = 0;
    while i < events.len()
        invariant
            i <= events@.len(),
            builder@ == listeners_js(events@.take(i as int)),
        decreases events@.len() - i,
    {
        let ghost before = builder@;
        let event = &events[i];
        let target = to_decimal(event.target_id as u64);
        builder.append("nodeMap[");
        builder.append(target.as_str());
        builder.append("].addEventListener('");
        builder.append(event.js_event_type.as_str());
        builder.append("', (e) => handle_js_event(e, nodeMap, ");
        builder.append(target.as_str());
        builder.append("));\n");
        assert(builder@ =~= before + listener_line(*event));
        assert(events@.take(i + 1).drop_last() =~= events@.take(i as int));
        i = i + 1;
    }
    assert(events@.take(i as int) =~= events@);
    builder
}

/// The startup module of the page: `buildNodeMap`, which builds the nodes
/// with `node_map` and installs the style sheet `style`, and
/// `setupEventListeners`, which runs `listeners`.
pub open spec fn startup_js(node_map: Seq<char>, style: Seq<char>, listeners: Seq<char>) -> Seq<char> {
    "import { handle_js_event } from './patches.js';\n            export function buildNodeMap() {\n                let nodeMap = [];\n                "@
        + node_map
        + "\n                document.head.querySelector('style').textContent = `"@ + style
        + "`;\n                return nodeMap;\n            }\n            export function setupEventListeners(nodeMap) {\n                "@
        + listeners + "\n            }"@
}

/// The style sheet text, empty where there is none.
pub open spec fn style_text(style: Option<String>) -> Seq<char> {
    match style {
        Some(s) => s@,
        None => seq![],
    }
}

/// The startup module for a page with template `body`, style sheet `style`
/// and event listeners `events`.
pub fn gen_startup_js(body: &Element, style: &Option<String>, events: &Vec<EventHandler>) -> (js: String)
    ensures
        js@ == startup_js(node_map_js(*body), style_text(*style), listeners_js(events@)),
{
    let node_map = gen_node_map_builder(body);
    let listeners = gen_event_listeners(events);
    let mut js = String::new();
    js.append("import { handle_js_event } from './patches.js';\n            export function buildNodeMap() {\n                let nodeMap = [];\n                ");
    js.append(node_map.as_str());
    js.append("\n                document.head.querySelector('style').textContent = `");
    match style {
        Some(s) => js.append(s.as_str()),
        None => {},
    }
    js.append("`;\n                return nodeMap;\n            }\n            export function setupEventListeners(nodeMap) {\n                ");
    js.append(listeners.as_str());
    js.append("\n            }");
    assert(js@ =~= startup_js(node_map@, style_text(*style), listeners@));
    js
}

// ---------------------------------------------------------------------------
// The scope passed through fragments.

/// The scope passed through the fragments of a component: `()` at the root,
/// and one more item for each enclosing `{#each}` block, the innermost on the
/// outside: `(((), a), b)`. Each layer holds the name of the item's variable
/// (already made distinct, `a_scope` for `a`) and the source text of its type;
/// the first layer is the root, with an empty name and type `()`.
pub struct ScopeData {
    layers: Vec<(String, String)>,
}

/// The text of the names and types of `v`.
pub open spec fn layers_view(v: Seq<(String, String)>) -> Seq<(Seq<char>, Seq<char>)> {
    v.map_values(|p: (String, String)| (p.0@, p.1@))
}

/// The type of a scope with layers `l` (the root first).
pub open spec fn scope_type(l: Seq<(Seq<char>, Seq<char>)>) -> Seq<char>
    decreases l.len(),
{
    if l.len() <= 1 {
        "()"@
    } else {
        "("@ + scope_type(l.drop_last()) + ", "@ + l.last().1 + ")"@
    }
}

/// The pattern that takes a scope with layers `l` apart into its variables.
pub open spec fn scope_destructor(l: Seq<(Seq<char>, Seq<char>)>) -> Seq<char>
    decreases l.len(),
{
    if l.len() <= 1 {
        "_"@
    } else {
        "("@ + scope_destructor(l.drop_last()) + ", "@ + l.last().0 + ")"@
    }
}

impl ScopeData {
    /// A scope always has its root layer.
    #[verifier::type_invariant]
    spec fn has_root(&self) -> bool {
        self.layers@.len() >= 1
    }

    /// The layers of the scope, the root first.
    pub closed spec fn view_layers(&self) -> Seq<(Seq<char>, Seq<char>)> {
        layers_view(self.layers@)
    }

    /// The scope at the root of a component.
    pub fn new() -> (s: Self)
        ensures
            s.view_layers() == seq![(Seq::<char>::empty(), "()"@)],
            s.view_layers().len() >= 1,
    {
        let mut ty = String::new();
        ty.append("()");
        let mut layers = Vec::new();
        layers.push((String::new(), ty));
        let s = ScopeData { layers };
        assert(s.view_layers() =~= seq![(Seq::<char>::empty(), "()"@)]);
        s
    }

    /// This scope with one more item, named `name`, of type `ty`.
    pub fn wrap(&self, name: String, ty: String) -> (s: Self)
        ensures
            s.view_layers() == self.view_layers().push((name@, ty@)),
            s.view_layers().len() >= 1,
            self.view_layers().len() >= 1,
    {
        proof {
            use_type_invariant(self);
        }
        let mut layers: Vec<(String, String)> = Vec::new();
        let mut i: usize = 0;
        while i < self.layers.len()
            invariant
                i <= self.layers@.len(),
                layers_view(layers@) == layers_view(self.layers@).take(i as int),
            decreases self.layers@.len() - i,
        {
            let ghost before = layers@;
            let layer = &self.layers[i];
            layers.push((layer.0.clone(), layer.1.clone()));
            assert(layers_view(layers@) =~= layers_view(self.layers@).take(i + 1)) by {
                assert(layers@ == before.push(layers@.last()));
                assert(layers_view(layers@) =~= layers_view(before).push((layer.0@, layer.1@)));
            }
            i = i + 1;
        }
        let ghost before = layers@;
        layers.push((name, ty));
        assert(layers@.len() >= 1);
        let s = ScopeData { layers };
        assert(layers_view(s.layers@) =~= layers_view(before).push((name@, ty@)));
        assert(layers_view(self.layers@).take(self.layers@.len() as int) =~= layers_view(
            self.layers@,
        ));
        s
    }

    /// Whether a layer of the scope is named `name`.
    pub fn has_name(&self, name: &str) -> (r: bool)
        ensures
            r == exists|i: int|
                0 <= i < self.view_layers().len() && (#[trigger] self.view_layers()[i]).0 == name@,
    {
        let mut i: usize = self.layers.len();
        while i > 0
            invariant
                i <= self.layers@.len(),
                forall|j: int|
                    i <= j < self.view_layers().len() ==> (#[trigger] self.view_layers()[j]).0
                        != name@,
            decreases i,
        {
            i = i - 1;
            if crate::text::str_eq(self.layers[i].0.as_str(), name) {
                assert(self.view_layers()[i as int].0 == name@);
                return true;
            }
        }
        false
    }

    /// The type of the scope: `()` at the root, and `(inner, T)` for each
    /// item of type `T`.
    pub fn get_type(&self) -> (t: String)
        ensures
            t@ == scope_type(self.view_layers()),
            self.view_layers().len() >= 1,
    {
        proof {
            use_type_invariant(self);
        }
        let ghost l = self.view_layers();
        let mut t = String::new();
        t.append("()");
        let mut k: usize = 1;
        assert(l.take(1).len() == 1);
        while k < self.layers.len()
            invariant
                1 <= k <= self.layers@.len(),
                l == self.view_layers(),
                t@ == scope_type(l.take(k as int)),
            decreases self.layers@.len() - k,
        {
            let mut next = String::new();
            next.append("(");
            next.append(t.as_str());
            next.append(", ");
            next.append(self.layers[k].1.as_str());
            next.append(")");
            assert(l.take(k + 1).drop_last() =~= l.take(k as int));
            assert(l[k as int].1 == self.layers@[k as int].1@);
            t = next;
            k = k + 1;
        }
        assert(l.take(k as int) =~= l);
        t
    }

    /// The pattern that binds the variables of the scope: `_` at the root,
    /// and `(inner, name)` for each item.
    pub fn get_destructor(&self) -> (d: String)
        ensures
            d@ == scope_destructor(self.view_layers()),
            self.view_layers().len() >= 1,
    {
        proof {
            use_type_invariant(self);
        }
        let ghost l = self.view_layers();
        let mut d = String::new();
        d.append("_");
        let mut k: usize = 1;
        while k < self.layers.len()
            invariant
                1 <= k <= self.layers@.len(),
                l == self.view_layers(),
                d@ == scope_destructor(l.take(k as int)),
            decreases self.layers@.len() - k,
        {
            let mut next = String::new();
            next.append("(");
            next.append(d.as_str());
            next.append(", ");
            next.append(self.layers[k].0.as_str());
            next.append(")");
            assert(l.take(k + 1).drop_last() =~= l.take(k as int));
            assert(l[k as int].0 == self.layers@[k as int].0@);
            d = next;
            k = k + 1;
        }
        assert(l.take(k as int) =~= l);
        d
    }
}

/// Wrapping a scope nests it: the type of the wrapped scope is the pair of
/// the old scope's type and the new item's type, and its pattern the pair of
/// the old pattern and the new item's name.
pub proof fn lemma_wrap_nests(l: Seq<(Seq<char>, Seq<char>)>, name: Seq<char>, ty: Seq<char>)
    requires
        l.len() >= 1,
    ensures
        scope_type(l.push((name, ty))) == "("@ + scope_type(l) + ", "@ + ty + ")"@,
        scope_destructor(l.push((name, ty))) == "("@ + scope_destructor(l) + ", "@ + name + ")"@,
{
    assert(l.push((name, ty)).drop_last() =~= l);
}

/// The name under which the item variable `var_name` of an `{#each}` block
/// is held in the scope.
pub fn sanitize_scope_var_name(var_name: &str) -> (r: String)
    ensures
        r@ == var_name@ + "_scope"@,
{
    let mut r = String::new();
    r.append(var_name);
    r.append("_scope");
    r
}

// ---------------------------------------------------------------------------
// The event listeners a template needs.

/// The view of an event listener: its JavaScript event name and its target.
pub open spec fn handler_view(h: EventHandler) -> (Seq<char>, u32) {
    (h.js_event_type@, h.target_id)
}

/// The listeners for the event attributes among `attrs` of element `id`, in
/// order.
pub open spec fn attr_events(id: u32, attrs: Seq<(String, AttrType)>) -> Seq<(Seq<char>, u32)>
    decreases attrs.len(),
{
    if attrs.len() == 0 {
        seq![]
    } else {
        attr_events(id, attrs.drop_last()) + if is_event_attr(attrs.last().0@) {
            seq![(spec_event(spec_event_index(attrs.last().0@)->Some_0).2, id)]
        } else {
            seq![]
        }
    }
}

/// The listeners for the event attributes in the tree of `e`: those of a tag
/// before those of its children, block branches in order.
pub open spec fn element_events(e: Element) -> Seq<(Seq<char>, u32)>
    decreases e,
{
    match e.content {
        ContentType::Tag(tag, ch) => attr_events(e.id, tag.attributes@) + elements_events(ch@),
        ContentType::If(bs, els) => branches_events(bs@) + match els {
            Some(c) => elements_events(c@),
            None => seq![],
        },
        ContentType::Each(_, _, ch) => elements_events(ch@),
        _ => seq![],
    }
}

pub open spec fn elements_events(es: Seq<Element>) -> Seq<(Seq<char>, u32)>
    decreases es,
{
    if es.len() == 0 {
        seq![]
    } else {
        elements_events(es.drop_last()) + element_events(es.last())
    }
}

pub open spec fn branches_events(bs: Seq<IfBranch>) -> Seq<(Seq<char>, u32)>
    decreases bs,
{
    if bs.len() == 0 {
        seq![]
    } else {
        branches_events(bs.drop_last()) + elements_events(bs.last().contents@)
    }
}

/// Appends the handlers of `more` to `out`.
fn append_handlers(out: &mut Vec<EventHandler>, more: Vec<EventHandler>)
    ensures
        final(out)@.map_values(|h: EventHandler| handler_view(h)) == old(out)@.map_values(
            |h: EventHandler| handler_view(h),
        ) + more@.map_values(|h: EventHandler| handler_view(h)),
{
    let ghost start = out@;
    let mut rest = more;
    let ghost all = rest@;
    let mut k: usize = 0;
    let total = rest.len();
    while rest.len() > 0
        invariant
            all.len() == total,
            k + rest@.len() == all.len(),
            rest@ == all.skip(k as int),
            out@ == start + all.take(k as int),
        decreases rest@.len(),
    {
        let h = rest.remove(0);
        assert(h == all[k as int]);
        out.push(h);
        assert(rest@ =~= all.skip(k + 1));
        assert(out@ =~= start + all.take(k + 1));
        k = k + 1;
    }
    assert(all.take(k as int) =~= all);
    assert((start + all).map_values(|h: EventHandler| handler_view(h)) =~= start.map_values(
        |h: EventHandler| handler_view(h),
    ) + all.map_values(|h: EventHandler| handler_view(h)));
}

/// The listeners of the elements `es`, in order.
fn elements_get_events(es: &Vec<Element>) -> (r: Vec<EventHandler>)
    ensures
        r@.map_values(|h: EventHandler| handler_view(h)) == elements_events(es@),
    decreases es@,
{
    let mut out: Vec<EventHandler> = Vec::new();
    let mut i: usize = 0;
    assert(out@.map_values(|h: EventHandler| handler_view(h)) =~= elements_events(es@.take(0)));
    while i < es.len()
        invariant
            i <= es@.len(),
            out@.map_values(|h: EventHandler| handler_view(h)) == elements_events(es@.take(i as int)),
        decreases es@.len() - i,
    {
        proof {
            assert(decreases_to!(es@ => es@[i as int]));
        }
        let sub = es[i].get_events();
        append_handlers(&mut out, sub);
        assert(es@.take(i + 1).drop_last() =~= es@.take(i as int));
        i = i + 1;
    }
    assert(es@.take(i as int) =~= es@);
    out
}

impl Element {
    /// The event listeners that the template rooted here needs: one for each
    /// event attribute (`onclick`, ...), with its JavaScript event name and
    /// the number of its element; see `element_events`.
    pub fn get_events(&self) -> (r: Vec<EventHandler>)
        ensures
            r@.map_values(|h: EventHandler| handler_view(h)) == element_events(*self),
        decreases *self,
    {
        let mut out: Vec<EventHandler> = Vec::new();
        match &self.content {
            ContentType::Tag(tag, children) => {
                let mut i: usize = 0;
                assert(out@.map_values(|h: EventHandler| handler_view(h)) =~= attr_events(self.id, tag.attributes@.take(0)));
                while i < tag.attributes.len()
                    invariant
                        i <= tag.attributes@.len(),
                        out@.map_values(|h: EventHandler| handler_view(h)) == attr_events(
                            self.id,
                            tag.attributes@.take(i as int),
                        ),
                    decreases tag.attributes@.len() - i,
                {
                    let ghost before = out@;
                    match get_js_event_str(tag.attributes[i].0.as_str()) {
                        Some(js) => {
                            out.push(EventHandler { js_event_type: js, target_id: self.id });
                            assert(out@.map_values(|h: EventHandler| handler_view(h)) =~= before.map_values(
                                |h: EventHandler| handler_view(h),
                            ).push(handler_view(out@.last())));
                        },
                        None => {},
                    }
                    assert(tag.attributes@.take(i + 1).drop_last() =~= tag.attributes@.take(i as int));
                    i = i + 1;
                }
                assert(tag.attributes@.take(i as int) =~= tag.attributes@);
                proof {
                    assert(decreases_to!(*self => self.content));
                    assert(decreases_to!(self.content => self.content->Tag_1));
                }
                let sub = elements_get_events(children);
                append_handlers(&mut out, sub);
            },
            ContentType::If(branches, else_branch) => {
                let mut i: usize = 0;
                assert(out@.map_values(|h: EventHandler| handler_view(h)) =~= branches_events(branches@.take(0)));
                while i < branches.len()
                    invariant
                        i <= branches@.len(),
                        self.content == ContentType::If(*branches, *else_branch),
                        out@.map_values(|h: EventHandler| handler_view(h)) == branches_events(
                            branches@.take(i as int),
                        ),
                    decreases branches@.len() - i,
                {
                    proof {
                        assert(decreases_to!(*self => self.content));
                        assert(decreases_to!(self.content => self.content->If_0));
                        assert(decreases_to!(self.content->If_0 => self.content->If_0@));
                        assert(decreases_to!(self.content->If_0@ => self.content->If_0@[i as int]));
                        assert(decreases_to!(self.content->If_0@[i as int] => self.content->If_0@[i as int].contents));
                    }
                    let sub = elements_get_events(&branches[i].contents);
                    append_handlers(&mut out, sub);
                    assert(branches@.take(i + 1).drop_last() =~= branches@.take(i as int));
                    i = i + 1;
                }
                assert(branches@.take(i as int) =~= branches@);
                match else_branch {
                    Some(els) => {
                        proof {
                            assert(decreases_to!(*self => self.content));
                            assert(decreases_to!(self.content => self.content->If_1));
                            assert(decreases_to!(self.content->If_1 => self.content->If_1->Some_0));
                        }
                        let sub = elements_get_events(els);
                        append_handlers(&mut out, sub);
                    },
                    None => {
                        assert(out@.map_values(|h: EventHandler| handler_view(h)) =~= branches_events(branches@) + Seq::<(Seq<char>, u32)>::empty());
                    },
                }
            },
            ContentType::Each(_, _, children) => {
                proof {
                    assert(decreases_to!(*self => self.content));
                    assert(decreases_to!(self.content => self.content->Each_2));
                }
                let sub = elements_get_events(children);
                append_handlers(&mut out, sub);
                assert(out@.map_values(|h: EventHandler| handler_view(h)) =~= elements_events(children@));
            },
            _ => {
                assert(out@.map_values(|h: EventHandler| handler_view(h)) =~= Seq::<(Seq<char>, u32)>::empty());
            },
        }
        out
    }
}


// ---------------------------------------------------------------------------
// What the startup code covers.

/// `needle` occurs in `hay`.
pub open spec fn text_contains(hay: Seq<char>, needle: Seq<char>) -> bool {
    exists|a: int| 0 <= a && a + needle.len() <= hay.len() && #[trigger] hay.subrange(a, a + needle.len()) == needle
}

/// The element reached from `e` by following the child indices `path`
/// through tags.
pub open spec fn tag_descendant(e: Element, path: Seq<int>) -> Option<Element>
    decreases path.len(),
{
    if path.len() == 0 {
        Some(e)
    } else {
        match e.content {
            ContentType::Tag(_, ch) => if 0 <= path[0] < ch@.len() {
                tag_descendant(ch@[path[0]], path.drop_first())
            } else {
                None
            },
            _ => None,
        }
    }
}

/// The element reached from `e` by following `path` through the tree: for a
/// tag or an `{#each}` block the second index picks a child; for an `{#if}`
/// block the first picks a branch (or, one past the last, the `{:else}`) and
/// the second an element of it.
pub open spec fn tree_descendant(e: Element, path: Seq<(int, int)>) -> Option<Element>
    decreases path.len(),
{
    if path.len() == 0 {
        Some(e)
    } else {
        let (b, k) = path[0];
        match e.content {
            ContentType::Tag(_, ch) => if 0 <= k < ch@.len() {
                tree_descendant(ch@[k], path.drop_first())
            } else {
                None
            },
            ContentType::Each(_, _, ch) => if 0 <= k < ch@.len() {
                tree_descendant(ch@[k], path.drop_first())
            } else {
                None
            },
            ContentType::If(bs, els) => if 0 <= b < bs@.len() {
                if 0 <= k < bs@[b].contents@.len() {
                    tree_descendant(bs@[b].contents@[k], path.drop_first())
                } else {
                    None
                }
            } else if b == bs@.len() && els is Some && 0 <= k < els->Some_0@.len() {
                tree_descendant(els->Some_0@[k], path.drop_first())
            } else {
                None
            },
            _ => None,
        }
    }
}

proof fn lemma_text_contains_extend(a: Seq<char>, b: Seq<char>, c: Seq<char>, n: Seq<char>)
    requires
        text_contains(b, n),
    ensures
        text_contains(a + b + c, n),
{
    let w = choose|w: int| 0 <= w && w + n.len() <= b.len() && #[trigger] b.subrange(w, w + n.len()) == n;
    let h = a + b + c;
    assert(h.subrange(a.len() + w, a.len() + w + n.len()) =~= b.subrange(w, w + n.len()));
}

proof fn lemma_text_contains_trans(a: Seq<char>, b: Seq<char>, n: Seq<char>)
    requires
        text_contains(a, b),
        text_contains(b, n),
    ensures
        text_contains(a, n),
{
    let w = choose|w: int| 0 <= w && w + b.len() <= a.len() && #[trigger] a.subrange(w, w + b.len()) == b;
    let v = choose|v: int| 0 <= v && v + n.len() <= b.len() && #[trigger] b.subrange(v, v + n.len()) == n;
    assert(a.subrange(w + v, w + v + n.len()) =~= b.subrange(v, v + n.len()));
}

proof fn lemma_text_contains_self(a: Seq<char>)
    ensures
        text_contains(a, a),
{
    let z: int = 0;
    assert(a.subrange(z, z + a.len()) =~= a);
    assert(0 <= z && z + a.len() <= a.len() && a.subrange(z, z + a.len()) == a);
}

proof fn lemma_attr_lines_hold(id: u32, attrs: Seq<(String, AttrType)>, i: int)
    requires
        0 <= i < attrs.len(),
        attrs[i].1 is Str,
    ensures
        text_contains(attr_lines(id, attrs), set_attribute_line(id, attrs[i].0@, attrs[i].1->Str_0@)),
    decreases attrs.len(),
{
    let line = set_attribute_line(id, attrs[i].0@, attrs[i].1->Str_0@);
    let rest = attr_lines(id, attrs.drop_last());
    if i == attrs.len() - 1 {
        lemma_text_contains_self(line);
        lemma_text_contains_extend(rest, line, seq![], line);
        assert(rest + line + seq![] =~= attr_lines(id, attrs));
    } else {
        assert(attrs.drop_last()[i] == attrs[i]);
        lemma_attr_lines_hold(id, attrs.drop_last(), i);
        let tail = match attrs.last().1 {
            AttrType::Str(s) => set_attribute_line(id, attrs.last().0@, s@),
            _ => seq![],
        };
        lemma_text_contains_extend(seq![], rest, tail, line);
        assert(seq![] + rest + tail =~= attr_lines(id, attrs));
    }
}

proof fn lemma_children_hold(parent: u32, cs: Seq<Element>, k: int)
    requires
        0 <= k < cs.len(),
        cs[k].content is Tag,
    ensures
        text_contains(children_js(parent, cs), node_map_js(cs[k])),
    decreases cs.len(),
{
    let rest = children_js(parent, cs.drop_last());
    let tail = match cs.last().content {
        ContentType::Tag(_, _) => node_map_js(cs.last()) + append_line(parent, cs.last().id),
        ContentType::Text(t) => text_line(parent, t@),
        _ => seq![],
    };
    assert(children_js(parent, cs) == rest + tail);
    if k == cs.len() - 1 {
        lemma_text_contains_self(node_map_js(cs[k]));
        lemma_text_contains_extend(rest, node_map_js(cs[k]), append_line(parent, cs[k].id), node_map_js(cs[k]));
        assert(rest + node_map_js(cs[k]) + append_line(parent, cs[k].id) =~= rest + tail);
    } else {
        assert(cs.drop_last()[k] == cs[k]);
        lemma_children_hold(parent, cs.drop_last(), k);
        lemma_text_contains_extend(seq![], rest, tail, node_map_js(cs[k]));
        assert(seq![] + rest + tail =~= rest + tail);
    }
}

/// The node map sets every string attribute of every tag it builds: for each
/// tag reached through tags from the root, whatever its number or depth, and
/// each of its attributes `name="value"`, the code holds
/// `nodeMap[id].setAttribute('name', `value`);`.
pub proof fn lemma_node_map_sets_every_string_attribute(e: Element, path: Seq<int>, i: int)
    requires
        tag_descendant(e, path) matches Some(sub) && sub.content matches ContentType::Tag(tag, _)
            && 0 <= i < tag.attributes@.len() && tag.attributes@[i].1 is Str,
    ensures
        ({
            let sub = tag_descendant(e, path)->Some_0;
            let a = sub.content->Tag_0.attributes@[i];
            text_contains(
                node_map_js(e),
                "nodeMap["@ + spec_digits(sub.id as nat, 10) + "].setAttribute('"@ + a.0@ + "', `"@
                    + a.1->Str_0@ + "`);\n"@,
            )
        }),
    decreases path.len(),
{
    if path.len() == 0 {
        match e.content {
            ContentType::Tag(tag, ch) => {
                lemma_attr_lines_hold(e.id, tag.attributes@, i);
                lemma_text_contains_extend(
                    create_line(e.id, tag.name@),
                    attr_lines(e.id, tag.attributes@),
                    children_js(e.id, ch@),
                    set_attribute_line(e.id, tag.attributes@[i].0@, tag.attributes@[i].1->Str_0@),
                );
            },
            _ => {},
        }
    } else {
        match e.content {
            ContentType::Tag(tag, ch) => {
                let child = ch@[path[0]];
                let rest = path.drop_first();
                lemma_node_map_sets_every_string_attribute(child, rest, i);
                assert(child.content is Tag) by {
                    if rest.len() > 0 {
                        assert(tag_descendant(child, rest) is Some);
                    }
                }
                lemma_children_hold(e.id, ch@, path[0]);
                lemma_text_contains_extend(
                    create_line(e.id, tag.name@) + attr_lines(e.id, tag.attributes@),
                    children_js(e.id, ch@),
                    seq![],
                    node_map_js(child),
                );
                assert(create_line(e.id, tag.name@) + attr_lines(e.id, tag.attributes@) + children_js(e.id, ch@)
                    + seq![] =~= node_map_js(e));
                let sub = tag_descendant(e, path)->Some_0;
                let a = sub.content->Tag_0.attributes@[i];
                lemma_text_contains_trans(
                    node_map_js(e),
                    node_map_js(child),
                    "nodeMap["@ + spec_digits(sub.id as nat, 10) + "].setAttribute('"@ + a.0@ + "', `"@
                        + a.1->Str_0@ + "`);\n"@,
                );
            },
            _ => {},
        }
    }
}

proof fn lemma_concat_has<T>(a: Seq<T>, b: Seq<T>, x: T)
    requires
        a.contains(x) || b.contains(x),
    ensures
        (a + b).contains(x),
{
    if a.contains(x) {
        let j = choose|j: int| 0 <= j < a.len() && a[j] == x;
        assert((a + b)[j] == x);
    } else {
        let j = choose|j: int| 0 <= j < b.len() && b[j] == x;
        assert((a + b)[a.len() + j] == x);
    }
}

proof fn lemma_attr_events_hold(id: u32, attrs: Seq<(String, AttrType)>, i: int)
    requires
        0 <= i < attrs.len(),
        is_event_attr(attrs[i].0@),
    ensures
        attr_events(id, attrs).contains((spec_event(spec_event_index(attrs[i].0@)->Some_0).2, id)),
    decreases attrs.len(),
{
    let x = (spec_event(spec_event_index(attrs[i].0@)->Some_0).2, id);
    let rest = attr_events(id, attrs.drop_last());
    let tail = if is_event_attr(attrs.last().0@) {
        seq![(spec_event(spec_event_index(attrs.last().0@)->Some_0).2, id)]
    } else {
        seq![]
    };
    if i == attrs.len() - 1 {
        assert(tail[0] == x);
        lemma_concat_has(rest, tail, x);
    } else {
        assert(attrs.drop_last()[i] == attrs[i]);
        lemma_attr_events_hold(id, attrs.drop_last(), i);
        lemma_concat_has(rest, tail, x);
    }
}

proof fn lemma_elements_events_hold(es: Seq<Element>, k: int, x: (Seq<char>, u32))
    requires
        0 <= k < es.len(),
        element_events(es[k]).contains(x),
    ensures
        elements_events(es).contains(x),
    decreases es.len(),
{
    if k < es.len() - 1 {
        assert(es.drop_last()[k] == es[k]);
        lemma_elements_events_hold(es.drop_last(), k, x);
    }
    lemma_concat_has(elements_events(es.drop_last()), element_events(es.last()), x);
}

proof fn lemma_branches_events_hold(bs: Seq<IfBranch>, b: int, x: (Seq<char>, u32))
    requires
        0 <= b < bs.len(),
        elements_events(bs[b].contents@).contains(x),
    ensures
        branches_events(bs).contains(x),
    decreases bs.len(),
{
    if b < bs.len() - 1 {
        assert(bs.drop_last()[b] == bs[b]);
        lemma_branches_events_hold(bs.drop_last(), b, x);
    }
    lemma_concat_has(branches_events(bs.drop_last()), elements_events(bs.last().contents@), x);
}

/// Every event attribute of every tag in the template, inside `{#if}` and
/// `{#each}` blocks too, gets a listener: for each tag reached from the root
/// by `path` and each of its attributes `on<event>`, the listeners hold the
/// JavaScript event of that attribute on that tag's number.
pub proof fn lemma_every_event_attribute_is_listened(e: Element, path: Seq<(int, int)>, i: int)
    requires
        tree_descendant(e, path) matches Some(sub) && sub.content matches ContentType::Tag(tag, _)
            && 0 <= i < tag.attributes@.len() && is_event_attr(tag.attributes@[i].0@),
    ensures
        ({
            let sub = tree_descendant(e, path)->Some_0;
            let name = sub.content->Tag_0.attributes@[i].0@;
            element_events(e).contains((spec_event(spec_event_index(name)->Some_0).2, sub.id))
        }),
    decreases path.len(),
{
    let sub = tree_descendant(e, path)->Some_0;
    let name = sub.content->Tag_0.attributes@[i].0@;
    let x = (spec_event(spec_event_index(name)->Some_0).2, sub.id);
    if path.len() == 0 {
        match e.content {
            ContentType::Tag(tag, ch) => {
                lemma_attr_events_hold(e.id, tag.attributes@, i);
                lemma_concat_has(attr_events(e.id, tag.attributes@), elements_events(ch@), x);
            },
            _ => {},
        }
    } else {
        let (b, k) = path[0];
        let rest = path.drop_first();
        match e.content {
            ContentType::Tag(tag, ch) => {
                lemma_every_event_attribute_is_listened(ch@[k], rest, i);
                lemma_elements_events_hold(ch@, k, x);
                lemma_concat_has(attr_events(e.id, tag.attributes@), elements_events(ch@), x);
            },
            ContentType::Each(_, _, ch) => {
                lemma_every_event_attribute_is_listened(ch@[k], rest, i);
                lemma_elements_events_hold(ch@, k, x);
            },
            ContentType::If(bs, els) => {
                let tail = match els {
                    Some(c) => elements_events(c@),
                    None => seq![],
                };
                if 0 <= b < bs@.len() {
                    lemma_every_event_attribute_is_listened(bs@[b].contents@[k], rest, i);
                    lemma_elements_events_hold(bs@[b].contents@, k, x);
                    lemma_branches_events_hold(bs@, b, x);
                    lemma_concat_has(branches_events(bs@), tail, x);
                } else {
                    let c = els->Some_0;
                    lemma_every_event_attribute_is_listened(c@[k], rest, i);
                    lemma_elements_events_hold(c@, k, x);
                    lemma_concat_has(branches_events(bs@), tail, x);
                }
            },
            _ => {},
        }
    }
}


proof fn lemma_children_append_hold(parent: u32, cs: Seq<Element>, k: int)
    requires
        0 <= k < cs.len(),
    ensures
        cs[k].content is Tag ==> text_contains(children_js(parent, cs), append_line(parent, cs[k].id)),
        cs[k].content matches ContentType::Text(t) ==> text_contains(children_js(parent, cs), text_line(parent, t@)),
    decreases cs.len(),
{
    let rest = children_js(parent, cs.drop_last());
    let tail = match cs.last().content {
        ContentType::Tag(_, _) => node_map_js(cs.last()) + append_line(parent, cs.last().id),
        ContentType::Text(t) => text_line(parent, t@),
        _ => seq![],
    };
    assert(children_js(parent, cs) == rest + tail);
    if k == cs.len() - 1 {
        match cs[k].content {
            ContentType::Tag(_, _) => {
                let l = append_line(parent, cs[k].id);
                lemma_text_contains_self(l);
                lemma_text_contains_extend(rest + node_map_js(cs[k]), l, seq![], l);
                assert(rest + node_map_js(cs[k]) + l + seq![] =~= rest + tail);
            },
            ContentType::Text(t) => {
                let l = text_line(parent, t@);
                lemma_text_contains_self(l);
                lemma_text_contains_extend(rest, l, seq![], l);
                assert(rest + l + seq![] =~= rest + tail);
            },
            _ => {},
        }
    } else {
        assert(cs.drop_last()[k] == cs[k]);
        lemma_children_append_hold(parent, cs.drop_last(), k);
        match cs[k].content {
            ContentType::Tag(_, _) => {
                lemma_text_contains_extend(seq![], rest, tail, append_line(parent, cs[k].id));
            },
            ContentType::Text(t) => {
                lemma_text_contains_extend(seq![], rest, tail, text_line(parent, t@));
            },
            _ => {},
        }
        assert(seq![] + rest + tail =~= rest + tail);
    }
}

/// The node map builds every tag reached through tags from the root, and
/// puts it in place: the code holds `nodeMap[id] =
/// document.createElement('name');` for the tag, and for each of its children
/// `nodeMap[id].appendChild(nodeMap[child]);` where the child is a tag, or
/// ``nodeMap[id].textContent = `text`;`` where it is text.
pub proof fn lemma_node_map_builds_every_tag(e: Element, path: Seq<int>, k: int)
    requires
        tag_descendant(e, path) matches Some(sub) && sub.content is Tag,
    ensures
        ({
            let sub = tag_descendant(e, path)->Some_0;
            let id = spec_digits(sub.id as nat, 10);
            let tag = sub.content->Tag_0;
            let ch = sub.content->Tag_1@;
            &&& text_contains(node_map_js(e), "nodeMap["@ + id + "] = document.createElement('"@ + tag.name@ + "');\n"@)
            &&& (0 <= k < ch.len() && ch[k].content is Tag) ==> text_contains(
                node_map_js(e),
                "nodeMap["@ + id + "].appendChild(nodeMap["@ + spec_digits(ch[k].id as nat, 10) + "]);\n"@,
            )
            &&& (0 <= k < ch.len() && ch[k].content is Text) ==> text_contains(
                node_map_js(e),
                "nodeMap["@ + id + "].textContent = `"@ + ch[k].content->Text_0@ + "`;\n"@,
            )
        }),
    decreases path.len(),
{
    let sub = tag_descendant(e, path)->Some_0;
    let tag = sub.content->Tag_0;
    let ch = sub.content->Tag_1@;
    let cl = create_line(sub.id, tag.name@);
    let whole = cl + attr_lines(sub.id, tag.attributes@) + children_js(sub.id, ch);
    // What holds of the code of `sub` itself.
    assert(node_map_js(sub) == whole);
    lemma_text_contains_self(cl);
    lemma_text_contains_extend(seq![], cl, attr_lines(sub.id, tag.attributes@) + children_js(sub.id, ch), cl);
    assert(seq![] + cl + (attr_lines(sub.id, tag.attributes@) + children_js(sub.id, ch)) =~= whole);
    if 0 <= k < ch.len() {
        lemma_children_append_hold(sub.id, ch, k);
        match ch[k].content {
            ContentType::Tag(_, _) => {
                lemma_text_contains_extend(cl + attr_lines(sub.id, tag.attributes@), children_js(sub.id, ch), seq![], append_line(sub.id, ch[k].id));
                assert(cl + attr_lines(sub.id, tag.attributes@) + children_js(sub.id, ch) + seq![] =~= whole);
            },
            ContentType::Text(t) => {
                lemma_text_contains_extend(cl + attr_lines(sub.id, tag.attributes@), children_js(sub.id, ch), seq![], text_line(sub.id, t@));
                assert(cl + attr_lines(sub.id, tag.attributes@) + children_js(sub.id, ch) + seq![] =~= whole);
            },
            _ => {},
        }
    }
    // From the code of `sub` to the code of the root.
    lemma_node_map_holds_descendant(e, path);
    lemma_text_contains_trans(node_map_js(e), node_map_js(sub), cl);
    if 0 <= k < ch.len() {
        match ch[k].content {
            ContentType::Tag(_, _) => {
                lemma_text_contains_trans(node_map_js(e), node_map_js(sub), append_line(sub.id, ch[k].id));
            },
            ContentType::Text(t) => {
                lemma_text_contains_trans(node_map_js(e), node_map_js(sub), text_line(sub.id, t@));
            },
            _ => {},
        }
    }
}

/// The code of the root holds the code of each tag reached through tags.
proof fn lemma_node_map_holds_descendant(e: Element, path: Seq<int>)
    requires
        tag_descendant(e, path) matches Some(sub) && sub.content is Tag,
    ensures
        text_contains(node_map_js(e), node_map_js(tag_descendant(e, path)->Some_0)),
    decreases path.len(),
{
    if path.len() == 0 {
        lemma_text_contains_self(node_map_js(e));
    } else {
        match e.content {
            ContentType::Tag(tag, ch) => {
                let child = ch@[path[0]];
                let rest = path.drop_first();
                lemma_node_map_holds_descendant(child, rest);
                assert(child.content is Tag) by {
                    if rest.len() > 0 {
                        assert(tag_descendant(child, rest) is Some);
                    }
                }
                lemma_children_hold(e.id, ch@, path[0]);
                lemma_text_contains_extend(
                    create_line(e.id, tag.name@) + attr_lines(e.id, tag.attributes@),
                    children_js(e.id, ch@),
                    seq![],
                    node_map_js(child),
                );
                assert(create_line(e.id, tag.name@) + attr_lines(e.id, tag.attributes@) + children_js(e.id, ch@)
                    + seq![] =~= node_map_js(e));
                lemma_text_contains_trans(node_map_js(e), node_map_js(child), node_map_js(tag_descendant(e, path)->Some_0));
            },
            _ => {},
        }
    }
}


/// The tag reached from `e` by `path` has an event attribute at `i`, whose
/// listener is `x`: its JavaScript event on that tag's number.
pub open spec fn event_source(e: Element, path: Seq<(int, int)>, i: int, x: (Seq<char>, u32)) -> bool {
    tree_descendant(e, path) matches Some(sub) && sub.content matches ContentType::Tag(tag, _) && 0 <= i
        < tag.attributes@.len() && is_event_attr(tag.attributes@[i].0@) && x == (spec_event(
        spec_event_index(tag.attributes@[i].0@)->Some_0,
    ).2, sub.id)
}

proof fn lemma_concat_split<T>(a: Seq<T>, b: Seq<T>, x: T)
    requires
        (a + b).contains(x),
    ensures
        a.contains(x) || b.contains(x),
{
    let j = choose|j: int| 0 <= j < (a + b).len() && (a + b)[j] == x;
    if j < a.len() {
        assert(a[j] == x);
    } else {
        assert(b[j - a.len()] == x);
    }
}

proof fn lemma_attr_events_from(id: u32, attrs: Seq<(String, AttrType)>, x: (Seq<char>, u32))
    requires
        attr_events(id, attrs).contains(x),
    ensures
        exists|i: int|
            0 <= i < attrs.len() && is_event_attr(#[trigger] attrs[i].0@) && x == (spec_event(
                spec_event_index(attrs[i].0@)->Some_0,
            ).2, id),
    decreases attrs.len(),
{
    let rest = attr_events(id, attrs.drop_last());
    let tail = if is_event_attr(attrs.last().0@) {
        seq![(spec_event(spec_event_index(attrs.last().0@)->Some_0).2, id)]
    } else {
        seq![]
    };
    lemma_concat_split(rest, tail, x);
    if rest.contains(x) {
        lemma_attr_events_from(id, attrs.drop_last(), x);
        let i = choose|i: int|
            0 <= i < attrs.drop_last().len() && is_event_attr(#[trigger] attrs.drop_last()[i].0@) && x == (spec_event(
                spec_event_index(attrs.drop_last()[i].0@)->Some_0,
            ).2, id);
        assert(attrs.drop_last()[i] == attrs[i]);
    } else {
        let j = choose|j: int| 0 <= j < tail.len() && tail[j] == x;
        assert(is_event_attr(attrs[attrs.len() - 1].0@));
    }
}

proof fn lemma_elements_events_from(es: Seq<Element>, x: (Seq<char>, u32))
    requires
        elements_events(es).contains(x),
    ensures
        exists|k: int| 0 <= k < es.len() && element_events(#[trigger] es[k]).contains(x),
    decreases es.len(),
{
    lemma_concat_split(elements_events(es.drop_last()), element_events(es.last()), x);
    if elements_events(es.drop_last()).contains(x) {
        lemma_elements_events_from(es.drop_last(), x);
        let k = choose|k: int| 0 <= k < es.drop_last().len() && element_events(#[trigger] es.drop_last()[k]).contains(x);
        assert(es.drop_last()[k] == es[k]);
    } else {
        assert(element_events(es[es.len() - 1]).contains(x));
    }
}

proof fn lemma_branches_events_from(bs: Seq<IfBranch>, x: (Seq<char>, u32))
    requires
        branches_events(bs).contains(x),
    ensures
        exists|b: int| 0 <= b < bs.len() && elements_events((#[trigger] bs[b]).contents@).contains(x),
    decreases bs.len(),
{
    lemma_concat_split(branches_events(bs.drop_last()), elements_events(bs.last().contents@), x);
    if branches_events(bs.drop_last()).contains(x) {
        lemma_branches_events_from(bs.drop_last(), x);
        let b = choose|b: int| 0 <= b < bs.drop_last().len() && elements_events((#[trigger] bs.drop_last()[b]).contents@).contains(x);
        assert(bs.drop_last()[b] == bs[b]);
    } else {
        assert(elements_events(bs[bs.len() - 1].contents@).contains(x));
    }
}

/// A source in a child is a source in its parent, one step further down.
proof fn lemma_source_step(e: Element, b: int, k: int, child: Element, path: Seq<(int, int)>, i: int, x: (Seq<char>, u32))
    requires
        event_source(child, path, i, x),
        tree_descendant(e, seq![(b, k)] + path) == tree_descendant(child, path),
    ensures
        exists|p: Seq<(int, int)>, j: int| event_source(e, p, j, x),
{
    assert(event_source(e, seq![(b, k)] + path, i, x));
}

/// Every listener comes from an event attribute: each listener of the
/// template is the JavaScript event of an `on<event>` attribute of some tag
/// in the tree, on that tag's number.
pub proof fn lemma_every_listener_has_a_source(e: Element, x: (Seq<char>, u32))
    requires
        element_events(e).contains(x),
    ensures
        exists|path: Seq<(int, int)>, i: int| event_source(e, path, i, x),
    decreases e,
{
    match e.content {
        ContentType::Tag(tag, ch) => {
            lemma_concat_split(attr_events(e.id, tag.attributes@), elements_events(ch@), x);
            if attr_events(e.id, tag.attributes@).contains(x) {
                lemma_attr_events_from(e.id, tag.attributes@, x);
                let i = choose|i: int|
                    0 <= i < tag.attributes@.len() && is_event_attr(#[trigger] tag.attributes@[i].0@) && x == (spec_event(
                        spec_event_index(tag.attributes@[i].0@)->Some_0,
                    ).2, e.id);
                assert(event_source(e, seq![], i, x));
            } else {
                lemma_elements_events_from(ch@, x);
                let k = choose|k: int| 0 <= k < ch@.len() && element_events(#[trigger] ch@[k]).contains(x);
                assert(decreases_to!(e => ch@[k])) by {
                    assert(decreases_to!(e => e.content));
                    assert(decreases_to!(e.content => e.content->Tag_1));
                    assert(decreases_to!(e.content->Tag_1 => e.content->Tag_1@));
                }
                lemma_every_listener_has_a_source(ch@[k], x);
                let (p, i) = choose|p: Seq<(int, int)>, i: int| event_source(ch@[k], p, i, x);
                assert((seq![(0int, k)] + p).drop_first() =~= p);
                lemma_source_step(e, 0, k, ch@[k], p, i, x);
            }
        },
        ContentType::Each(_, _, ch) => {
            lemma_elements_events_from(ch@, x);
            let k = choose|k: int| 0 <= k < ch@.len() && element_events(#[trigger] ch@[k]).contains(x);
            assert(decreases_to!(e => ch@[k])) by {
                assert(decreases_to!(e => e.content));
                assert(decreases_to!(e.content => e.content->Each_2));
                assert(decreases_to!(e.content->Each_2 => e.content->Each_2@));
            }
            lemma_every_listener_has_a_source(ch@[k], x);
            let (p, i) = choose|p: Seq<(int, int)>, i: int| event_source(ch@[k], p, i, x);
            assert((seq![(0int, k)] + p).drop_first() =~= p);
            lemma_source_step(e, 0, k, ch@[k], p, i, x);
        },
        ContentType::If(bs, els) => {
            let tail = match els {
                Some(c) => elements_events(c@),
                None => seq![],
            };
            lemma_concat_split(branches_events(bs@), tail, x);
            if branches_events(bs@).contains(x) {
                lemma_branches_events_from(bs@, x);
                let b = choose|b: int| 0 <= b < bs@.len() && elements_events((#[trigger] bs@[b]).contents@).contains(x);
                let cs = bs@[b].contents@;
                lemma_elements_events_from(cs, x);
                let k = choose|k: int| 0 <= k < cs.len() && element_events(#[trigger] cs[k]).contains(x);
                assert(decreases_to!(e => cs[k])) by {
                    assert(decreases_to!(e => e.content));
                    assert(decreases_to!(e.content => e.content->If_0));
                    assert(decreases_to!(e.content->If_0 => e.content->If_0@));
                    assert(decreases_to!(e.content->If_0@ => e.content->If_0@[b]));
                    assert(decreases_to!(e.content->If_0@[b] => e.content->If_0@[b].contents));
                    assert(decreases_to!(e.content->If_0@[b].contents => e.content->If_0@[b].contents@));
                }
                lemma_every_listener_has_a_source(cs[k], x);
                let (p, i) = choose|p: Seq<(int, int)>, i: int| event_source(cs[k], p, i, x);
                assert((seq![(b, k)] + p).drop_first() =~= p);
                lemma_source_step(e, b, k, cs[k], p, i, x);
            } else {
                let c = els->Some_0;
                lemma_elements_events_from(c@, x);
                let k = choose|k: int| 0 <= k < c@.len() && element_events(#[trigger] c@[k]).contains(x);
                assert(decreases_to!(e => c@[k])) by {
                    assert(decreases_to!(e => e.content));
                    assert(decreases_to!(e.content => e.content->If_1));
                    assert(decreases_to!(e.content->If_1 => e.content->If_1->Some_0));
                    assert(decreases_to!(e.content->If_1->Some_0 => e.content->If_1->Some_0@));
                }
                lemma_every_listener_has_a_source(c@[k], x);
                let (p, i) = choose|p: Seq<(int, int)>, i: int| event_source(c@[k], p, i, x);
                assert((seq![(bs@.len() as int, k)] + p).drop_first() =~= p);
                lemma_source_step(e, bs@.len() as int, k, c@[k], p, i, x);
            }
        },
        _ => {},
    }
}

} // verus!
