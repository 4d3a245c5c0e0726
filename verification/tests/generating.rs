use rsvelte::parse::rs_parse::{Prop, StateVar};
use rsvelte::transform::derived::DerivedVar;
use rsvelte::transform::state::state_layout;
use rsvelte::code_gen::{
    gen_event_listeners, gen_node_map_builder, gen_startup_js, sanitize_scope_var_name, EventHandler,
    ScopeData,
};
use rsvelte::{get_static_files, LIB_RS};
use rsvelte::parse::css_parse::{parse_css, style_sheet};
use rsvelte::parse::html_parse::{AttrType, ContentType, Element, IfBranch, Tag};

fn tag(id: u32, name: &str, attributes: Vec<(String, AttrType)>, children: Vec<Element>) -> Element {
    Element {
        id,
        content: ContentType::Tag(
            Tag { name: name.to_string(), attributes, self_closing: false },
            children,
        ),
    }
}

fn page() -> Element {
    tag(
        0,
        "div",
        vec![
            ("class".to_string(), AttrType::Str("box".to_string())),
            ("onclick".to_string(), AttrType::Call("go".to_string())),
        ],
        vec![
            tag(2, "h1", Vec::new(), vec![Element { id: 3, content: ContentType::Text("Hi".to_string()) }]),
            tag(4, "p", Vec::new(), vec![Element { id: 5, content: ContentType::Expr("count".to_string()) }]),
            Element {
                id: 6,
                content: ContentType::If(
                    vec![IfBranch { condition: "a".to_string(), contents: Vec::new() }],
                    None,
                ),
            },
        ],
    )
}

const NODE_MAP: &str = "nodeMap[0] = document.createElement('div');\n\
nodeMap[0].setAttribute('class', `box`);\n\
nodeMap[2] = document.createElement('h1');\n\
nodeMap[2].textContent = `Hi`;\n\
nodeMap[0].appendChild(nodeMap[2]);\n\
nodeMap[4] = document.createElement('p');\n\
nodeMap[0].appendChild(nodeMap[4]);\n";

#[test]
fn node_map_builds_tags_attributes_and_text() {
    assert_eq!(gen_node_map_builder(&page()), NODE_MAP);
}

#[test]
fn node_map_of_text_alone_is_empty() {
    let e = Element { id: 9, content: ContentType::Text("t".to_string()) };
    assert_eq!(gen_node_map_builder(&e), "");
}

#[test]
fn event_listeners_one_per_handler() {
    let events = vec![
        EventHandler { js_event_type: "click".to_string(), target_id: 3 },
        EventHandler { js_event_type: "input".to_string(), target_id: 12 },
    ];
    assert_eq!(
        gen_event_listeners(&events),
        "nodeMap[3].addEventListener('click', (e) => handle_js_event(e, nodeMap, 3));\n\
nodeMap[12].addEventListener('input', (e) => handle_js_event(e, nodeMap, 12));\n"
    );
    assert_eq!(gen_event_listeners(&Vec::new()), "");
}

#[test]
fn startup_module_layout() {
    let events = vec![EventHandler { js_event_type: "click".to_string(), target_id: 0 }];
    let js = gen_startup_js(&page(), &Some("h1.Cab { color: red; }".to_string()), &events);
    let expected = format!(
        "import {{ handle_js_event }} from './patches.js';
            export function buildNodeMap() {{
                let nodeMap = [];
                {}
                document.head.querySelector('style').textContent = `{}`;
                return nodeMap;
            }}
            export function setupEventListeners(nodeMap) {{
                {}
            }}",
        NODE_MAP,
        "h1.Cab { color: red; }",
        "nodeMap[0].addEventListener('click', (e) => handle_js_event(e, nodeMap, 0));\n",
    );
    assert_eq!(js, expected);
    let js = gen_startup_js(&page(), &None, &Vec::new());
    assert!(js.contains("textContent = ``;"));
}

#[test]
fn scope_types_and_patterns_nest() {
    let root = ScopeData::new();
    assert_eq!(root.get_type(), "()");
    assert_eq!(root.get_destructor(), "_");
    let one = root.wrap(sanitize_scope_var_name("item"), "i32".to_string());
    assert_eq!(one.get_type(), "((), i32)");
    assert_eq!(one.get_destructor(), "(_, item_scope)");
    let two = one.wrap(sanitize_scope_var_name("row"), "Vec<String>".to_string());
    assert_eq!(two.get_type(), "(((), i32), Vec<String>)");
    assert_eq!(two.get_destructor(), "((_, item_scope), row_scope)");
    assert!(two.has_name("item_scope"));
    assert!(two.has_name("row_scope"));
    assert!(!two.has_name("item"));
    assert!(!one.has_name("row_scope"));
}

#[test]
fn static_files_are_kept_as_given() {
    let files = get_static_files("patches", "<html>", "[package]");
    assert_eq!(files.lib_rs, LIB_RS);
    assert!(files.lib_rs.starts_with("use std::sync::atomic::AtomicU32;"));
    assert!(files.lib_rs.contains("pub fn handle_event(e: web_sys::Event, target: u32) -> JsValue {"));
    assert_eq!(get_static_files("a", "b", "c").lib_rs, get_static_files("x", "y", "z").lib_rs);
    assert_eq!(files.patches_js, "patches");
    assert_eq!(files.index_html, "<html>");
    assert_eq!(files.cargo_toml, "[package]");
}

#[test]
fn events_of_a_template() {
    let tree = tag(
        0,
        "div",
        vec![("onclick".to_string(), AttrType::Call("go".to_string()))],
        vec![
            tag(
                1,
                "input",
                vec![
                    ("value".to_string(), AttrType::Str("x".to_string())),
                    ("oninput".to_string(), AttrType::Call("typed".to_string())),
                    ("onblur".to_string(), AttrType::Call("left".to_string())),
                ],
                Vec::new(),
            ),
            Element {
                id: 2,
                content: ContentType::If(
                    vec![IfBranch {
                        condition: "a".to_string(),
                        contents: vec![tag(3, "button", vec![("onclick".to_string(), AttrType::Call("f".to_string()))], Vec::new())],
                    }],
                    None,
                ),
            },
        ],
    );
    let events: Vec<(String, u32)> =
        tree.get_events().into_iter().map(|h| (h.js_event_type, h.target_id)).collect();
    assert_eq!(
        events,
        vec![
            ("click".to_string(), 0),
            ("input".to_string(), 1),
            ("blur".to_string(), 1),
            ("click".to_string(), 3),
        ]
    );
    let plain = tag(5, "p", vec![("title".to_string(), AttrType::Str("t".to_string()))], Vec::new());
    assert!(plain.get_events().is_empty());
}

#[test]
fn style_sheet_text() {
    let rules = parse_css("h1 {\ncolor: red;\nmargin: 0;\n}\np {\n}\n");
    assert_eq!(style_sheet(&rules), "h1 {\n  color: red;\n  margin: 0;\n}\np {\n}\n");
    assert_eq!(style_sheet(&Vec::new()), "");
}

#[test]
fn state_struct_layout() {
    let props = vec![Prop { name: "title".to_string(), ty: "String".to_string(), default: None, flag_pos: 0 }];
    let bindable = vec![Prop { name: "value".to_string(), ty: "i32".to_string(), default: Some("3".to_string()), flag_pos: 1 }];
    let state = vec![StateVar { name: "counter".to_string(), ty: "i32".to_string(), default: "0".to_string(), flag_pos: 2 }];
    let derived = vec![StateVar { name: "double".to_string(), ty: "i32".to_string(), default: "counter * 2".to_string(), flag_pos: 3 }];
    let order = vec![DerivedVar {
        data: StateVar { name: "double".to_string(), ty: "i32".to_string(), default: "*state.counter * 2".to_string(), flag_pos: 3 },
        dependents: vec!["counter".to_string()],
        update_mask: 4,
    }];
    let l = state_layout(&props, &bindable, &state, &derived, &order);
    let pairs = |v: &Vec<(String, String)>| v.iter().map(|(a, b)| format!("{}: {}", a, b)).collect::<Vec<String>>();
    assert_eq!(
        pairs(&l.fields),
        vec!["title: String", "value: i32", "counter: crate::MutateTracker<i32>", "double: i32"]
    );
    assert_eq!(
        pairs(&l.inits),
        vec!["title: Default::default()", "value: 3", "counter: crate::MutateTracker::new(0, 2u32)", "double: counter * 2"]
    );
    assert_eq!(l.updates.len(), 1);
    assert_eq!(l.updates[0].name, "double");
    assert_eq!(l.updates[0].value, "*state.counter * 2");
    assert_eq!(l.updates[0].update_mask, 4);
    assert_eq!(l.updates[0].var_mask, 8);
}
