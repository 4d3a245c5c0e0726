use rsvelte::events::{get_event_str_type_from_attr_name, get_js_event_str, is_websys_event_type};
use rsvelte::parse::gen_vars::{infer_type_from_expr, parse_var, shape_of_text, ExprShape, ScriptVar};
use rsvelte::parse::html_parse::{AttrType, ContentType, Element, IfBranch, Tag};
use rsvelte::parse::rs_parse::{AttrClosure, Prop, StateVar};
use rsvelte::transform::attr::transform_attr;
use rsvelte::parse::ComponentImport;
use rsvelte::transform::handlers::get_node_handlers;
use rsvelte::transform::derived::{build_derived_order, flags_read, is_acyclic, rename_ident, DerivedVar, ReactiveVar};
use rsvelte::transform::func::{handler_call, has_handler, validate_event_handler_args, CallArg, HandlerArg, HandlerCall};
use rsvelte::transform::infer::{
    get_type_text, try_each_expr_to_vec_and_item_type, try_infer_each_expr_type, EachShape, ScalarShape,
    TypeRepr,
};
use rsvelte::transform::node::{
    add_css_scope_to_class_attr, component_refs, find_all_fragments, get_content_accessor,
    num_to_letter, ComponentRef, EachVar, Node, NodeType, TagAttribute,
};
use rsvelte::utils::CompileError;

fn text(id: u32, t: &str) -> Element {
    Element { id, content: ContentType::Text(t.to_string()) }
}

fn expr(id: u32, x: &str) -> Element {
    Element { id, content: ContentType::Expr(x.to_string()) }
}

fn tag(id: u32, name: &str, attributes: Vec<(String, AttrType)>, children: Vec<Element>) -> Element {
    Element {
        id,
        content: ContentType::Tag(
            Tag { name: name.to_string(), attributes, self_closing: false },
            children,
        ),
    }
}

fn attr(name: &str, value: AttrType) -> TagAttribute {
    TagAttribute { name: name.to_string(), value, flag_mask: None }
}

fn copy_attr(a: &AttrType) -> AttrType {
    match a {
        AttrType::Str(s) => AttrType::Str(s.clone()),
        AttrType::Call(s) => AttrType::Call(s.clone()),
        AttrType::Expr(s) => AttrType::Expr(s.clone()),
        AttrType::Bind(s) => AttrType::Bind(s.clone()),
        AttrType::Closure(_) => panic!("closures are not used here"),
    }
}

fn prop(name: &str, flag_pos: u8) -> Prop {
    Prop { name: name.to_string(), ty: "i32".to_string(), default: None, flag_pos }
}

fn derived(name: &str, deps: &[&str]) -> DerivedVar {
    DerivedVar::from_state_var(
        StateVar { name: name.to_string(), ty: "i32".to_string(), default: "0".to_string(), flag_pos: 0 },
        "0".to_string(),
        deps.iter().map(|d| d.to_string()).collect(),
        &Vec::new(),
        &Vec::new(),
    )
}

#[test]
fn field_names_are_bijective_base_26() {
    assert_eq!(num_to_letter(0), "a");
    assert_eq!(num_to_letter(1), "b");
    assert_eq!(num_to_letter(25), "z");
    assert_eq!(num_to_letter(26), "aa");
    assert_eq!(num_to_letter(27), "ab");
    assert_eq!(num_to_letter(701), "zz");
    assert_eq!(num_to_letter(702), "aaa");
    let names: Vec<String> = (0..2000).map(num_to_letter).collect();
    let mut sorted = names.clone();
    sorted.sort();
    sorted.dedup();
    assert_eq!(sorted.len(), names.len());
}

#[test]
fn css_scope_is_appended_to_class_values() {
    let attrs = vec![
        attr("id", AttrType::Str("main".to_string())),
        attr("class", AttrType::Str("box big".to_string())),
    ];
    let out = add_css_scope_to_class_attr(attrs, &"1a2b".to_string());
    assert_eq!(out.len(), 2);
    assert!(matches!(&out[0].value, AttrType::Str(s) if s == "main"));
    assert_eq!(out[1].name, "class");
    assert!(matches!(&out[1].value, AttrType::Str(s) if s == "box big C1a2b"));

    let attrs = vec![attr("class", AttrType::Expr("cls".to_string()))];
    let out = add_css_scope_to_class_attr(attrs, &"9".to_string());
    assert_eq!(out.len(), 1);
    assert!(matches!(&out[0].value, AttrType::Expr(s) if s == "format!(\"{} {}\", cls, \"C9\")"));
}

#[test]
fn css_scope_class_is_added_where_missing() {
    let attrs = vec![attr("id", AttrType::Str("x".to_string()))];
    let out = add_css_scope_to_class_attr(attrs, &"ab".to_string());
    assert_eq!(out.len(), 2);
    assert_eq!(out[1].name, "class");
    assert!(matches!(&out[1].value, AttrType::Str(s) if s == "Cab"));
    assert_eq!(out[1].flag_mask, None);
    let out = add_css_scope_to_class_attr(Vec::new(), &"ab".to_string());
    assert_eq!(out.len(), 1);
}

#[test]
fn event_handler_signatures() {
    let mut_self = || HandlerArg::Receiver { reference: true, mutable: true };
    assert!(validate_event_handler_args(&vec![mut_self()]));
    assert!(validate_event_handler_args(&vec![
        mut_self(),
        HandlerArg::Typed(Some("web_sys::MouseEvent".to_string())),
    ]));
    assert!(!validate_event_handler_args(&vec![
        mut_self(),
        HandlerArg::Typed(Some("i32".to_string())),
    ]));
    assert!(!validate_event_handler_args(&vec![mut_self(), HandlerArg::Typed(None)]));
    assert!(!validate_event_handler_args(&vec![HandlerArg::Receiver { reference: true, mutable: false }]));
    assert!(!validate_event_handler_args(&vec![HandlerArg::Receiver { reference: false, mutable: true }]));
    assert!(!validate_event_handler_args(&Vec::new()));
    assert!(!validate_event_handler_args(&vec![
        mut_self(),
        HandlerArg::Typed(Some("web_sys::MouseEvent".to_string())),
        HandlerArg::Typed(Some("u32".to_string())),
    ]));
    assert!(!validate_event_handler_args(&vec![
        mut_self(),
        HandlerArg::Typed(Some("web_sys::MouseEvent".to_string())),
        HandlerArg::Typed(Some("web_sys::KeyboardEvent".to_string())),
    ]));
    assert!(!validate_event_handler_args(&vec![
        HandlerArg::Typed(Some("web_sys::MouseEvent".to_string())),
        mut_self(),
    ]));
}

fn handler_error(r: Result<Option<HandlerCall>, CompileError>) -> String {
    match r {
        Err(CompileError::GenericError(m)) => m,
        _ => panic!("expected an error"),
    }
}

#[test]
fn event_dispatch_calls_handlers() {
    let mut_self = || HandlerArg::Receiver { reference: true, mutable: true };
    let funcs = vec![
        ("increment".to_string(), vec![mut_self()]),
        ("clicked".to_string(), vec![mut_self(), HandlerArg::Typed(Some("web_sys::MouseEvent".to_string()))]),
        ("twice".to_string(), vec![mut_self(), mut_self()]),
        (
            "two_events".to_string(),
            vec![
                mut_self(),
                HandlerArg::Typed(Some("web_sys::MouseEvent".to_string())),
                HandlerArg::Typed(Some("web_sys::KeyboardEvent".to_string())),
            ],
        ),
        ("counted".to_string(), vec![mut_self(), HandlerArg::Typed(Some("u32".to_string()))]),
    ];
    match handler_call(&AttrType::Call("increment".to_string()), &funcs) {
        Ok(Some(HandlerCall::Func(name, args))) => {
            assert_eq!(name, "increment");
            assert_eq!(args.len(), 1);
            assert!(matches!(args[0], CallArg::StateRef));
        }
        _ => panic!("expected a call"),
    }
    match handler_call(&AttrType::Call("clicked".to_string()), &funcs) {
        Ok(Some(HandlerCall::Func(name, args))) => {
            assert_eq!(name, "clicked");
            assert_eq!(args.len(), 2);
            assert!(matches!(&args[1], CallArg::EventCast(t) if t == "web_sys::MouseEvent"));
        }
        _ => panic!("expected a call"),
    }
    let closure = AttrClosure {
        event_arg: Some(("e".to_string(), "web_sys::InputEvent".to_string())),
        body: "count += 1".to_string(),
    };
    match handler_call(&AttrType::Closure(closure), &funcs) {
        Ok(Some(HandlerCall::Closure(body, args))) => {
            assert_eq!(body, "count += 1");
            assert_eq!(args.len(), 1);
            assert!(matches!(&args[0], CallArg::EventCast(t) if t == "web_sys::InputEvent"));
        }
        _ => panic!("expected a closure call"),
    }
    let closure = AttrClosure { event_arg: None, body: "go()".to_string() };
    assert!(matches!(handler_call(&AttrType::Closure(closure), &funcs), Ok(Some(HandlerCall::Closure(_, a))) if a.is_empty()));
    assert!(matches!(handler_call(&AttrType::Expr("x".to_string()), &funcs), Ok(None)));
    assert!(matches!(handler_call(&AttrType::Str("x".to_string()), &funcs), Ok(None)));
    assert!(has_handler(&funcs, &"clicked".to_string()));
    assert!(!has_handler(&funcs, &"missing".to_string()));
    assert_eq!(
        handler_error(handler_call(&AttrType::Call("twice".to_string()), &funcs)),
        "Multiple self arguments in event handler 'twice'. Event handlers can only have one `&mut self` argument."
    );
    assert_eq!(
        handler_error(handler_call(&AttrType::Call("two_events".to_string()), &funcs)),
        "Multiple event arguments in event handler 'two_events'. Event handlers can only have one event argument of type `&Event` or `&MouseEvent` etc."
    );
    assert_eq!(
        handler_error(handler_call(&AttrType::Call("counted".to_string()), &funcs)),
        "Unsupported argument type in event handler 'counted'. Event handlers must have a `&mut self` argument and optionally a single event argument of type `&Event` or `&MouseEvent` etc."
    );
}

#[test]
fn events_table() {
    assert_eq!(get_event_str_type_from_attr_name("onclick"), "click");
    assert_eq!(get_js_event_str("onkeydown").as_deref(), Some("keydown"));
    assert_eq!(get_js_event_str("ontouchcancel").as_deref(), Some("touchcancel"));
    assert_eq!(get_js_event_str("onclack"), None);
    assert_eq!(get_js_event_str("click"), None);
    assert!(is_websys_event_type("web_sys::InputEvent"));
    assert!(!is_websys_event_type("InputEvent"));
}

#[test]
fn derived_variables_follow_what_they_read() {
    let vars = vec![
        derived("total", &["a_plus", "b"]),
        derived("a_plus", &["a"]),
        derived("doubled", &["total"]),
    ];
    let order: Vec<String> = build_derived_order(vars).into_iter().map(|d| d.data.name).collect();
    assert_eq!(order, vec!["a_plus", "total", "doubled"]);

    let vars = vec![derived("x", &["a"]), derived("y", &[])];
    let order: Vec<String> = build_derived_order(vars).into_iter().map(|d| d.data.name).collect();
    assert_eq!(order, vec!["x", "y"]);
}

#[test]
fn derived_update_mask_joins_the_flags_read() {
    let reactive = vec![
        ReactiveVar { name: "a".to_string(), ty: "i32".to_string(), flag_mask: 1 },
        ReactiveVar { name: "b".to_string(), ty: "i32".to_string(), flag_mask: 4 },
        ReactiveVar { name: "c".to_string(), ty: "i32".to_string(), flag_mask: 8 },
    ];
    let d = DerivedVar::from_state_var(
        StateVar { name: "s".to_string(), ty: "i32".to_string(), default: "a + c".to_string(), flag_pos: 3 },
        "*a + *c".to_string(),
        vec!["a".to_string(), "c".to_string()],
        &Vec::new(),
        &reactive,
    );
    assert_eq!(d.update_mask, 9);
    let state = vec![ReactiveVar { name: "counter".to_string(), ty: "i32".to_string(), flag_mask: 2 }];
    let derived_vars = vec![ReactiveVar { name: "counter_plus_one".to_string(), ty: "i32".to_string(), flag_mask: 4 }];
    let d2 = DerivedVar::from_state_var(
        StateVar { name: "counter_plus_one".to_string(), ty: "i32".to_string(), default: "counter + 1".to_string(), flag_pos: 2 },
        "self.counter + 1".to_string(),
        vec!["counter".to_string()],
        &state,
        &derived_vars,
    );
    assert_eq!(d2.dependents, vec!["counter".to_string()]);
    assert_eq!(d2.update_mask, 2);
    assert_eq!(d.data.default, "*a + *c");
    assert_eq!(d.data.flag_pos, 3);
    let r = ReactiveVar::from_prop(&prop("p", 6));
    assert_eq!(r.flag_mask, 64);
}

#[test]
fn flags_of_what_an_expression_reads() {
    let state = vec![
        ReactiveVar { name: "counter".to_string(), ty: "i32".to_string(), flag_mask: 1 },
        ReactiveVar { name: "name".to_string(), ty: "String".to_string(), flag_mask: 2 },
    ];
    let reactive = vec![ReactiveVar { name: "total".to_string(), ty: "i32".to_string(), flag_mask: 16 }];
    let idents = |xs: &[&str]| xs.iter().map(|x| x.to_string()).collect::<Vec<String>>();
    assert_eq!(flags_read(&idents(&["counter", "x"]), &state, &reactive), 1);
    assert_eq!(flags_read(&idents(&["total", "name"]), &state, &reactive), 18);
    assert_eq!(flags_read(&idents(&["x", "format"]), &state, &reactive), 0);
    assert_eq!(flags_read(&Vec::new(), &state, &reactive), 0);
}

#[test]
fn identifiers_in_expressions_are_renamed() {
    let state = vec![ReactiveVar { name: "counter".to_string(), ty: "i32".to_string(), flag_mask: 1 }];
    let reactive = vec![
        ReactiveVar { name: "total".to_string(), ty: "i32".to_string(), flag_mask: 2 },
        ReactiveVar { name: "counter".to_string(), ty: "i32".to_string(), flag_mask: 4 },
    ];
    let scoped = vec![EachVar { name: "row_scope".to_string(), original_name: "row".to_string(), ty: "u8".to_string() }];
    let r = |x: &str| rename_ident(&x.to_string(), &state, &reactive, &scoped);
    assert_eq!(r("counter").as_deref(), Some("*state.counter"));
    assert_eq!(r("total").as_deref(), Some("state.total"));
    assert_eq!(r("row").as_deref(), Some("row_scope"));
    assert_eq!(r("other"), None);
    let shadow = vec![EachVar { name: "total_scope".to_string(), original_name: "total".to_string(), ty: "u8".to_string() }];
    assert_eq!(rename_ident(&"total".to_string(), &state, &reactive, &shadow).as_deref(), Some("total_scope"));
}

#[test]
fn default_values_imply_types() {
    assert_eq!(infer_type_from_expr(&ExprShape::IntLit(String::new())).as_deref(), Some("i32"));
    assert_eq!(infer_type_from_expr(&ExprShape::IntLit("u8".to_string())).as_deref(), Some("u8"));
    assert_eq!(infer_type_from_expr(&ExprShape::FloatLit(String::new())).as_deref(), Some("f64"));
    assert_eq!(infer_type_from_expr(&ExprShape::StrLit).as_deref(), Some("String"));
    assert_eq!(infer_type_from_expr(&ExprShape::ByteStrLit).as_deref(), Some("Vec<u8>"));
    assert_eq!(infer_type_from_expr(&ExprShape::MethodCall("to_string".to_string())).as_deref(), Some("String"));
    assert_eq!(infer_type_from_expr(&ExprShape::MethodCall("len".to_string())), None);
    assert_eq!(infer_type_from_expr(&ExprShape::Macro(true)).as_deref(), Some("Vec<_>"));
    assert_eq!(infer_type_from_expr(&ExprShape::Macro(false)), None);
    let arr = ExprShape::Array(vec![ExprShape::BoolLit, ExprShape::BoolLit, ExprShape::BoolLit]);
    assert_eq!(infer_type_from_expr(&arr).as_deref(), Some("[bool; 3]"));
    assert_eq!(infer_type_from_expr(&ExprShape::Array(Vec::new())), None);
    let tup = ExprShape::Tuple(vec![ExprShape::CharLit, ExprShape::IntLit("i64".to_string())]);
    assert_eq!(infer_type_from_expr(&tup).as_deref(), Some("(char, i64)"));
    assert_eq!(infer_type_from_expr(&ExprShape::Tuple(vec![ExprShape::Other])), None);
    let r = ExprShape::Reference(true, Box::new(ExprShape::StrLit));
    assert_eq!(infer_type_from_expr(&r).as_deref(), Some("&mut String"));
    assert_eq!(infer_type_from_expr(&ExprShape::Other), None);
}

#[test]
fn state_declarations() {
    let mut pos = 0u8;
    match parse_var("count".to_string(), None, "state", Some(("0".to_string(), ExprShape::IntLit(String::new()))), &mut pos) {
        Ok(ScriptVar::State(v)) => {
            assert_eq!(v.name, "count");
            assert_eq!(v.ty, "i32");
            assert_eq!(v.default, "0");
            assert_eq!(v.flag_pos, 0);
        }
        _ => panic!("expected a state variable"),
    }
    assert_eq!(pos, 1);
    match parse_var(
        "label".to_string(),
        Some("u64".to_string()),
        "prop",
        Some(("name".to_string(), ExprShape::MethodCall("to_string".to_string()))),
        &mut pos,
    ) {
        Ok(ScriptVar::Prop(p)) => {
            assert_eq!(p.ty, "u64");
            assert_eq!(p.default.as_deref(), Some("name"));
            assert_eq!(p.flag_pos, 1);
        }
        _ => panic!("expected a prop"),
    }
    assert_eq!(pos, 2);
    match parse_var("v".to_string(), Some("bool".to_string()), "bindable", None, &mut pos) {
        Ok(ScriptVar::Bindable(p)) => {
            assert_eq!(p.ty, "bool");
            assert!(p.default.is_none());
        }
        _ => panic!("expected a bindable prop"),
    }
    assert_eq!(pos, 3);
}

#[test]
fn written_types_win_over_defaults() {
    let mut pos = 0u8;
    match parse_var("counter".to_string(), Some("usize".to_string()), "state", Some(("0".to_string(), ExprShape::IntLit(String::new()))), &mut pos) {
        Ok(ScriptVar::State(v)) => {
            assert_eq!(v.ty, "usize");
            assert_eq!(v.default, "0");
            assert_eq!(v.flag_pos, 0);
        }
        _ => panic!("expected a state variable"),
    }
    match parse_var("counter_plus_one".to_string(), Some("i32".to_string()), "derived", Some(("counter + 1".to_string(), ExprShape::Other)), &mut pos) {
        Ok(ScriptVar::Derived(v)) => {
            assert_eq!(v.name, "counter_plus_one");
            assert_eq!(v.ty, "i32");
            assert_eq!(v.default, "counter + 1");
            assert_eq!(v.flag_pos, 1);
        }
        _ => panic!("expected a derived variable"),
    }
    match parse_var("title".to_string(), Some("String".to_string()), "prop", Some(("\"x\"".to_string(), ExprShape::StrLit)), &mut pos) {
        Ok(ScriptVar::Prop(p)) => {
            assert_eq!(p.ty, "String");
            assert_eq!(p.default.as_deref(), Some("\"x\".to_string()"));
            assert_eq!(p.flag_pos, 2);
        }
        _ => panic!("expected a prop"),
    }
    assert_eq!(pos, 3);
}

#[test]
fn state_declaration_errors() {
    let mut pos = 7u8;
    let msg = |r: Result<ScriptVar, CompileError>| match r {
        Err(CompileError::GenericError(m)) => m,
        _ => panic!("expected an error"),
    };
    assert_eq!(
        msg(parse_var("x".to_string(), None, "state", Some(("f()".to_string(), ExprShape::Other)), &mut pos)),
        "Could not infer type for reactive state variable; please specify type explicitly"
    );
    assert_eq!(
        msg(parse_var("x".to_string(), None, "prop", None, &mut pos)),
        "Type annotation is required if no default value is provided"
    );
    assert_eq!(
        msg(parse_var("x".to_string(), Some("i32".to_string()), "derived", None, &mut pos)),
        "Default value is required for reactive state variables"
    );
    assert_eq!(
        msg(parse_var("x".to_string(), Some("i32".to_string()), "effect", None, &mut pos)),
        "Expected 'prop' or 'bindable' after '$'"
    );
    assert_eq!(pos, 7);
}

#[test]
fn component_references_by_import_name() {
    let imports = vec![
        ComponentImport { name: "Card".to_string(), path: "/p/Card.rsvelte".to_string() },
        ComponentImport { name: "List".to_string(), path: "/p/List.rsvelte".to_string() },
    ];
    let comps = vec![
        ("/p/List.rsvelte".to_string(), "11".to_string(), None),
        ("/p/Card.rsvelte".to_string(), "22".to_string(), Some(vec![prop("title", 0)])),
    ];
    let refs = component_refs(&imports, comps).ok().expect("references");
    assert_eq!(refs.len(), 2);
    assert_eq!(refs[0].name, "List");
    assert_eq!(refs[0].id_hash, "11");
    assert_eq!(refs[1].name, "Card");
    assert_eq!(refs[1].props.as_ref().map(|p| p.len()), Some(1));

    let comps = vec![("/p/Other.rsvelte".to_string(), "33".to_string(), None)];
    match component_refs(&imports, comps) {
        Err(CompileError::GenericError(m)) => {
            assert_eq!(m, "Component '/p/Other.rsvelte' imported but not found in project")
        }
        _ => panic!("expected an error"),
    }
}

fn sample_tree() -> Element {
    tag(
        0,
        "div",
        Vec::new(),
        vec![
            tag(1, "h1", Vec::new(), vec![text(2, "Hi")]),
            expr(3, "count"),
            Element {
                id: 4,
                content: ContentType::If(
                    vec![IfBranch { condition: "a".to_string(), contents: vec![text(5, "yes")] }],
                    Some(vec![text(6, "no")]),
                ),
            },
            Element {
                id: 7,
                content: ContentType::Each(
                    "items".to_string(),
                    "item".to_string(),
                    vec![tag(8, "li", Vec::new(), vec![expr(9, "item")])],
                ),
            },
            tag(10, "Child", vec![("value".to_string(), AttrType::Expr("count".to_string()))], Vec::new()),
        ],
    )
}

fn transform_tree() -> (Node, usize) {
    let comps = vec![ComponentRef {
        name: "Child".to_string(),
        id_hash: "ff".to_string(),
        props: Some(vec![prop("value", 2)]),
    }];
    let content_expr = |x: &String, scoped: &Vec<EachVar>| (format!("self.{}", x), 1u64 << scoped.len());
    let attrs_of = |t: &Tag, _scoped: &Vec<EachVar>| {
        t.attributes.iter().map(|(n, a)| attr(n, copy_attr(a))).collect::<Vec<TagAttribute>>()
    };
    let each_expr = |x: &String, _scoped: &Vec<EachVar>| (format!("{}.to_vec()", x), "i32".to_string());
    let mut counter = 0usize;
    let node = Node::from_element(
        sample_tree(),
        &mut counter,
        &content_expr,
        &attrs_of,
        &each_expr,
        &comps,
        &"abc".to_string(),
        &Vec::new(),
    );
    (node, counter)
}

#[test]
fn nodes_take_fields_in_order() {
    let (node, counter) = transform_tree();
    assert_eq!(counter, 7);
    assert_eq!(node.id, 0);
    assert_eq!(node.frag_field_idx, 0);
    assert_eq!(node.struct_field, "a");
    let fields = node.get_fields();
    assert_eq!(fields, vec!["a", "b", "c", "d", "e", "f", "g"]);
    let types = node.get_field_types();
    assert_eq!(
        types,
        vec![
            "web_sys::Element",
            "web_sys::Element",
            "web_sys::Text",
            "web_sys::Text",
            "crate::IfElement<CabcIf4>",
            "crate::EachElement<CabcEachFrag7>",
            "crate::Component<Cff>",
        ]
    );
}

#[test]
fn node_contents_are_transformed() {
    let (node, _) = transform_tree();
    let (attrs, kids) = match &node.content {
        NodeType::Tag(name, attrs, kids) => {
            assert_eq!(name, "div");
            (attrs, kids)
        }
        _ => panic!("expected a tag"),
    };
    assert_eq!(attrs.len(), 1);
    assert_eq!(attrs[0].name, "class");
    assert!(matches!(&attrs[0].value, AttrType::Str(s) if s == "Cabc"));
    assert!(matches!(&kids[1].content, NodeType::Expr(x, 1) if x == "self.count"));
    match &kids[2].content {
        NodeType::If(branches, else_branch, enum_name, mask) => {
            assert_eq!(enum_name, "CabcIf4");
            assert_eq!(*mask, 1);
            assert_eq!(branches.len(), 1);
            assert_eq!(branches[0].condition, "self.a");
            assert_eq!(branches[0].name, "CabcIf4Branch0");
            assert_eq!(branches[0].contents[0].frag_field_idx, 0);
            let e = else_branch.as_ref().expect("an else branch");
            assert_eq!(e.name, "CabcIf4ElseBranch");
            assert_eq!(e.contents[0].struct_field, "a");
        }
        _ => panic!("expected an if block"),
    }
    match &kids[3].content {
        NodeType::Each(x, var, contents, frag, mask) => {
            assert_eq!(x, "self.items.to_vec()");
            assert_eq!(*mask, 1);
            assert_eq!(var.name, "item_scope");
            assert_eq!(var.original_name, "item");
            assert_eq!(var.ty, "i32");
            assert_eq!(frag, "CabcEachFrag7");
            assert_eq!(contents[0].frag_field_idx, 0);
            match &contents[0].content {
                NodeType::Tag(_, _, li_kids) => {
                    assert_eq!(li_kids[0].frag_field_idx, 1);
                    assert!(matches!(&li_kids[0].content, NodeType::Expr(x, 2) if x == "self.item"));
                }
                _ => panic!("expected a tag"),
            }
        }
        _ => panic!("expected an each block"),
    }
    match &kids[4].content {
        NodeType::Comp(name, props) => {
            assert_eq!(name, "Cff");
            assert_eq!(props.len(), 1);
            assert_eq!(props[0].0.name, "value");
            assert_eq!(props[0].1, 4);
            assert!(matches!(&props[0].0.value, AttrType::Expr(x) if x == "count"));
        }
        _ => panic!("expected a component"),
    }
}

#[test]
fn fragments_are_the_blocks_under_tags() {
    let (node, _) = transform_tree();
    let nodes = vec![node];
    let frags = find_all_fragments(&nodes);
    assert_eq!(frags.len(), 2);
    assert_eq!(frags[0].id, 4);
    assert_eq!(frags[1].id, 7);
}

#[test]
fn content_accessor() {
    assert_eq!(get_content_accessor(1, 0), "contents");
    assert_eq!(get_content_accessor(3, 2), "contents.2");
    assert_eq!(get_content_accessor(12, 10), "contents.10");
}

#[test]
fn derived_cycles_are_detected() {
    let vars = vec![derived("a", &["b"]), derived("b", &["c"]), derived("c", &["a"])];
    assert!(!is_acyclic(&vars));
    let vars = vec![derived("a", &["a"])];
    assert!(!is_acyclic(&vars));
    let vars = vec![derived("a", &["b"]), derived("b", &["x"]), derived("c", &["a", "b"])];
    assert!(is_acyclic(&vars));
    assert!(is_acyclic(&Vec::new()));
}

#[test]
fn attributes_are_classified() {
    let t = Tag {
        name: "button".to_string(),
        attributes: vec![
            ("title".to_string(), AttrType::Str("t".to_string())),
            ("onclick".to_string(), AttrType::Expr("go".to_string())),
            ("label".to_string(), AttrType::Expr("x + 1".to_string())),
            ("value".to_string(), AttrType::Expr("count".to_string())),
            ("checked".to_string(), AttrType::Bind("count".to_string())),
            ("skip".to_string(), AttrType::Call("f".to_string())),
            (
                "oninput".to_string(),
                AttrType::Closure(AttrClosure { event_arg: None, body: "f()".to_string() }),
            ),
        ],
        self_closing: false,
    };
    let content_expr = |x: &String, _s: &Vec<EachVar>| {
        if x == "count" {
            ("state.count".to_string(), 8u64)
        } else {
            (x.clone(), 0u64)
        }
    };
    let reactive = vec![
        ReactiveVar { name: "other".to_string(), ty: "i32".to_string(), flag_mask: 2 },
        ReactiveVar { name: "count".to_string(), ty: "i32".to_string(), flag_mask: 8 },
    ];
    let funcs = vec!["go".to_string()];
    let out = transform_attr(&t, &content_expr, &reactive, &funcs, &Vec::new());
    assert_eq!(out.len(), 6);
    assert!(matches!(&out[0].value, AttrType::Str(s) if s == "t") && out[0].flag_mask.is_none());
    assert!(matches!(&out[1].value, AttrType::Call(f) if f == "go") && out[1].flag_mask.is_none());
    assert!(matches!(&out[2].value, AttrType::Expr(e) if e == "x + 1") && out[2].flag_mask.is_none());
    assert!(matches!(&out[3].value, AttrType::Expr(e) if e == "state.count"));
    assert_eq!(out[3].flag_mask, Some(8));
    assert!(matches!(&out[4].value, AttrType::Bind(v) if v == "count"));
    assert_eq!(out[4].flag_mask, Some(8));
    assert_eq!(out[5].name, "oninput");
    assert!(matches!(&out[5].value, AttrType::Closure(c) if c.body == "f()" && c.event_arg.is_none()));
}

#[test]
fn handler_calls_in_both_forms() {
    let t = Tag {
        name: "button".to_string(),
        attributes: vec![
            ("onclick".to_string(), AttrType::Expr("increment".to_string())),
            ("onclick".to_string(), AttrType::Expr("increment()".to_string())),
            ("onclick".to_string(), AttrType::Expr("increment(1)".to_string())),
            ("onclick".to_string(), AttrType::Expr("other()".to_string())),
        ],
        self_closing: false,
    };
    let content_expr = |x: &String, _s: &Vec<EachVar>| (x.clone(), 0u64);
    let funcs = vec!["increment".to_string()];
    let out = transform_attr(&t, &content_expr, &Vec::new(), &funcs, &Vec::new());
    assert_eq!(out.len(), 4);
    assert!(matches!(&out[0].value, AttrType::Call(f) if f == "increment"));
    assert!(matches!(&out[1].value, AttrType::Call(f) if f == "increment"));
    assert!(matches!(&out[2].value, AttrType::Expr(e) if e == "increment(1)"));
    assert!(matches!(&out[3].value, AttrType::Expr(e) if e == "other()"));
    assert!(out.iter().all(|a| a.flag_mask.is_none()));
}

fn each_var(name: &str, ty: &str) -> EachVar {
    EachVar { name: format!("{}_scope", name), original_name: name.to_string(), ty: ty.to_string() }
}

fn infer_text(shape: &EachShape, reactive: &Vec<ReactiveVar>, scoped: &Vec<EachVar>) -> Option<String> {
    try_infer_each_expr_type(shape, reactive, scoped).map(|t| get_type_text(&t))
}

#[test]
fn each_expression_types() {
    let reactive = vec![ReactiveVar { name: "items".to_string(), ty: "Vec<String>".to_string(), flag_mask: 1 }];
    let scoped = vec![each_var("row", "[u8; 4]")];
    let range = EachShape::Range(Some(ScalarShape::IntLit("u64".to_string())));
    assert_eq!(infer_text(&range, &reactive, &scoped).as_deref(), Some("std::ops::Range<u64>"));
    let range = EachShape::Range(Some(ScalarShape::IntLit(String::new())));
    assert_eq!(infer_text(&range, &reactive, &scoped).as_deref(), Some("std::ops::Range<i32>"));
    let collect = EachShape::MethodCall(
        Box::new(EachShape::Inner(Box::new(EachShape::Range(Some(ScalarShape::Path(Some("n".to_string()))))))),
        "collect".to_string(),
    );
    let with_n = vec![ReactiveVar { name: "n".to_string(), ty: "usize".to_string(), flag_mask: 2 }];
    assert_eq!(infer_text(&collect, &with_n, &Vec::new()).as_deref(), Some("Vec<usize>"));
    let array = EachShape::Array(3, Some(ScalarShape::StrLit));
    assert_eq!(infer_text(&array, &reactive, &scoped).as_deref(), Some("[String; 3]"));
    let vec_mac = EachShape::VecMacro(Some(ScalarShape::BoolLit));
    assert_eq!(infer_text(&vec_mac, &reactive, &scoped).as_deref(), Some("Vec<bool>"));
    let var = EachShape::Path(Some("items".to_string()));
    assert_eq!(infer_text(&var, &reactive, &scoped).as_deref(), Some("Vec<String>"));
    let scoped_var = EachShape::MethodCall(Box::new(EachShape::Path(Some("row".to_string()))), "iter".to_string());
    assert_eq!(infer_text(&scoped_var, &reactive, &scoped).as_deref(), Some("[u8; 4]"));
    let generated_name = EachShape::Path(Some("row_scope".to_string()));
    assert!(infer_text(&generated_name, &reactive, &scoped).is_none());
    let collected_items = EachShape::MethodCall(Box::new(EachShape::Path(Some("items".to_string()))), "collect".to_string());
    assert_eq!(infer_text(&collected_items, &reactive, &scoped).map(|t| t.replace(' ', "")).as_deref(), Some("Vec<String>"));
}

#[test]
fn each_expression_types_that_cannot_be_inferred() {
    let reactive = vec![ReactiveVar { name: "n".to_string(), ty: "usize".to_string(), flag_mask: 2 }];
    assert!(try_infer_each_expr_type(&EachShape::Path(Some("missing".to_string())), &reactive, &Vec::new()).is_none());
    assert!(try_infer_each_expr_type(&EachShape::Range(None), &reactive, &Vec::new()).is_none());
    assert!(try_infer_each_expr_type(&EachShape::Array(0, None), &reactive, &Vec::new()).is_none());
    assert!(try_infer_each_expr_type(&EachShape::VecMacro(None), &reactive, &Vec::new()).is_none());
    assert!(try_infer_each_expr_type(&EachShape::Other, &reactive, &Vec::new()).is_none());
    let collect_scalar = EachShape::MethodCall(Box::new(EachShape::Path(Some("n".to_string()))), "collect".to_string());
    assert!(try_infer_each_expr_type(&collect_scalar, &reactive, &Vec::new()).is_none());
}

#[test]
fn each_expressions_become_vecs() {
    let arr = TypeRepr::Array(Box::new(TypeRepr::Named("i32".to_string())), 2);
    let (x, item) = try_each_expr_to_vec_and_item_type("[1, 2]".to_string(), arr).expect("a vec form");
    assert_eq!(x, "[1, 2].to_vec()");
    assert_eq!(get_type_text(&item), "i32");
    let v = TypeRepr::Vec(Box::new(TypeRepr::Named("u8".to_string())));
    let (x, item) = try_each_expr_to_vec_and_item_type("items".to_string(), v).expect("a vec form");
    assert_eq!(x, "items");
    assert_eq!(get_type_text(&item), "u8");
    let r = TypeRepr::Range(Box::new(TypeRepr::Named("u64".to_string())));
    let (x, item) = try_each_expr_to_vec_and_item_type("0..n".to_string(), r).expect("a vec form");
    assert_eq!(x, "(0..n).into_iter().collect::<Vec<_>>()");
    assert_eq!(get_type_text(&item), "<std::ops::Range<u64> as IntoIterator>::Item");
    let named = TypeRepr::Named("Vec<String>".to_string());
    let (x, item) = try_each_expr_to_vec_and_item_type("names".to_string(), named).expect("a vec form");
    assert_eq!(x, "names");
    assert_eq!(get_type_text(&item).replace(' ', ""), "String");
    let named = TypeRepr::Named("[u8; 4]".to_string());
    let (x, item) = try_each_expr_to_vec_and_item_type("bytes".to_string(), named).expect("a vec form");
    assert_eq!(x, "bytes.to_vec()");
    assert_eq!(get_type_text(&item), "u8");
    let named = TypeRepr::Named("std::collections::HashSet<u32>".to_string());
    let (x, item) = try_each_expr_to_vec_and_item_type("set".to_string(), named).expect("a vec form");
    assert_eq!(x, "(set).into_iter().collect::<Vec<_>>()");
    assert_eq!(get_type_text(&item), "<std::collections::HashSet<u32> as IntoIterator>::Item");
    assert!(try_each_expr_to_vec_and_item_type("t".to_string(), TypeRepr::Named("(u8, u8)".to_string())).is_none());
    assert!(try_each_expr_to_vec_and_item_type("v".to_string(), TypeRepr::Named("Vec".to_string())).is_none());
}

#[test]
fn upper_case_tags_are_components() {
    let comps = vec![ComponentRef { name: "Émoji".to_string(), id_hash: "7".to_string(), props: None }];
    let content_expr = |x: &String, _s: &Vec<EachVar>| (x.clone(), 0u64);
    let attrs_of = |t: &Tag, _s: &Vec<EachVar>| {
        t.attributes.iter().map(|(n, a)| attr(n, copy_attr(a))).collect::<Vec<TagAttribute>>()
    };
    let each_expr = |x: &String, _s: &Vec<EachVar>| (x.clone(), "i32".to_string());
    let mut counter = 3usize;
    let node = Node::from_element(
        tag(1, "Émoji", Vec::new(), vec![text(2, "ignored")]),
        &mut counter,
        &content_expr,
        &attrs_of,
        &each_expr,
        &comps,
        &"h".to_string(),
        &Vec::new(),
    );
    assert_eq!(counter, 4);
    assert_eq!(node.struct_field, "d");
    assert!(matches!(&node.content, NodeType::Comp(name, props) if name == "C7" && props.is_empty()));
    let mut counter = 0usize;
    let node = Node::from_element(
        tag(1, "émoji", Vec::new(), vec![text(2, "kept")]),
        &mut counter,
        &content_expr,
        &attrs_of,
        &each_expr,
        &comps,
        &"h".to_string(),
        &Vec::new(),
    );
    assert_eq!(counter, 2);
    assert!(matches!(&node.content, NodeType::Tag(name, _, kids) if name == "émoji" && kids.len() == 1));
}

#[test]
fn event_attributes_of_a_node_tree() {
    let (node, _) = transform_tree();
    assert!(get_node_handlers(&node).is_empty());
    let leaf = |id: u32, attrs: Vec<TagAttribute>| Node {
        id,
        frag_field_idx: 0,
        struct_field: "a".to_string(),
        content: NodeType::Tag("button".to_string(), attrs, Vec::new()),
    };
    let click = TagAttribute { name: "onclick".to_string(), value: AttrType::Call("go".to_string()), flag_mask: None };
    let title = TagAttribute { name: "title".to_string(), value: AttrType::Str("t".to_string()), flag_mask: None };
    let key = TagAttribute { name: "onkeydown".to_string(), value: AttrType::Call("key".to_string()), flag_mask: None };
    let root = Node {
        id: 1,
        frag_field_idx: 0,
        struct_field: "a".to_string(),
        content: NodeType::Tag("div".to_string(), vec![title], vec![leaf(2, vec![click]), leaf(3, vec![key])]),
    };
    let hs = get_node_handlers(&root);
    assert_eq!(hs.len(), 2);
    assert_eq!((hs[0].target_id, hs[0].js_event.as_str()), (2, "click"));
    assert!(matches!(&hs[0].handler, AttrType::Call(f) if f == "go"));
    assert_eq!((hs[1].target_id, hs[1].js_event.as_str()), (3, "keydown"));
}

#[test]
fn default_shapes_are_read_from_text() {
    let ty = |t: &str| infer_type_from_expr(&shape_of_text(t, t.len()));
    assert_eq!(ty("[1u8, 2]").as_deref(), Some("[u8; 2]"));
    assert_eq!(ty("(1, \"a\")").as_deref(), Some("(i32, String)"));
    assert_eq!(ty("&mut 2.5").as_deref(), Some("&mut f64"));
    assert_eq!(ty("vec![1, 2]").as_deref(), Some("Vec<_>"));
    assert_eq!(ty("name.to_string()").as_deref(), Some("String"));
    assert_eq!(ty("b'x'").as_deref(), Some("u8"));
    assert_eq!(ty("counter + 1"), None);
    assert!(matches!(shape_of_text("\"hi\"", 4), ExprShape::StrLit));
    assert!(matches!(shape_of_text("[1]", 0), ExprShape::Other));
}
