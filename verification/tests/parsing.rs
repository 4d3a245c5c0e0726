use rsvelte::parse::script::parse_script;
use rsvelte::parse::css_parse::parse_css;
use rsvelte::parse::html_parse::{
    parse_attr, read_closing_tag, read_contents, read_element_with_tag, read_tag, try_parse_attr, AttrType,
    ContentType, Element, ReadContentExitReason, TagType,
};
use rsvelte::parse::rs_parse::parse_attr_expression;
use rsvelte::parse::{parse, ComponentQueue};
use rsvelte::utils::{CharStream, CompileError, Coord};

fn start() -> Coord {
    Coord { line: 1, col: 0 }
}

fn rest_of(cs: &mut CharStream) -> String {
    let mut s = String::new();
    while let Some(c) = cs.next() {
        s.push(c);
    }
    s
}

fn tag_children(e: &Element) -> &Vec<Element> {
    match &e.content {
        ContentType::Tag(_, children) => children,
        _ => panic!("not a tag"),
    }
}

fn tag_name(e: &Element) -> &str {
    match &e.content {
        ContentType::Tag(tag, _) => &tag.name,
        _ => panic!("not a tag"),
    }
}

#[test]
fn css_rules_one_declaration_per_line() {
    let rules = parse_css("\nh1 {\n  color: red;\n  margin: 0;\n}\n\n.box {\n padding: 2px;\n}\n");
    assert_eq!(rules.len(), 2);
    assert_eq!(rules[0].selector, "h1");
    assert_eq!(rules[0].declarations, vec!["color: red;".to_string(), "margin: 0;".to_string()]);
    assert!(!rules[0].is_global);
    assert_eq!(rules[1].selector, ".box");
    assert_eq!(rules[1].declarations, vec!["padding: 2px;".to_string()]);
}

#[test]
fn css_global_rule() {
    let rules = parse_css(":global(body) {\nmargin: 0;\n}");
    assert_eq!(rules.len(), 1);
    assert_eq!(rules[0].selector, "body");
    assert!(rules[0].is_global);
    assert_eq!(rules[0].declarations, vec!["margin: 0;".to_string()]);
}

#[test]
fn css_unclosed_rule_is_dropped() {
    let rules = parse_css("p {\ncolor: blue;\n");
    assert!(rules.is_empty());
    let rules = parse_css("color: blue;\n}\n");
    assert!(rules.is_empty());
}

#[test]
fn read_opening_tag_with_attributes() {
    let mut cs = CharStream::new("<div class=\"box\" title={name}>rest");
    let mut coord = start();
    match read_tag(&mut cs, &mut coord) {
        TagType::Opening(tag) => {
            assert_eq!(tag.name, "div");
            assert!(!tag.self_closing);
            assert_eq!(tag.attributes.len(), 2);
            assert_eq!(tag.attributes[0].0, "class");
            assert!(matches!(&tag.attributes[0].1, AttrType::Str(s) if s == "box"));
            assert_eq!(tag.attributes[1].0, "title");
            assert!(matches!(&tag.attributes[1].1, AttrType::Expr(s) if s == "name"));
        }
        TagType::Closing(_) => panic!("expected an opening tag"),
    }
    assert_eq!(rest_of(&mut cs), "rest");
}

#[test]
fn read_self_closing_tag_and_closing_tag() {
    let mut cs = CharStream::new("<br/></div>x");
    let mut coord = start();
    match read_tag(&mut cs, &mut coord) {
        TagType::Opening(tag) => {
            assert_eq!(tag.name, "br");
            assert!(tag.self_closing);
            assert!(tag.attributes.is_empty());
        }
        TagType::Closing(_) => panic!("expected an opening tag"),
    }
    match read_tag(&mut cs, &mut coord) {
        TagType::Closing(name) => assert_eq!(name, "div"),
        TagType::Opening(_) => panic!("expected a closing tag"),
    }
    assert_eq!(rest_of(&mut cs), "x");
}

#[test]
fn read_bind_attribute() {
    let mut cs = CharStream::new("bind:value={counter} />");
    let mut coord = start();
    let (name, value) = parse_attr(&mut cs, &mut coord);
    assert_eq!(name, "value");
    assert!(matches!(value, AttrType::Bind(v) if v == "counter"));
    assert_eq!(rest_of(&mut cs), " />");
    let mut cs = CharStream::new("bind:value={ my_var } >");
    let mut coord = start();
    let (name, value) = parse_attr(&mut cs, &mut coord);
    assert_eq!(name, "value");
    assert!(matches!(value, AttrType::Bind(v) if v == "my_var"));
    let mut cs = CharStream::new("bind:value={a + b} >");
    let mut coord = start();
    assert!(try_parse_attr(&mut cs, &mut coord).is_none());
}

#[test]
fn closing_tag_is_consumed() {
    let mut cs = CharStream::new("</style>\n<div>");
    let mut coord = start();
    read_closing_tag(&mut cs, &mut coord, "style");
    assert_eq!(rest_of(&mut cs), "\n<div>");
    assert_eq!((coord.line, coord.col), (1, 8));
    let mut cs = CharStream::new("</p>x");
    let mut coord = Coord { line: 3, col: 5 };
    read_closing_tag(&mut cs, &mut coord, "p");
    assert_eq!((coord.line, coord.col), (3, 9));
}

#[test]
fn attribute_expression_and_closures() {
    match parse_attr_expression("count + 1", false) {
        Ok(AttrType::Expr(e)) => assert_eq!(e, "count + 1"),
        _ => panic!("expected an expression"),
    }
    match parse_attr_expression("|| count += 1", true) {
        Ok(AttrType::Closure(c)) => {
            assert!(c.event_arg.is_none());
            assert_eq!(c.body.trim(), "count += 1");
        }
        _ => panic!("expected a closure"),
    }
    match parse_attr_expression("|e| handle(e)", true) {
        Ok(AttrType::Closure(c)) => {
            let (name, ty) = c.event_arg.expect("an event argument");
            assert_eq!(name, "e");
            assert_eq!(ty, "web_sys::Event");
            assert_eq!(c.body.trim(), "handle(e)");
        }
        _ => panic!("expected a closure"),
    }
    match parse_attr_expression("|e: web_sys::MouseEvent| f(e)", true) {
        Ok(AttrType::Closure(c)) => {
            let (name, ty) = c.event_arg.expect("an event argument");
            assert_eq!(name, "e");
            assert_eq!(ty.replace(' ', ""), "web_sys::MouseEvent");
        }
        _ => panic!("expected a closure"),
    }
}

#[test]
fn attribute_expression_errors() {
    match parse_attr_expression("|e| f(e)", false) {
        Err(CompileError::GenericError(m)) => {
            assert_eq!(m, "Non-event handler closures cannot have non-reactive arguments")
        }
        _ => panic!("expected an error"),
    }
    match parse_attr_expression("|a, b| f(a)", true) {
        Err(CompileError::GenericError(m)) => assert_eq!(
            m,
            "Multiple event arguments found in closure; only one event argument is allowed"
        ),
        _ => panic!("expected an error"),
    }
    assert!(parse_attr_expression("1 +", false).is_err());
    assert!(parse_attr_expression("|| 1 +", true).is_err());
}

#[test]
fn element_with_text_expression_and_children() {
    let mut cs = CharStream::new("<h1>Count: {count}</h1><p>x</p></div>");
    let mut coord = start();
    let tag = match read_tag(&mut cs, &mut coord) {
        TagType::Opening(t) => t,
        TagType::Closing(_) => panic!("expected an opening tag"),
    };
    let mut ids = 5u32;
    let h1 = read_element_with_tag(&mut cs, &mut coord, &mut ids, tag);
    assert_eq!(h1.id, 5);
    assert_eq!(tag_name(&h1), "h1");
    let kids = tag_children(&h1);
    assert_eq!(kids.len(), 2);
    assert!(matches!(&kids[0].content, ContentType::Text(t) if t == "Count: "));
    assert!(matches!(&kids[1].content, ContentType::Expr(x) if x == "count"));
    let (rest, exit) = read_contents(&mut cs, &mut coord, &mut ids);
    assert_eq!(rest.len(), 1);
    assert_eq!(tag_name(&rest[0]), "p");
    assert!(matches!(exit, ReadContentExitReason::ClosingTag(n) if n == "div"));
}

#[test]
fn if_and_each_blocks() {
    let src = "{#if a > 1}<b>big</b>{:else if a == 1}one{:else}small{/if}{#each items as item}<li>{item}</li>{/each}</ul>";
    let mut cs = CharStream::new(src);
    let mut coord = start();
    let mut ids = 0u32;
    let (els, exit) = read_contents(&mut cs, &mut coord, &mut ids);
    assert!(matches!(exit, ReadContentExitReason::ClosingTag(n) if n == "ul"));
    assert_eq!(els.len(), 2);
    match &els[0].content {
        ContentType::If(branches, else_branch) => {
            assert_eq!(branches.len(), 2);
            assert_eq!(branches[0].condition, "a > 1");
            assert_eq!(branches[1].condition, "a == 1");
            assert_eq!(branches[0].contents.len(), 1);
            assert!(matches!(&branches[1].contents[0].content, ContentType::Text(t) if t == "one"));
            let e = else_branch.as_ref().expect("an else branch");
            assert!(matches!(&e[0].content, ContentType::Text(t) if t == "small"));
        }
        _ => panic!("expected an if block"),
    }
    match &els[1].content {
        ContentType::Each(iter, item, contents) => {
            assert_eq!(iter, "items");
            assert_eq!(item, "item");
            assert_eq!(contents.len(), 1);
            assert_eq!(tag_name(&contents[0]), "li");
        }
        _ => panic!("expected an each block"),
    }
}

#[test]
fn each_block_with_a_tuple_pattern() {
    let mut cs = CharStream::new("{#each list as (a, b)}<li>{a}</li>{/each}</ul>");
    let mut coord = start();
    let mut ids = 0u32;
    let (els, exit) = read_contents(&mut cs, &mut coord, &mut ids);
    assert!(matches!(exit, ReadContentExitReason::ClosingTag(n) if n == "ul"));
    assert_eq!(els.len(), 1);
    match &els[0].content {
        ContentType::Each(iter, item, contents) => {
            assert_eq!(iter, "list");
            assert_eq!(item, "(a, b)");
            assert_eq!(contents.len(), 1);
            assert_eq!(tag_name(&contents[0]), "li");
        }
        _ => panic!("expected an each block"),
    }
}

#[test]
fn component_with_all_sections() {
    let src = "<script>\nlet x = 1;\n</script>\n<style>\nh1 {\ncolor: red;\n}\n</style>\n<div id=\"app\"><h1>Hi</h1></div>\n";
    let comp = parse(src, "/proj/App.rsvelte".to_string()).expect("a component");
    assert_eq!(comp.source_path, "/proj/App.rsvelte");
    assert_eq!(comp.script.as_deref(), Some("\nlet x = 1;\n"));
    let style = comp.style.expect("a style section");
    assert_eq!(style.len(), 1);
    assert_eq!(style[0].selector, "h1");
    assert_eq!(comp.body.id, 0);
    assert_eq!(tag_name(&comp.body), "div");
    let kids = tag_children(&comp.body);
    assert_eq!(kids.len(), 1);
    assert_eq!(tag_name(&kids[0]), "h1");
    assert!(!comp.id_hash.is_empty());
    assert!(comp.id_hash.chars().all(|c| c.is_ascii_hexdigit() && !c.is_ascii_uppercase()));
}

#[test]
fn component_hash_depends_on_path_only() {
    let a = parse("<p>a</p>", "/x/A.rsvelte".to_string()).expect("a component");
    let b = parse("<p>b</p>", "/x/A.rsvelte".to_string()).expect("a component");
    let c = parse("<p>a</p>", "/x/B.rsvelte".to_string()).expect("a component");
    assert_eq!(a.id_hash, b.id_hash);
    assert_ne!(a.id_hash, c.id_hash);
}

#[test]
fn component_without_template_is_an_error() {
    match parse("<script>let a = 1;</script>", "/x/A.rsvelte".to_string()) {
        Err(CompileError::GenericError(m)) => assert_eq!(m, "No HTML body found in component"),
        _ => panic!("expected an error"),
    }
}

#[test]
fn stray_closing_tag_is_an_error() {
    match parse("</div>", "/x/A.rsvelte".to_string()) {
        Err(CompileError::GenericError(m)) => assert_eq!(m, "Unexpected closing tag </div>"),
        _ => panic!("expected an error"),
    }
}

#[test]
fn component_queue_hands_each_path_out_once() {
    let mut q = ComponentQueue::new("/p/App".to_string());
    assert_eq!(q.next_path().as_deref(), Some("/p/App"));
    q.add_imports(vec!["/p/A".to_string(), "/p/B".to_string()]);
    assert_eq!(q.next_path().as_deref(), Some("/p/B"));
    q.add_imports(vec!["/p/A".to_string(), "/p/App".to_string()]);
    assert_eq!(q.next_path().as_deref(), Some("/p/A"));
    q.add_imports(vec!["/p/B".to_string()]);
    assert_eq!(q.next_path(), None);
    assert_eq!(q.next_path(), None);
}

fn script_error(text: &str) -> String {
    match parse_script(text) {
        Err(CompileError::GenericError(m)) => m,
        _ => panic!("expected an error"),
    }
}

#[test]
fn script_sections_are_read() {
    let text = r#"
        import MyButton from "./button.rsvelte";
        use std::fmt::Write;
        struct $state {
            parent_prop: String = $prop(),
            counter = $state(0),
            counter_plus_one: i32 = $derived(counter + 1),
            title: String = $bindable("x"),
        }
        impl $state {
            fn $init() { self.counter = 1; }
            fn increment(&mut self) { self.counter += 1; }
        }
        const LIMIT: u32 = 10;
    "#;
    let m = parse_script(text).expect("a script");
    assert_eq!(m.imports.len(), 1);
    assert_eq!(m.imports[0].name, "MyButton");
    assert_eq!(m.imports[0].path, "./button.rsvelte");
    assert_eq!(m.props.len(), 1);
    assert_eq!(m.props[0].name, "parent_prop");
    assert_eq!(m.props[0].ty, "String");
    assert!(m.props[0].default.is_none());
    assert_eq!(m.props[0].flag_pos, 0);
    assert_eq!(m.state_vars.len(), 1);
    assert_eq!(m.state_vars[0].name, "counter");
    assert_eq!(m.state_vars[0].ty, "i32");
    assert_eq!(m.state_vars[0].default, "0");
    assert_eq!(m.state_vars[0].flag_pos, 1);
    assert_eq!(m.derived_vars.len(), 1);
    assert_eq!(m.derived_vars[0].ty, "i32");
    assert_eq!(m.derived_vars[0].default, "counter + 1");
    assert_eq!(m.derived_vars[0].flag_pos, 2);
    assert_eq!(m.bindable_props[0].default.as_deref(), Some("\"x\".to_string()"));
    assert_eq!(m.bindable_props[0].flag_pos, 3);
    assert!(m.init_body.as_deref().unwrap().contains("self . counter = 1"));
    assert_eq!(m.state_functions.len(), 1);
    assert!(m.state_functions[0].starts_with("fn increment"));
    assert_eq!(m.items.len(), 2);
    assert!(m.items[0].starts_with("use std"));
    assert!(m.items[1].starts_with("const LIMIT"));
}

#[test]
fn script_errors() {
    assert_eq!(script_error("struct $store { }"), "Expected 'state' after '$'");
    assert_eq!(script_error("impl $state { fn $start() {} }"), "Expected 'init' after '$' in state impl block");
    assert_eq!(
        script_error("struct $state { x = $state(f()), }"),
        "Could not infer type for reactive state variable; please specify type explicitly"
    );
    assert_eq!(script_error("struct $state { x = 3 }"), "Expected a state declaration `name: Type = $kind(default)`");
    assert_eq!(script_error("import A from 3;"), "Expected an import `import Name from \"path\";`");
    assert_eq!(script_error("struct $state { x: i32 = $state(0"), "The script could not be read as Rust tokens");
    assert!(parse_script("").is_ok());
}
