//! The supported events: for each, the attribute that attaches a handler in a
//! template, the `web_sys` type of the event, and the JavaScript event name.
//!
//! For example, the `onclick` attribute of
//! `<button onclick={handle_click}>Click me</button>` handles
//! `web_sys::MouseEvent`s of the JavaScript type `click`.

use vstd::prelude::*;

use crate::text::chars_eq;
use crate::utils::{chars_of, string_from_chars};

verus! {

/// The number of supported events.
pub const NUM_EVENTS: usize = 20;

/// The supported event at index `i`: (attribute name, `web_sys` type, JavaScript
/// event name).
pub open spec fn spec_event(i: int) -> (Seq<char>, Seq<char>, Seq<char>) {
    if i == 0 {
        ("onclick"@, "web_sys::MouseEvent"@, "click"@)
    } else if i == 1 {
        ("onmousemove"@, "web_sys::MouseEvent"@, "mousemove"@)
    } else if i == 2 {
        ("onmousedown"@, "web_sys::MouseEvent"@, "mousedown"@)
    } else if i == 3 {
        ("onmouseup"@, "web_sys::MouseEvent"@, "mouseup"@)
    } else if i == 4 {
        ("ondblclick"@, "web_sys::MouseEvent"@, "dblclick"@)
    } else if i == 5 {
        ("onkeydown"@, "web_sys::KeyboardEvent"@, "keydown"@)
    } else if i == 6 {
        ("onkeyup"@, "web_sys::KeyboardEvent"@, "keyup"@)
    } else if i == 7 {
        ("onkeypress"@, "web_sys::KeyboardEvent"@, "keypress"@)
    } else if i == 8 {
        ("oninput"@, "web_sys::InputEvent"@, "input"@)
    } else if i == 9 {
        ("onchange"@, "web_sys::Event"@, "change"@)
    } else if i == 10 {
        ("onsubmit"@, "web_sys::Event"@, "submit"@)
    } else if i == 11 {
        ("onfocus"@, "web_sys::FocusEvent"@, "focus"@)
    } else if i == 12 {
        ("onblur"@, "web_sys::FocusEvent"@, "blur"@)
    } else if i == 13 {
        ("onmouseover"@, "web_sys::MouseEvent"@, "mouseover"@)
    } else if i == 14 {
        ("onmouseout"@, "web_sys::MouseEvent"@, "mouseout"@)
    } else if i == 15 {
        ("onwheel"@, "web_sys::WheelEvent"@, "wheel"@)
    } else if i == 16 {
        ("ontouchstart"@, "web_sys::TouchEvent"@, "touchstart"@)
    } else if i == 17 {
        ("ontouchend"@, "web_sys::TouchEvent"@, "touchend"@)
    } else if i == 18 {
        ("ontouchmove"@, "web_sys::TouchEvent"@, "touchmove"@)
    } else {
        ("ontouchcancel"@, "web_sys::TouchEvent"@, "touchcancel"@)
    }
}

/// The supported event at index `i`.
pub fn event(i: usize) -> (r: (&'static str, &'static str, &'static str))
    requires
        i < NUM_EVENTS,
    ensures
        (r.0@, r.1@, r.2@) == spec_event(i as int),
{
    match i {
        0 => ("onclick", "web_sys::MouseEvent", "click"),
        1 => ("onmousemove", "web_sys::MouseEvent", "mousemove"),
        2 => ("onmousedown", "web_sys::MouseEvent", "mousedown"),
        3 => ("onmouseup", "web_sys::MouseEvent", "mouseup"),
        4 => ("ondblclick", "web_sys::MouseEvent", "dblclick"),
        5 => ("onkeydown", "web_sys::KeyboardEvent", "keydown"),
        6 => ("onkeyup", "web_sys::KeyboardEvent", "keyup"),
        7 => ("onkeypress", "web_sys::KeyboardEvent", "keypress"),
        8 => ("oninput", "web_sys::InputEvent", "input"),
        9 => ("onchange", "web_sys::Event", "change"),
        10 => ("onsubmit", "web_sys::Event", "submit"),
        11 => ("onfocus", "web_sys::FocusEvent", "focus"),
        12 => ("onblur", "web_sys::FocusEvent", "blur"),
        13 => ("onmouseover", "web_sys::MouseEvent", "mouseover"),
        14 => ("onmouseout", "web_sys::MouseEvent", "mouseout"),
        15 => ("onwheel", "web_sys::WheelEvent", "wheel"),
        16 => ("ontouchstart", "web_sys::TouchEvent", "touchstart"),
        17 => ("ontouchend", "web_sys::TouchEvent", "touchend"),
        18 => ("ontouchmove", "web_sys::TouchEvent", "touchmove"),
        _ => ("ontouchcancel", "web_sys::TouchEvent", "touchcancel"),
    }
}

/// The index of the first supported event whose attribute name is `name`.
pub open spec fn spec_event_index(name: Seq<char>) -> Option<int> {
    if exists|i: int| 0 <= i < NUM_EVENTS && #[trigger] spec_event(i).0 == name {
        Some(
            choose|i: int|
                0 <= i < NUM_EVENTS && #[trigger] spec_event(i).0 == name && forall|j: int|
                    0 <= j < i ==> #[trigger] spec_event(j).0 != name,
        )
    } else {
        None
    }
}

/// Whether `name` is the attribute name of a supported event.
pub open spec fn is_event_attr(name: Seq<char>) -> bool {
    exists|i: int| 0 <= i < NUM_EVENTS && #[trigger] spec_event(i).0 == name
}

/// The index of the first supported event whose attribute name is `name`.
pub fn find_event(name: &[char]) -> (r: Option<usize>)
    ensures
        r matches Some(i) ==> spec_event_index(name@) == Some(i as int) && i < NUM_EVENTS,
        r is None <==> !is_event_attr(name@),
        r is None ==> spec_event_index(name@) is None,
{
    let mut i: usize = 0;
    while i < NUM_EVENTS
        invariant
            i <= NUM_EVENTS,
            forall|j: int| 0 <= j < i ==> #[trigger] spec_event(j).0 != name@,
        decreases NUM_EVENTS - i,
    {
        let e = event(i);
        let ev = chars_of(e.0);
        if chars_eq(ev.as_slice(), name) {
            proof {
                assert(spec_event(i as int).0 == name@);
                let c = choose|k: int|
                    0 <= k < NUM_EVENTS && #[trigger] spec_event(k).0 == name@ && forall|j: int|
                        0 <= j < k ==> #[trigger] spec_event(j).0 != name@;
                if c < i {
                    assert(spec_event(c).0 != name@);
                }
                if c > i {
                    assert(spec_event(i as int).0 != name@);
                }
            }
            return Some(i);
        }
        i = i + 1;
    }
    None
}

/// The JavaScript event name of the event attribute `attr_name`.
pub fn get_event_str_type_from_attr_name(attr_name: &str) -> (r: String)
    requires
        is_event_attr(attr_name@),
    ensures
        r@ == spec_event(spec_event_index(attr_name@)->Some_0).2,
{
    let name = chars_of(attr_name);
    match find_event(name.as_slice()) {
        Some(i) => {
            let e = event(i);
            let v = chars_of(e.2);
            string_from_chars(v.as_slice())
        },
        None => String::new(),
    }
}

/// The JavaScript event name of the attribute `attr_name`, if it is an event
/// attribute.
pub fn get_js_event_str(attr_name: &str) -> (r: Option<String>)
    ensures
        r matches Some(s) ==> is_event_attr(attr_name@) && s@ == spec_event(
            spec_event_index(attr_name@)->Some_0,
        ).2,
        r is None <==> !is_event_attr(attr_name@),
{
    let name = chars_of(attr_name);
    match find_event(name.as_slice()) {
        Some(i) => {
            let e = event(i);
            let v = chars_of(e.2);
            Some(string_from_chars(v.as_slice()))
        },
        None => None,
    }
}

/// Whether the type named `type_ident` is the `web_sys` type of a supported
/// event.
pub open spec fn is_event_type(type_ident: Seq<char>) -> bool {
    exists|i: int| 0 <= i < NUM_EVENTS && #[trigger] spec_event(i).1 == type_ident
}

/// Whether `type_ident` names the `web_sys` type of a supported event.
pub fn is_websys_event_type(type_ident: &str) -> (r: bool)
    ensures
        r == is_event_type(type_ident@),
{
    let t = chars_of(type_ident);
    let mut i: usize = 0;
    while i < NUM_EVENTS
        invariant
            i <= NUM_EVENTS,
            t@ == type_ident@,
            forall|j: int| 0 <= j < i ==> #[trigger] spec_event(j).1 != type_ident@,
        decreases NUM_EVENTS - i,
    {
        let e = event(i);
        let ev = chars_of(e.1);
        if chars_eq(ev.as_slice(), t.as_slice()) {
            assert(spec_event(i as int).1 == type_ident@);
            return true;
        }
        i = i + 1;
    }
    false
}

} // verus!
