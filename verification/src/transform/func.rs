//! Checks on the state functions of a component's script.

use vstd::prelude::*;

use crate::events::{is_event_type, is_websys_event_type};
use crate::parse::html_parse::{AttrType, SAttr, attr_view};
use crate::utils::CompileError;

verus! {

/// An argument in the signature of a state function.
pub enum HandlerArg {
    /// The receiver: `self`, `&self` or `&mut self`.
    Receiver { reference: bool, mutable: bool },
    /// A typed argument, with the path of its type once a leading `&` or
    /// `&mut` is taken off (`web_sys::MouseEvent`); `None` where that type is
    /// not a path.
    Typed(Option<String>),
}

/// `&mut self`.
pub open spec fn is_mut_self(a: HandlerArg) -> bool {
    a matches HandlerArg::Receiver { reference: true, mutable: true }
}

/// An argument whose type is the `web_sys` type of a supported event.
pub open spec fn is_event_arg(a: HandlerArg) -> bool {
    a matches HandlerArg::Typed(Some(p)) && is_event_type(p@)
}

/// Whether a function with arguments `args` can handle events: it takes
/// `&mut self` and, optionally, a single further argument of a supported
/// event type.
pub fn validate_event_handler_args(args: &Vec<HandlerArg>) -> (r: bool)
    ensures
        r == (args@.len() >= 1 && is_mut_self(args@[0]) && (args@.len() == 1 || (args@.len() == 2
            && is_event_arg(args@[1])))),
{
    if args.len() == 0 || args.len() > 2 {
        return false;
    }
    let self_ok = match &args[0] {
        HandlerArg::Receiver { reference, mutable } => *reference && *mutable,
        HandlerArg::Typed(_) => false,
    };
    if !self_ok {
        return false;
    }
    if args.len() == 1 {
        return true;
    }
    match &args[1] {
        HandlerArg::Typed(Some(path)) => is_websys_event_type(path.as_str()),
        _ => false,
    }
}

/// An argument that an event's dispatch hands to a handler: the component's
/// state, or the event cast to the `web_sys` type at hand.
pub enum CallArg {
    StateRef,
    EventCast(String),
}

/// How an event is dispatched: a call of the named state function, or of the
/// closure with the given body text, with these arguments.
pub enum HandlerCall {
    Func(String, Vec<CallArg>),
    Closure(String, Vec<CallArg>),
}

pub enum SCallArg {
    StateRef,
    EventCast(Seq<char>),
}

pub open spec fn call_arg_view(a: CallArg) -> SCallArg {
    match a {
        CallArg::StateRef => SCallArg::StateRef,
        CallArg::EventCast(t) => SCallArg::EventCast(t@),
    }
}

pub open spec fn call_args_view(v: Seq<CallArg>) -> Seq<SCallArg> {
    v.map_values(|a: CallArg| call_arg_view(a))
}

/// The view of a dispatch: whether it calls a closure, the function's name
/// or the closure's body, and the arguments.
pub open spec fn handler_call_view(h: HandlerCall) -> (bool, Seq<char>, Seq<SCallArg>) {
    match h {
        HandlerCall::Func(f, a) => (false, f@, call_args_view(a@)),
        HandlerCall::Closure(b, a) => (true, b@, call_args_view(a@)),
    }
}

/// The view of the state functions: their names and arguments.
pub open spec fn funcs_view(fs: Seq<(String, Vec<HandlerArg>)>) -> Seq<(Seq<char>, Seq<HandlerArg>)> {
    fs.map_values(|f: (String, Vec<HandlerArg>)| (f.0@, f.1@))
}

pub open spec fn msg_multiple_self(name: Seq<char>) -> Seq<char> {
    "Multiple self arguments in event handler '"@ + name
        + "'. Event handlers can only have one `&mut self` argument."@
}

pub open spec fn msg_multiple_events(name: Seq<char>) -> Seq<char> {
    "Multiple event arguments in event handler '"@ + name
        + "'. Event handlers can only have one event argument of type `&Event` or `&MouseEvent` etc."@
}

pub open spec fn msg_unsupported_arg(name: Seq<char>) -> Seq<char> {
    "Unsupported argument type in event handler '"@ + name
        + "'. Event handlers must have a `&mut self` argument and optionally a single event argument of type `&Event` or `&MouseEvent` etc."@
}

/// The arguments of the first function named `name`.
pub open spec fn find_func(fs: Seq<(Seq<char>, Seq<HandlerArg>)>, name: Seq<char>) -> Option<Seq<HandlerArg>>
    decreases fs.len(),
{
    if fs.len() == 0 {
        None
    } else if fs[0].0 == name {
        Some(fs[0].1)
    } else {
        find_func(fs.drop_first(), name)
    }
}

/// What the dispatch of the handler `name` hands it, for its arguments
/// `args`, read from the left with `seen_self` and `seen_event` telling
/// whether the receiver and an event argument came before: the state for the
/// receiver, the cast event for an argument of an event type; the receiver or
/// an event argument a second time, or any other argument, is an error.
pub open spec fn args_call(name: Seq<char>, args: Seq<HandlerArg>, seen_self: bool, seen_event: bool) -> Result<Seq<SCallArg>, Seq<char>>
    decreases args.len(),
{
    if args.len() == 0 {
        Ok(seq![])
    } else {
        let rest_self = seen_self || args[0] is Receiver;
        let rest_event = seen_event || is_event_arg(args[0]);
        let first = match args[0] {
            HandlerArg::Receiver { .. } => if seen_self {
                Err(msg_multiple_self(name))
            } else {
                Ok(SCallArg::StateRef)
            },
            HandlerArg::Typed(Some(p)) => if !is_event_type(p@) {
                Err(msg_unsupported_arg(name))
            } else if seen_event {
                Err(msg_multiple_events(name))
            } else {
                Ok(SCallArg::EventCast(p@))
            },
            HandlerArg::Typed(None) => Err(msg_unsupported_arg(name)),
        };
        match first {
            Err(e) => Err(e),
            Ok(a) => match args_call(name, args.drop_first(), rest_self, rest_event) {
                Ok(r) => Ok(seq![a] + r),
                Err(e) => Err(e),
            },
        }
    }
}

/// How an event with the handler attribute `attr` is dispatched, with the
/// state functions `fs`: a closure is called with the event cast to the type
/// of its argument where it has one; a call names the first state function of
/// that name, which gets what `args_call` says (such a function must exist);
/// any other attribute handles no event.
pub open spec fn spec_handler_call(attr: SAttr, fs: Seq<(Seq<char>, Seq<HandlerArg>)>) -> Result<Option<(bool, Seq<char>, Seq<SCallArg>)>, Seq<char>> {
    match attr {
        SAttr::Closure(arg, body) => Ok(Some((true, body, match arg {
            Some((_, t)) => seq![SCallArg::EventCast(t)],
            None => seq![],
        }))),
        SAttr::Call(f) => match find_func(fs, f) {
            None => Ok(None),
            Some(args) => match args_call(f, args, false, false) {
                Ok(a) => Ok(Some((false, f, a))),
                Err(e) => Err(e),
            },
        },
        _ => Ok(None),
    }
}

/// The arguments of the first function named `name` in `fs`.
fn find_handler<'a>(fs: &'a Vec<(String, Vec<HandlerArg>)>, name: &String) -> (r: Option<&'a Vec<HandlerArg>>)
    ensures
        match r {
            Some(a) => find_func(funcs_view(fs@), name@) == Some(a@),
            None => find_func(funcs_view(fs@), name@) is None,
        },
{
    let mut i: usize = 0;
    assert(funcs_view(fs@).skip(0) =~= funcs_view(fs@));
    while i < fs.len()
        invariant
            i <= fs@.len(),
            find_func(funcs_view(fs@), name@) == find_func(funcs_view(fs@).skip(i as int), name@),
        decreases fs@.len() - i,
    {
        let ghost rest = funcs_view(fs@).skip(i as int);
        assert(rest[0] == (fs@[i as int].0@, fs@[i as int].1@));
        if crate::text::str_eq(fs[i].0.as_str(), name.as_str()) {
            return Some(&fs[i].1);
        }
        assert(rest.drop_first() =~= funcs_view(fs@).skip(i + 1));
        i = i + 1;
    }
    assert(funcs_view(fs@).skip(i as int).len() == 0);
    None
}

/// The error message `prefix` + `name` + `suffix`.
fn message(prefix: &str, name: &String, suffix: &str) -> (r: CompileError)
    ensures
        r matches CompileError::GenericError(m) && m@ == prefix@ + name@ + suffix@,
{
    let mut m = String::from_str(prefix);
    m.append(name.as_str());
    m.append(suffix);
    CompileError::GenericError(m)
}

/// What the handler `name` with arguments `args` gets, from the argument at
/// `i` on; see `args_call`.
fn call_args_from(name: &String, args: &Vec<HandlerArg>, i: usize, seen_self: bool, seen_event: bool) -> (r: Result<Vec<CallArg>, CompileError>)
    requires
        i <= args@.len(),
    ensures
        match args_call(name@, args@.skip(i as int), seen_self, seen_event) {
            Ok(a) => r matches Ok(v) && call_args_view(v@) == a,
            Err(e) => r matches Err(CompileError::GenericError(m)) && m@ == e,
        },
    decreases args@.len() - i,
{
    let ghost s = args@.skip(i as int);
    if i == args.len() {
        assert(s.len() == 0);
        let v: Vec<CallArg> = Vec::new();
        assert(call_args_view(v@) =~= seq![]);
        return Ok(v);
    }
    assert(s[0] == args@[i as int]);
    assert(s.drop_first() =~= args@.skip(i + 1));
    let first = match &args[i] {
        HandlerArg::Receiver { .. } => {
            if seen_self {
                return Err(message("Multiple self arguments in event handler '", name, "'. Event handlers can only have one `&mut self` argument."));
            }
            CallArg::StateRef
        },
        HandlerArg::Typed(Some(p)) => {
            if !is_websys_event_type(p.as_str()) {
                return Err(message("Unsupported argument type in event handler '", name, "'. Event handlers must have a `&mut self` argument and optionally a single event argument of type `&Event` or `&MouseEvent` etc."));
            }
            if seen_event {
                return Err(message("Multiple event arguments in event handler '", name, "'. Event handlers can only have one event argument of type `&Event` or `&MouseEvent` etc."));
            }
            CallArg::EventCast(p.clone())
        },
        HandlerArg::Typed(None) => {
            return Err(message("Unsupported argument type in event handler '", name, "'. Event handlers must have a `&mut self` argument and optionally a single event argument of type `&Event` or `&MouseEvent` etc."));
        },
    };
    let is_self = match &args[i] {
        HandlerArg::Receiver { .. } => true,
        _ => false,
    };
    let is_event = match &args[i] {
        HandlerArg::Typed(Some(_)) => true,
        _ => false,
    };
    let ghost fv = call_arg_view(first);
    match call_args_from(name, args, i + 1, seen_self || is_self, seen_event || is_event) {
        Ok(mut rest) => {
            let ghost rv = rest@;
            rest.insert(0, first);
            assert(call_args_view(rest@) =~= seq![fv] + call_args_view(rv));
            Ok(rest)
        },
        Err(e) => Err(e),
    }
}

/// Whether one of the state functions `funcs` is named `name`.
pub fn has_handler(funcs: &Vec<(String, Vec<HandlerArg>)>, name: &String) -> (r: bool)
    ensures
        r == find_func(funcs_view(funcs@), name@) is Some,
{
    find_handler(funcs, name).is_some()
}

/// How an event whose handler attribute is `attr` is dispatched, with the
/// state functions `funcs` (names and arguments); see `spec_handler_call`.
pub fn handler_call(attr: &AttrType, funcs: &Vec<(String, Vec<HandlerArg>)>) -> (r: Result<Option<HandlerCall>, CompileError>)
    requires
        attr_view(*attr) matches SAttr::Call(f) ==> find_func(funcs_view(funcs@), f) is Some,
    ensures
        match spec_handler_call(attr_view(*attr), funcs_view(funcs@)) {
            Ok(None) => r matches Ok(None),
            Ok(Some(h)) => r matches Ok(Some(c)) && handler_call_view(c) == h,
            Err(e) => r matches Err(CompileError::GenericError(m)) && m@ == e,
        },
{
    match attr {
        AttrType::Closure(c) => {
            let mut args: Vec<CallArg> = Vec::new();
            match &c.event_arg {
                Some(p) => {
                    args.push(CallArg::EventCast(p.1.clone()));
                },
                None => {},
            }
            let ghost av = args@;
            assert(call_args_view(av) =~= match c.event_arg {
                Some(p) => seq![SCallArg::EventCast(p.1@)],
                None => seq![],
            });
            Ok(Some(HandlerCall::Closure(c.body.clone(), args)))
        },
        AttrType::Call(f) => {
            match find_handler(funcs, f) {
                None => Ok(None),
                Some(args) => {
                    assert(args@.skip(0) =~= args@);
                    match call_args_from(f, args, 0, false, false) {
                        Ok(v) => Ok(Some(HandlerCall::Func(f.clone(), v))),
                        Err(e) => Err(e),
                    }
                },
            }
        },
        _ => Ok(None),
    }
}

} // verus!
