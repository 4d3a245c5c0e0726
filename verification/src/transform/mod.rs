//! Rules that the transformation of parsed components into generated code
//! relies on: names of generated fields, the update order of derived
//! variables, the layout of the state struct, the style scope of elements,
//! and the checks on event handlers and the dispatch of events.

pub mod attr;
pub mod derived;
pub mod func;
pub mod handlers;
pub mod infer;
pub mod node;
pub mod state;
