//! RSvelte: a compiler for Svelte-like `.rsvelte` components whose script code
//! is Rust. This crate holds the verified front end of the compiler: the readers
//! of the component source, the template and style parsers, and the ordering and
//! naming rules that later stages rely on.

pub mod code_gen;
pub mod events;
pub mod numtext;
pub mod parse;
pub mod text;
pub mod transform;
pub mod utils;

use vstd::prelude::*;

verus! {

/// What the compiler produces for a project: the Rust source of the page's
/// state module, and the JavaScript startup module.
pub struct CompileOutput {
    pub state_rs: String,
    pub startup_js: String,
}

/// The fixed files of a generated project: the crate root of the WebAssembly
/// module, the patch applier, the page, and the module's Cargo manifest.
///
/// `index.html` and `patches.js` go beside `startup.js`; `lib.rs` goes into
/// `src/` beside `state.rs`, with `Cargo.toml` in the parent directory.
pub struct StaticFiles {
    pub lib_rs: String,
    pub patches_js: String,
    pub index_html: String,
    pub cargo_toml: String,
}

/// The crate root of the generated WebAssembly module, as shipped with the
/// compiler.
pub const LIB_RS: &'static str = "use std::sync::atomic::AtomicU32;\n\nuse serde::Serialize;\nuse wasm_bindgen::prelude::*;\n\nmod state;\nuse state::{affect_state, apply_state};\n\n#[derive(Serialize)]\nenum PatchOp {\n    SetContent { value: String },\n    SetAttribute { name: String, value: String },\n}\n\n#[derive(Serialize)]\npub struct Patch {\n    target_id: u32,\n    operation: PatchOp,\n}\n\nstatic DIRTY_FLAGS: AtomicU32 = AtomicU32::new(0);\n\n#[wasm_bindgen]\npub fn first_patch() -> JsValue {\n    state::init();\n    // Set all flags to dirty on first patch\n    DIRTY_FLAGS.store(u32::MAX, std::sync::atomic::Ordering::SeqCst);\n    serde_wasm_bindgen::to_value(&apply_state()).unwrap()\n}\n\n#[wasm_bindgen]\npub fn handle_event(e: web_sys::Event, target: u32) -> JsValue {\n    DIRTY_FLAGS.store(0, std::sync::atomic::Ordering::SeqCst);\n    affect_state(e, target);\n    serde_wasm_bindgen::to_value(&apply_state()).unwrap()\n}\n";

/// The fixed files of a generated project: the crate root shipped with the
/// compiler (`LIB_RS`), and the patch applier, the page and the module's
/// Cargo manifest as given.
pub fn get_static_files(patches_js: &str, index_html: &str, cargo_toml: &str) -> (files: StaticFiles)
    ensures
        files.lib_rs@ == LIB_RS@,
        files.patches_js@ == patches_js@,
        files.index_html@ == index_html@,
        files.cargo_toml@ == cargo_toml@,
{
    StaticFiles {
        lib_rs: LIB_RS.to_string(),
        patches_js: patches_js.to_string(),
        index_html: index_html.to_string(),
        cargo_toml: cargo_toml.to_string(),
    }
}

} // verus!
