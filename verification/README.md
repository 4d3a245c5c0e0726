# rsvelte

A compiler for Svelte-like `.rsvelte` components whose script code is Rust.
A component is a `<script>` section, a `<style>` section and one template
element; the compiler turns a project of components into the Rust state module
and the JavaScript startup module of a WebAssembly page.

## Layout

- `src/` is the verified library (Verus):
  - `utils`: the character stream that the parsers read, positions, errors;
  - `text`, `numtext`: operations on character sequences and numbers as text;
  - `events`: the table of supported DOM events;
  - `parse`: the component sections (`mod`), the template (`html_parse`),
    the style rules (`css_parse`), attribute values and closures
    (`rs_parse`), the script section with its `struct $state`, `impl $state`
    and `import` forms (`script`), and what each state declaration becomes
    (`gen_vars`); the queue of components still to read;
  - `transform`: the node tree built from a template (`node`), its attributes
    (`attr`), the flags that expressions read, the renaming of variables
    in them and the update order of derived variables (`derived`), the
    layout of the state struct (`state`), and the checks on event handlers
    and the dispatch of events to them (`func`);
  - `code_gen`: the JavaScript that builds the page's nodes and installs its
    event listeners, and the scope passed through fragments.
- `app/` is the driver around it: reading files, turning the texts of state
  functions and items into `syn` values, rewriting expressions, generating
  Rust with `quote`, and building the output project.
- `tests/` exercises the library on concrete inputs.

## What the generated page does

The page is built once by the JavaScript startup module: a node map that
creates the template's elements, sets their string attributes, and installs
the event listeners. An event is dispatched to its handler (a state function
or a closure) through the generated `dispatch_event`, and the derived
variables are recomputed from the flags of what changed (`update_derived`).
Code that re-renders fragments of the DOM after a state change (updating
text and attributes in place, switching `{#if}` branches, re-running
`{#each}` blocks) is not generated.
