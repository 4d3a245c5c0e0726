//! Parsing of `.rsvelte` components: a component is a sequence of sections,
//! `<script>...</script>`, `<style>...</style>`, and one template root element.

pub mod css_parse;
pub mod gen_vars;
pub mod html_parse;
pub mod rs_parse;
pub mod script;

use std::collections::hash_map::DefaultHasher;
use std::hash::Hasher;

use vstd::prelude::*;
use vstd::std_specs::hash::DefaultHasherAdditionalSpecFns;
use vstd::string::StringExecFns;

use crate::numtext::{spec_digits, to_hex};
use crate::parse::css_parse::{CSSRule, SpecCSSRule, css_ok, parse_css, rules_view, spec_parse_css};
use crate::parse::html_parse::{
    Element, SElement, STagType, StopKind, TagType, element_view, read_until_kind, skip_ws,
    spec_read_closing_tag, spec_read_element_with_tag, spec_read_tag, tag_view, try_read_closing_tag,
    try_read_element_with_tag, try_read_tag, until_len, lemma_until_len_bounds,
    lemma_read_tag_shrinks,
};
use crate::utils::{
    CharStream, CompileError, Coord, chars_of, generic_error, kept_len, read_until_string, room,
    scan_len, string_from_chars,
};

verus! {

/// A component imported by a script: `import Name from "path";`.
pub struct ComponentImport {
    pub name: String,
    pub path: String,
}

/// A parsed component: a hash of its source path (for unique names in the
/// generated code), its source path, its template root, the source text of its
/// script, and its style rules.
pub struct ComponentAST {
    pub id_hash: String,
    pub source_path: String,
    pub body: Element,
    pub script: Option<String>,
    pub style: Option<Vec<CSSRule>>,
}

/// The sections of a component read so far.
pub struct ComponentASTBuilder {
    pub body: Option<Element>,
    pub script: Option<String>,
    pub style: Option<Vec<CSSRule>>,
}

/// A section of a component.
pub enum ParentElement {
    Script(String),
    Style(Vec<CSSRule>),
    Body(Element),
}

/// Feeds `path` to `hasher` as `<std::path::Path as std::hash::Hash>::hash`
/// does. Nothing is claimed of what it writes to the hasher: that depends on
/// how the platform splits a path into components.
#[verifier::external_body]
fn hash_path(path: &str, hasher: &mut DefaultHasher) {
    std::hash::Hash::hash(std::path::Path::new(path), hasher)
}

/// The hash of `path` as a `std::path::Path`, with a fresh
/// `std::collections::hash_map::DefaultHasher`: the digest that the hasher
/// gives for the writes that hashing the path makes.
fn path_hash(path: &str) -> (h: u64)
    ensures
        exists|writes: Seq<Seq<u8>>| h == DefaultHasher::spec_finish(writes),
{
    let mut hasher = DefaultHasher::new();
    hash_path(path, &mut hasher);
    let h = hasher.finish();
    assert(h == DefaultHasher::spec_finish(hasher@));
    h
}

/// The message for a component without a template.
pub open spec fn msg_no_body() -> Seq<char> {
    "No HTML body found in component"@
}

impl ComponentASTBuilder {
    /// The component with these sections, read from `source_path`; it must
    /// have a template.
    pub fn into(self, source_path: String) -> (r: Result<ComponentAST, CompileError>)
        ensures
            self.body is None ==> (r matches Err(CompileError::GenericError(m)) && m@
                == msg_no_body()),
            self.body is Some ==> (r matches Ok(c) && c.source_path == source_path && c.body
                == self.body->Some_0 && c.script == self.script && c.style == self.style && exists|
                h: u64|
                c.id_hash@ == spec_digits(h as nat, 16)),
    {
        let h = path_hash(&source_path);
        let id_hash = to_hex(h);
        match self.body {
            None => Err(generic_error("No HTML body found in component")),
            Some(body) => Ok(
                ComponentAST { id_hash, source_path, body, script: self.script, style: self.style },
            ),
        }
    }
}

// ---------------------------------------------------------------------------
// Reading the sections.

pub enum SParent {
    Script(Seq<char>),
    Style(Seq<SpecCSSRule>),
    Body(SElement),
}

pub open spec fn parent_view(p: ParentElement) -> SParent {
    match p {
        ParentElement::Script(s) => SParent::Script(s@),
        ParentElement::Style(r) => SParent::Style(rules_view(r@)),
        ParentElement::Body(e) => SParent::Body(element_view(e)),
    }
}

/// The message for a closing tag where a section should start.
pub open spec fn msg_unexpected_closing(name: Seq<char>) -> Seq<char> {
    "Unexpected closing tag </"@ + name + ">"@
}

/// Reads a section at the start of `s`: a `<script>` section (whose text runs
/// up to `</script>`), a `<style>` section (whose text runs up to the next `<`,
/// which must start `</style>`), or a template element. A closing tag is an
/// error.
pub open spec fn spec_read_parent_elem(s: Seq<char>, ids: u32) -> Option<
    Result<(SParent, Seq<char>, u32), Seq<char>>,
> {
    match spec_read_tag(s) {
        None => None,
        Some(p) => match p.0 {
            STagType::Closing(name) => Some(Err(msg_unexpected_closing(name))),
            STagType::Opening(tag) => {
                let r = p.1;
                if tag.name == "script"@ {
                    Some(
                        Ok(
                            (
                                SParent::Script(r.take(kept_len(r, "</script>"@))),
                                r.skip(scan_len(r, "</script>"@)),
                                ids,
                            ),
                        ),
                    )
                } else if tag.name == "style"@ {
                    let n = until_len(r, StopKind::Lt);
                    let css = r.take(n);
                    match spec_read_closing_tag(r.skip(n), "style"@) {
                        None => None,
                        Some(r3) => if css_ok(css) {
                            Some(Ok((SParent::Style(spec_parse_css(css)), r3, ids)))
                        } else {
                            None
                        },
                    }
                } else {
                    match spec_read_element_with_tag(r, ids, tag) {
                        None => None,
                        Some(q) => Some(Ok((SParent::Body(q.0), q.1, q.2))),
                    }
                }
            },
        },
    }
}

/// The sections of a component, by kind; a later section of a kind replaces
/// an earlier one.
pub struct SParts {
    pub script: Option<Seq<char>>,
    pub style: Option<Seq<SpecCSSRule>>,
    pub body: Option<SElement>,
}

pub open spec fn set_part(parts: SParts, p: SParent) -> SParts {
    match p {
        SParent::Script(s) => SParts { script: Some(s), ..parts },
        SParent::Style(r) => SParts { style: Some(r), ..parts },
        SParent::Body(e) => SParts { body: Some(e), ..parts },
    }
}

/// Reads the sections of `s`, each after optional white space, up to the end.
pub open spec fn spec_parse_sections(s: Seq<char>, ids: u32, parts: SParts) -> Option<
    Result<SParts, Seq<char>>,
>
    decreases s.len(),
{
    let t = skip_ws(s);
    if t.len() == 0 {
        Some(Ok(parts))
    } else {
        match spec_read_parent_elem(t, ids) {
            None => None,
            Some(Err(m)) => Some(Err(m)),
            Some(Ok(q)) => if q.1.len() < s.len() {
                spec_parse_sections(q.1, q.2, set_part(parts, q.0))
            } else {
                None
            },
        }
    }
}

/// The sections of a component's source text, numbering template elements from
/// 0; a component without a template is an error.
pub open spec fn spec_parse(s: Seq<char>) -> Option<Result<SParts, Seq<char>>> {
    match spec_parse_sections(s, 0, SParts { script: None, style: None, body: None }) {
        Some(Ok(p)) => if p.body is None {
            Some(Err(msg_no_body()))
        } else {
            Some(Ok(p))
        },
        other => other,
    }
}

/// Reads a section; `None` where reading cannot go on.
pub fn try_read_parent_elem(chars: &mut CharStream, coord: &mut Coord, id_counter: &mut u32) -> (r:
    Option<Result<ParentElement, CompileError>>)
    requires
        room(*old(coord), old(chars).rest().len()),
    ensures
        match spec_read_parent_elem(old(chars).rest(), *old(id_counter)) {
            None => r is None,
            Some(Err(m)) => r matches Some(Err(CompileError::GenericError(e))) && e@ == m,
            Some(Ok(q)) => r matches Some(Ok(p)) && parent_view(p) == q.0 && final(chars).rest()
                == q.1 && *final(id_counter) == q.2,
        },
        final(chars).rest().len() < old(chars).rest().len() || r is None || r matches Some(Err(_)),
        room(*final(coord), final(chars).rest().len()),
{
    let ghost s = chars.rest();
    proof {
        lemma_read_tag_shrinks(s);
    }
    let tag = match try_read_tag(chars, coord) {
        None => {
            return None;
        },
        Some(t) => t,
    };
    let tag = match tag {
        TagType::Opening(tag) => tag,
        TagType::Closing(name) => {
            let mut m = String::from_str("Unexpected closing tag </");
            m.append(name.as_str());
            m.append(">");
            return Some(Err(CompileError::GenericError(m)));
        },
    };
    let ghost r = chars.rest();
    let name = chars_of(&tag.name);
    let script = chars_of("script");
    let style = chars_of("style");
    if crate::text::chars_eq(name.as_slice(), script.as_slice()) {
        proof {
            crate::utils::lemma_scan_len_bounds(r, "</script>"@);
        }
        let js = read_until_string(chars, "</script>", coord);
        Some(Ok(ParentElement::Script(js)))
    } else if crate::text::chars_eq(name.as_slice(), style.as_slice()) {
        proof {
            lemma_until_len_bounds(r, StopKind::Lt);
        }
        let css = read_until_kind(chars, StopKind::Lt, coord);
        match try_read_closing_tag(chars, coord, "style") {
            None => {
                return None;
            },
            Some(_) => {},
        }
        let css_chars = chars_of(&css);
        if !css_is_ok(css_chars.as_slice()) {
            return None;
        }
        Some(Ok(ParentElement::Style(parse_css(&css))))
    } else {
        match try_read_element_with_tag(chars, coord, id_counter, tag) {
            None => None,
            Some(e) => Some(Ok(ParentElement::Body(e))),
        }
    }
}

/// Reads a section of a component.
pub fn read_parent_elem(chars: &mut CharStream, coord: &mut Coord, id_counter: &mut u32) -> (r: Result<
    ParentElement,
    CompileError,
>)
    requires
        room(*old(coord), old(chars).rest().len()),
        spec_read_parent_elem(old(chars).rest(), *old(id_counter)) is Some,
    ensures
        match spec_read_parent_elem(old(chars).rest(), *old(id_counter))->Some_0 {
            Err(m) => r matches Err(CompileError::GenericError(e)) && e@ == m,
            Ok(q) => r matches Ok(p) && parent_view(p) == q.0 && final(chars).rest() == q.1
                && *final(id_counter) == q.2,
        },
        room(*final(coord), final(chars).rest().len()),
{
    match try_read_parent_elem(chars, coord, id_counter) {
        Some(r) => r,
        None => Err(CompileError::GenericError(String::new())),
    }
}

/// Whether every line of a style text can be read.
fn css_is_ok(css: &[char]) -> (r: bool)
    ensures
        r == css_ok(css@),
{
    let lines = crate::text::split_chars(css, '\n');
    let prefix = vec![':', 'g', 'l', 'o', 'b', 'a', 'l', '('];
    assert(prefix@ =~= crate::parse::css_parse::global_prefix());
    let mut i: usize = 0;
    while i < lines.len()
        invariant
            i <= lines@.len(),
            lines@.len() == crate::text::split(css@, '\n').len(),
            forall|k: int| 0 <= k < lines@.len() ==> #[trigger] lines@[k]@ == crate::text::split(css@, '\n')[k],
            prefix@ == crate::parse::css_parse::global_prefix(),
            forall|k: int| 0 <= k < i ==> crate::parse::css_parse::css_line_ok(#[trigger] crate::text::split(css@, '\n')[k]),
        decreases lines@.len() - i,
    {
        let line = crate::text::trim_chars(lines[i].as_slice());
        if crate::text::starts_with_chars(line.as_slice(), prefix.as_slice()) {
            if crate::text::find_char(line.as_slice(), ')').is_none() {
                assert(!crate::parse::css_parse::css_line_ok(crate::text::split(css@, '\n')[i as int]));
                return false;
            }
        }
        i = i + 1;
    }
    true
}

impl SParts {
    pub open spec fn from_builder(b: ComponentASTBuilder) -> SParts {
        SParts {
            script: match b.script {
                Some(s) => Some(s@),
                None => None,
            },
            style: match b.style {
                Some(r) => Some(rules_view(r@)),
                None => None,
            },
            body: match b.body {
                Some(e) => Some(element_view(e)),
                None => None,
            },
        }
    }
}

/// Reads the sections of a component's source text; `None` where reading
/// cannot go on. Template elements are numbered from 0.
pub fn try_parse_sections(contents: &str) -> (r: Option<Result<ComponentASTBuilder, CompileError>>)
    requires
        contents@.len() < usize::MAX,
    ensures
        match spec_parse_sections(contents@, 0, SParts { script: None, style: None, body: None }) {
            None => r is None,
            Some(Err(m)) => r matches Some(Err(CompileError::GenericError(e))) && e@ == m,
            Some(Ok(p)) => r matches Some(Ok(b)) && SParts::from_builder(b) == p,
        },
{
    let mut coord = Coord { line: 1, col: 0 };
    let mut chars = CharStream::new(contents);
    let mut id_counter: u32 = 0;
    let mut builder = ComponentASTBuilder { body: None, script: None, style: None };
    loop
        invariant
            room(coord, chars.rest().len()),
            spec_parse_sections(contents@, 0, SParts { script: None, style: None, body: None })
                == spec_parse_sections(chars.rest(), id_counter, SParts::from_builder(builder)),
        decreases chars.rest().len(),
    {
        let ghost s = chars.rest();
        proof {
            lemma_until_len_bounds(s, StopKind::NonWs);
        }
        read_until_kind(&mut chars, StopKind::NonWs, &mut coord);
        if chars.peek().is_none() {
            return Some(Ok(builder));
        }
        let parent = match try_read_parent_elem(&mut chars, &mut coord, &mut id_counter) {
            None => {
                return None;
            },
            Some(Err(e)) => {
                return Some(Err(e));
            },
            Some(Ok(p)) => p,
        };
        match parent {
            ParentElement::Script(script) => {
                builder.script = Some(script);
            },
            ParentElement::Style(style) => {
                builder.style = Some(style);
            },
            ParentElement::Body(elem) => {
                builder.body = Some(elem);
            },
        }
    }
}

/// Parses a component from its source text `contents`, read from
/// `source_path`; `None` where reading cannot go on.
pub fn try_parse(contents: &str, source_path: String) -> (r: Option<Result<ComponentAST, CompileError>>)
    requires
        contents@.len() < usize::MAX,
    ensures
        match spec_parse(contents@) {
            None => r is None,
            Some(Err(m)) => r matches Some(Err(CompileError::GenericError(e))) && e@ == m,
            Some(Ok(p)) => r matches Some(Ok(c)) && c.source_path == source_path && Some(
                element_view(c.body),
            ) == p.body && match c.script {
                Some(s) => Some(s@),
                None => None,
            } == p.script && match c.style {
                Some(st) => Some(rules_view(st@)),
                None => None,
            } == p.style && exists|h: u64| c.id_hash@ == spec_digits(h as nat, 16),
        },
{
    match try_parse_sections(contents) {
        None => None,
        Some(Err(e)) => Some(Err(e)),
        Some(Ok(builder)) => Some(builder.into(source_path)),
    }
}

/// Parses a component from its source text `contents`, read from
/// `source_path`: its sections are read (see `spec_parse`), and the
/// component must have a template.
pub fn parse(contents: &str, source_path: String) -> (r: Result<ComponentAST, CompileError>)
    requires
        contents@.len() < usize::MAX,
        spec_parse(contents@) is Some,
    ensures
        match spec_parse(contents@)->Some_0 {
            Err(m) => r matches Err(CompileError::GenericError(e)) && e@ == m,
            Ok(p) => r matches Ok(c) && c.source_path == source_path && Some(element_view(c.body))
                == p.body && match c.script {
                Some(s) => Some(s@),
                None => None,
            } == p.script && match c.style {
                Some(st) => Some(rules_view(st@)),
                None => None,
            } == p.style && exists|h: u64| c.id_hash@ == spec_digits(h as nat, 16),
        },
{
    match try_parse(contents, source_path) {
        Some(r) => r,
        None => Err(CompileError::GenericError(String::new())),
    }
}

// ---------------------------------------------------------------------------
// Finding the components of a project.

/// The text of each of `v`.
pub open spec fn texts(v: Seq<String>) -> Seq<Seq<char>> {
    v.map_values(|s: String| s@)
}

/// The components of a project still to be read, as a stack of canonical
/// source paths, and the paths read so far. Reading starts from the root
/// component; each component read pushes the paths it imports, and a path is
/// read at most once.
pub struct ComponentQueue {
    pending: Vec<String>,
    seen: Vec<String>,
}

impl ComponentQueue {
    /// The paths still to be read; the last is taken first.
    pub closed spec fn pending_view(&self) -> Seq<Seq<char>> {
        texts(self.pending@)
    }

    /// The paths handed out so far, in order.
    pub closed spec fn seen_view(&self) -> Seq<Seq<char>> {
        texts(self.seen@)
    }

    /// A queue holding only the root component's path.
    pub fn new(root: String) -> (q: Self)
        ensures
            q.pending_view() == seq![root@],
            q.seen_view() == Seq::<Seq<char>>::empty(),
    {
        let mut pending = Vec::new();
        pending.push(root);
        let q = ComponentQueue { pending, seen: Vec::new() };
        assert(q.pending_view() =~= seq![q.pending@[0]@]);
        assert(q.seen_view() =~= Seq::<Seq<char>>::empty());
        q
    }

    /// Pushes the paths that a component imports, in order.
    pub fn add_imports(&mut self, paths: Vec<String>)
        ensures
            final(self).pending_view() == old(self).pending_view() + texts(paths@),
            final(self).seen_view() == old(self).seen_view(),
    {
        let ghost old_pending = self.pending@;
        let mut i: usize = 0;
        let ghost all = paths@;
        while i < paths.len()
            invariant
                i <= paths@.len(),
                paths@ == all,
                texts(self.pending@) == texts(old_pending) + texts(all.take(i as int)),
                self.seen@ == old(self).seen@,
            decreases paths@.len() - i,
        {
            let ghost pending_before = self.pending@;
            let p = paths[i].clone();
            self.pending.push(p);
            assert(texts(self.pending@) =~= texts(pending_before).push(all[i as int]@));
            assert(texts(all.take(i + 1)) =~= texts(all.take(i as int)).push(all[i as int]@));
            assert(texts(self.pending@) =~= texts(old_pending) + texts(all.take(i + 1)));
            i = i + 1;
        }
        assert(all.take(i as int) =~= all);
    }

    /// Whether `p` has been handed out already.
    fn was_seen(&self, p: &String) -> (r: bool)
        ensures
            r == self.seen_view().contains(p@),
    {
        let mut i: usize = 0;
        while i < self.seen.len()
            invariant
                i <= self.seen@.len(),
                forall|j: int| 0 <= j < i ==> self.seen@[j]@ != p@,
            decreases self.seen@.len() - i,
        {
            if self.seen[i] == *p {
                assert(self.seen_view()[i as int] == p@);
                return true;
            }
            i = i + 1;
        }
        assert forall|j: int| 0 <= j < self.seen_view().len() implies self.seen_view()[j] != p@ by {
            assert(self.seen_view()[j] == self.seen@[j]@);
        }
        false
    }

    /// The next path to read: the top of the stack once the paths already
    /// read have been dropped from it. The path is recorded as read. `None`
    /// once every path on the stack has been read.
    pub fn next_path(&mut self) -> (r: Option<String>)
        ensures
            match r {
                Some(p) => exists|k: int|
                    #![trigger old(self).pending_view()[k]]
                    0 <= k < old(self).pending_view().len() && old(self).pending_view()[k] == p@
                        && !old(self).seen_view().contains(p@) && (forall|j: int|
                        k < j < old(self).pending_view().len() ==> old(self).seen_view().contains(
                            #[trigger] old(self).pending_view()[j],
                        )) && final(self).pending_view() == old(self).pending_view().take(k)
                        && final(self).seen_view() == old(self).seen_view().push(p@),
                None => (forall|j: int|
                    0 <= j < old(self).pending_view().len() ==> old(self).seen_view().contains(
                        #[trigger] old(self).pending_view()[j],
                    )) && final(self).pending_view() == Seq::<Seq<char>>::empty()
                    && final(self).seen_view() == old(self).seen_view(),
            },
            old(self).seen_view().no_duplicates() ==> final(self).seen_view().no_duplicates(),
    {
        let ghost old_pending = self.pending_view();
        let ghost old_seen = self.seen_view();
        loop
            invariant
                self.seen@ == old(self).seen@,
                self.pending_view().len() <= old_pending.len(),
                self.pending_view() == old_pending.take(self.pending_view().len() as int),
                old_seen == self.seen_view(),
                old_pending == old(self).pending_view(),
                old_seen == old(self).seen_view(),
                forall|j: int|
                    self.pending_view().len() <= j < old_pending.len() ==> old_seen.contains(
                        #[trigger] old_pending[j],
                    ),
            decreases self.pending@.len(),
        {
            let ghost before = self.pending@;
            match self.pending.pop() {
                None => {
                    assert(self.pending_view() =~= Seq::<Seq<char>>::empty());
                    return None;
                },
                Some(p) => {
                    let k = self.pending.len();
                    assert(before == self.pending@.push(p));
                    assert(texts(self.pending@) =~= texts(before).take(k as int));
                    assert(texts(before)[k as int] == p@);
                    if !self.was_seen(&p) {
                        let ghost seen_before = self.seen_view();
                        let r = p.clone();
                        self.seen.push(p);
                        assert(self.seen_view() =~= seen_before.push(r@));
                        proof {
                            if seen_before.no_duplicates() {
                                assert forall|a: int, b: int|
                                    0 <= a < self.seen_view().len() && 0 <= b < self.seen_view().len()
                                        && a != b implies self.seen_view()[a] != self.seen_view()[b] by {
                                    if a == seen_before.len() as int {
                                        assert(!seen_before.contains(r@));
                                        assert(self.seen_view()[b] == seen_before[b]);
                                    } else if b == seen_before.len() as int {
                                        assert(!seen_before.contains(r@));
                                        assert(self.seen_view()[a] == seen_before[a]);
                                    }
                                }
                            }
                        }
                        assert(old_pending[k as int] == r@);
                        return Some(r);
                    }
                },
            }
        }
    }
}

} // verus!
