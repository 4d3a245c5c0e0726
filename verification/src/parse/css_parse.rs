//! The style section of a component: a list of rules, each a selector and its
//! declarations, one per line.

use vstd::prelude::*;
use vstd::string::StringExecFns;

use crate::text::{find, lemma_find, slice_chars, split, starts_with, starts_with_chars, trim, trim_chars, find_char};
use crate::utils::{chars_of, string_from_chars};

verus! {

/// A style rule: its selector, its declaration lines, and whether it was
/// written as `:global(selector)`.
pub struct CSSRule {
    pub selector: String,
    pub declarations: Vec<String>,
    pub is_global: bool,
}

/// A style rule over character sequences.
pub struct SpecCSSRule {
    pub selector: Seq<char>,
    pub declarations: Seq<Seq<char>>,
    pub is_global: bool,
}

/// The character sequences that a rule holds.
pub open spec fn rule_view(r: CSSRule) -> SpecCSSRule {
    SpecCSSRule {
        selector: r.selector@,
        declarations: r.declarations@.map_values(|d: String| d@),
        is_global: r.is_global,
    }
}

/// The rules read so far, and the rule whose declarations are being read.
pub struct CssState {
    pub rules: Seq<SpecCSSRule>,
    pub current: Option<SpecCSSRule>,
}

/// `:global(`
pub open spec fn global_prefix() -> Seq<char> {
    seq![':', 'g', 'l', 'o', 'b', 'a', 'l', '(']
}

/// A line that opens a `:global(` selector must close it on the same line.
pub open spec fn css_line_ok(raw: Seq<char>) -> bool {
    let line = trim(raw);
    starts_with(line, global_prefix()) ==> find(line, ')') is Some
}

/// Every line of the style text can be read.
pub open spec fn css_ok(css: Seq<char>) -> bool {
    forall|i: int| 0 <= i < split(css, '\n').len() ==> css_line_ok(#[trigger] split(css, '\n')[i])
}

/// A trimmed line, with `:global(sel) ...` read as `sel {`.
pub open spec fn css_effective_line(line: Seq<char>) -> Seq<char> {
    if starts_with(line, global_prefix()) {
        match find(line, ')') {
            Some(e) => trim(line.subrange(8, e)) + seq![' ', '{'],
            None => line,
        }
    } else {
        line
    }
}

/// The effect of one line of style text.
pub open spec fn css_step(st: CssState, raw: Seq<char>) -> CssState {
    let line = trim(raw);
    if line.len() == 0 {
        st
    } else {
        let is_global = starts_with(line, global_prefix());
        let l = css_effective_line(line);
        if l.len() > 0 && l.last() == '{' {
            CssState {
                rules: st.rules,
                current: Some(
                    SpecCSSRule { selector: trim(l.drop_last()), declarations: seq![], is_global },
                ),
            }
        } else if l == seq!['}'] {
            match st.current {
                Some(r) => CssState { rules: st.rules.push(r), current: None },
                None => st,
            }
        } else {
            match st.current {
                Some(r) => CssState {
                    rules: st.rules,
                    current: Some(
                        SpecCSSRule {
                            selector: r.selector,
                            declarations: r.declarations.push(l),
                            is_global: r.is_global,
                        },
                    ),
                },
                None => st,
            }
        }
    }
}

/// The effect of the lines `lines`, in order.
pub open spec fn css_fold(lines: Seq<Seq<char>>, st: CssState) -> CssState
    decreases lines.len(),
{
    if lines.len() == 0 {
        st
    } else {
        css_fold(lines.drop_first(), css_step(st, lines[0]))
    }
}

/// The rules of a style text: each line is trimmed and blank lines are
/// skipped; a line ending in `{` opens a rule with the text before it as
/// selector, a line `}` closes the open rule, and any other line is a
/// declaration of the open rule. A rule that is never closed is dropped, and
/// so is one that another opening line replaces.
pub open spec fn spec_parse_css(css: Seq<char>) -> Seq<SpecCSSRule> {
    css_fold(split(css, '\n'), CssState { rules: seq![], current: None }).rules
}

/// The view of the rule being read, if any.
pub open spec fn opt_rule_view(o: Option<CSSRule>) -> Option<SpecCSSRule> {
    match o {
        Some(r) => Some(rule_view(r)),
        None => None,
    }
}

/// The view of a list of rules.
pub open spec fn rules_view(v: Seq<CSSRule>) -> Seq<SpecCSSRule> {
    v.map_values(|r: CSSRule| rule_view(r))
}

/// The index of the first `c` in `v` at or after `from`.
fn find_char_from(v: &[char], from: usize, c: char) -> (r: Option<usize>)
    requires
        from <= v@.len(),
    ensures
        r matches Some(i) ==> find(v@.skip(from as int), c) == Some(i - from) && from <= i
            < v@.len(),
        r is None ==> find(v@.skip(from as int), c) is None,
{
    let ghost s = v@.skip(from as int);
    proof {
        lemma_find(s, c);
    }
    let mut i: usize = from;
    while i < v.len()
        invariant
            from <= i <= v@.len(),
            s == v@.skip(from as int),
            forall|j: int| 0 <= j < i - from ==> s[j] != c,
        decreases v@.len() - i,
    {
        if v[i] == c {
            proof {
                lemma_find(s, c);
                assert(s[i - from] == c);
                if find(s, c) is Some {
                    let k = find(s, c)->Some_0;
                    if k < i - from {
                        assert(s[k] == c);
                    }
                    if k > i - from {
                        assert(s[i - from] != c);
                    }
                }
            }
            return Some(i);
        }
        i = i + 1;
    }
    proof {
        lemma_find(s, c);
        if find(s, c) is Some {
            let k = find(s, c)->Some_0;
            assert(s[k] == c);
        }
    }
    None
}

proof fn lemma_split_some(s: Seq<char>, i: int)
    requires
        find(s, '\n') == Some(i),
    ensures
        split(s, '\n') == seq![s.take(i)] + split(s.skip(i + 1), '\n'),
        split(s, '\n').drop_first() == split(s.skip(i + 1), '\n'),
        split(s, '\n')[0] == s.take(i),
{
    assert((seq![s.take(i)] + split(s.skip(i + 1), '\n')).drop_first() =~= split(
        s.skip(i + 1),
        '\n',
    ));
}

/// Applies one line of style text to the rules read so far.
fn css_apply_line(
    line_raw: &[char],
    rules: &mut Vec<CSSRule>,
    current: &mut Option<CSSRule>,
)
    requires
        css_line_ok(line_raw@),
    ensures
        ({
            let st = css_step(
                CssState { rules: rules_view(old(rules)@), current: opt_rule_view(*old(current)) },
                line_raw@,
            );
            &&& st.rules == rules_view(final(rules)@)
            &&& st.current == opt_rule_view(*final(current))
        }),
{
    let line = trim_chars(line_raw);
    if line.len() == 0 {
        return ;
    }
    let prefix = vec![':', 'g', 'l', 'o', 'b', 'a', 'l', '('];
    assert(prefix@ =~= global_prefix());
    let is_global = starts_with_chars(line.as_slice(), prefix.as_slice());
    let l: Vec<char> = if is_global {
        let e = find_char(line.as_slice(), ')');
        match e {
            Some(e) => {
                proof {
                    lemma_find(line@, ')');
                }
                let inner = slice_chars(line.as_slice(), 8, e);
                let mut sc = trim_chars(inner.as_slice());
                sc.push(' ');
                sc.push('{');
                assert(sc@ =~= trim(line@.subrange(8, e as int)) + seq![' ', '{']);
                sc
            },
            None => line,
        }
    } else {
        line
    };
    let n = l.len();
    if n > 0 && l[n - 1] == '{' {
        let body = slice_chars(l.as_slice(), 0, n - 1);
        assert(body@ =~= l@.drop_last());
        let sel = trim_chars(body.as_slice());
        let rule = CSSRule {
            selector: string_from_chars(sel.as_slice()),
            declarations: Vec::new(),
            is_global,
        };
        proof {
            assert(rule_view(rule).declarations =~= Seq::<Seq<char>>::empty());
        }
        *current = Some(rule);
    } else if n == 1 && l[0] == '}' {
        assert(l@ =~= seq!['}']);
        let taken = current.take();
        match taken {
            Some(rule) => {
                let ghost old_rules = rules@;
                rules.push(rule);
                proof {
                    assert(rules_view(rules@) =~= rules_view(old_rules).push(rule_view(rule)));
                }
            },
            None => {},
        }
    } else {
        assert(l@ != seq!['}']);
        match current {
            Some(rule) => {
                let ghost old_decls = rule.declarations@;
                rule.declarations.push(string_from_chars(l.as_slice()));
                proof {
                    assert(rule.declarations@.map_values(|d: String| d@) =~= old_decls.map_values(
                        |d: String| d@,
                    ).push(l@));
                }
            },
            None => {},
        }
    }
}

/// Reads the rules of a style text; see `spec_parse_css`.
pub fn parse_css(css: &str) -> (rules: Vec<CSSRule>)
    requires
        css_ok(css@),
    ensures
        rules_view(rules@) == spec_parse_css(css@),
{
    let v = chars_of(css);
    let n = v.len();
    let mut rules: Vec<CSSRule> = Vec::new();
    let mut current: Option<CSSRule> = None;
    let mut a: usize = 0;
    proof {
        assert(v@.skip(0) =~= v@);
        assert(rules_view(rules@) =~= Seq::<SpecCSSRule>::empty());
    }
    loop
        invariant
            n == v@.len(),
            a <= n,
            css_ok(v@.skip(a as int)),
            css_fold(split(css@, '\n'), CssState { rules: seq![], current: None }) == css_fold(
                split(v@.skip(a as int), '\n'),
                CssState { rules: rules_view(rules@), current: opt_rule_view(current) },
            ),
        decreases n - a,
    {
        let ghost r = v@.skip(a as int);
        match find_char_from(v.as_slice(), a, '\n') {
            Some(i) => {
                let line = slice_chars(v.as_slice(), a, i);
                proof {
                    lemma_split_some(r, i - a);
                    assert(line@ =~= r.take(i - a));
                    assert(css_line_ok(split(r, '\n')[0]));
                    assert(r.skip(i - a + 1) =~= v@.skip(i + 1));
                    assert forall|k: int|
                        0 <= k < split(v@.skip(i + 1), '\n').len() implies css_line_ok(
                        #[trigger] split(v@.skip(i + 1), '\n')[k],
                    ) by {
                        assert(split(v@.skip(i + 1), '\n')[k] == split(r, '\n')[k + 1]);
                    }
                }
                css_apply_line(line.as_slice(), &mut rules, &mut current);
                a = i + 1;
            },
            None => {
                let line = slice_chars(v.as_slice(), a, n);
                proof {
                    assert(line@ =~= r);
                    assert(split(r, '\n') == seq![r]);
                    assert(css_line_ok(split(r, '\n')[0]));
                    assert(seq![r].drop_first() =~= Seq::<Seq<char>>::empty());
                }
                let ghost st = CssState { rules: rules_view(rules@), current: opt_rule_view(current) };
                css_apply_line(line.as_slice(), &mut rules, &mut current);
                proof {
                    reveal_with_fuel(css_fold, 2);
                    assert(css_fold(split(r, '\n'), st) == css_step(st, r));
                }
                return rules;
            },
        }
    }
}

/// The declaration lines of a rule, each indented and on a line of its own.
pub open spec fn decls_text(ds: Seq<String>) -> Seq<char>
    decreases ds.len(),
{
    if ds.len() == 0 {
        seq![]
    } else {
        decls_text(ds.drop_last()) + "  "@ + ds.last()@ + "\n"@
    }
}

/// The text of a rule: its selector, then its declarations in braces.
pub open spec fn rule_text(r: CSSRule) -> Seq<char> {
    r.selector@ + " {\n"@ + decls_text(r.declarations@) + "}\n"@
}

/// The text of the rules, in order.
pub open spec fn rules_text(rs: Seq<CSSRule>) -> Seq<char>
    decreases rs.len(),
{
    if rs.len() == 0 {
        seq![]
    } else {
        rules_text(rs.drop_last()) + rule_text(rs.last())
    }
}

/// The style sheet text of `rules`, one rule after the other.
pub fn style_sheet(rules: &Vec<CSSRule>) -> (s: String)
    ensures
        s@ == rules_text(rules@),
{
    let mut s = String::new();
    let mut i: usize = 0;
    while i < rules.len()
        invariant
            i <= rules@.len(),
            s@ == rules_text(rules@.take(i as int)),
        decreases rules@.len() - i,
    {
        let rule = &rules[i];
        let ghost before = s@;
        s.append(rule.selector.as_str());
        s.append(" {\n");
        let ghost head = s@;
        let mut j: usize = 0;
        while j < rule.declarations.len()
            invariant
                j <= rule.declarations@.len(),
                s@ == head + decls_text(rule.declarations@.take(j as int)),
            decreases rule.declarations@.len() - j,
        {
            s.append("  ");
            s.append(rule.declarations[j].as_str());
            s.append("\n");
            assert(rule.declarations@.take(j + 1).drop_last() =~= rule.declarations@.take(j as int));
            j = j + 1;
        }
        assert(rule.declarations@.take(j as int) =~= rule.declarations@);
        s.append("}\n");
        assert(s@ =~= before + rule_text(*rule));
        assert(rules@.take(i + 1).drop_last() =~= rules@.take(i as int));
        i = i + 1;
    }
    assert(rules@.take(i as int) =~= rules@);
    s
}

} // verus!
