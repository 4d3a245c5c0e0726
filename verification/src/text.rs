//! Text operations on character sequences: trimming, prefixes, searching and
//! splitting, with the meaning that `str`'s methods of the same names have.

use vstd::prelude::*;

use crate::utils::{is_ws, is_whitespace};

verus! {

/// `s` without its leading white space.
pub open spec fn trim_start(s: Seq<char>) -> Seq<char>
    decreases s.len(),
{
    if s.len() > 0 && is_ws(s[0]) {
        trim_start(s.drop_first())
    } else {
        s
    }
}

/// `s` without its trailing white space.
pub open spec fn trim_end(s: Seq<char>) -> Seq<char>
    decreases s.len(),
{
    if s.len() > 0 && is_ws(s.last()) {
        trim_end(s.drop_last())
    } else {
        s
    }
}

/// `s` without leading and trailing white space, as `str::trim` gives it.
pub open spec fn trim(s: Seq<char>) -> Seq<char> {
    trim_end(trim_start(s))
}

/// Whether `s` begins with `p`.
pub open spec fn starts_with(s: Seq<char>, p: Seq<char>) -> bool {
    p.len() <= s.len() && s.take(p.len() as int) == p
}

/// `s` with every leading copy of a non-empty `p` removed, as
/// `str::trim_start_matches` gives it.
pub open spec fn trim_start_matches(s: Seq<char>, p: Seq<char>) -> Seq<char>
    decreases s.len(),
{
    if p.len() > 0 && starts_with(s, p) {
        trim_start_matches(s.skip(p.len() as int), p)
    } else {
        s
    }
}

/// The index of the first `c` in `s`, if there is one.
pub open spec fn find(s: Seq<char>, c: char) -> Option<int>
    decreases s.len(),
{
    if s.len() == 0 {
        None
    } else if s[0] == c {
        Some(0)
    } else {
        match find(s.drop_first(), c) {
            Some(i) => Some(i + 1),
            None => None,
        }
    }
}

/// The pieces of `s` between the occurrences of `sep`, in order; an input
/// without `sep` is a single piece.
pub open spec fn split(s: Seq<char>, sep: char) -> Seq<Seq<char>>
    decreases s.len(),
{
    match find(s, sep) {
        Some(i) => {
            proof {
                lemma_find(s, sep);
            }
            seq![s.take(i)] + split(s.skip(i + 1), sep)
        },
        None => seq![s],
    }
}

/// The number of leading white-space characters of `s`.
pub open spec fn lead_ws(s: Seq<char>) -> int
    decreases s.len(),
{
    if s.len() > 0 && is_ws(s[0]) {
        1 + lead_ws(s.drop_first())
    } else {
        0
    }
}

/// The white-space separated words of `s`, as `str::split_whitespace` gives
/// them.
pub open spec fn words(s: Seq<char>) -> Seq<Seq<char>>
    decreases s.len(),
{
    let t = trim_start(s);
    if t.len() == 0 {
        seq![]
    } else {
        let w = word_len(t);
        proof {
            lemma_trim_start_len(s);
            lemma_word_len(t);
        }
        seq![t.take(w)] + words(t.skip(w))
    }
}

/// The number of leading characters of `s` that are not white space.
pub open spec fn word_len(s: Seq<char>) -> int
    decreases s.len(),
{
    if s.len() > 0 && !is_ws(s[0]) {
        1 + word_len(s.drop_first())
    } else {
        0
    }
}

pub proof fn lemma_trim_start_len(s: Seq<char>)
    ensures
        trim_start(s).len() <= s.len(),
        trim_start(s) == s.skip(lead_ws(s)),
        0 <= lead_ws(s) <= s.len(),
        trim_start(s).len() > 0 ==> !is_ws(trim_start(s)[0]),
    decreases s.len(),
{
    if s.len() > 0 && is_ws(s[0]) {
        lemma_trim_start_len(s.drop_first());
        assert(s.drop_first().skip(lead_ws(s.drop_first())) =~= s.skip(lead_ws(s)));
    } else {
        assert(s.skip(0) =~= s);
    }
}

pub proof fn lemma_word_len(s: Seq<char>)
    ensures
        0 <= word_len(s) <= s.len(),
        forall|i: int| 0 <= i < word_len(s) ==> !is_ws(#[trigger] s[i]),
        word_len(s) < s.len() ==> is_ws(s[word_len(s)]),
    decreases s.len(),
{
    if s.len() > 0 && !is_ws(s[0]) {
        lemma_word_len(s.drop_first());
        assert forall|i: int| 0 <= i < word_len(s) implies !is_ws(#[trigger] s[i]) by {
            if i > 0 {
                assert(s[i] == s.drop_first()[i - 1]);
            }
        }
    }
}

pub proof fn lemma_find(s: Seq<char>, c: char)
    ensures
        find(s, c) matches Some(i) ==> 0 <= i < s.len() && s[i] == c && forall|j: int|
            0 <= j < i ==> s[j] != c,
        find(s, c) is None ==> forall|j: int| 0 <= j < s.len() ==> s[j] != c,
    decreases s.len(),
{
    if s.len() > 0 && s[0] != c {
        lemma_find(s.drop_first(), c);
        assert forall|j: int| 0 < j < s.len() implies s[j] == s.drop_first()[j - 1] by {}
    }
}

/// The characters of `v` without leading and trailing white space.
pub fn trim_chars(v: &[char]) -> (r: Vec<char>)
    ensures
        r@ == trim(v@),
{
    let n = v.len();
    let mut a: usize = 0;
    proof {
        lemma_trim_start_len(v@);
        assert(v@.skip(0) =~= v@);
    }
    while a < n && is_whitespace(v[a])
        invariant
            n == v@.len(),
            a <= n,
            trim_start(v@) == trim_start(v@.skip(a as int)),
        decreases n - a,
    {
        assert(v@.skip(a as int).drop_first() =~= v@.skip(a + 1));
        a = a + 1;
    }
    proof {
        assert(trim_start(v@.skip(a as int)) == v@.skip(a as int));
    }
    let mut b: usize = n;
    let ghost t = v@.skip(a as int);
    proof {
        assert(t.take(t.len() as int) =~= t);
    }
    while b > a && is_whitespace(v[b - 1])
        invariant
            n == v@.len(),
            a <= b <= n,
            t == v@.skip(a as int),
            trim_end(t) == trim_end(v@.subrange(a as int, b as int)),
        decreases b - a,
    {
        assert(v@.subrange(a as int, b as int).drop_last() =~= v@.subrange(a as int, b - 1));
        b = b - 1;
    }
    proof {
        assert(v@.subrange(a as int, b as int) =~= v@.skip(a as int).take(b - a));
        assert(trim_end(v@.subrange(a as int, b as int)) == v@.subrange(a as int, b as int));
    }
    let mut r: Vec<char> = Vec::new();
    let mut i: usize = a;
    while i < b
        invariant
            n == v@.len(),
            a <= i <= b <= n,
            r@ == v@.subrange(a as int, i as int),
        decreases b - i,
    {
        r.push(v[i]);
        i = i + 1;
        assert(r@ =~= v@.subrange(a as int, i as int));
    }
    r
}

/// Whether `v` begins with `p`.
pub fn starts_with_chars(v: &[char], p: &[char]) -> (r: bool)
    ensures
        r == starts_with(v@, p@),
{
    if p.len() > v.len() {
        return false;
    }
    let mut i: usize = 0;
    while i < p.len()
        invariant
            p@.len() <= v@.len(),
            i <= p@.len(),
            forall|j: int| 0 <= j < i ==> v@[j] == p@[j],
        decreases p@.len() - i,
    {
        if v[i] != p[i] {
            assert(v@.take(p@.len() as int)[i as int] != p@[i as int]);
            return false;
        }
        i = i + 1;
    }
    assert(v@.take(p@.len() as int) =~= p@);
    true
}

/// The index of the first `c` in `v`, if there is one.
pub fn find_char(v: &[char], c: char) -> (r: Option<usize>)
    ensures
        r matches Some(i) ==> find(v@, c) == Some(i as int),
        r is None ==> find(v@, c) is None,
{
    proof {
        lemma_find(v@, c);
    }
    let mut i: usize = 0;
    while i < v.len()
        invariant
            i <= v@.len(),
            forall|j: int| 0 <= j < i ==> v@[j] != c,
        decreases v@.len() - i,
    {
        if v[i] == c {
            proof {
                lemma_find_first(v@, c, i as int);
            }
            return Some(i);
        }
        i = i + 1;
    }
    proof {
        if find(v@, c) is Some {
            let k = find(v@, c)->Some_0;
            assert(v@[k] == c);
        }
    }
    None
}

proof fn lemma_find_first(s: Seq<char>, c: char, i: int)
    requires
        0 <= i < s.len(),
        s[i] == c,
        forall|j: int| 0 <= j < i ==> s[j] != c,
    ensures
        find(s, c) == Some(i),
{
    lemma_find(s, c);
    if find(s, c) is Some {
        let k = find(s, c)->Some_0;
        if k < i {
            assert(s[k] == c);
        }
        if k > i {
            assert(s[i] != c);
        }
    }
}

/// `v[lo..hi]` as a new vector.
pub fn slice_chars(v: &[char], lo: usize, hi: usize) -> (r: Vec<char>)
    requires
        lo <= hi <= v@.len(),
    ensures
        r@ == v@.subrange(lo as int, hi as int),
{
    let mut r: Vec<char> = Vec::new();
    let mut i: usize = lo;
    while i < hi
        invariant
            lo <= i <= hi <= v@.len(),
            r@ == v@.subrange(lo as int, i as int),
        decreases hi - i,
    {
        r.push(v[i]);
        i = i + 1;
        assert(r@ =~= v@.subrange(lo as int, i as int));
    }
    r
}

/// Whether `v` and `w` hold the same characters.
pub fn chars_eq(v: &[char], w: &[char]) -> (r: bool)
    ensures
        r == (v@ == w@),
{
    if v.len() != w.len() {
        return false;
    }
    let mut i: usize = 0;
    while i < v.len()
        invariant
            v@.len() == w@.len(),
            i <= v@.len(),
            forall|j: int| 0 <= j < i ==> v@[j] == w@[j],
        decreases v@.len() - i,
    {
        if v[i] != w[i] {
            return false;
        }
        i = i + 1;
    }
    assert(v@ =~= w@);
    true
}

/// `v` with every leading copy of a non-empty `p` removed.
pub fn trim_start_matches_chars(v: &[char], p: &[char]) -> (r: Vec<char>)
    ensures
        r@ == trim_start_matches(v@, p@),
{
    let mut a: usize = 0;
    let n = v.len();
    if p.len() == 0 {
        return slice_chars(v, 0, n);
    }
    assert(v@.skip(0) =~= v@);
    loop
        invariant
            n == v@.len(),
            a <= n,
            p@.len() > 0,
            trim_start_matches(v@, p@) == trim_start_matches(v@.skip(a as int), p@),
        decreases n - a,
    {
        let rest = slice_chars(v, a, n);
        assert(rest@ =~= v@.skip(a as int));
        if starts_with_chars(rest.as_slice(), p) {
            assert(v@.skip(a as int).skip(p@.len() as int) =~= v@.skip(a + p@.len()));
            a = a + p.len();
        } else {
            return rest;
        }
    }
}

/// The white-space separated words of `v`.
pub fn split_whitespace_chars(v: &[char]) -> (r: Vec<Vec<char>>)
    ensures
        r@.len() == words(v@).len(),
        forall|i: int| 0 <= i < r@.len() ==> #[trigger] r@[i]@ == words(v@)[i],
{
    let n = v.len();
    let mut a: usize = 0;
    let mut r: Vec<Vec<char>> = Vec::new();
    assert(v@.skip(0) =~= v@);
    assert(r@.map_values(|w: Vec<char>| w@) + words(v@) =~= words(v@));
    loop
        invariant
            n == v@.len(),
            a <= n,
            words(v@) == r@.map_values(|w: Vec<char>| w@) + words(v@.skip(a as int)),
        ensures
            words(v@) == r@.map_values(|w: Vec<char>| w@),
        decreases n - a,
    {
        let ghost s = v@.skip(a as int);
        proof {
            lemma_trim_start_len(s);
        }
        while a < n && is_whitespace(v[a])
            invariant
                n == v@.len(),
                a <= n,
                trim_start(s) == trim_start(v@.skip(a as int)),
            decreases n - a,
        {
            assert(v@.skip(a as int).drop_first() =~= v@.skip(a + 1));
            a = a + 1;
        }
        let ghost t = v@.skip(a as int);
        assert(trim_start(t) == t);
        if a == n {
            assert(words(s) =~= Seq::<Seq<char>>::empty());
            assert(r@.map_values(|w: Vec<char>| w@) + words(v@.skip(a as int)) =~= r@.map_values(
                |w: Vec<char>| w@,
            ));
            assert(words(v@) == r@.map_values(|w: Vec<char>| w@));
            break ;
        }
        let mut b: usize = a;
        proof {
            lemma_word_len(t);
        }
        while b < n && !is_whitespace(v[b])
            invariant
                n == v@.len(),
                a <= b <= n,
                t == v@.skip(a as int),
                b - a <= word_len(t),
                word_len(t) <= t.len(),
                word_len(t) < t.len() ==> is_ws(t[word_len(t)]),
            decreases n - b,
        {
            proof {
                if word_len(t) == b - a {
                    assert(t[b - a] == v@[b as int]);
                }
            }
            b = b + 1;
        }
        let w = slice_chars(v, a, b);
        proof {
            assert(word_len(t) == b - a) by {
                if b - a < word_len(t) {
                    assert(!is_ws(t[b - a]));
                    assert(t[b - a] == v@[b as int]);
                }
            }
            assert(w@ =~= t.take(b - a));
            assert(t.skip(b - a) =~= v@.skip(b as int));
        }
        let ghost old_r = r@;
        r.push(w);
        proof {
            assert(r@.map_values(|w: Vec<char>| w@) =~= old_r.map_values(|w: Vec<char>| w@).push(
                w@,
            ));
            assert(words(v@) =~= r@.map_values(|w: Vec<char>| w@) + words(v@.skip(b as int)));
        }
        a = b;
    }
    r
}

/// The pieces of `v` between the occurrences of `sep`.
pub fn split_chars(v: &[char], sep: char) -> (r: Vec<Vec<char>>)
    ensures
        r@.len() == split(v@, sep).len(),
        forall|i: int| 0 <= i < r@.len() ==> #[trigger] r@[i]@ == split(v@, sep)[i],
{
    let n = v.len();
    let mut a: usize = 0;
    let mut r: Vec<Vec<char>> = Vec::new();
    assert(v@.skip(0) =~= v@);
    assert(r@.map_values(|w: Vec<char>| w@) + split(v@, sep) =~= split(v@, sep));
    loop
        invariant_except_break
            split(v@, sep) == r@.map_values(|w: Vec<char>| w@) + split(v@.skip(a as int), sep),
        invariant
            n == v@.len(),
            a <= n,
        ensures
            split(v@, sep) == r@.map_values(|w: Vec<char>| w@),
        decreases n - a,
    {
        let ghost s = v@.skip(a as int);
        proof {
            lemma_find(s, sep);
        }
        let mut b: usize = a;
        while b < n && v[b] != sep
            invariant
                n == v@.len(),
                a <= b <= n,
                s == v@.skip(a as int),
                forall|j: int| 0 <= j < b - a ==> s[j] != sep,
            decreases n - b,
        {
            b = b + 1;
        }
        let w = slice_chars(v, a, b);
        let ghost old_r = r@;
        assert(w@ =~= s.take(b - a));
        if b == n {
            proof {
                assert(find(s, sep) is None) by {
                    if find(s, sep) is Some {
                        let k = find(s, sep)->Some_0;
                        assert(s[k] == sep);
                    }
                }
                assert(w@ =~= s);
            }
            r.push(w);
            assert(r@.map_values(|w: Vec<char>| w@) =~= old_r.map_values(|w: Vec<char>| w@).push(
                s,
            ));
            assert(split(v@, sep) =~= r@.map_values(|w: Vec<char>| w@));
            break ;
        }
        proof {
            assert(s[b - a] == sep);
            assert(find(s, sep) == Some(b - a)) by {
                if find(s, sep) is Some {
                    let k = find(s, sep)->Some_0;
                    if k < b - a {
                        assert(s[k] == sep);
                    }
                    if k > b - a {
                        assert(s[b - a] != sep);
                    }
                }
            }
            assert(s.skip(b - a + 1) =~= v@.skip(b + 1));
        }
        r.push(w);
        proof {
            assert(r@.map_values(|w: Vec<char>| w@) =~= old_r.map_values(|w: Vec<char>| w@).push(
                w@,
            ));
            assert(split(v@, sep) =~= r@.map_values(|w: Vec<char>| w@) + split(v@.skip(b + 1), sep));
        }
        a = b + 1;
    }
    r
}

/// Whether `a` and `b` are the same text.
pub fn str_eq(a: &str, b: &str) -> (r: bool)
    ensures
        r == (a@ == b@),
{
    let va = crate::utils::chars_of(a);
    let vb = crate::utils::chars_of(b);
    chars_eq(va.as_slice(), vb.as_slice())
}

/// Whether `c` has the Unicode `Uppercase` property, as `char::is_uppercase`
/// reports it.
pub uninterp spec fn spec_is_uppercase(c: char) -> bool;

/// Calls `char::is_uppercase`. Claimed: the result is a function of `c`
/// alone, true for `A` to `Z` and false for `a` to `z` (as its documentation
/// gives); the rest of the Unicode table is left unsaid.
#[verifier::external_body]
pub(crate) fn is_uppercase(c: char) -> (r: bool)
    ensures
        r == spec_is_uppercase(c),
        ('A' <= c <= 'Z') ==> r,
        ('a' <= c <= 'z') ==> !r,
{
    c.is_uppercase()
}


/// The words `ws` joined by single spaces.
pub open spec fn join_spaced(ws: Seq<Seq<char>>) -> Seq<char>
    decreases ws.len(),
{
    if ws.len() == 0 {
        seq![]
    } else if ws.len() == 1 {
        ws[0]
    } else {
        join_spaced(ws.drop_last()) + seq![' '] + ws.last()
    }
}

/// The words `parts` from index `from` on, joined by single spaces.
pub(crate) fn join_words_from(parts: &Vec<Vec<char>>, from: usize, Ghost(ws): Ghost<Seq<Seq<char>>>) -> (r: Vec<char>)
    requires
        from <= parts@.len(),
        parts@.len() == ws.len(),
        forall|i: int| 0 <= i < ws.len() ==> #[trigger] parts@[i]@ == ws[i],
    ensures
        r@ == join_spaced(ws.skip(from as int)),
{
    let mut acc: Vec<char> = Vec::new();
    let mut i: usize = from;
    assert(ws.subrange(from as int, from as int) =~= Seq::<Seq<char>>::empty());
    while i < parts.len()
        invariant
            from <= i <= parts@.len(),
            parts@.len() == ws.len(),
            forall|k: int| 0 <= k < ws.len() ==> #[trigger] parts@[k]@ == ws[k],
            acc@ == join_spaced(ws.subrange(from as int, i as int)),
        decreases parts@.len() - i,
    {
        let ghost sub = ws.subrange(from as int, i + 1);
        assert(sub.drop_last() =~= ws.subrange(from as int, i as int));
        assert(sub.last() == ws[i as int]);
        let ghost before = acc@;
        if i > from {
            acc.push(' ');
        }
        let ghost mid = acc@;
        let w = &parts[i];
        let mut j: usize = 0;
        while j < w.len()
            invariant
                j <= w@.len(),
                acc@ == mid + w@.take(j as int),
            decreases w@.len() - j,
        {
            acc.push(w[j]);
            assert(w@.take(j + 1) =~= w@.take(j as int).push(w@[j as int]));
            j = j + 1;
        }
        assert(w@.take(j as int) =~= w@);
        proof {
            if i == from {
                assert(before.len() == 0) by {
                    assert(ws.subrange(from as int, i as int).len() == 0);
                }
                assert(acc@ =~= ws[i as int]);
            } else {
                assert(acc@ =~= before + seq![' '] + ws[i as int]);
            }
        }
        i = i + 1;
    }
    assert(ws.subrange(from as int, i as int) =~= ws.skip(from as int));
    acc
}

} // verus!
