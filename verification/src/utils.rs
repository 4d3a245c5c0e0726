//! Character-level reading of component sources, positions and errors.

use vstd::prelude::*;
use vstd::string::StringExecFns;

use crate::numtext::{spec_digits, to_decimal};

verus! {

/// Position of the reader in the source text: lines are counted from 1,
/// columns from 0.
pub struct Coord {
    pub line: usize,
    pub col: usize,
}

/// Errors reported by the compiler.
#[derive(Debug)]
pub enum CompileError {
    LocError { line: usize, col: usize, message: String },
    GenericError(String),
}

/// The Unicode `White_Space` property, as `char::is_whitespace` reports it.
pub open spec fn is_ws(c: char) -> bool {
    let n = c as u32;
    ||| 0x9 <= n <= 0xd
    ||| n == 0x20
    ||| n == 0x85
    ||| n == 0xa0
    ||| n == 0x1680
    ||| 0x2000 <= n <= 0x200a
    ||| n == 0x2028
    ||| n == 0x2029
    ||| n == 0x202f
    ||| n == 0x205f
    ||| n == 0x3000
}

/// Whether `c` is a Unicode white-space character.
pub fn is_whitespace(c: char) -> (r: bool)
    ensures
        r == is_ws(c),
{
    let n = c as u32;
    (0x9 <= n && n <= 0xd) || n == 0x20 || n == 0x85 || n == 0xa0 || n == 0x1680 || (0x2000 <= n
        && n <= 0x200a) || n == 0x2028 || n == 0x2029 || n == 0x202f || n == 0x205f || n == 0x3000
}

/// The position after reading `c` at `(line, col)`.
pub open spec fn advance(pos: (int, int), c: char) -> (int, int) {
    if c == '\n' {
        (pos.0 + 1, 0)
    } else {
        (pos.0, pos.1 + 1)
    }
}

/// The position after reading all of `s` from `pos`.
pub open spec fn coord_after(pos: (int, int), s: Seq<char>) -> (int, int)
    decreases s.len(),
{
    if s.len() == 0 {
        pos
    } else {
        advance(coord_after(pos, s.drop_last()), s.last())
    }
}

/// A coordinate seen as a pair of integers.
pub open spec fn pos_of(c: Coord) -> (int, int) {
    (c.line as int, c.col as int)
}

/// Reading `n` more characters from `c` cannot overflow the coordinate.
pub open spec fn room(c: Coord, n: nat) -> bool {
    c.line + c.col + n <= usize::MAX
}

/// Each character moves the coordinate by at most one step in `line + col`.
pub proof fn lemma_coord_after_bound(pos: (int, int), s: Seq<char>)
    requires
        pos.1 >= 0,
    ensures
        coord_after(pos, s).0 + coord_after(pos, s).1 <= pos.0 + pos.1 + s.len(),
        coord_after(pos, s).0 >= pos.0,
        coord_after(pos, s).1 >= 0,
    decreases s.len(),
{
    if s.len() > 0 {
        lemma_coord_after_bound(pos, s.drop_last());
    }
}

/// Reading `a` and then `b` moves a position as reading `a + b` does.
pub proof fn lemma_coord_after_concat(pos: (int, int), a: Seq<char>, b: Seq<char>)
    ensures
        coord_after(pos, a + b) == coord_after(coord_after(pos, a), b),
    decreases b.len(),
{
    if b.len() == 0 {
        assert(a + b =~= a);
    } else {
        lemma_coord_after_concat(pos, a, b.drop_last());
        assert((a + b).drop_last() =~= a + b.drop_last());
    }
}

/// `(c1, r1)` follows `(c0, r0)`: `r1` is what is left of the text `r0` once
/// some of its characters were read, and `c1` is `c0` moved past them.
pub open spec fn tracks(c0: Coord, r0: Seq<char>, c1: Coord, r1: Seq<char>) -> bool {
    &&& r1.len() <= r0.len()
    &&& r1 == r0.skip(r0.len() - r1.len())
    &&& pos_of(c1) == coord_after(pos_of(c0), r0.take(r0.len() - r1.len()))
}

pub proof fn lemma_tracks_refl(c: Coord, r: Seq<char>)
    ensures
        tracks(c, r, c, r),
{
    assert(r.skip(0) =~= r);
    assert(r.take(0) =~= Seq::<char>::empty());
}

/// Reading `s` from `r0` at `c0` leaves `r1` at `c1`.
pub proof fn lemma_tracks_read(c0: Coord, r0: Seq<char>, c1: Coord, r1: Seq<char>, s: Seq<char>)
    requires
        r0 == s + r1,
        pos_of(c1) == coord_after(pos_of(c0), s),
    ensures
        tracks(c0, r0, c1, r1),
{
    assert(r0.skip(s.len() as int) =~= r1);
    assert(r0.take(s.len() as int) =~= s);
}

/// Reading the first character of `r0` at `c0` leaves `r1` at `c1`.
pub proof fn lemma_tracks_step(c0: Coord, r0: Seq<char>, c1: Coord, r1: Seq<char>)
    requires
        r0.len() > 0,
        r1 == r0.drop_first(),
        pos_of(c1) == advance(pos_of(c0), r0[0]),
    ensures
        tracks(c0, r0, c1, r1),
{
    let s = seq![r0[0]];
    assert(r0 =~= s + r1);
    assert(s.drop_last() =~= Seq::<char>::empty());
    assert(coord_after(pos_of(c0), s.drop_last()) == pos_of(c0));
    assert(coord_after(pos_of(c0), s) == advance(pos_of(c0), r0[0]));
    lemma_tracks_read(c0, r0, c1, r1, s);
}

/// Following is transitive.
pub proof fn lemma_tracks_trans(
    c0: Coord,
    r0: Seq<char>,
    c1: Coord,
    r1: Seq<char>,
    c2: Coord,
    r2: Seq<char>,
)
    requires
        tracks(c0, r0, c1, r1),
        tracks(c1, r1, c2, r2),
    ensures
        tracks(c0, r0, c2, r2),
{
    let a = r0.take(r0.len() - r1.len());
    let b = r1.take(r1.len() - r2.len());
    assert(r0.take(r0.len() - r2.len()) =~= a + b);
    assert(r2 =~= r0.skip(r0.len() - r2.len()));
    lemma_coord_after_concat(pos_of(c0), a, b);
}

/// Appends `c` to `s`.
#[verifier::external_body]
pub(crate) fn push_char(s: &mut String, c: char)
    ensures
        final(s)@ == old(s)@.push(c),
{
    s.push(c);
}

/// Builds a `String` holding exactly the characters of `v`.
pub fn string_from_chars(v: &[char]) -> (s: String)
    ensures
        s@ == v@,
{
    let mut s = String::new();
    let mut i: usize = 0;
    while i < v.len()
        invariant
            i <= v@.len(),
            s@ == v@.take(i as int),
        decreases v@.len() - i,
    {
        push_char(&mut s, v[i]);
        i = i + 1;
        assert(s@ =~= v@.take(i as int));
    }
    assert(v@.take(v@.len() as int) =~= v@);
    s
}

/// The characters of `s`, in order.
pub fn chars_of(s: &str) -> (v: Vec<char>)
    ensures
        v@ == s@,
{
    broadcast use vstd::string::group_string_axioms;

    let mut v: Vec<char> = Vec::new();
    for c in it: s.chars()
        invariant
            v@ == it.seq().take(it.index()),
            it.seq() == s@,
    {
        v.push(c);
    }
    assert(v@ =~= s@);
    v
}

/// A source text being read from left to right, one character at a time.
pub struct CharStream {
    chars: Vec<char>,
    pos: usize,
}

impl CharStream {
    #[verifier::type_invariant]
    spec fn inv(self) -> bool {
        self.pos <= self.chars@.len()
    }

    /// The characters that are still to be read.
    pub closed spec fn rest(&self) -> Seq<char> {
        self.chars@.subrange(self.pos as int, self.chars@.len() as int)
    }

    /// A stream over the characters of `s`.
    pub fn new(s: &str) -> (r: Self)
        ensures
            r.rest() == s@,
    {
        let chars = chars_of(s);
        let r = CharStream { chars, pos: 0 };
        assert(r.rest() =~= s@);
        r
    }

    /// A stream over the characters of `chars`.
    pub fn from_chars(chars: Vec<char>) -> (r: Self)
        ensures
            r.rest() == chars@,
    {
        let r = CharStream { chars, pos: 0 };
        assert(r.rest() =~= chars@);
        r
    }

    /// The next character, without consuming it.
    pub fn peek(&self) -> (r: Option<char>)
        ensures
            r == (if self.rest().len() > 0 {
                Some(self.rest()[0])
            } else {
                None::<char>
            }),
    {
        proof {
            use_type_invariant(self);
        }
        if self.pos < self.chars.len() {
            Some(self.chars[self.pos])
        } else {
            None
        }
    }

    /// Consumes and returns the next character.
    pub fn next(&mut self) -> (r: Option<char>)
        ensures
            old(self).rest().len() > 0 ==> r == Some(old(self).rest()[0]) && final(self).rest()
                == old(self).rest().drop_first(),
            old(self).rest().len() == 0 ==> r is None && final(self).rest() == old(self).rest(),
    {
        proof {
            use_type_invariant(&*self);
        }
        if self.pos < self.chars.len() {
            let c = self.chars[self.pos];
            self.pos = self.pos + 1;
            assert(self.rest() =~= old(self).rest().drop_first());
            Some(c)
        } else {
            None
        }
    }
}

/// Moves `coord` past the character `ch`: a newline starts a new line.
pub fn update_coord(ch: char, coord: &mut Coord)
    requires
        ch == '\n' ==> old(coord).line < usize::MAX,
        ch != '\n' ==> old(coord).col < usize::MAX,
    ensures
        pos_of(*final(coord)) == advance(pos_of(*old(coord)), ch),
{
    if ch == '\n' {
        coord.line = coord.line + 1;
        coord.col = 0;
    } else {
        coord.col = coord.col + 1;
    }
}

/// Reads characters until `stop_cond` holds of the next one (which is left
/// unread), or until the input ends.
pub fn read_until<F: Fn(char) -> bool>(chars: &mut CharStream, stop_cond: F, coord: &mut Coord) -> (result: String)
    requires
        forall|c: char| stop_cond.requires((c,)),
        room(*old(coord), old(chars).rest().len()),
    ensures
        old(chars).rest() == result@ + final(chars).rest(),
        forall|i: int| 0 <= i < result@.len() ==> stop_cond.ensures((result@[i],), false),
        final(chars).rest().len() > 0 ==> stop_cond.ensures((final(chars).rest()[0],), true),
        pos_of(*final(coord)) == coord_after(pos_of(*old(coord)), result@),
        room(*final(coord), final(chars).rest().len()),
{
    let ghost start = chars.rest();
    let ghost start_pos = pos_of(*coord);
    let mut result = String::new();
    loop
        invariant
            forall|c: char| stop_cond.requires((c,)),
            start == result@ + chars.rest(),
            forall|i: int| 0 <= i < result@.len() ==> stop_cond.ensures((result@[i],), false),
            pos_of(*coord) == coord_after(start_pos, result@),
            room(*coord, chars.rest().len()),
        ensures
            start == result@ + chars.rest(),
            forall|i: int| 0 <= i < result@.len() ==> stop_cond.ensures((result@[i],), false),
            chars.rest().len() > 0 ==> stop_cond.ensures((chars.rest()[0],), true),
            pos_of(*coord) == coord_after(start_pos, result@),
            room(*coord, chars.rest().len()),
        decreases chars.rest().len(),
    {
        match chars.peek() {
            None => {
                break ;
            },
            Some(ch) => {
                if stop_cond(ch) {
                    break ;
                }
                let ghost before = result@;
                chars.next();
                update_coord(ch, coord);
                push_char(&mut result, ch);
                assert(result@.drop_last() =~= before);
                assert(start =~= result@ + chars.rest());
            },
        }
    }
    result
}

/// Whether `s` ends with `t`.
pub open spec fn ends_with(s: Seq<char>, t: Seq<char>) -> bool {
    t.len() <= s.len() && s.subrange(s.len() - t.len(), s.len() as int) == t
}

/// The number of characters that `read_until_string` consumes from `s` when
/// looking for `target`: up to the end of the first occurrence, or all of `s`.
pub open spec fn scan_len(s: Seq<char>, target: Seq<char>) -> int {
    if exists|k: int| 1 <= k <= s.len() && ends_with(#[trigger] s.take(k), target) {
        choose|k: int|
            1 <= k <= s.len() && ends_with(#[trigger] s.take(k), target) && forall|j: int|
                1 <= j < k ==> !ends_with(#[trigger] s.take(j), target)
    } else {
        s.len() as int
    }
}

/// Whether `ends_with(s.take(k), target)` holds for some `1 <= k <= s.len()`.
pub open spec fn target_found(s: Seq<char>, target: Seq<char>) -> bool {
    exists|k: int| 1 <= k <= s.len() && ends_with(#[trigger] s.take(k), target)
}

/// The number of characters that stand before the found target.
pub open spec fn kept_len(s: Seq<char>, target: Seq<char>) -> int {
    if target_found(s, target) {
        scan_len(s, target) - (if target.len() > 0 { target.len() as int } else { 1 })
    } else {
        s.len() as int
    }
}

/// The number of consumed characters that the coordinate is moved past: all of
/// them but the last one when the target was found.
pub open spec fn tracked_len(s: Seq<char>, target: Seq<char>) -> int {
    if target_found(s, target) {
        scan_len(s, target) - 1
    } else {
        s.len() as int
    }
}

proof fn lemma_least_occurrence(s: Seq<char>, target: Seq<char>, w: int)
    requires
        1 <= w <= s.len(),
        ends_with(s.take(w), target),
    ensures
        exists|k: int|
            1 <= k <= s.len() && ends_with(#[trigger] s.take(k), target) && forall|j: int|
                1 <= j < k ==> !ends_with(#[trigger] s.take(j), target),
    decreases w,
{
    if exists|j: int| 1 <= j < w && ends_with(#[trigger] s.take(j), target) {
        let j = choose|j: int| 1 <= j < w && ends_with(#[trigger] s.take(j), target);
        lemma_least_occurrence(s, target, j);
    } else {
        assert(forall|j: int| 1 <= j < w ==> !ends_with(#[trigger] s.take(j), target));
    }
}

pub proof fn lemma_scan_len_bounds(s: Seq<char>, target: Seq<char>)
    ensures
        0 <= kept_len(s, target) <= scan_len(s, target) <= s.len(),
        tracked_len(s, target) <= scan_len(s, target),
        0 <= tracked_len(s, target),
{
    if target_found(s, target) {
        let w = choose|k: int| 1 <= k <= s.len() && ends_with(#[trigger] s.take(k), target);
        lemma_least_occurrence(s, target, w);
        let c = scan_len(s, target);
        assert(1 <= c <= s.len() && ends_with(s.take(c), target));
    }
}

proof fn lemma_first_occurrence(s: Seq<char>, target: Seq<char>, k: int)
    requires
        1 <= k <= s.len(),
        ends_with(s.take(k), target),
        forall|j: int| 1 <= j < k ==> !ends_with(#[trigger] s.take(j), target),
    ensures
        target_found(s, target),
        scan_len(s, target) == k,
{
    assert(ends_with(s.take(k), target));
    let c = choose|k2: int|
        1 <= k2 <= s.len() && ends_with(#[trigger] s.take(k2), target) && forall|j: int|
            1 <= j < k2 ==> !ends_with(#[trigger] s.take(j), target);
    assert(1 <= c <= s.len() && ends_with(s.take(c), target) && forall|j: int|
        1 <= j < c ==> !ends_with(#[trigger] s.take(j), target));
    if c < k {
        assert(!ends_with(s.take(c), target));
    }
    if k < c {
        assert(!ends_with(s.take(k), target));
    }
}

/// Whether the last `t.len()` characters of `v` are those of `t`.
fn vec_ends_with(v: &Vec<char>, t: &Vec<char>) -> (r: bool)
    ensures
        r == ends_with(v@, t@),
{
    let vl = v.len();
    let tl = t.len();
    if tl > vl {
        return false;
    }
    let off: usize = vl - tl;
    let mut i: usize = 0;
    while i < tl
        invariant
            vl == v@.len(),
            tl == t@.len(),
            off + tl == vl,
            i <= tl,
            forall|j: int| 0 <= j < i ==> v@[off + j] == t@[j],
        decreases tl - i,
    {
        if v[off + i] != t[i] {
            assert(v@.subrange(off as int, v@.len() as int)[i as int] != t@[i as int]);
            return false;
        }
        i = i + 1;
    }
    assert(v@.subrange(off as int, v@.len() as int) =~= t@);
    true
}

/// Reads characters up to and including the first occurrence of `target`, and
/// returns the text that stands before that occurrence. When `target` does not
/// occur, all the remaining text is read and returned.
pub fn read_until_string(chars: &mut CharStream, target: &str, coord: &mut Coord) -> (result: String)
    requires
        room(*old(coord), old(chars).rest().len()),
    ensures
        final(chars).rest() == old(chars).rest().skip(scan_len(old(chars).rest(), target@)),
        result@ == old(chars).rest().take(kept_len(old(chars).rest(), target@)),
        pos_of(*final(coord)) == coord_after(
            pos_of(*old(coord)),
            old(chars).rest().take(tracked_len(old(chars).rest(), target@)),
        ),
        room(*final(coord), final(chars).rest().len()),
{
    let ghost start = chars.rest();
    let ghost start_pos = pos_of(*coord);
    let tv = chars_of(target);
    let mut consumed: Vec<char> = Vec::new();
    let mut found = false;
    loop
        invariant
            tv@ == target@,
            start == consumed@ + chars.rest(),
            forall|j: int| 1 <= j < consumed@.len() ==> !ends_with(#[trigger] start.take(j), target@),
            !found ==> consumed@.len() == 0 || !ends_with(start.take(consumed@.len() as int), target@),
            found ==> consumed@.len() >= 1 && ends_with(start.take(consumed@.len() as int), target@),
            !found ==> pos_of(*coord) == coord_after(start_pos, consumed@),
            found ==> pos_of(*coord) == coord_after(start_pos, consumed@.drop_last()),
            room(*coord, chars.rest().len() + (if found { 1nat } else { 0nat })),
        ensures
            start == consumed@ + chars.rest(),
            forall|j: int| 1 <= j < consumed@.len() ==> !ends_with(#[trigger] start.take(j), target@),
            found ==> consumed@.len() >= 1 && ends_with(start.take(consumed@.len() as int), target@),
            !found ==> chars.rest().len() == 0 && (consumed@.len() == 0 || !ends_with(
                start.take(consumed@.len() as int),
                target@,
            )),
            !found ==> pos_of(*coord) == coord_after(start_pos, consumed@),
            found ==> pos_of(*coord) == coord_after(start_pos, consumed@.drop_last()),
            room(*coord, chars.rest().len() + (if found { 1nat } else { 0nat })),
        decreases chars.rest().len(), if found { 0int } else { 1int },
    {
        if found {
            break ;
        }
        match chars.peek() {
            None => {
                break ;
            },
            Some(ch) => {
                let ghost before = consumed@;
                chars.next();
                consumed.push(ch);
                assert(start =~= consumed@ + chars.rest());
                assert(start.take(consumed@.len() as int) =~= consumed@);
                assert(consumed@.drop_last() =~= before);
                proof {
                    if before.len() >= 1 {
                        assert(start.take(before.len() as int) =~= before);
                    }
                }
                if vec_ends_with(&consumed, &tv) {
                    found = true;
                } else {
                    update_coord(ch, coord);
                }
            },
        }
    }
    let ghost n = consumed@.len() as int;
    let keep: usize;
    if found {
        proof {
            lemma_first_occurrence(start, target@, n);
        }
        let drop = if tv.len() > 0 {
            tv.len()
        } else {
            1
        };
        keep = consumed.len() - drop;
    } else {
        proof {
            if target_found(start, target@) {
                let k = choose|k: int| 1 <= k <= start.len() && ends_with(#[trigger] start.take(k), target@);
                if k < n {
                } else {
                    assert(start.take(n) =~= start);
                }
            }
            assert(start.skip(start.len() as int) =~= chars.rest());
        }
        keep = consumed.len();
    }
    proof {
        if found {
            assert(consumed@ =~= start.take(n));
            assert(consumed@.drop_last() =~= start.take(n - 1));
        } else {
            assert(consumed@ =~= start.take(n));
        }
        assert(chars.rest() =~= start.skip(n));
    }
    let result = string_from_chars(consumed.as_slice().split_at(keep).0);
    proof {
        assert(result@ =~= start.take(keep as int));
    }
    result
}

/// Consumes the next character, which must be `expected`.
pub fn expect_next(chars: &mut CharStream, expected: char, coord: &mut Coord)
    requires
        old(chars).rest().len() > 0,
        old(chars).rest()[0] == expected,
        room(*old(coord), old(chars).rest().len()),
    ensures
        final(chars).rest() == old(chars).rest().drop_first(),
        pos_of(*final(coord)) == advance(pos_of(*old(coord)), expected),
        room(*final(coord), final(chars).rest().len()),
{
    let ch = chars.next();
    match ch {
        Some(c) => {
            update_coord(c, coord);
        },
        None => {},
    }
}

/// An error that carries only a message.
pub fn generic_error(message: &str) -> (e: CompileError)
    ensures
        e == CompileError::GenericError(e->GenericError_0),
        e->GenericError_0@ == message@,
{
    CompileError::GenericError(message.to_string())
}

/// The text of an error as it is shown to the user.
pub open spec fn error_text(e: CompileError) -> Seq<char> {
    match e {
        CompileError::LocError { line, col, message } => "Error at line "@ + spec_digits(
            line as nat,
            10,
        ) + ", col "@ + spec_digits(col as nat, 10) + ": "@ + message@,
        CompileError::GenericError(message) => message@,
    }
}

impl CompileError {
    /// The text of the error: `Error at line L, col C: message` for an error
    /// with a position, the message alone otherwise.
    pub fn message(&self) -> (s: String)
        ensures
            s@ == error_text(*self),
    {
        match self {
            CompileError::LocError { line, col, message } => {
                let mut s = String::new();
                s.append("Error at line ");
                s.append(to_decimal(*line as u64).as_str());
                s.append(", col ");
                s.append(to_decimal(*col as u64).as_str());
                s.append(": ");
                s.append(message.as_str());
                s
            },
            CompileError::GenericError(message) => message.clone(),
        }
    }
}

} // verus!
