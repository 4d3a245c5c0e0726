//! Derived variables and the order in which they are updated.

use vstd::prelude::*;

use crate::parse::rs_parse::{Prop, StateVar};
use crate::transform::node::EachVar;

verus! {

/// A variable whose changes are tracked: its name, the source text of its
/// type, and the mask of its flag bit.
pub struct ReactiveVar {
    pub name: String,
    pub ty: String,
    pub flag_mask: u64,
}

impl ReactiveVar {
    /// The reactive variable of a state variable.
    pub fn from_state_var(var: &StateVar) -> (r: ReactiveVar)
        requires
            var.flag_pos < 64,
        ensures
            r.name == var.name,
            r.ty == var.ty,
            r.flag_mask == 1u64 << var.flag_pos,
    {
        ReactiveVar { name: var.name.clone(), ty: var.ty.clone(), flag_mask: 1u64 << var.flag_pos }
    }

    /// The reactive variable of a property.
    pub fn from_prop(prop: &Prop) -> (r: ReactiveVar)
        requires
            prop.flag_pos < 64,
        ensures
            r.name == prop.name,
            r.ty == prop.ty,
            r.flag_mask == 1u64 << prop.flag_pos,
    {
        ReactiveVar {
            name: prop.name.clone(),
            ty: prop.ty.clone(),
            flag_mask: 1u64 << prop.flag_pos,
        }
    }
}

/// A `$derived()` variable: the variable, with its initial value rewritten
/// for the generated code, the names of the reactive variables it reads, and
/// the mask of their flags.
pub struct DerivedVar {
    pub data: StateVar,
    pub dependents: Vec<String>,
    pub update_mask: u64,
}

/// The character sequences of a list of names.
pub open spec fn names(v: Seq<String>) -> Seq<Seq<char>> {
    v.map_values(|s: String| s@)
}

/// The union of the flag masks of the variables of `reactive` whose names are
/// in `deps`.
pub open spec fn update_mask_of(reactive: Seq<ReactiveVar>, deps: Seq<Seq<char>>) -> u64
    decreases reactive.len(),
{
    if reactive.len() == 0 {
        0
    } else {
        update_mask_of(reactive.drop_last(), deps) | (if deps.contains(reactive.last().name@) {
            reactive.last().flag_mask
        } else {
            0
        })
    }
}

/// Whether `names` holds `name`.
fn contains_name(names_v: &Vec<String>, name: &String) -> (r: bool)
    ensures
        r == names(names_v@).contains(name@),
{
    let mut k: usize = 0;
    while k < names_v.len()
        invariant
            k <= names_v@.len(),
            forall|j: int| 0 <= j < k ==> names_v@[j]@ != name@,
        decreases names_v@.len() - k,
    {
        if names_v[k] == *name {
            assert(names(names_v@)[k as int] == name@);
            return true;
        }
        k = k + 1;
    }
    proof {
        if names(names_v@).contains(name@) {
            let j = choose|j: int| 0 <= j < names(names_v@).len() && names(names_v@)[j] == name@;
            assert(names_v@[j]@ == name@);
        }
    }
    false
}

/// The flags of what an expression reads: the union of the flag masks of the
/// state and reactive variables named among the identifiers `idents` that the
/// expression uses.
pub fn flags_read(idents: &Vec<String>, state_vars: &Vec<ReactiveVar>, reactive_vars: &Vec<ReactiveVar>) -> (m: u64)
    ensures
        m == update_mask_of(state_vars@ + reactive_vars@, names(idents@)),
{
    let mut mask: u64 = 0;
    let mut i: usize = 0;
    while i < state_vars.len()
        invariant
            i <= state_vars@.len(),
            mask == update_mask_of(state_vars@.take(i as int), names(idents@)),
        decreases state_vars@.len() - i,
    {
        let ghost pre = state_vars@.take(i as int);
        if contains_name(idents, &state_vars[i].name) {
            mask = mask | state_vars[i].flag_mask;
        } else {
            assert(mask | 0 == mask) by (bit_vector);
        }
        i = i + 1;
        assert(state_vars@.take(i as int).drop_last() =~= pre);
    }
    assert(state_vars@ + reactive_vars@.take(0) =~= state_vars@.take(i as int));
    let mut j: usize = 0;
    while j < reactive_vars.len()
        invariant
            j <= reactive_vars@.len(),
            mask == update_mask_of(state_vars@ + reactive_vars@.take(j as int), names(idents@)),
        decreases reactive_vars@.len() - j,
    {
        let ghost pre = state_vars@ + reactive_vars@.take(j as int);
        if contains_name(idents, &reactive_vars[j].name) {
            mask = mask | reactive_vars[j].flag_mask;
        } else {
            assert(mask | 0 == mask) by (bit_vector);
        }
        j = j + 1;
        assert((state_vars@ + reactive_vars@.take(j as int)).drop_last() =~= pre);
        assert((state_vars@ + reactive_vars@.take(j as int)).last() == reactive_vars@[j - 1]);
    }
    assert(reactive_vars@.take(j as int) =~= reactive_vars@);
    mask
}

/// What is read sets its flags: the mask of the variables named in `deps`
/// holds every flag of each variable so named.
pub proof fn lemma_reads_set_their_flags(vars: Seq<ReactiveVar>, deps: Seq<Seq<char>>, i: int)
    requires
        0 <= i < vars.len(),
        deps.contains(vars[i].name@),
    ensures
        update_mask_of(vars, deps) & vars[i].flag_mask == vars[i].flag_mask,
    decreases vars.len(),
{
    let rest = update_mask_of(vars.drop_last(), deps);
    let m = vars[i].flag_mask;
    if i == vars.len() - 1 {
        assert((rest | m) & m == m) by (bit_vector);
    } else {
        lemma_reads_set_their_flags(vars.drop_last(), deps, i);
        assert(vars.drop_last()[i] == vars[i]);
        let last = if deps.contains(vars.last().name@) { vars.last().flag_mask } else { 0 };
        assert(rest & m == m ==> (rest | last) & m == m) by (bit_vector);
    }
}

/// Nothing else sets a flag: a flag that no variable named in `deps` carries
/// is not in their mask.
pub proof fn lemma_only_reads_set_flags(vars: Seq<ReactiveVar>, deps: Seq<Seq<char>>, x: u64)
    requires
        forall|i: int| 0 <= i < vars.len() && deps.contains(#[trigger] vars[i].name@) ==> vars[i].flag_mask & x == 0,
    ensures
        update_mask_of(vars, deps) & x == 0,
    decreases vars.len(),
{
    if vars.len() > 0 {
        let v = vars.drop_last();
        assert forall|i: int| 0 <= i < v.len() && deps.contains(#[trigger] v[i].name@) implies v[i].flag_mask & x == 0 by {
            assert(v[i] == vars[i]);
        }
        lemma_only_reads_set_flags(v, deps, x);
        let rest = update_mask_of(v, deps);
        let last = if deps.contains(vars.last().name@) { vars.last().flag_mask } else { 0 };
        if deps.contains(vars.last().name@) {
            assert(vars[vars.len() - 1].flag_mask & x == 0);
        }
        assert(last & x == 0) by {
            if !deps.contains(vars.last().name@) {
                assert(0u64 & x == 0) by (bit_vector);
            }
        }
        assert(rest & x == 0 && last & x == 0 ==> (rest | last) & x == 0) by (bit_vector);
    } else {
        assert(0u64 & x == 0) by (bit_vector);
    }
}

/// Whether one of `vars` is named `id`.
pub open spec fn names_var(vars: Seq<ReactiveVar>, id: Seq<char>) -> bool {
    exists|i: int| 0 <= i < vars.len() && (#[trigger] vars[i]).name@ == id
}

/// The name in scope of the first `{#each}` item written `id`.
pub open spec fn scoped_name(scoped: Seq<EachVar>, id: Seq<char>) -> Option<Seq<char>>
    decreases scoped.len(),
{
    if scoped.len() == 0 {
        None
    } else if scoped[0].original_name@ == id {
        Some(scoped[0].name@)
    } else {
        scoped_name(scoped.drop_first(), id)
    }
}

/// What the identifier `id` in a template expression becomes: an `{#each}`
/// item in scope becomes its scoped name; otherwise a state variable is read
/// through its tracker (`*state.id`), and a reactive variable as a field
/// (`state.id`); any other identifier stays.
pub open spec fn renamed(id: Seq<char>, state: Seq<ReactiveVar>, reactive: Seq<ReactiveVar>, scoped: Seq<EachVar>) -> Option<Seq<char>> {
    match scoped_name(scoped, id) {
        Some(n) => Some(n),
        None => if names_var(state, id) {
            Some("*state."@ + id)
        } else if names_var(reactive, id) {
            Some("state."@ + id)
        } else {
            None
        },
    }
}

fn has_var(vars: &Vec<ReactiveVar>, id: &String) -> (r: bool)
    ensures
        r == names_var(vars@, id@),
{
    let mut i: usize = 0;
    while i < vars.len()
        invariant
            i <= vars@.len(),
            forall|j: int| 0 <= j < i ==> (#[trigger] vars@[j]).name@ != id@,
        decreases vars@.len() - i,
    {
        if crate::text::str_eq(vars[i].name.as_str(), id.as_str()) {
            return true;
        }
        i = i + 1;
    }
    false
}

/// The rewrite of the identifier `id` in a template expression; see
/// `renamed`.
pub fn rename_ident(id: &String, state: &Vec<ReactiveVar>, reactive: &Vec<ReactiveVar>, scoped: &Vec<EachVar>) -> (r: Option<String>)
    ensures
        match r {
            Some(t) => renamed(id@, state@, reactive@, scoped@) == Some(t@),
            None => renamed(id@, state@, reactive@, scoped@) is None,
        },
{
    let mut i: usize = 0;
    assert(scoped@.skip(0) =~= scoped@);
    while i < scoped.len()
        invariant
            i <= scoped@.len(),
            scoped_name(scoped@, id@) == scoped_name(scoped@.skip(i as int), id@),
        decreases scoped@.len() - i,
    {
        let ghost rest = scoped@.skip(i as int);
        assert(rest[0] == scoped@[i as int]);
        if crate::text::str_eq(scoped[i].original_name.as_str(), id.as_str()) {
            return Some(scoped[i].name.clone());
        }
        assert(rest.drop_first() =~= scoped@.skip(i + 1));
        i = i + 1;
    }
    assert(scoped@.skip(i as int).len() == 0);
    if has_var(state, id) {
        let mut t = String::from_str("*state.");
        t.append(id.as_str());
        Some(t)
    } else if has_var(reactive, id) {
        let mut t = String::from_str("state.");
        t.append(id.as_str());
        Some(t)
    } else {
        None
    }
}

impl DerivedVar {
    /// The derived variable `var`, whose initial value reads the variables
    /// named in `dependents` and was rewritten to `revised_default`; it is
    /// recomputed when any state or reactive variable it reads changes.
    pub fn from_state_var(
        var: StateVar,
        revised_default: String,
        dependents: Vec<String>,
        state_vars: &Vec<ReactiveVar>,
        reactive_vars: &Vec<ReactiveVar>,
    ) -> (r: DerivedVar)
        ensures
            r.data.name == var.name,
            r.data.ty == var.ty,
            r.data.flag_pos == var.flag_pos,
            r.data.default == revised_default,
            r.dependents == dependents,
            r.update_mask == update_mask_of(state_vars@ + reactive_vars@, names(dependents@)),
    {
        let mask = flags_read(&dependents, state_vars, reactive_vars);
        DerivedVar {
            data: StateVar { name: var.name, ty: var.ty, default: revised_default, flag_pos: var.flag_pos },
            dependents,
            update_mask: mask,
        }
    }
}

/// Whether the derived variable at `i` reads the one at `j`.
pub open spec fn depends_on(vars: Seq<DerivedVar>, i: int, j: int) -> bool {
    names(vars[i].dependents@).contains(vars[j].data.name@)
}

/// The derived variables depend on each other without a cycle: some rank
/// decreases along every dependency.
pub open spec fn acyclic(vars: Seq<DerivedVar>) -> bool {
    exists|rank: Seq<nat>|
        rank.len() == vars.len() && forall|i: int, j: int|
            0 <= i < vars.len() && 0 <= j < vars.len() && #[trigger] depends_on(vars, i, j)
                ==> rank[j] < rank[i]
}

/// The number of `true` entries of `s`.
pub open spec fn count_true(s: Seq<bool>) -> nat
    decreases s.len(),
{
    if s.len() == 0 {
        0
    } else {
        count_true(s.drop_last()) + if s.last() {
            1nat
        } else {
            0nat
        }
    }
}

proof fn lemma_count_update(s: Seq<bool>, i: int)
    requires
        0 <= i < s.len(),
        !s[i],
    ensures
        count_true(s.update(i, true)) == count_true(s) + 1,
    decreases s.len(),
{
    if i < s.len() - 1 {
        lemma_count_update(s.drop_last(), i);
        assert(s.update(i, true).drop_last() =~= s.drop_last().update(i, true));
    } else {
        assert(s.update(i, true).drop_last() =~= s.drop_last());
    }
}

proof fn lemma_count_bound(s: Seq<bool>)
    ensures
        count_true(s) <= s.len(),
        count_true(s) == s.len() ==> forall|i: int| 0 <= i < s.len() ==> #[trigger] s[i],
    decreases s.len(),
{
    if s.len() > 0 {
        lemma_count_bound(s.drop_last());
        assert forall|i: int| 0 <= i < s.len() && count_true(s) == s.len() implies #[trigger] s[i] by {
            if i < s.len() - 1 {
                assert(s[i] == s.drop_last()[i]);
            }
        }
    }
}

/// Among the indices that satisfy `p`, one of least rank.
proof fn lemma_min_rank(rank: Seq<nat>, p: spec_fn(int) -> bool, w: int) -> (m: int)
    requires
        0 <= w < rank.len(),
        p(w),
    ensures
        0 <= m < rank.len(),
        p(m),
        forall|j: int| 0 <= j < rank.len() && p(j) ==> rank[m] <= #[trigger] rank[j],
    decreases rank[w],
{
    if exists|j: int| 0 <= j < rank.len() && p(j) && #[trigger] rank[j] < rank[w] {
        let j = choose|j: int| 0 <= j < rank.len() && p(j) && #[trigger] rank[j] < rank[w];
        lemma_min_rank(rank, p, j)
    } else {
        w
    }
}

/// Whether the derived variable at `i` reads the one at `j`.
fn depends_on_exec(vars: &Vec<DerivedVar>, i: usize, j: usize) -> (r: bool)
    requires
        i < vars@.len(),
        j < vars@.len(),
    ensures
        r == depends_on(vars@, i as int, j as int),
{
    contains_name(&vars[i].dependents, &vars[j].data.name)
}

/// Whether every variable that the one at `i` reads is placed.
pub open spec fn ready(vars: Seq<DerivedVar>, placed: Seq<bool>, i: int) -> bool {
    forall|j: int| 0 <= j < vars.len() && depends_on(vars, i, j) ==> #[trigger] placed[j]
}

fn ready_exec(vars: &Vec<DerivedVar>, placed: &Vec<bool>, i: usize) -> (r: bool)
    requires
        i < vars@.len(),
        placed@.len() == vars@.len(),
    ensures
        r == ready(vars@, placed@, i as int),
{
    let n = vars.len();
    let mut j: usize = 0;
    while j < n
        invariant
            n == vars@.len(),
            placed@.len() == n,
            i < n,
            j <= n,
            forall|k: int| 0 <= k < j && depends_on(vars@, i as int, k) ==> #[trigger] placed@[k],
        decreases n - j,
    {
        if depends_on_exec(vars, i, j) && !placed[j] {
            return false;
        }
        j = j + 1;
    }
    true
}

/// The order in which derived variables are updated: each variable comes
/// after every derived variable whose value it reads, so that when `a`
/// depends on `b`, `b` is updated first. Among the variables whose
/// dependencies are all placed, the first one in `derived_vars` is placed
/// next; in particular, variables that do not depend on each other keep their
/// order.
pub fn build_derived_order(derived_vars: Vec<DerivedVar>) -> (r: Vec<DerivedVar>)
    requires
        acyclic(derived_vars@),
    ensures
        r@.len() == derived_vars@.len(),
        exists|order: Seq<int>|
            #![trigger order.len()]
            order.len() == derived_vars@.len() && (forall|k: int|
                0 <= k < order.len() ==> 0 <= #[trigger] order[k] < derived_vars@.len()) && (forall|
                p: int,
                q: int,
            |
                0 <= p < order.len() && 0 <= q < order.len() && p != q ==> #[trigger] order[p]
                    != #[trigger] order[q]) && (forall|k: int|
                0 <= k < order.len() ==> #[trigger] r@[k] == derived_vars@[order[k]]) && (forall|
                p: int,
                q: int,
            |
                0 <= p < order.len() && 0 <= q < order.len() && #[trigger] depends_on(
                    derived_vars@,
                    order[p],
                    order[q],
                ) ==> q < p),
        (forall|i: int, j: int|
            0 <= i < derived_vars@.len() && 0 <= j < derived_vars@.len() ==> !#[trigger] depends_on(
                derived_vars@,
                i,
                j,
            )) ==> r@ == derived_vars@,
{
    let n = derived_vars.len();
    let ghost vars = derived_vars@;
    let ghost rank = choose|rank: Seq<nat>|
        rank.len() == vars.len() && forall|i: int, j: int|
            0 <= i < vars.len() && 0 <= j < vars.len() && #[trigger] depends_on(vars, i, j)
                ==> rank[j] < rank[i];
    let ghost nodeps = forall|i: int, j: int|
        0 <= i < vars.len() && 0 <= j < vars.len() ==> !#[trigger] depends_on(vars, i, j);
    let mut placed: Vec<bool> = Vec::new();
    while placed.len() < n
        invariant
            placed@.len() <= n,
            forall|k: int| 0 <= k < placed@.len() ==> !#[trigger] placed@[k],
        decreases n - placed@.len(),
    {
        placed.push(false);
    }
    assert(count_true(placed@) == 0) by {
        lemma_count_zero(placed@);
    }
    let mut order: Vec<usize> = Vec::new();
    let ghost mut pos: Seq<int> = Seq::new(n as nat, |i: int| -1);
    while order.len() < n
        invariant
            n == vars.len(),
            vars == derived_vars@,
            rank.len() == n,
            forall|i: int, j: int|
                0 <= i < n && 0 <= j < n && #[trigger] depends_on(vars, i, j) ==> rank[j] < rank[i],
            nodeps == forall|i: int, j: int|
                0 <= i < vars.len() && 0 <= j < vars.len() ==> !#[trigger] depends_on(vars, i, j),
            placed@.len() == n,
            pos.len() == n,
            order@.len() <= n,
            count_true(placed@) == order@.len(),
            forall|p: int| 0 <= p < order@.len() ==> #[trigger] order@[p] < n,
            forall|p: int| 0 <= p < order@.len() ==> pos[#[trigger] order@[p] as int] == p,
            forall|i: int| 0 <= i < n && #[trigger] placed@[i] ==> 0 <= pos[i] < order@.len(),
            forall|i: int| 0 <= i < n && !#[trigger] placed@[i] ==> pos[i] == -1,
            forall|i: int| 0 <= i < n && placed@[i] ==> order@[#[trigger] pos[i]] == i,
            forall|p: int, j: int|
                0 <= p < order@.len() && 0 <= j < n && #[trigger] depends_on(vars, order@[p] as int, j)
                    ==> placed@[j] && pos[j] < p,
            nodeps ==> forall|p: int| 0 <= p < order@.len() ==> #[trigger] order@[p] == p,
            nodeps ==> forall|i: int| 0 <= i < n ==> (#[trigger] placed@[i] <==> i < order@.len()),
        decreases n - order@.len(),
    {
        let mut i: usize = 0;
        let mut found: usize = n;
        while i < n && found == n
            invariant
                n == vars.len(),
                vars == derived_vars@,
                placed@.len() == n,
                i <= n,
                found == n || (found == i && i < n),
                found == n ==> forall|k: int|
                    0 <= k < i ==> !(!#[trigger] placed@[k] && ready(vars, placed@, k)),
                found < n ==> !placed@[found as int] && ready(vars, placed@, found as int),
                found < n ==> forall|k: int|
                    0 <= k < found ==> !(!#[trigger] placed@[k] && ready(vars, placed@, k)),
            decreases n - i + (if found == n { 1int } else { 0int }),
        {
            if !placed[i] && ready_exec(&derived_vars, &placed, i) {
                found = i;
            } else {
                i = i + 1;
            }
        }
        if found == n {
            proof {
                lemma_count_bound(placed@);
                if forall|w: int| 0 <= w < n ==> #[trigger] placed@[w] {
                    lemma_count_all(placed@);
                }
                let w = choose|w: int| 0 <= w < n && !#[trigger] placed@[w];
                let m = lemma_min_rank(rank, |k: int| 0 <= k < n && !placed@[k], w);
                assert(ready(vars, placed@, m)) by {
                    assert forall|j: int| 0 <= j < vars.len() && depends_on(vars, m, j) implies #[trigger] placed@[j] by {
                        if !placed@[j] {
                            assert(rank[m] <= rank[j]);
                        }
                    }
                }
                assert(!(!placed@[m] && ready(vars, placed@, m)));
                assert(false);
            }
        }
        proof {
            if nodeps {
                assert(ready(vars, placed@, order@.len() as int));
                if found < order@.len() {
                    assert(placed@[found as int]);
                }
                if found > order@.len() {
                    assert(!placed@[order@.len() as int]);
                }
            }
            lemma_count_update(placed@, found as int);
        }
        let ghost old_order = order@;
        let ghost old_placed = placed@;
        placed.set(found, true);
        order.push(found);
        proof {
            pos = pos.update(found as int, old_order.len() as int);
            assert forall|p: int, j: int|
                0 <= p < order@.len() && 0 <= j < n && #[trigger] depends_on(vars, order@[p] as int, j)
                    implies placed@[j] && pos[j] < p by {
                if p < old_order.len() {
                    assert(order@[p] == old_order[p]);
                } else {
                    assert(old_placed[j]);
                }
            }
        }
    }
    // Move the variables to their places.
    let mut slots: Vec<Option<DerivedVar>> = Vec::new();
    let mut pool = derived_vars;
    proof {
        assert forall|p: int, q: int| 0 <= p < n && 0 <= q < n && p != q implies #[trigger] order@[p] != #[trigger] order@[q] by {
            if order@[p] == order@[q] {
                assert(pos[order@[p] as int] == p);
                assert(pos[order@[q] as int] == q);
            }
        }
    }
    while pool.len() > 0
        invariant
            slots@.len() + pool@.len() == n,
            vars.len() == n,
            forall|k: int| 0 <= k < slots@.len() ==> #[trigger] slots@[k] == Some(vars[k]),
            forall|k: int| 0 <= k < pool@.len() ==> #[trigger] pool@[k] == vars[slots@.len() + k],
        decreases pool@.len(),
    {
        let ghost old_pool = pool@;
        let v = pool.remove(0);
        slots.push(Some(v));
        assert forall|k: int| 0 <= k < pool@.len() implies #[trigger] pool@[k] == vars[slots@.len() + k] by {
            assert(pool@[k] == old_pool[k + 1]);
        }
    }
    let mut result: Vec<DerivedVar> = Vec::new();
    let mut k: usize = 0;
    while k < n
        invariant
            n == vars.len(),
            order@.len() == n,
            slots@.len() == n,
            k <= n,
            result@.len() == k,
            forall|p: int| 0 <= p < n ==> #[trigger] order@[p] < n,
            forall|p: int, q: int| 0 <= p < n && 0 <= q < n && p != q ==> #[trigger] order@[p] != #[trigger] order@[q],
            forall|p: int| 0 <= p < k ==> #[trigger] result@[p] == vars[order@[p] as int],
            forall|p: int| k <= p < n ==> #[trigger] slots@[order@[p] as int] == Some(vars[order@[p] as int]),
        decreases n - k,
    {
        let idx = order[k];
        let ghost old_slots = slots@;
        let taken = slots.remove(idx);
        slots.insert(idx, None);
        assert(slots@ =~= old_slots.update(idx as int, None));
        proof {
            assert forall|p: int| k + 1 <= p < n implies #[trigger] slots@[order@[p] as int] == Some(vars[order@[p] as int]) by {
                assert(order@[p] != order@[k as int]);
            }
        }
        match taken {
            Some(v) => {
                result.push(v);
                k = k + 1;
            },
            None => {
                proof {
                    assert(false);
                }
                return result;
            },
        }
    }
    proof {
        let order_i = order@.map_values(|x: usize| x as int);
        assert(order_i.len() == vars.len());
        assert forall|p: int, q: int|
            0 <= p < order_i.len() && 0 <= q < order_i.len() && #[trigger] depends_on(
                vars,
                order_i[p],
                order_i[q],
            ) implies q < p by {
            assert(pos[order@[q] as int] == q);
        }
        if nodeps {
            assert(result@ =~= vars);
        }
    }
    result
}

proof fn lemma_count_all(s: Seq<bool>)
    requires
        forall|k: int| 0 <= k < s.len() ==> #[trigger] s[k],
    ensures
        count_true(s) == s.len(),
    decreases s.len(),
{
    if s.len() > 0 {
        lemma_count_all(s.drop_last());
    }
}

proof fn lemma_count_zero(s: Seq<bool>)
    requires
        forall|k: int| 0 <= k < s.len() ==> !#[trigger] s[k],
    ensures
        count_true(s) == 0,
    decreases s.len(),
{
    if s.len() > 0 {
        lemma_count_zero(s.drop_last());
    }
}

/// Where some variable is not placed and no unplaced variable has all its
/// dependencies placed, the variables depend on each other in a cycle.
proof fn lemma_stuck_not_acyclic(vars: Seq<DerivedVar>, placed: Seq<bool>)
    requires
        placed.len() == vars.len(),
        exists|w: int| 0 <= w < vars.len() && !#[trigger] placed[w],
        forall|k: int| 0 <= k < vars.len() ==> !(!#[trigger] placed[k] && ready(vars, placed, k)),
    ensures
        !acyclic(vars),
{
    let n = vars.len();
    let w = choose|w: int| 0 <= w < n && !#[trigger] placed[w];
    if acyclic(vars) {
        let rank = choose|rank: Seq<nat>|
            rank.len() == vars.len() && forall|a: int, b: int|
                0 <= a < vars.len() && 0 <= b < vars.len() && #[trigger] depends_on(vars, a, b)
                    ==> rank[b] < rank[a];
        let m = lemma_min_rank(rank, |k: int| 0 <= k < n && !placed[k], w);
        assert(ready(vars, placed, m)) by {
            assert forall|j: int| 0 <= j < vars.len() && depends_on(vars, m, j) implies #[trigger] placed[j] by {
                if !placed[j] {
                    assert(rank[m] <= rank[j]);
                }
            }
        }
        assert(!(!placed[m] && ready(vars, placed, m)));
    }
}

/// Whether the derived variables depend on each other without a cycle, so
/// that an update order exists (see `build_derived_order`).
pub fn is_acyclic(derived_vars: &Vec<DerivedVar>) -> (r: bool)
    ensures
        r == acyclic(derived_vars@),
{
    let n = derived_vars.len();
    let ghost vars = derived_vars@;
    let mut placed: Vec<bool> = Vec::new();
    while placed.len() < n
        invariant
            placed@.len() <= n,
            forall|k: int| 0 <= k < placed@.len() ==> !#[trigger] placed@[k],
        decreases n - placed@.len(),
    {
        placed.push(false);
    }
    assert(count_true(placed@) == 0) by {
        lemma_count_zero(placed@);
    }
    let mut count: usize = 0;
    let ghost mut pos: Seq<int> = Seq::new(n as nat, |i: int| -1);
    while count < n
        invariant
            n == vars.len(),
            vars == derived_vars@,
            placed@.len() == n,
            pos.len() == n,
            count <= n,
            count_true(placed@) == count,
            forall|i: int| 0 <= i < n && #[trigger] placed@[i] ==> 0 <= pos[i] < count,
            forall|i: int, j: int|
                0 <= i < n && 0 <= j < n && placed@[i] && #[trigger] depends_on(vars, i, j) ==> placed@[j]
                    && pos[j] < pos[i],
        decreases n - count,
    {
        let mut i: usize = 0;
        let mut found: usize = n;
        while i < n && found == n
            invariant
                n == vars.len(),
                vars == derived_vars@,
                placed@.len() == n,
                i <= n,
                found == n || (found == i && i < n),
                found == n ==> forall|k: int|
                    0 <= k < i ==> !(!#[trigger] placed@[k] && ready(vars, placed@, k)),
                found < n ==> !placed@[found as int] && ready(vars, placed@, found as int),
            decreases n - i + (if found == n { 1int } else { 0int }),
        {
            if !placed[i] && ready_exec(derived_vars, &placed, i) {
                found = i;
            } else {
                i = i + 1;
            }
        }
        if found == n {
            proof {
                lemma_count_bound(placed@);
                if forall|w: int| 0 <= w < n ==> #[trigger] placed@[w] {
                    lemma_count_all(placed@);
                }
                lemma_stuck_not_acyclic(vars, placed@);
            }
            return false;
        }
        proof {
            lemma_count_update(placed@, found as int);
        }
        let ghost old_placed = placed@;
        let ghost old_pos = pos;
        placed.set(found, true);
        proof {
            pos = pos.update(found as int, count as int);
            assert forall|i: int| 0 <= i < n && #[trigger] placed@[i] implies 0 <= pos[i] < count + 1 by {
                if i != found {
                    assert(old_placed[i]);
                }
            }
            assert forall|i: int, j: int|
                0 <= i < n && 0 <= j < n && placed@[i] && #[trigger] depends_on(vars, i, j) implies placed@[j]
                    && pos[j] < pos[i] by {
                if i == found {
                    assert(ready(vars, old_placed, i));
                    assert(old_placed[j]);
                    assert(j != found);
                } else {
                    assert(old_placed[i]);
                    assert(old_placed[j]);
                    assert(j != found);
                }
            }
        }
        count = count + 1;
    }
    proof {
        lemma_count_bound(placed@);
        let rank = Seq::new(n as nat, |i: int| pos[i] as nat);
        assert forall|i: int, j: int|
            0 <= i < vars.len() && 0 <= j < vars.len() && #[trigger] depends_on(vars, i, j) implies rank[j]
                < rank[i] by {
            assert(placed@[i]);
        }
        assert(rank.len() == vars.len());
    }
    true
}

} // verus!
