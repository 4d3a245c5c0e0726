//! The layout of a component's state struct: its fields, how `new()` fills
//! them, and how `update_derived` recomputes the derived variables.

use vstd::prelude::*;
use vstd::string::StringExecFns;

use crate::numtext::{spec_digits, to_decimal};
use crate::parse::rs_parse::{Prop, StateVar};
use crate::transform::derived::DerivedVar;

verus! {

/// The recomputation of a derived variable: when a flag of `update_mask` is
/// set, `name` takes `value` and its own flag `var_mask` is set.
pub struct DerivedUpdate {
    pub name: String,
    pub value: String,
    pub update_mask: u64,
    pub var_mask: u64,
}

/// The state struct of a component: its fields (name and type text), the
/// initialiser of each field in `new()` (name and value text), and the
/// updates of `update_derived`, in order.
pub struct StateLayout {
    pub fields: Vec<(String, String)>,
    pub inits: Vec<(String, String)>,
    pub updates: Vec<DerivedUpdate>,
}

pub open spec fn pairs_view(v: Seq<(String, String)>) -> Seq<(Seq<char>, Seq<char>)> {
    v.map_values(|p: (String, String)| (p.0@, p.1@))
}

pub open spec fn update_view(u: DerivedUpdate) -> (Seq<char>, Seq<char>, u64, u64) {
    (u.name@, u.value@, u.update_mask, u.var_mask)
}

/// A prop's field: its own type.
pub open spec fn prop_field(p: Prop) -> (Seq<char>, Seq<char>) {
    (p.name@, p.ty@)
}

/// A `$state` field: its type wrapped in the change tracker.
pub open spec fn state_field(v: StateVar) -> (Seq<char>, Seq<char>) {
    (v.name@, "crate::MutateTracker<"@ + v.ty@ + ">"@)
}

/// A derived field: its own type.
pub open spec fn derived_field(v: StateVar) -> (Seq<char>, Seq<char>) {
    (v.name@, v.ty@)
}

/// The fields of the state struct: the props, the bindable props, the
/// `$state` variables (wrapped in the tracker) and the derived variables, in that order.
pub open spec fn spec_fields(props: Seq<Prop>, bindable: Seq<Prop>, state: Seq<StateVar>, derived: Seq<StateVar>) -> Seq<(Seq<char>, Seq<char>)> {
    props.map_values(|p: Prop| prop_field(p)) + bindable.map_values(|p: Prop| prop_field(p))
        + state.map_values(|v: StateVar| state_field(v)) + derived.map_values(|v: StateVar| derived_field(v))
}

/// A prop's initial value: its default, or `Default::default()`.
pub open spec fn prop_init(p: Prop) -> (Seq<char>, Seq<char>) {
    (p.name@, match p.default {
        Some(d) => d@,
        None => "Default::default()"@,
    })
}

/// A `$state` variable's initial value: a tracker of its default, with its
/// flag position.
pub open spec fn state_init(v: StateVar) -> (Seq<char>, Seq<char>) {
    (v.name@, "crate::MutateTracker::new("@ + v.default@ + ", "@ + spec_digits(v.flag_pos as nat, 10) + "u32)"@)
}

/// A derived variable's initial value: its expression.
pub open spec fn derived_init(v: StateVar) -> (Seq<char>, Seq<char>) {
    (v.name@, v.default@)
}

/// The initialisers of `new()`, in the order of the fields.
pub open spec fn spec_inits(props: Seq<Prop>, bindable: Seq<Prop>, state: Seq<StateVar>, derived: Seq<StateVar>) -> Seq<(Seq<char>, Seq<char>)> {
    props.map_values(|p: Prop| prop_init(p)) + bindable.map_values(|p: Prop| prop_init(p))
        + state.map_values(|v: StateVar| state_init(v)) + derived.map_values(|v: StateVar| derived_init(v))
}

/// The update of a derived variable: its rewritten expression, under the
/// mask of what it reads, setting its own flag.
pub open spec fn spec_update(d: DerivedVar) -> (Seq<char>, Seq<char>, u64, u64) {
    (d.data.name@, d.data.default@, d.update_mask, (1u64 << d.data.flag_pos) as u64)
}

/// The updates of `update_derived`, in the order given.
pub open spec fn spec_updates(order: Seq<DerivedVar>) -> Seq<(Seq<char>, Seq<char>, u64, u64)> {
    order.map_values(|d: DerivedVar| spec_update(d))
}

fn push_prop_fields(out: &mut Vec<(String, String)>, inits: &mut Vec<(String, String)>, props: &Vec<Prop>)
    ensures
        pairs_view(final(out)@) == pairs_view(old(out)@) + props@.map_values(|p: Prop| prop_field(p)),
        pairs_view(final(inits)@) == pairs_view(old(inits)@) + props@.map_values(|p: Prop| prop_init(p)),
{
    let ghost o0 = out@;
    let ghost i0 = inits@;
    let mut i: usize = 0;
    while i < props.len()
        invariant
            i <= props@.len(),
            pairs_view(out@) == pairs_view(o0) + props@.take(i as int).map_values(|p: Prop| prop_field(p)),
            pairs_view(inits@) == pairs_view(i0) + props@.take(i as int).map_values(|p: Prop| prop_init(p)),
        decreases props@.len() - i,
    {
        let p = &props[i];
        let ghost ob = out@;
        let ghost ib = inits@;
        out.push((p.name.clone(), p.ty.clone()));
        let init = match &p.default {
            Some(d) => d.clone(),
            None => String::from_str("Default::default()"),
        };
        inits.push((p.name.clone(), init));
        proof {
            assert(props@.take(i + 1) =~= props@.take(i as int).push(props@[i as int]));
            assert(pairs_view(out@) =~= pairs_view(ob).push(prop_field(props@[i as int])));
            assert(pairs_view(inits@) =~= pairs_view(ib).push(prop_init(props@[i as int])));
            assert(props@.take(i + 1).map_values(|p: Prop| prop_field(p)) =~= props@.take(i as int).map_values(|p: Prop| prop_field(p)).push(prop_field(props@[i as int])));
            assert(props@.take(i + 1).map_values(|p: Prop| prop_init(p)) =~= props@.take(i as int).map_values(|p: Prop| prop_init(p)).push(prop_init(props@[i as int])));
        }
        i = i + 1;
    }
    assert(props@.take(i as int) =~= props@);
}

fn push_var_fields(out: &mut Vec<(String, String)>, inits: &mut Vec<(String, String)>, vars: &Vec<StateVar>, wrapped: bool)
    ensures
        pairs_view(final(out)@) == pairs_view(old(out)@) + vars@.map_values(
            |v: StateVar| if wrapped { state_field(v) } else { derived_field(v) },
        ),
        pairs_view(final(inits)@) == pairs_view(old(inits)@) + vars@.map_values(
            |v: StateVar| if wrapped { state_init(v) } else { derived_init(v) },
        ),
{
    let ghost o0 = out@;
    let ghost i0 = inits@;
    let ghost ff = |v: StateVar| if wrapped { state_field(v) } else { derived_field(v) };
    let ghost fi = |v: StateVar| if wrapped { state_init(v) } else { derived_init(v) };
    let mut i: usize = 0;
    while i < vars.len()
        invariant
            i <= vars@.len(),
            ff == (|v: StateVar| if wrapped { state_field(v) } else { derived_field(v) }),
            fi == (|v: StateVar| if wrapped { state_init(v) } else { derived_init(v) }),
            pairs_view(out@) == pairs_view(o0) + vars@.take(i as int).map_values(ff),
            pairs_view(inits@) == pairs_view(i0) + vars@.take(i as int).map_values(fi),
        decreases vars@.len() - i,
    {
        let v = &vars[i];
        let ghost ob = out@;
        let ghost ib = inits@;
        if wrapped {
            let mut ty = String::from_str("crate::MutateTracker<");
            ty.append(v.ty.as_str());
            ty.append(">");
            out.push((v.name.clone(), ty));
            let mut init = String::from_str("crate::MutateTracker::new(");
            init.append(v.default.as_str());
            init.append(", ");
            init.append(to_decimal(v.flag_pos as u64).as_str());
            init.append("u32)");
            inits.push((v.name.clone(), init));
        } else {
            out.push((v.name.clone(), v.ty.clone()));
            inits.push((v.name.clone(), v.default.clone()));
        }
        proof {
            assert(vars@.take(i + 1) =~= vars@.take(i as int).push(vars@[i as int]));
            assert(pairs_view(out@) =~= pairs_view(ob).push(ff(vars@[i as int])));
            assert(pairs_view(inits@) =~= pairs_view(ib).push(fi(vars@[i as int])));
            assert(vars@.take(i + 1).map_values(ff) =~= vars@.take(i as int).map_values(ff).push(ff(vars@[i as int])));
            assert(vars@.take(i + 1).map_values(fi) =~= vars@.take(i as int).map_values(fi).push(fi(vars@[i as int])));
        }
        i = i + 1;
    }
    assert(vars@.take(i as int) =~= vars@);
}

/// The layout of the state struct of a component with the props `props`
/// and `bindable`, the `$state` variables `state` and the derived variables
/// `derived`, whose updates run in the order `order` (see `spec_fields`,
/// `spec_inits`, `spec_updates`).
pub fn state_layout(
    props: &Vec<Prop>,
    bindable: &Vec<Prop>,
    state: &Vec<StateVar>,
    derived: &Vec<StateVar>,
    order: &Vec<DerivedVar>,
) -> (r: StateLayout)
    requires
        forall|i: int| 0 <= i < order@.len() ==> (#[trigger] order@[i]).data.flag_pos < 64,
    ensures
        pairs_view(r.fields@) == spec_fields(props@, bindable@, state@, derived@),
        pairs_view(r.inits@) == spec_inits(props@, bindable@, state@, derived@),
        r.updates@.map_values(|u: DerivedUpdate| update_view(u)) == spec_updates(order@),
{
    let mut fields: Vec<(String, String)> = Vec::new();
    let mut inits: Vec<(String, String)> = Vec::new();
    assert(pairs_view(fields@) =~= Seq::<(Seq<char>, Seq<char>)>::empty());
    assert(pairs_view(inits@) =~= Seq::<(Seq<char>, Seq<char>)>::empty());
    push_prop_fields(&mut fields, &mut inits, props);
    push_prop_fields(&mut fields, &mut inits, bindable);
    push_var_fields(&mut fields, &mut inits, state, true);
    push_var_fields(&mut fields, &mut inits, derived, false);
    assert(state@.map_values(|v: StateVar| if true { state_field(v) } else { derived_field(v) }) =~= state@.map_values(|v: StateVar| state_field(v)));
    assert(state@.map_values(|v: StateVar| if true { state_init(v) } else { derived_init(v) }) =~= state@.map_values(|v: StateVar| state_init(v)));
    assert(derived@.map_values(|v: StateVar| if false { state_field(v) } else { derived_field(v) }) =~= derived@.map_values(|v: StateVar| derived_field(v)));
    assert(derived@.map_values(|v: StateVar| if false { state_init(v) } else { derived_init(v) }) =~= derived@.map_values(|v: StateVar| derived_init(v)));
    let mut updates: Vec<DerivedUpdate> = Vec::new();
    let mut i: usize = 0;
    while i < order.len()
        invariant
            i <= order@.len(),
            forall|k: int| 0 <= k < order@.len() ==> (#[trigger] order@[k]).data.flag_pos < 64,
            updates@.map_values(|u: DerivedUpdate| update_view(u)) == spec_updates(order@.take(i as int)),
        decreases order@.len() - i,
    {
        let d = &order[i];
        let ghost before = updates@;
        assert(order@[i as int].data.flag_pos < 64);
        let u = DerivedUpdate {
            name: d.data.name.clone(),
            value: d.data.default.clone(),
            update_mask: d.update_mask,
            var_mask: 1u64 << d.data.flag_pos,
        };
        updates.push(u);
        proof {
            assert(order@.take(i + 1) =~= order@.take(i as int).push(order@[i as int]));
            assert(updates@.map_values(|u: DerivedUpdate| update_view(u)) =~= before.map_values(|u: DerivedUpdate| update_view(u)).push(spec_update(order@[i as int])));
            assert(spec_updates(order@.take(i + 1)) =~= spec_updates(order@.take(i as int)).push(spec_update(order@[i as int])));
        }
        i = i + 1;
    }
    assert(order@.take(i as int) =~= order@);
    StateLayout { fields, inits, updates }
}

} // verus!
