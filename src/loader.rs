//! Which modules a run deploys, and in what order.
//!
//! A module is selected when it is enabled and either no names were given
//! or its name is among them. Modules are taken in declaration order. Before
//! a module come the modules it requires, found depth first, so that the
//! requirements of a required module are expanded too. Each module is placed
//! once. A requirement that names no module is reported and skipped. Only a
//! cycle of requirements can put a required module after its requirer.
use vstd::prelude::*;

use crate::module::{is_enabled, RawModule};

verus! {

/// The texts of a sequence of strings.
pub open spec fn strs(v: Seq<String>) -> Seq<Seq<char>> {
    v.map_values(|s: String| s@)
}

/// The names of the configured modules, in declaration order.
pub open spec fn names_of(entries: Seq<(String, RawModule)>) -> Seq<Seq<char>> {
    entries.map_values(|e: (String, RawModule)| e.0@)
}

/// Whether a module is deployed on its own account.
pub open spec fn selected(e: (String, RawModule), filter: Seq<Seq<char>>) -> bool {
    is_enabled(e.1) && (filter.len() == 0 || filter.contains(e.0@))
}

/// Where the module called `x` is configured.
pub open spec fn index_of_name(entries: Seq<(String, RawModule)>, x: Seq<char>) -> int {
    choose|i: int| 0 <= i < entries.len() && entries[i].0@ == x
}

/// The configured module called `x`.
pub open spec fn entry_of(entries: Seq<(String, RawModule)>, x: Seq<char>) -> (String, RawModule) {
    entries[index_of_name(entries, x)]
}

/// The modules that the module called `x` requires.
pub open spec fn reqs_of(entries: Seq<(String, RawModule)>, x: Seq<char>) -> Seq<Seq<char>> {
    strs(entry_of(entries, x).1.requires@)
}

/// Each module of `p` requires the next one.
pub open spec fn is_chain(entries: Seq<(String, RawModule)>, p: Seq<Seq<char>>) -> bool {
    p.len() >= 1 && forall|k: int|
        0 <= k < p.len() - 1 ==> #[trigger] reqs_of(entries, p[k]).contains(p[k + 1])
}

/// Module `a` requires module `b`, directly or through other modules, or is `b`.
pub open spec fn leads_to(entries: Seq<(String, RawModule)>, a: Seq<char>, b: Seq<char>) -> bool {
    exists|p: Seq<Seq<char>>| is_chain(entries, p) && p[0] == a && p.last() == b
}

/// What the resolved `order` and the reported `missing` requirements
/// satisfy, while the modules of `stack` are still being placed.
pub open spec fn placement_ok(
    entries: Seq<(String, RawModule)>,
    order: Seq<Seq<char>>,
    stack: Seq<Seq<char>>,
    missing: Seq<(Seq<char>, Seq<char>)>,
) -> bool {
    let keys = names_of(entries);
    &&& order.no_duplicates()
    &&& stack.no_duplicates()
    &&& forall|x: Seq<char>| #[trigger] order.contains(x) ==> !stack.contains(x) && keys.contains(x)
    &&& forall|x: Seq<char>| #[trigger] stack.contains(x) ==> keys.contains(x)
    &&& forall|i: int, m: Seq<char>|
        0 <= i < order.len() && #[trigger] reqs_of(entries, order[i]).contains(m) && keys.contains(m)
            ==> (exists|j: int| 0 <= j < i && order[j] == m) || (leads_to(entries, m, order[i]) && (
        order.contains(m) || stack.contains(m)))
    &&& forall|i: int, r: Seq<char>|
        0 <= i < order.len() && #[trigger] reqs_of(entries, order[i]).contains(r) && !keys.contains(r)
            ==> missing.contains((order[i], r))
}

/// Every placed module is selected, or required by a module that is placed
/// or being placed.
pub open spec fn justified(
    entries: Seq<(String, RawModule)>,
    filter: Seq<Seq<char>>,
    order: Seq<Seq<char>>,
    stack: Seq<Seq<char>>,
) -> bool {
    forall|i: int|
        0 <= i < order.len() ==> selected(entry_of(entries, #[trigger] order[i]), filter) || exists|y: Seq<char>|
            (order.contains(y) || stack.contains(y)) && #[trigger] reqs_of(entries, y).contains(order[i])
}

/// The resolved order of the whole configuration: every module at most once
/// and only configured ones; every selected module present; every
/// requirement of a placed module placed too, before it unless the
/// requirement leads back to it; every placed module selected or required by
/// another; every requirement that names no module reported.
pub open spec fn resolved(
    entries: Seq<(String, RawModule)>,
    filter: Seq<Seq<char>>,
    order: Seq<Seq<char>>,
    missing: Seq<(Seq<char>, Seq<char>)>,
) -> bool {
    &&& placement_ok(entries, order, seq![], missing)
    &&& justified(entries, filter, order, seq![])
    &&& forall|t: int| 0 <= t < entries.len() && selected(#[trigger] entries[t], filter) ==> order.contains(entries[t].0@)
}

/// The names of the selected modules among the first `k`, in declaration order.
pub open spec fn selected_names(entries: Seq<(String, RawModule)>, filter: Seq<Seq<char>>, k: int) -> Seq<Seq<char>>
    decreases k,
{
    if k <= 0 {
        seq![]
    } else if selected(entries[k - 1], filter) {
        selected_names(entries, filter, k - 1).push(entries[k - 1].0@)
    } else {
        selected_names(entries, filter, k - 1)
    }
}

/// No selected module requires another.
pub open spec fn no_requirements(entries: Seq<(String, RawModule)>, filter: Seq<Seq<char>>) -> bool {
    forall|t: int| 0 <= t < entries.len() && selected(#[trigger] entries[t], filter) ==> entries[t].1.requires.len() == 0
}

proof fn lemma_selected_names_from(entries: Seq<(String, RawModule)>, filter: Seq<Seq<char>>, k: int, x: Seq<char>)
    requires
        0 <= k <= entries.len(),
        selected_names(entries, filter, k).contains(x),
    ensures
        exists|t: int| 0 <= t < k && entries[t].0@ == x,
    decreases k,
{
    broadcast use vstd::seq_lib::group_seq_properties;

    if k > 0 {
        if selected(entries[k - 1], filter) && x == entries[k - 1].0@ {
        } else {
            lemma_selected_names_from(entries, filter, k - 1, x);
        }
    }
}

/// A placement in progress: the order so far, the modules being placed
/// (each requiring the next), and the missing requirements reported.
pub struct Placement {
    pub order: Seq<Seq<char>>,
    pub stack: Seq<Seq<char>>,
    pub missing: Seq<(Seq<char>, Seq<char>)>,
}

/// Places module `x`: first its requirements, in order, then `x` itself.
/// `fuel` bounds the depth and is never exhausted on configured modules.
pub open spec fn visit(entries: Seq<(String, RawModule)>, fuel: nat, st: Placement, x: Seq<char>) -> Placement
    decreases fuel, 1nat, 0int,
{
    if fuel == 0 {
        st
    } else {
        let inner = Placement { order: st.order, stack: st.stack.push(x), missing: st.missing };
        let after = take_requires(entries, (fuel - 1) as nat, inner, x, reqs_of(entries, x).len() as int);
        Placement { order: after.order.push(x), stack: st.stack, missing: after.missing }
    }
}

/// The placement after taking in the first `j` requirements of `x`: a
/// missing one is reported, a placed one or one being placed is skipped,
/// any other is placed.
pub open spec fn take_requires(entries: Seq<(String, RawModule)>, fuel: nat, st: Placement, x: Seq<char>, j: int) -> Placement
    decreases fuel + 1, 0nat, j,
{
    if j <= 0 {
        st
    } else {
        let prev = take_requires(entries, fuel, st, x, j - 1);
        let r = reqs_of(entries, x)[j - 1];
        if !names_of(entries).contains(r) {
            Placement { order: prev.order, stack: prev.stack, missing: prev.missing.push((x, r)) }
        } else if prev.order.contains(r) || prev.stack.contains(r) {
            prev
        } else {
            visit(entries, fuel, prev, r)
        }
    }
}

/// The placement after the first `k` configured modules: each selected
/// module not yet placed is placed, in declaration order.
pub open spec fn resolve_prefix(entries: Seq<(String, RawModule)>, filter: Seq<Seq<char>>, k: int) -> Placement
    decreases k,
{
    if k <= 0 {
        Placement { order: seq![], stack: seq![], missing: seq![] }
    } else {
        let prev = resolve_prefix(entries, filter, k - 1);
        let e = entries[k - 1];
        if selected(e, filter) && !prev.order.contains(e.0@) {
            visit(entries, entries.len() as nat, prev, e.0@)
        } else {
            prev
        }
    }
}

/// The resolution of the whole configuration.
pub open spec fn resolution(entries: Seq<(String, RawModule)>, filter: Seq<Seq<char>>) -> Placement {
    resolve_prefix(entries, filter, entries.len() as int)
}

/// The requirements of `x` that name configured modules.
pub open spec fn key_reqs(entries: Seq<(String, RawModule)>, x: Seq<char>) -> Seq<Seq<char>> {
    reqs_of(entries, x).filter(|r: Seq<char>| names_of(entries).contains(r))
}

/// The order and the stack after placing module `x`, as `visit` places it;
/// missing requirements play no part in them.
pub open spec fn visit_order(
    entries: Seq<(String, RawModule)>,
    fuel: nat,
    order: Seq<Seq<char>>,
    stack: Seq<Seq<char>>,
    x: Seq<char>,
) -> (Seq<Seq<char>>, Seq<Seq<char>>)
    decreases fuel, 1nat, 0nat,
{
    if fuel == 0 {
        (order, stack)
    } else {
        let p = take_keys(entries, (fuel - 1) as nat, order, stack.push(x), key_reqs(entries, x));
        (p.0.push(x), stack)
    }
}

/// The order and the stack after taking in the configured requirements `rs`.
pub open spec fn take_keys(
    entries: Seq<(String, RawModule)>,
    fuel: nat,
    order: Seq<Seq<char>>,
    stack: Seq<Seq<char>>,
    rs: Seq<Seq<char>>,
) -> (Seq<Seq<char>>, Seq<Seq<char>>)
    decreases fuel + 1, 0nat, rs.len(),
{
    if rs.len() == 0 {
        (order, stack)
    } else {
        let p = take_keys(entries, fuel, order, stack, rs.drop_last());
        let r = rs.last();
        if p.0.contains(r) || p.1.contains(r) {
            p
        } else {
            visit_order(entries, fuel, p.0, p.1, r)
        }
    }
}

/// The order after the first `k` configured modules.
pub open spec fn order_prefix(entries: Seq<(String, RawModule)>, filter: Seq<Seq<char>>, k: int) -> Seq<Seq<char>>
    decreases k,
{
    if k <= 0 {
        seq![]
    } else {
        let prev = order_prefix(entries, filter, k - 1);
        let e = entries[k - 1];
        if selected(e, filter) && !prev.contains(e.0@) {
            visit_order(entries, entries.len() as nat, prev, seq![], e.0@).0
        } else {
            prev
        }
    }
}

/// The order in which the modules of the whole configuration are deployed.
pub open spec fn resolved_order(entries: Seq<(String, RawModule)>, filter: Seq<Seq<char>>) -> Seq<Seq<char>> {
    order_prefix(entries, filter, entries.len() as int)
}

/// `other` is `entries` with some requirements that name no configured
/// module left out, or added.
pub open spec fn differ_in_missing(entries: Seq<(String, RawModule)>, other: Seq<(String, RawModule)>) -> bool {
    &&& other.len() == entries.len()
    &&& forall|i: int|
        0 <= i < entries.len() ==> (#[trigger] other[i]).0@ == entries[i].0@ && other[i].1.enabled
            == entries[i].1.enabled && strs(other[i].1.requires@).filter(
            |r: Seq<char>| names_of(entries).contains(r),
        ) == strs(entries[i].1.requires@).filter(|r: Seq<char>| names_of(entries).contains(r))
}

proof fn lemma_key_reqs_agree(entries: Seq<(String, RawModule)>, other: Seq<(String, RawModule)>, x: Seq<char>)
    requires
        names_of(entries).no_duplicates(),
        differ_in_missing(entries, other),
        names_of(entries).contains(x),
    ensures
        key_reqs(entries, x) == key_reqs(other, x),
        names_of(other) == names_of(entries),
{
    assert(names_of(other) =~= names_of(entries)) by {
        assert forall|i: int| 0 <= i < entries.len() implies names_of(other)[i] == names_of(entries)[i] by {
            assert(other[i].0@ == entries[i].0@);
        }
    }
    let i = choose|i: int| 0 <= i < names_of(entries).len() && names_of(entries)[i] == x;
    assert(entries[i].0@ == x);
    assert(other[i].0@ == x);
    lemma_entry_of(entries, i);
    lemma_entry_of(other, i);
    let kp = |r: Seq<char>| names_of(entries).contains(r);
    let ko = |r: Seq<char>| names_of(other).contains(r);
    assert(kp =~= ko);
}

proof fn lemma_visit_agrees(
    entries: Seq<(String, RawModule)>,
    other: Seq<(String, RawModule)>,
    fuel: nat,
    order: Seq<Seq<char>>,
    stack: Seq<Seq<char>>,
    x: Seq<char>,
)
    requires
        names_of(entries).no_duplicates(),
        differ_in_missing(entries, other),
        names_of(entries).contains(x),
    ensures
        visit_order(entries, fuel, order, stack, x) == visit_order(other, fuel, order, stack, x),
    decreases fuel, 1nat, 0nat,
{
    if fuel > 0 {
        lemma_key_reqs_agree(entries, other, x);
        let rs = key_reqs(entries, x);
        reqs_of(entries, x).filter_lemma(|r: Seq<char>| names_of(entries).contains(r));
        lemma_take_agrees(entries, other, (fuel - 1) as nat, order, stack.push(x), rs);
    }
}

proof fn lemma_take_agrees(
    entries: Seq<(String, RawModule)>,
    other: Seq<(String, RawModule)>,
    fuel: nat,
    order: Seq<Seq<char>>,
    stack: Seq<Seq<char>>,
    rs: Seq<Seq<char>>,
)
    requires
        names_of(entries).no_duplicates(),
        differ_in_missing(entries, other),
        forall|k: int| 0 <= k < rs.len() ==> names_of(entries).contains(#[trigger] rs[k]),
    ensures
        take_keys(entries, fuel, order, stack, rs) == take_keys(other, fuel, order, stack, rs),
    decreases fuel + 1, 0nat, rs.len(),
{
    if rs.len() > 0 {
        lemma_take_agrees(entries, other, fuel, order, stack, rs.drop_last());
        let p = take_keys(entries, fuel, order, stack, rs.drop_last());
        assert(names_of(entries).contains(rs[rs.len() - 1]));
        lemma_visit_agrees(entries, other, fuel, p.0, p.1, rs.last());
    }
}

/// Requirements that name no configured module do not change the order:
/// two configurations that differ only in such requirements deploy the
/// same modules in the same order.
pub proof fn lemma_missing_requirements_keep_order(
    entries: Seq<(String, RawModule)>,
    other: Seq<(String, RawModule)>,
    filter: Seq<Seq<char>>,
)
    requires
        names_of(entries).no_duplicates(),
        differ_in_missing(entries, other),
    ensures
        resolved_order(entries, filter) == resolved_order(other, filter),
{
    lemma_order_prefix_agrees(entries, other, filter, entries.len() as int);
}

proof fn lemma_order_prefix_agrees(
    entries: Seq<(String, RawModule)>,
    other: Seq<(String, RawModule)>,
    filter: Seq<Seq<char>>,
    k: int,
)
    requires
        names_of(entries).no_duplicates(),
        differ_in_missing(entries, other),
        k <= entries.len(),
    ensures
        order_prefix(entries, filter, k) == order_prefix(other, filter, k),
    decreases k,
{
    if k > 0 {
        lemma_order_prefix_agrees(entries, other, filter, k - 1);
        assert(other[k - 1].0@ == entries[k - 1].0@);
        assert(names_of(entries)[k - 1] == entries[k - 1].0@);
        lemma_visit_agrees(
            entries,
            other,
            entries.len() as nat,
            order_prefix(entries, filter, k - 1),
            seq![],
            entries[k - 1].0@,
        );
    }
}

pub open spec fn snapshot(order: Seq<String>, stack: Seq<String>, missing: Seq<MissingRequire>) -> Placement {
    Placement { order: strs(order), stack: strs(stack), missing: missing_view(missing) }
}

/// A requirement that names no configured module.
#[derive(Debug, Clone)]
pub struct MissingRequire {
    pub module: String,
    pub required: String,
}

pub open spec fn missing_view(v: Seq<MissingRequire>) -> Seq<(Seq<char>, Seq<char>)> {
    v.map_values(|m: MissingRequire| (m.module@, m.required@))
}

/// The outcome of resolving the module graph.
#[derive(Debug, Clone)]
pub struct Resolution {
    /// The names of the modules to deploy, in order.
    pub order: Vec<String>,
    /// Requirements that name no module, in the order met.
    pub missing: Vec<MissingRequire>,
}

pub fn contains_str(v: &Vec<String>, s: &String) -> (b: bool)
    ensures
        b == strs(v@).contains(s@),
{
    let mut k: usize = 0;
    while k < v.len()
        invariant
            k <= v.len(),
            forall|i: int| 0 <= i < k ==> strs(v@)[i] != s@,
        decreases v.len() - k,
    {
        if v[k] == *s {
            assert(strs(v@)[k as int] == s@);
            return true;
        }
        k = k + 1;
    }
    false
}

fn find_key(entries: &Vec<(String, RawModule)>, s: &String) -> (r: Option<usize>)
    ensures
        match r {
            Some(i) => i < entries.len() && entries@[i as int].0@ == s@,
            None => !names_of(entries@).contains(s@),
        },
{
    let mut k: usize = 0;
    while k < entries.len()
        invariant
            k <= entries.len(),
            forall|i: int| 0 <= i < k ==> names_of(entries@)[i] != s@,
        decreases entries.len() - k,
    {
        if entries[k].0 == *s {
            return Some(k);
        }
        k = k + 1;
    }
    None
}

proof fn lemma_entry_of(entries: Seq<(String, RawModule)>, i: int)
    requires
        names_of(entries).no_duplicates(),
        0 <= i < entries.len(),
    ensures
        entry_of(entries, entries[i].0@) == entries[i],
{
    let x = entries[i].0@;
    assert(entries[i].0@ == x);
    assert(exists|c: int| 0 <= c < entries.len() && entries[c].0@ == x);
    let c = index_of_name(entries, x);
    assert(0 <= c < entries.len() && entries[c].0@ == x);
    assert(names_of(entries)[c] == entries[c].0@);
    assert(names_of(entries)[i] == entries[i].0@);
    if c != i {
        assert(names_of(entries)[c] != names_of(entries)[i]);
    }
}

proof fn lemma_stack_fits(stack: Seq<Seq<char>>, keys: Seq<Seq<char>>, x: Seq<char>)
    requires
        stack.no_duplicates(),
        forall|y: Seq<char>| #[trigger] stack.contains(y) ==> keys.contains(y),
        !stack.contains(x),
        keys.contains(x),
    ensures
        stack.len() < keys.len(),
{
    broadcast use vstd::seq_lib::group_seq_properties;
    broadcast use vstd::set::group_set_axioms;

    let s = stack.push(x);
    assert(s.no_duplicates()) by {
        assert forall|p: int, q: int| 0 <= p < s.len() && 0 <= q < s.len() && p != q implies s[p] != s[q] by {
            if p < stack.len() && q == stack.len() {
                assert(stack.contains(stack[p]));
            } else if q < stack.len() && p == stack.len() {
                assert(stack.contains(stack[q]));
            }
        }
    }
    s.unique_seq_to_set();
    keys.lemma_cardinality_of_set();
    assert(s.to_set().subset_of(keys.to_set())) by {
        assert forall|y: Seq<char>| s.to_set().contains(y) implies keys.to_set().contains(y) by {
            assert(s.contains(y));
            if y != x {
                assert(stack.contains(y));
            }
        }
    }
    vstd::seq_lib::seq_to_set_is_finite(keys);
    vstd::set_lib::lemma_len_subset(s.to_set(), keys.to_set());
}

proof fn lemma_stack_leads(entries: Seq<(String, RawModule)>, stack: Seq<Seq<char>>, j: int)
    requires
        0 <= j < stack.len(),
        forall|k: int| 0 <= k < stack.len() - 1 ==> #[trigger] reqs_of(entries, stack[k]).contains(stack[k + 1]),
    ensures
        leads_to(entries, stack[j], stack.last()),
{
    let p = stack.subrange(j, stack.len() as int);
    assert forall|k: int| 0 <= k < p.len() - 1 implies #[trigger] reqs_of(entries, p[k]).contains(p[k + 1]) by {
        assert(p[k] == stack[j + k]);
        assert(p[k + 1] == stack[j + k + 1]);
    }
    assert(is_chain(entries, p));
    assert(p[0] == stack[j]);
    assert(p.last() == stack.last());
}

/// Places module `entries[xi]` after the modules it requires.
fn place(
    entries: &Vec<(String, RawModule)>,
    Ghost(filter): Ghost<Seq<Seq<char>>>,
    xi: usize,
    order: &mut Vec<String>,
    stack: &mut Vec<String>,
    missing: &mut Vec<MissingRequire>,
)
    requires
        names_of(entries@).no_duplicates(),
        xi < entries.len(),
        placement_ok(entries@, strs(old(order)@), strs(old(stack)@), missing_view(old(missing)@)),
        forall|k: int| 0 <= k < old(stack).len() - 1 ==> #[trigger] reqs_of(entries@, strs(old(stack)@)[k]).contains(strs(old(stack)@)[k + 1]),
        old(stack).len() > 0 ==> reqs_of(entries@, strs(old(stack)@).last()).contains(entries@[xi as int].0@),
        !strs(old(order)@).contains(entries@[xi as int].0@),
        !strs(old(stack)@).contains(entries@[xi as int].0@),
        justified(entries@, filter, strs(old(order)@), strs(old(stack)@)),
        old(stack).len() == 0 ==> selected(entries@[xi as int], filter),
    ensures
        justified(entries@, filter, strs(final(order)@), strs(final(stack)@)),
        placement_ok(entries@, strs(final(order)@), strs(final(stack)@), missing_view(final(missing)@)),
        strs(final(stack)@) == strs(old(stack)@),
        final(order).len() >= old(order).len(),
        strs(final(order)@).subrange(0, old(order).len() as int) == strs(old(order)@),
        strs(final(order)@).contains(entries@[xi as int].0@),
        forall|p: (Seq<char>, Seq<char>)| #[trigger] missing_view(old(missing)@).contains(p) ==> missing_view(final(missing)@).contains(p),
        entries@[xi as int].1.requires.len() == 0 ==> strs(final(order)@) == strs(old(order)@).push(
            entries@[xi as int].0@,
        ),
        (strs(final(order)@), strs(final(stack)@)) == visit_order(
            entries@,
            (entries.len() - old(stack).len()) as nat,
            strs(old(order)@),
            strs(old(stack)@),
            entries@[xi as int].0@,
        ),
        snapshot(final(order)@, final(stack)@, final(missing)@) == visit(
            entries@,
            (entries.len() - old(stack).len()) as nat,
            snapshot(old(order)@, old(stack)@, old(missing)@),
            entries@[xi as int].0@,
        ),
    decreases entries.len() - old(stack).len(),
{
    broadcast use vstd::seq_lib::group_seq_properties;

    let ghost keys = names_of(entries@);
    let ghost x = entries@[xi as int].0@;
    let ghost order0 = strs(order@);
    let ghost stack0 = strs(stack@);
    let ghost missing0 = missing_view(missing@);
    let ghost fuel: nat = (entries.len() - stack0.len()) as nat;
    proof {
        assert(keys[xi as int] == x);
        lemma_stack_fits(stack0, keys, x);
        lemma_entry_of(entries@, xi as int);
    }
    stack.push(entries[xi].0.clone());
    let ghost stack1 = strs(stack@);
    assert(stack1 =~= stack0.push(x));
    let reqs = &entries[xi].1.requires;
    assert(reqs_of(entries@, x) == strs(reqs@));
    let mut j: usize = 0;
    assert(strs(reqs@).subrange(0, 0) =~= Seq::<Seq<char>>::empty());
    assert(snapshot(order@, stack@, missing@) == take_requires(
        entries@,
        (entries.len() - stack0.len() - 1) as nat,
        Placement { order: order0, stack: stack0.push(x), missing: missing0 },
        x,
        0,
    ));
    while j < reqs.len()
        invariant
            names_of(entries@).no_duplicates(),
            fuel == entries.len() - stack0.len(),
            keys == names_of(entries@),
            xi < entries.len(),
            x == entries@[xi as int].0@,
            reqs_of(entries@, x) == strs(reqs@),
            reqs == &entries@[xi as int].1.requires,
            j <= reqs.len(),
            stack0.len() < entries.len(),
            stack.len() == stack0.len() + 1,
            old(stack).len() == stack0.len(),
            strs(stack@) == stack1,
            stack1 == stack0.push(x),
            !order0.contains(x),
            placement_ok(entries@, strs(order@), stack1, missing_view(missing@)),
            justified(entries@, filter, strs(order@), stack1),
            old(stack).len() == 0 ==> selected(entries@[xi as int], filter),
            stack0.len() > 0 ==> reqs_of(entries@, stack0.last()).contains(x),
            forall|k: int| 0 <= k < stack1.len() - 1 ==> #[trigger] reqs_of(entries@, stack1[k]).contains(stack1[k + 1]),
            order.len() >= order0.len(),
            strs(order@).subrange(0, order0.len() as int) == order0,
            reqs.len() == 0 ==> strs(order@) == order0,
            (strs(order@), stack1) == take_keys(
                entries@,
                (entries.len() - stack0.len() - 1) as nat,
                order0,
                stack0.push(x),
                strs(reqs@).subrange(0, j as int).filter(|r: Seq<char>| names_of(entries@).contains(r)),
            ),
            snapshot(order@, stack@, missing@) == take_requires(
                entries@,
                (entries.len() - stack0.len() - 1) as nat,
                Placement { order: order0, stack: stack0.push(x), missing: missing0 },
                x,
                j as int,
            ),
            forall|p: (Seq<char>, Seq<char>)| #[trigger] missing0.contains(p) ==> missing_view(missing@).contains(p),
            forall|jj: int| 0 <= jj < j && keys.contains(#[trigger] strs(reqs@)[jj]) ==> strs(order@).contains(strs(reqs@)[jj]) || stack1.contains(strs(reqs@)[jj]),
            forall|jj: int| 0 <= jj < j && !keys.contains(#[trigger] strs(reqs@)[jj]) ==> missing_view(missing@).contains((x, strs(reqs@)[jj])),
        decreases reqs.len() - j,
    {
        let r = &reqs[j];
        assert(strs(reqs@)[j as int] == r@);
        let ghost order_before = strs(order@);
        let ghost missing_before = missing_view(missing@);
        let ghost prevp = snapshot(order@, stack@, missing@);
        let ghost start = Placement { order: order0, stack: stack0.push(x), missing: missing0 };
        assert(reqs_of(entries@, x)[j as int] == r@);
        let ghost before_keys = strs(reqs@).subrange(0, j as int).filter(
            |r: Seq<char>| names_of(entries@).contains(r),
        );
        let ghost now_keys = strs(reqs@).subrange(0, j + 1).filter(
            |r: Seq<char>| names_of(entries@).contains(r),
        );
        let ghost f1 = (entries.len() - stack0.len() - 1) as nat;
        proof {
            let sub = strs(reqs@).subrange(0, j as int);
            assert(strs(reqs@).subrange(0, j + 1) =~= sub.push(r@));
            sub.lemma_filter_push(r@, |r: Seq<char>| names_of(entries@).contains(r));
        }
        assert(strs(reqs@).subrange(0, j + 1).drop_last() =~= strs(reqs@).subrange(0, j as int));
        assert(strs(reqs@).subrange(0, j + 1).last() == r@);
        match find_key(entries, r) {
            None => {
                missing.push(MissingRequire { module: entries[xi].0.clone(), required: r.clone() });
                assert(missing_view(missing@) =~= missing_before.push((x, r@)));
                assert(missing_view(missing@)[missing_before.len() as int] == (x, r@));
                assert(missing_view(missing@).contains((x, r@)));
                assert forall|p: (Seq<char>, Seq<char>)| #[trigger] missing_before.contains(p) implies missing_view(missing@).contains(p) by {
                    let w = choose|w: int| 0 <= w < missing_before.len() && missing_before[w] == p;
                    assert(missing_view(missing@)[w] == p);
                }
                assert(placement_ok(entries@, strs(order@), stack1, missing_view(missing@)));
                assert(snapshot(order@, stack@, missing@) == Placement {
                    order: prevp.order,
                    stack: prevp.stack,
                    missing: prevp.missing.push((x, r@)),
                });
                assert(now_keys == before_keys);
            },
            Some(ri) => {
                assert(names_of(entries@)[ri as int] == r@);
                assert(names_of(entries@).contains(r@));
                assert(now_keys == before_keys.push(r@));
                assert(now_keys.drop_last() =~= before_keys);
                assert(now_keys.last() == r@);
                if !contains_str(order, r) && !contains_str(stack, r) {
                    proof {
                        lemma_stack_fits(stack1, keys, r@);
                    }
                    assert(stack1.last() == x);
                    assert(reqs_of(entries@, x).contains(r@));
                    place(entries, Ghost(filter), ri, order, stack, missing);
                    assert forall|y: Seq<char>| #[trigger] order_before.contains(y) implies strs(order@).contains(y) by {
                        let w = choose|w: int| 0 <= w < order_before.len() && order_before[w] == y;
                        assert(strs(order@).subrange(0, order_before.len() as int)[w] == y);
                    }
                    assert(strs(order@).subrange(0, order0.len() as int) =~= strs(order@).subrange(0, order_before.len() as int).subrange(0, order0.len() as int));
                }
            },
        }
        j = j + 1;
    }
    let ghost order2 = strs(order@);
    let ghost missing2 = missing_view(missing@);
    let ghost after = snapshot(order@, stack@, missing@);
    assert(reqs_of(entries@, x).len() == reqs.len());
    assert(strs(reqs@).subrange(0, reqs.len() as int) =~= strs(reqs@));
    let ghost sv = stack@;
    stack.pop();
    assert(stack@ =~= sv.drop_last());
    assert(strs(stack@) =~= stack1.drop_last());
    assert(stack1.drop_last() =~= stack0);
    order.push(entries[xi].0.clone());
    let ghost order3 = strs(order@);
    assert(order3 =~= order2.push(x));
    assert(order2.contains(x) == false) by {
        if order2.contains(x) {
            assert(!stack1.contains(x));
            assert(stack1[stack1.len() - 1] == x);
        }
    }
    assert forall|y: Seq<char>| #[trigger] order2.contains(y) implies order3.contains(y) by {
        let w = choose|w: int| 0 <= w < order2.len() && order2[w] == y;
        assert(order3[w] == y);
    }
    assert(order3[order2.len() as int] == x);
    assert(order3.contains(x));
    // The new order has no duplicates.
    assert(order3.no_duplicates()) by {
        assert forall|p: int, q: int| 0 <= p < order3.len() && 0 <= q < order3.len() && p != q implies order3[p] != order3[q] by {
            if p < order2.len() && q == order2.len() {
                assert(order2.contains(order2[p]));
            } else if q < order2.len() && p == order2.len() {
                assert(order2.contains(order2[q]));
            }
        }
    }
    assert forall|y: Seq<char>| #[trigger] order3.contains(y) implies !stack0.contains(y) && keys.contains(y) by {
        let w = choose|w: int| 0 <= w < order3.len() && order3[w] == y;
        if w < order2.len() {
            assert(order2.contains(y));
            assert(!stack1.contains(y));
            if stack0.contains(y) {
                let v = choose|v: int| 0 <= v < stack0.len() && stack0[v] == y;
                assert(stack1[v] == y);
            }
        } else {
            assert(y == x);
            assert(stack1.contains(x));
        }
    }
    assert forall|y: Seq<char>| #[trigger] stack0.contains(y) implies keys.contains(y) by {
        let v = choose|v: int| 0 <= v < stack0.len() && stack0[v] == y;
        assert(stack1[v] == y);
        assert(stack1.contains(y));
    }
    assert forall|i: int, m: Seq<char>|
        0 <= i < order3.len() && #[trigger] reqs_of(entries@, order3[i]).contains(m) && keys.contains(m)
        implies (exists|j: int| 0 <= j < i && order3[j] == m) || (leads_to(entries@, m, order3[i]) && (
        order3.contains(m) || stack0.contains(m))) by {
        if i < order2.len() {
            assert(order3[i] == order2[i]);
            if exists|j: int| 0 <= j < i && order2[j] == m {
                let j = choose|j: int| 0 <= j < i && order2[j] == m;
                assert(order3[j] == m);
            } else {
                assert(leads_to(entries@, m, order2[i]));
                if order2.contains(m) {
                    assert(order3.contains(m));
                } else {
                    assert(stack1.contains(m));
                    if m == x {
                        assert(order3.contains(m));
                    } else {
                        let v = choose|v: int| 0 <= v < stack1.len() && stack1[v] == m;
                        assert(stack0[v] == m);
                    }
                }
            }
        } else {
            assert(order3[i] == x);
            let jj = choose|jj: int| 0 <= jj < strs(reqs@).len() && strs(reqs@)[jj] == m;
            if order2.contains(m) {
                let w = choose|w: int| 0 <= w < order2.len() && order2[w] == m;
                assert(order3[w] == m);
            } else {
                assert(stack1.contains(m));
                let v = choose|v: int| 0 <= v < stack1.len() && stack1[v] == m;
                lemma_stack_leads(entries@, stack1, v);
                assert(stack1.last() == x);
                if m == x {
                    assert(order3.contains(m));
                } else {
                    assert(stack0[v] == m);
                }
            }
        }
    }
    assert forall|i: int, r: Seq<char>|
        0 <= i < order3.len() && #[trigger] reqs_of(entries@, order3[i]).contains(r) && !keys.contains(r)
        implies missing2.contains((order3[i], r)) by {
        if i < order2.len() {
            assert(order3[i] == order2[i]);
        } else {
            assert(order3[i] == x);
            let jj = choose|jj: int| 0 <= jj < strs(reqs@).len() && strs(reqs@)[jj] == r;
        }
    }
    assert(order3.subrange(0, order0.len() as int) =~= order2.subrange(0, order0.len() as int));
    assert(snapshot(order@, stack@, missing@) == Placement {
        order: after.order.push(x),
        stack: stack0,
        missing: after.missing,
    });
    assert forall|i: int| 0 <= i < order3.len() implies selected(entry_of(entries@, #[trigger] order3[i]), filter) || exists|y: Seq<char>|
        (order3.contains(y) || stack0.contains(y)) && #[trigger] reqs_of(entries@, y).contains(order3[i]) by {
        if i < order2.len() {
            assert(order3[i] == order2[i]);
            if !selected(entry_of(entries@, order2[i]), filter) {
                let y = choose|y: Seq<char>| (order2.contains(y) || stack1.contains(y)) && #[trigger] reqs_of(entries@, y).contains(order2[i]);
                if order2.contains(y) {
                    assert(order3.contains(y));
                } else if y == x {
                    assert(order3.contains(y));
                } else {
                    let v = choose|v: int| 0 <= v < stack1.len() && stack1[v] == y;
                    assert(stack0[v] == y);
                    assert(stack0.contains(y));
                }
            }
        } else {
            assert(order3[i] == x);
            if stack0.len() > 0 {
                let y = stack0.last();
                assert(stack0.contains(y));
                assert(reqs_of(entries@, y).contains(x));
            } else {
                assert(entry_of(entries@, x) == entries@[xi as int]);
            }
        }
    }
}

/// Resolves which modules to deploy and in what order. `enabled` names the
/// modules asked for; when it is empty every enabled module is taken.
pub fn resolve_modules(entries: &Vec<(String, RawModule)>, enabled: &Vec<String>) -> (r: Resolution)
    requires
        names_of(entries@).no_duplicates(),
    ensures
        resolved(entries@, strs(enabled@), strs(r.order@), missing_view(r.missing@)),
        strs(r.order@) == resolved_order(entries@, strs(enabled@)),
        strs(r.order@) == resolution(entries@, strs(enabled@)).order,
        missing_view(r.missing@) == resolution(entries@, strs(enabled@)).missing,
        no_requirements(entries@, strs(enabled@)) ==> strs(r.order@) == selected_names(
            entries@,
            strs(enabled@),
            entries.len() as int,
        ),
{
    broadcast use vstd::seq_lib::group_seq_properties;

    let ghost filter = strs(enabled@);
    let all = enabled.len() == 0;
    let mut order: Vec<String> = Vec::new();
    let mut stack: Vec<String> = Vec::new();
    let mut missing: Vec<MissingRequire> = Vec::new();
    assert(strs(order@) =~= Seq::<Seq<char>>::empty());
    assert(strs(stack@) =~= Seq::<Seq<char>>::empty());
    assert(missing_view(missing@) =~= Seq::<(Seq<char>, Seq<char>)>::empty());
    let mut k: usize = 0;
    while k < entries.len()
        invariant
            names_of(entries@).no_duplicates(),
            k <= entries.len(),
            filter == strs(enabled@),
            all == (enabled.len() == 0),
            strs(stack@) == Seq::<Seq<char>>::empty(),
            placement_ok(entries@, strs(order@), strs(stack@), missing_view(missing@)),
            forall|t: int| 0 <= t < k && selected(#[trigger] entries@[t], filter) ==> strs(order@).contains(entries@[t].0@),
            no_requirements(entries@, filter) ==> strs(order@) == selected_names(entries@, filter, k as int),
            justified(entries@, filter, strs(order@), strs(stack@)),
            snapshot(order@, stack@, missing@) == resolve_prefix(entries@, filter, k as int),
            strs(order@) == order_prefix(entries@, filter, k as int),
        decreases entries.len() - k,
    {
        let on = match entries[k].1.enabled {
            Some(b) => b,
            None => true,
        };
        let ghost before = strs(order@);
        proof {
            if no_requirements(entries@, filter) && selected(entries@[k as int], filter) {
                if before.contains(entries@[k as int].0@) {
                    lemma_selected_names_from(entries@, filter, k as int, entries@[k as int].0@);
                    let t = choose|t: int| 0 <= t < k && entries@[t].0@ == entries@[k as int].0@;
                    assert(names_of(entries@)[t] == names_of(entries@)[k as int]);
                }
            }
        }
        if on && (all || contains_str(enabled, &entries[k].0)) && !contains_str(&order, &entries[k].0) {
            place(entries, Ghost(filter), k, &mut order, &mut stack, &mut missing);
            assert forall|y: Seq<char>| #[trigger] before.contains(y) implies strs(order@).contains(y) by {
                let w = choose|w: int| 0 <= w < before.len() && before[w] == y;
                assert(strs(order@).subrange(0, before.len() as int)[w] == y);
            }
        }
        k = k + 1;
    }
    Resolution { order, missing }
}

} // verus!
