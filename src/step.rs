use vstd::prelude::*;
use crate::plan::AccessPlan;

verus! {

/// The component store: for each slot of a plan's combined set, the value of
/// that type held by each node, if any.
pub struct ComponentStore<V> {
    pub slots: Vec<Vec<Option<V>>>,
}

/// The tree: the parent of each node, and its children in order.
pub struct TreeIndex {
    pub parents: Vec<Option<usize>>,
    pub children: Vec<Vec<usize>>,
}

/// The data handed to a rule for one node.
pub struct StepInputs<V> {
    pub id: usize,
    /// The node's own dependencies, or none if one is absent.
    pub node: Option<Vec<V>>,
    /// The parent's dependencies, or none if there is no parent or one is absent.
    pub parent: Option<Vec<V>>,
    /// The dependencies of each child that holds all of them, in child order.
    pub children: Vec<Vec<V>>,
}

/// The mathematical content of `StepInputs`.
pub struct RoleData<V> {
    pub id: nat,
    pub node: Option<Seq<V>>,
    pub parent: Option<Seq<V>>,
    pub children: Seq<Seq<V>>,
}

pub open spec fn opt_view<V>(o: Option<Vec<V>>) -> Option<Seq<V>> {
    match o {
        Some(v) => Some(v@),
        None => None,
    }
}

impl<V> View for StepInputs<V> {
    type V = RoleData<V>;

    open spec fn view(&self) -> RoleData<V> {
        RoleData {
            id: self.id as nat,
            node: opt_view(self.node),
            parent: opt_view(self.parent),
            children: self.children@.map_values(|c: Vec<V>| c@),
        }
    }
}

/// The value of slot `slot` at node `id`.
pub open spec fn value_at<V>(s: ComponentStore<V>, slot: int, id: int) -> Option<V> {
    s.slots@[slot]@[id]
}

/// The number of nodes of a tree.
pub open spec fn node_count(t: TreeIndex) -> int {
    t.parents@.len() as int
}

/// The tree is well formed: every id it names is a node, and no node is its
/// own parent or its own child.
pub open spec fn tree_wf(t: TreeIndex) -> bool {
    &&& t.children@.len() == t.parents@.len()
    &&& forall|i: int| 0 <= i < node_count(t) ==> match #[trigger] t.parents@[i] {
        Some(p) => p < node_count(t) && p != i,
        None => true,
    }
    &&& forall|i: int, k: int| 0 <= i < node_count(t) && 0 <= k < t.children@[i]@.len() ==> {
        &&& #[trigger] t.children@[i]@[k] < node_count(t)
        &&& t.children@[i]@[k] != i
    }
}

/// The store has one row per slot of the plan and one entry per node in each
/// row, and every index of the plan names a slot.
pub open spec fn store_fits<V>(s: ComponentStore<V>, t: TreeIndex, p: AccessPlan) -> bool {
    &&& s.slots@.len() == p.combined@.len()
    &&& forall|k: int| 0 <= k < s.slots@.len() ==> #[trigger] s.slots@[k]@.len() == node_count(t)
    &&& p.self_index < s.slots@.len()
    &&& forall|k: int| 0 <= k < p.parent@.len() ==> #[trigger] p.parent@[k] < s.slots@.len()
    &&& forall|k: int| 0 <= k < p.child@.len() ==> #[trigger] p.child@[k] < s.slots@.len()
    &&& forall|k: int| 0 <= k < p.node@.len() ==> #[trigger] p.node@[k] < s.slots@.len()
}

/// The values of the slots `idx` at node `id`, all or nothing.
pub open spec fn fetch<V>(s: ComponentStore<V>, idx: Seq<usize>, id: int) -> Option<Seq<V>> {
    if forall|k: int| 0 <= k < idx.len() ==> (#[trigger] value_at(s, idx[k] as int, id)) is Some {
        Some(Seq::new(idx.len(), |k: int| value_at(s, idx[k] as int, id)->Some_0))
    } else {
        None
    }
}

/// The values of the slots `idx` at each of `ids` that holds all of them, in order.
pub open spec fn fetch_each<V>(s: ComponentStore<V>, idx: Seq<usize>, ids: Seq<usize>) -> Seq<Seq<V>>
    decreases ids.len(),
{
    if ids.len() == 0 {
        Seq::empty()
    } else {
        let pre = fetch_each(s, idx, ids.drop_last());
        match fetch(s, idx, ids.last() as int) {
            Some(v) => pre.push(v),
            None => pre,
        }
    }
}

/// What a rule receives for node `id`.
pub open spec fn gather_spec<V>(s: ComponentStore<V>, t: TreeIndex, p: AccessPlan, id: int) -> RoleData<V> {
    RoleData {
        id: id as nat,
        node: fetch(s, p.node@, id),
        parent: match t.parents@[id] {
            Some(q) => fetch(s, p.parent@, q as int),
            None => None,
        },
        children: fetch_each(s, p.child@, t.children@[id]@),
    }
}

/// Reads the values of the slots `idx` at node `id`, all or nothing.
pub fn fetch_at<V: Copy>(s: &ComponentStore<V>, idx: &Vec<usize>, id: usize) -> (r: Option<Vec<V>>)
    requires
        forall|k: int| 0 <= k < idx@.len() ==> #[trigger] idx@[k] < s.slots@.len() && id < s.slots@[idx@[k] as int]@.len(),
    ensures
        opt_view(r) == fetch(*s, idx@, id as int),
{
    let mut out: Vec<V> = Vec::new();
    let mut k: usize = 0;
    while k < idx.len()
        invariant
            k <= idx@.len(),
            out@.len() == k,
            forall|j: int| 0 <= j < idx@.len() ==> #[trigger] idx@[j] < s.slots@.len() && id < s.slots@[idx@[j] as int]@.len(),
            forall|j: int| 0 <= j < k ==> (#[trigger] value_at(*s, idx@[j] as int, id as int)) == Some(out@[j]),
        decreases idx@.len() - k,
    {
        match s.slots[idx[k]][id] {
            Some(v) => out.push(v),
            None => {
                assert(value_at(*s, idx@[k as int] as int, id as int) is None);
                return None;
            },
        }
        k = k + 1;
    }
    assert(out@ =~= Seq::new(idx@.len(), |j: int| value_at(*s, idx@[j] as int, id as int)->Some_0));
    Some(out)
}

} // verus!

verus! {

/// Reads the values of the slots `idx` at each of `ids` that holds all of
/// them; the others are left out, and the order of `ids` is kept.
pub fn fetch_children<V: Copy>(s: &ComponentStore<V>, t: &TreeIndex, idx: &Vec<usize>, ids: &Vec<usize>) -> (r: Vec<Vec<V>>)
    requires
        forall|k: int| 0 <= k < idx@.len() ==> #[trigger] idx@[k] < s.slots@.len(),
        forall|k: int| 0 <= k < s.slots@.len() ==> #[trigger] s.slots@[k]@.len() == node_count(*t),
        forall|k: int| 0 <= k < ids@.len() ==> #[trigger] ids@[k] < node_count(*t),
    ensures
        r@.map_values(|c: Vec<V>| c@) == fetch_each(*s, idx@, ids@),
{
    let mut out: Vec<Vec<V>> = Vec::new();
    let mut i: usize = 0;
    assert(ids@.subrange(0, 0) =~= Seq::<usize>::empty());
    assert(out@.map_values(|c: Vec<V>| c@) =~= Seq::<Seq<V>>::empty());
    while i < ids.len()
        invariant
            i <= ids@.len(),
            forall|k: int| 0 <= k < idx@.len() ==> #[trigger] idx@[k] < s.slots@.len(),
            forall|k: int| 0 <= k < s.slots@.len() ==> #[trigger] s.slots@[k]@.len() == node_count(*t),
            forall|k: int| 0 <= k < ids@.len() ==> #[trigger] ids@[k] < node_count(*t),
            out@.map_values(|c: Vec<V>| c@) == fetch_each(*s, idx@, ids@.subrange(0, i as int)),
        decreases ids@.len() - i,
    {
        let ghost pre = ids@.subrange(0, i + 1);
        assert(pre.drop_last() =~= ids@.subrange(0, i as int));
        assert(pre.last() == ids@[i as int]);
        let c = ids[i];
        assert(c < node_count(*t));
        match fetch_at(s, idx, c) {
            Some(v) => {
                let ghost before = out@.map_values(|c: Vec<V>| c@);
                out.push(v);
                assert(out@.map_values(|c: Vec<V>| c@) =~= before.push(v@));
            },
            None => {},
        }
        i = i + 1;
    }
    assert(ids@.subrange(0, ids@.len() as int) =~= ids@);
    out
}

/// Gathers what a rule receives for node `id`.
pub fn gather<V: Copy>(s: &ComponentStore<V>, t: &TreeIndex, p: &AccessPlan, id: usize) -> (r: StepInputs<V>)
    requires
        tree_wf(*t),
        store_fits(*s, *t, *p),
        id < node_count(*t),
    ensures
        r@ == gather_spec(*s, *t, *p, id as int),
{
    let node = fetch_at(s, &p.node, id);
    let parent = match t.parents[id] {
        Some(q) => fetch_at(s, &p.parent, q),
        None => None,
    };
    let children = fetch_children(s, t, &p.child, &t.children[id]);
    StepInputs { id, node, parent, children }
}

/// `t` is `s` with the value of slot `slot` at node `id` set to `v`.
pub open spec fn stored<V>(s: ComponentStore<V>, t: ComponentStore<V>, slot: int, id: int, v: V) -> bool {
    &&& t.slots@.len() == s.slots@.len()
    &&& forall|k: int| 0 <= k < s.slots@.len() ==> #[trigger] t.slots@[k]@.len() == s.slots@[k]@.len()
    &&& forall|k: int, i: int| 0 <= k < s.slots@.len() && 0 <= i < s.slots@[k]@.len() ==>
        #[trigger] value_at(t, k, i) == if k == slot && i == id { Some(v) } else { value_at(s, k, i) }
}

/// One step at node `id` took store `s` to store `s2` and reported `changed`.
/// The rule received the gathered inputs. A node without state got the state
/// that `create` made and counts as changed; a node with state got the state
/// that `update` returned, with the change that `update` reported.
pub open spec fn step_done<V, C: Fn(&StepInputs<V>) -> V, U: Fn(&V, &StepInputs<V>) -> (V, bool)>(
    create: C,
    update: U,
    s: ComponentStore<V>,
    t: TreeIndex,
    p: AccessPlan,
    id: int,
    s2: ComponentStore<V>,
    changed: bool,
) -> bool {
    exists|inputs: StepInputs<V>| {
        &&& #[trigger] inputs@ == gather_spec(s, t, p, id)
        &&& match value_at(s, p.self_index as int, id) {
            None => exists|v: V| {
                &&& #[trigger] create.ensures((&inputs,), v)
                &&& stored(s, s2, p.self_index as int, id, v)
                &&& changed
            },
            Some(old) => exists|r: (V, bool)| {
                &&& #[trigger] update.ensures((&old, &inputs), r)
                &&& stored(s, s2, p.self_index as int, id, r.0)
                &&& changed == r.1
            },
        }
    }
}

/// Recomputes the rule's state at node `id` and reports whether it changed.
pub fn step<V: Copy, C: Fn(&StepInputs<V>) -> V, U: Fn(&V, &StepInputs<V>) -> (V, bool)>(
    s: &mut ComponentStore<V>,
    t: &TreeIndex,
    p: &AccessPlan,
    id: usize,
    create: C,
    update: U,
) -> (changed: bool)
    requires
        tree_wf(*t),
        store_fits(*old(s), *t, *p),
        id < node_count(*t),
        forall|inputs: &StepInputs<V>| create.requires((inputs,)),
        forall|old: &V, inputs: &StepInputs<V>| update.requires((old, inputs)),
    ensures
        step_done(create, update, *old(s), *t, *p, id as int, *final(s), changed),
        store_fits(*final(s), *t, *p),
{
    let ghost s0 = *s;
    let inputs = gather(s, t, p, id);
    let current = s.slots[p.self_index][id];
    let (v, changed) = match current {
        Some(old) => {
            let r = update(&old, &inputs);
            assert(update.ensures((&old, &inputs), r));
            r
        },
        None => {
            let v = create(&inputs);
            assert(create.ensures((&inputs,), v));
            (v, true)
        },
    };
    let ghost before = s.slots@;
    let mut row = s.slots.remove(p.self_index);
    row.set(id, Some(v));
    s.slots.insert(p.self_index, row);
    assert(s.slots@ =~= before.update(p.self_index as int, row));
    assert(stored(s0, *s, p.self_index as int, id as int, v));
    changed
}

} // verus!

verus! {

/// Reads of the slots `idx` at node `x` see the same values in two stores
/// that agree there.
proof fn lemma_fetch_frame<V>(s: ComponentStore<V>, s2: ComponentStore<V>, idx: Seq<usize>, x: int)
    requires
        forall|k: int| 0 <= k < idx.len() ==> value_at(s2, idx[k] as int, x) == value_at(s, idx[k] as int, x),
    ensures
        fetch(s2, idx, x) == fetch(s, idx, x),
{
    assert(forall|k: int| 0 <= k < idx.len() ==> #[trigger] value_at(s2, idx[k] as int, x) == value_at(s, idx[k] as int, x));
    if fetch(s, idx, x) is Some {
        assert(Seq::new(idx.len(), |k: int| value_at(s2, idx[k] as int, x)->Some_0) =~= Seq::new(idx.len(), |k: int| value_at(s, idx[k] as int, x)->Some_0));
    }
}

/// Reads of the slots `idx` at each of `ids` see the same values in two
/// stores that agree there.
proof fn lemma_fetch_each_frame<V>(s: ComponentStore<V>, s2: ComponentStore<V>, idx: Seq<usize>, ids: Seq<usize>)
    requires
        forall|k: int, j: int| 0 <= k < idx.len() && 0 <= j < ids.len() ==> value_at(s2, idx[k] as int, ids[j] as int) == value_at(s, idx[k] as int, ids[j] as int),
    ensures
        fetch_each(s2, idx, ids) == fetch_each(s, idx, ids),
    decreases ids.len(),
{
    if ids.len() > 0 {
        let init = ids.drop_last();
        assert forall|k: int, j: int| 0 <= k < idx.len() && 0 <= j < init.len() implies value_at(s2, idx[k] as int, init[j] as int) == value_at(s, idx[k] as int, init[j] as int) by {
            assert(init[j] == ids[j]);
        }
        lemma_fetch_each_frame(s, s2, idx, init);
        assert forall|k: int| 0 <= k < idx.len() implies value_at(s2, idx[k] as int, ids.last() as int) == value_at(s, idx[k] as int, ids.last() as int) by {
            assert(ids.last() == ids[ids.len() - 1]);
        }
        lemma_fetch_frame(s, s2, idx, ids.last() as int);
    }
}

/// A node without state gets one from a step, and the step reports a change.
pub proof fn lemma_creation<V, C: Fn(&StepInputs<V>) -> V, U: Fn(&V, &StepInputs<V>) -> (V, bool)>(
    create: C,
    update: U,
    s: ComponentStore<V>,
    t: TreeIndex,
    p: AccessPlan,
    id: int,
    s2: ComponentStore<V>,
    changed: bool,
)
    requires
        store_fits(s, t, p),
        0 <= id < node_count(t),
        value_at(s, p.self_index as int, id) is None,
        step_done(create, update, s, t, p, id, s2, changed),
    ensures
        value_at(s2, p.self_index as int, id) is Some,
        changed,
{
    assert(s.slots@[p.self_index as int]@.len() == node_count(t));
}

/// When the parent lacks any one of the parent-role types, the rule receives
/// no parent data at all; when it holds all of them, it receives each value
/// in declared order.
pub proof fn lemma_parent_all_or_nothing<V>(s: ComponentStore<V>, t: TreeIndex, p: AccessPlan, id: int, q: usize)
    requires
        0 <= id < node_count(t),
        t.parents@[id] == Some(q),
    ensures
        (exists|k: int| 0 <= k < p.parent@.len() && value_at(s, p.parent@[k] as int, q as int) is None)
            ==> gather_spec(s, t, p, id).parent is None,
        (forall|k: int| 0 <= k < p.parent@.len() ==> value_at(s, p.parent@[k] as int, q as int) is Some)
            ==> {
                &&& gather_spec(s, t, p, id).parent is Some
                &&& gather_spec(s, t, p, id).parent->Some_0.len() == p.parent@.len()
                &&& forall|k: int| 0 <= k < p.parent@.len() ==>
                    Some(#[trigger] gather_spec(s, t, p, id).parent->Some_0[k]) == value_at(s, p.parent@[k] as int, q as int)
            },
{
    if exists|k: int| 0 <= k < p.parent@.len() && value_at(s, p.parent@[k] as int, q as int) is None {
        let k = choose|k: int| 0 <= k < p.parent@.len() && value_at(s, p.parent@[k] as int, q as int) is None;
        assert(!(value_at(s, p.parent@[k] as int, q as int) is Some));
    }
}

/// A rule whose `update` computes the new state from the inputs alone and
/// reports a change exactly when it differs from the old state is stable: a
/// second step at the same node, right after a first step that found state
/// there, reports no change. This needs the rule's own type not to be among
/// its node dependencies, since otherwise the first step changes what the
/// second one reads.
pub proof fn lemma_second_step_unchanged<V, C: Fn(&StepInputs<V>) -> V, U: Fn(&V, &StepInputs<V>) -> (V, bool)>(
    create: C,
    update: U,
    s: ComponentStore<V>,
    s2: ComponentStore<V>,
    s3: ComponentStore<V>,
    t: TreeIndex,
    p: AccessPlan,
    id: int,
    changed1: bool,
    changed2: bool,
)
    requires
        tree_wf(t),
        store_fits(s, t, p),
        0 <= id < node_count(t),
        value_at(s, p.self_index as int, id) is Some,
        forall|k: int| 0 <= k < p.node@.len() ==> p.node@[k] != p.self_index,
        forall|a: &V, b: &V, i: &StepInputs<V>, j: &StepInputs<V>, ra: (V, bool), rb: (V, bool)|
            #![trigger update.ensures((a, i), ra), update.ensures((b, j), rb)]
            i@ == j@ && update.ensures((a, i), ra) && update.ensures((b, j), rb) ==> ra.0 == rb.0,
        forall|a: &V, i: &StepInputs<V>, r: (V, bool)| #[trigger] update.ensures((a, i), r) ==> r.1 == (r.0 != *a),
        step_done(create, update, s, t, p, id, s2, changed1),
        step_done(create, update, s2, t, p, id, s3, changed2),
    ensures
        !changed2,
{
    let si = p.self_index as int;
    assert(s.slots@[si]@.len() == node_count(t));
    let inputs1 = choose|inputs: StepInputs<V>| {
        &&& #[trigger] inputs@ == gather_spec(s, t, p, id)
        &&& match value_at(s, p.self_index as int, id) {
            None => exists|v: V| {
                &&& #[trigger] create.ensures((&inputs,), v)
                &&& stored(s, s2, p.self_index as int, id, v)
                &&& changed1
            },
            Some(old) => exists|r: (V, bool)| {
                &&& #[trigger] update.ensures((&old, &inputs), r)
                &&& stored(s, s2, p.self_index as int, id, r.0)
                &&& changed1 == r.1
            },
        }
    };
    let old1 = value_at(s, si, id)->Some_0;
    let r1 = choose|r: (V, bool)| {
        &&& #[trigger] update.ensures((&old1, &inputs1), r)
        &&& stored(s, s2, p.self_index as int, id, r.0)
        &&& changed1 == r.1
    };
    assert forall|k: int| 0 <= k < p.node@.len() implies value_at(s2, p.node@[k] as int, id) == value_at(s, p.node@[k] as int, id) by {
        assert(s.slots@[p.node@[k] as int]@.len() == node_count(t));
    }
    lemma_fetch_frame(s, s2, p.node@, id);
    match t.parents@[id] {
        Some(q) => {
            assert(q != id && q < node_count(t));
            assert forall|k: int| 0 <= k < p.parent@.len() implies value_at(s2, p.parent@[k] as int, q as int) == value_at(s, p.parent@[k] as int, q as int) by {
                assert(s.slots@[p.parent@[k] as int]@.len() == node_count(t));
            }
            lemma_fetch_frame(s, s2, p.parent@, q as int);
        },
        None => {},
    }
    let ids = t.children@[id]@;
    assert forall|k: int, j: int| 0 <= k < p.child@.len() && 0 <= j < ids.len() implies value_at(s2, p.child@[k] as int, ids[j] as int) == value_at(s, p.child@[k] as int, ids[j] as int) by {
        assert(t.children@[id]@[j] < node_count(t) && t.children@[id]@[j] != id);
        assert(s.slots@[p.child@[k] as int]@.len() == node_count(t));
    }
    lemma_fetch_each_frame(s, s2, p.child@, ids);
    assert(gather_spec(s2, t, p, id) == gather_spec(s, t, p, id));
    assert(value_at(s2, si, id) == Some(r1.0));
    let old2 = r1.0;
    let inputs2 = choose|inputs: StepInputs<V>| {
        &&& #[trigger] inputs@ == gather_spec(s2, t, p, id)
        &&& match value_at(s2, p.self_index as int, id) {
            None => exists|v: V| {
                &&& #[trigger] create.ensures((&inputs,), v)
                &&& stored(s2, s3, p.self_index as int, id, v)
                &&& changed2
            },
            Some(old) => exists|r: (V, bool)| {
                &&& #[trigger] update.ensures((&old, &inputs), r)
                &&& stored(s2, s3, p.self_index as int, id, r.0)
                &&& changed2 == r.1
            },
        }
    };
    let r2 = choose|r: (V, bool)| {
        &&& #[trigger] update.ensures((&old2, &inputs2), r)
        &&& stored(s2, s3, p.self_index as int, id, r.0)
        &&& changed2 == r.1
    };
    assert(update.ensures((&old1, &inputs1), r1) && update.ensures((&old2, &inputs2), r2));
    assert(r2.0 == r1.0);
}

} // verus!

verus! {

/// The children's data is the children, in order, with each child that lacks
/// any child-role type left out and each other child replaced by its values.
pub proof fn lemma_children_filtered<V>(s: ComponentStore<V>, idx: Seq<usize>, ids: Seq<usize>)
    ensures
        fetch_each(s, idx, ids) == ids.filter_map(|c: usize| fetch(s, idx, c as int)),
    decreases ids.len(),
{
    if ids.len() > 0 {
        lemma_children_filtered(s, idx, ids.drop_last());
        let rest = ids.drop_last().filter_map(|c: usize| fetch(s, idx, c as int));
        match fetch(s, idx, ids.last() as int) {
            Some(v) => {
                assert(rest.push(v) =~= rest + seq![v]);
            },
            None => {},
        }
    }
}

} // verus!
