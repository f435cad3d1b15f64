use vstd::prelude::*;
use crate::decl::{
    parse_declaration, parse_decl, DeclError, DeclFault, Dependencies, DepsModel, Role, RuleDecl,
};

verus! {

/// Whether a slot of the combined set is written (the rule's own type) or only read.
#[derive(PartialEq, Eq, Structural, Clone, Copy, Debug)]
pub enum AccessMode {
    Exclusive,
    Shared,
}

/// `d` extended by the elements of `s`, in order, each one only if it is not
/// already there.
pub open spec fn extend_unique(d: Seq<Seq<char>>, s: Seq<Seq<char>>) -> Seq<Seq<char>>
    decreases s.len(),
{
    if s.len() == 0 {
        d
    } else {
        let e = extend_unique(d, s.drop_last());
        if e.contains(s.last()) {
            e
        } else {
            e.push(s.last())
        }
    }
}

/// The combined dependency set: the rule's own type first, then the parent,
/// child and node types in declaration order, each type once.
pub open spec fn combined_set(m: DepsModel) -> Seq<Seq<char>> {
    extend_unique(extend_unique(extend_unique(seq![m.this_type], m.parent), m.child), m.node)
}

pub open spec fn no_duplicates(s: Seq<Seq<char>>) -> bool {
    forall|i: int, j: int| 0 <= i < s.len() && 0 <= j < s.len() && i != j ==> s[i] != s[j]
}

/// `i` is the first position of `x` in `s`.
pub open spec fn is_first_index(s: Seq<Seq<char>>, x: Seq<char>, i: int) -> bool {
    &&& 0 <= i < s.len()
    &&& s[i] == x
    &&& forall|j: int| 0 <= j < i ==> s[j] != x
}

/// The access mode of a slot holding type `t` in a rule whose own type is `this`.
pub open spec fn mode_of(t: Seq<char>, this: Seq<char>) -> AccessMode {
    if t == this {
        AccessMode::Exclusive
    } else {
        AccessMode::Shared
    }
}

/// `idx` maps each type of `list`, in order, to its position in `combined`.
pub open spec fn indexes_role(combined: Seq<Seq<char>>, list: Seq<Seq<char>>, idx: Seq<usize>) -> bool {
    &&& idx.len() == list.len()
    &&& forall|k: int| 0 <= k < list.len() ==> is_first_index(combined, list[k], idx[k] as int)
}

/// The first position of `t` in `v`.
pub fn position_of(v: &Vec<String>, t: &String) -> (r: Option<usize>)
    ensures
        match r {
            Some(i) => is_first_index(v.deep_view(), t@, i as int),
            None => !v.deep_view().contains(t@),
        },
{
    let mut i: usize = 0;
    while i < v.len()
        invariant
            i <= v.len(),
            forall|j: int| 0 <= j < i ==> v.deep_view()[j] != t@,
        decreases v.len() - i,
    {
        if v[i].eq(t) {
            return Some(i);
        }
        i = i + 1;
    }
    proof {
        if v.deep_view().contains(t@) {
            let j = choose|j: int| 0 <= j < v.deep_view().len() && v.deep_view()[j] == t@;
        }
    }
    None
}

/// Appends to `out` each type of `list` that `out` does not hold yet, in order.
pub fn insert_unique(out: &mut Vec<String>, list: &Vec<String>)
    ensures
        final(out).deep_view() == extend_unique(old(out).deep_view(), list.deep_view()),
{
    let ghost start = out.deep_view();
    let mut i: usize = 0;
    assert(list.deep_view().subrange(0, 0) =~= Seq::<Seq<char>>::empty());
    while i < list.len()
        invariant
            i <= list.len(),
            out.deep_view() == extend_unique(start, list.deep_view().subrange(0, i as int)),
        decreases list.len() - i,
    {
        let ghost pre = list.deep_view().subrange(0, i + 1);
        assert(pre.drop_last() =~= list.deep_view().subrange(0, i as int));
        assert(pre.last() == list[i as int]@);
        if position_of(out, &list[i]).is_none() {
            let ghost before = out.deep_view();
            out.push(list[i].clone());
            assert(out.deep_view() =~= before.push(list[i as int]@));
        }
        i = i + 1;
    }
    assert(list.deep_view().subrange(0, list.len() as int) =~= list.deep_view());
}

/// The combined dependency set of a rule.
pub fn unify(deps: &Dependencies) -> (r: Vec<String>)
    ensures
        r.deep_view() == combined_set(deps@),
{
    let mut out: Vec<String> = Vec::new();
    out.push(deps.this_type.clone());
    assert(out.deep_view() =~= seq![deps.this_type@]);
    insert_unique(&mut out, &deps.parent);
    insert_unique(&mut out, &deps.child);
    insert_unique(&mut out, &deps.node);
    out
}

/// The access mode of each slot of `combined`.
pub fn access_modes(combined: &Vec<String>, this_type: &String) -> (r: Vec<AccessMode>)
    ensures
        r@.len() == combined@.len(),
        forall|i: int| 0 <= i < r@.len() ==> r@[i] == mode_of(combined.deep_view()[i], this_type@),
{
    let mut out: Vec<AccessMode> = Vec::new();
    let mut i: usize = 0;
    while i < combined.len()
        invariant
            i <= combined.len(),
            out@.len() == i,
            forall|k: int| 0 <= k < i ==> out@[k] == mode_of(combined.deep_view()[k], this_type@),
        decreases combined.len() - i,
    {
        if combined[i].eq(this_type) {
            out.push(AccessMode::Exclusive);
        } else {
            out.push(AccessMode::Shared);
        }
        i = i + 1;
    }
    out
}

/// The position in `combined` of each type of `list`, or the first type of
/// `list` that `combined` lacks.
pub fn role_indices(combined: &Vec<String>, list: &Vec<String>, role: Role) -> (r: Result<Vec<usize>, DeclError>)
    ensures
        r is Ok <==> (forall|k: int| 0 <= k < list@.len() ==> combined.deep_view().contains(list.deep_view()[k])),
        match r {
            Ok(idx) => indexes_role(combined.deep_view(), list.deep_view(), idx@),
            Err(e) => exists|k: int| {
                &&& 0 <= k < list@.len()
                &&& !combined.deep_view().contains(list.deep_view()[k])
                &&& forall|j: int| 0 <= j < k ==> combined.deep_view().contains(list.deep_view()[j])
                &&& e@ == DeclFault::UnresolvedDependencyType(role, list.deep_view()[k])
            },
        },
{
    let mut out: Vec<usize> = Vec::new();
    let mut i: usize = 0;
    while i < list.len()
        invariant
            i <= list.len(),
            out@.len() == i,
            forall|k: int| 0 <= k < i ==> is_first_index(combined.deep_view(), list.deep_view()[k], out@[k] as int),
        decreases list.len() - i,
    {
        match position_of(combined, &list[i]) {
            Some(p) => out.push(p),
            None => {
                let ghost k = i as int;
                let name = list[i].clone();
                let e = DeclError::UnresolvedDependencyType(role, name);
                proof {
                    assert forall|j: int| 0 <= j < k implies combined.deep_view().contains(list.deep_view()[j]) by {
                        assert(combined.deep_view()[out@[j] as int] == list.deep_view()[j]);
                    }
                    assert(list.deep_view()[k] == list@[k]@);
                    assert(e@ == DeclFault::UnresolvedDependencyType(role, list.deep_view()[k]));
                }
                return Err(e);
            },
        }
        i = i + 1;
    }
    proof {
        assert forall|k: int| 0 <= k < list@.len() implies combined.deep_view().contains(list.deep_view()[k]) by {
            assert(combined.deep_view()[out@[k] as int] == list.deep_view()[k]);
        }
    }
    Ok(out)
}

} // verus!

verus! {

/// Extending a set keeps what it held at the front, gains exactly the new
/// types, and introduces no duplicate.
pub proof fn lemma_extend_unique(d: Seq<Seq<char>>, s: Seq<Seq<char>>)
    ensures
        extend_unique(d, s).len() >= d.len(),
        forall|i: int| 0 <= i < d.len() ==> extend_unique(d, s)[i] == d[i],
        forall|x: Seq<char>| extend_unique(d, s).contains(x) <==> (d.contains(x) || s.contains(x)),
        no_duplicates(d) ==> no_duplicates(extend_unique(d, s)),
    decreases s.len(),
{
    if s.len() > 0 {
        let init = s.drop_last();
        lemma_extend_unique(d, init);
        let e = extend_unique(d, init);
        assert forall|x: Seq<char>| s.contains(x) <==> (init.contains(x) || x == s.last()) by {
            if s.contains(x) {
                let k = choose|k: int| 0 <= k < s.len() && s[k] == x;
                if k < s.len() - 1 {
                    assert(init[k] == x);
                }
            }
            if init.contains(x) {
                let k = choose|k: int| 0 <= k < init.len() && init[k] == x;
                assert(s[k] == x);
            }
            if x == s.last() {
                assert(s[s.len() - 1] == x);
            }
        }
        if !e.contains(s.last()) {
            let f = e.push(s.last());
            assert forall|x: Seq<char>| f.contains(x) <==> (e.contains(x) || x == s.last()) by {
                if f.contains(x) {
                    let k = choose|k: int| 0 <= k < f.len() && f[k] == x;
                    if k < e.len() {
                        assert(e[k] == x);
                    }
                }
                if e.contains(x) {
                    let k = choose|k: int| 0 <= k < e.len() && e[k] == x;
                    assert(f[k] == x);
                }
                if x == s.last() {
                    assert(f[f.len() - 1] == x);
                }
            }
            if no_duplicates(d) {
                assert forall|i: int, j: int| 0 <= i < f.len() && 0 <= j < f.len() && i != j implies f[i] != f[j] by {
                    if i == e.len() as int {
                        assert(e[j] == f[j]);
                    } else if j == e.len() as int {
                        assert(e[i] == f[i]);
                    }
                }
            }
        }
    }
}

/// Facts about the combined set: the rule's own type stands first and only
/// there, no type occurs twice, and every type of the three role lists is in it.
pub proof fn lemma_combined_set(m: DepsModel)
    ensures
        no_duplicates(combined_set(m)),
        combined_set(m).len() >= 1,
        combined_set(m)[0] == m.this_type,
        forall|i: int| 0 <= i < combined_set(m).len() && combined_set(m)[i] == m.this_type ==> i == 0,
        forall|x: Seq<char>| combined_set(m).contains(x) <==> (x == m.this_type || m.parent.contains(x) || m.child.contains(x) || m.node.contains(x)),
{
    let s0 = seq![m.this_type];
    let s1 = extend_unique(s0, m.parent);
    let s2 = extend_unique(s1, m.child);
    lemma_extend_unique(s0, m.parent);
    lemma_extend_unique(s1, m.child);
    lemma_extend_unique(s2, m.node);
    let s3 = combined_set(m);
    assert forall|x: Seq<char>| s0.contains(x) <==> x == m.this_type by {
        if x == m.this_type {
            assert(s0[0] == x);
        }
    }
    assert(no_duplicates(s0));
    assert(s1[0] == s0[0]);
    assert(s2[0] == s1[0]);
    assert(s3[0] == s2[0]);
    assert forall|i: int| 0 <= i < s3.len() && s3[i] == m.this_type implies i == 0 by {
        if i != 0 {
            assert(s3[i] != s3[0]);
        }
    }
}

/// The access plan of a rule: its combined set, the mode of each slot, the
/// slot of its own type, and the slots of each role list in declared order.
pub struct AccessPlan {
    pub combined: Vec<String>,
    pub modes: Vec<AccessMode>,
    pub self_index: usize,
    pub parent: Vec<usize>,
    pub child: Vec<usize>,
    pub node: Vec<usize>,
}

/// `p` is the access plan of a rule whose dependencies are `m`.
pub open spec fn plan_matches(p: AccessPlan, m: DepsModel) -> bool {
    &&& p.combined.deep_view() == combined_set(m)
    &&& p.modes@.len() == p.combined@.len()
    &&& forall|i: int| 0 <= i < p.modes@.len() ==> p.modes@[i] == mode_of(p.combined.deep_view()[i], m.this_type)
    &&& is_first_index(p.combined.deep_view(), m.this_type, p.self_index as int)
    &&& indexes_role(p.combined.deep_view(), m.parent, p.parent@)
    &&& indexes_role(p.combined.deep_view(), m.child, p.child@)
    &&& indexes_role(p.combined.deep_view(), m.node, p.node@)
}

/// Builds the access plan of a rule from its dependencies. Every role type is
/// in the combined set, so this never fails with `UnresolvedDependencyType`.
pub fn compile_plan(deps: &Dependencies) -> (r: Result<AccessPlan, DeclError>)
    ensures
        r is Ok,
        match r {
            Ok(p) => plan_matches(p, deps@),
            Err(_) => false,
        },
{
    let combined = unify(deps);
    proof {
        lemma_combined_set(deps@);
        assert forall|k: int| 0 <= k < deps@.parent.len() implies combined.deep_view().contains(deps@.parent[k]) by {
            assert(deps@.parent.contains(deps@.parent[k]));
        }
        assert forall|k: int| 0 <= k < deps@.child.len() implies combined.deep_view().contains(deps@.child[k]) by {
            assert(deps@.child.contains(deps@.child[k]));
        }
        assert forall|k: int| 0 <= k < deps@.node.len() implies combined.deep_view().contains(deps@.node[k]) by {
            assert(deps@.node.contains(deps@.node[k]));
        }
        assert(combined.deep_view()[0] == deps.this_type@);
    }
    let modes = access_modes(&combined, &deps.this_type);
    let self_index = match position_of(&combined, &deps.this_type) {
        Some(i) => i,
        None => {
            proof {
                assert(combined.deep_view().contains(deps.this_type@));
            }
            return Err(DeclError::UnresolvedDependencyType(Role::Node, deps.this_type.clone()));
        },
    };
    let parent = role_indices(&combined, &deps.parent, Role::Parent)?;
    let child = role_indices(&combined, &deps.child, Role::Child)?;
    let node = role_indices(&combined, &deps.node, Role::Node)?;
    Ok(AccessPlan { combined, modes, self_index, parent, child, node })
}

/// Compiles a rule declaration into its access plan.
pub fn compile(d: &RuleDecl) -> (r: Result<AccessPlan, DeclError>)
    ensures
        match parse_decl(*d) {
            Ok(m) => r is Ok && plan_matches(r->Ok_0, m),
            Err(f) => r is Err && r->Err_0@ == f,
        },
{
    let deps = parse_declaration(d)?;
    compile_plan(&deps)
}

/// Exactly one slot of a plan is exclusive, and it holds the rule's own type.
pub proof fn lemma_single_exclusive(p: AccessPlan, m: DepsModel)
    requires
        plan_matches(p, m),
    ensures
        0 <= p.self_index < p.modes@.len(),
        p.modes@[p.self_index as int] == AccessMode::Exclusive,
        p.combined.deep_view()[p.self_index as int] == m.this_type,
        forall|i: int| 0 <= i < p.modes@.len() && p.modes@[i] == AccessMode::Exclusive ==> i == p.self_index,
{
    lemma_combined_set(m);
}

/// Each role's index list is as long as the role list and leads back to its
/// declared types in declared order.
pub proof fn lemma_role_indices(p: AccessPlan, m: DepsModel)
    requires
        plan_matches(p, m),
    ensures
        p.parent@.len() == m.parent.len(),
        p.child@.len() == m.child.len(),
        p.node@.len() == m.node.len(),
        forall|k: int| 0 <= k < m.parent.len() ==> p.parent@[k] < p.combined@.len() && p.combined.deep_view()[p.parent@[k] as int] == m.parent[k],
        forall|k: int| 0 <= k < m.child.len() ==> p.child@[k] < p.combined@.len() && p.combined.deep_view()[p.child@[k] as int] == m.child[k],
        forall|k: int| 0 <= k < m.node.len() ==> p.node@[k] < p.combined@.len() && p.combined.deep_view()[p.node@[k] as int] == m.node[k],
{
}

} // verus!
