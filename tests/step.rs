use native_core_macro::decl::{AssocType, RuleDecl, TypeExpr};
use native_core_macro::plan::{compile, AccessPlan};
use native_core_macro::step::{gather, step, ComponentStore, StepInputs, TreeIndex};

#[derive(Clone, Copy, Debug, PartialEq)]
enum Comp {
    Style { width: u64 },
    Layout { parent_width: Option<u64>, children: usize, node: bool },
}

fn create_layout(inputs: &StepInputs<Comp>) -> Comp {
    let parent_width = match &inputs.parent {
        Some(v) => match v.first() {
            Some(Comp::Style { width }) => Some(*width),
            _ => Some(0),
        },
        None => None,
    };
    Comp::Layout { parent_width, children: inputs.children.len(), node: inputs.node.is_some() }
}

fn update_layout(old: &Comp, inputs: &StepInputs<Comp>) -> (Comp, bool) {
    let new = create_layout(inputs);
    (new, new != *old)
}

fn tuple(items: &[&str]) -> TypeExpr {
    TypeExpr::Tuple(items.iter().map(|s| TypeExpr::Path(s.to_string())).collect(), String::new())
}

fn layout_plan(parent: &[&str], child: &[&str]) -> AccessPlan {
    let d = RuleDecl {
        self_ty: TypeExpr::Path("Layout".to_string()),
        assoc_types: vec![
            AssocType { name: "ParentDependencies".to_string(), ty: tuple(parent) },
            AssocType { name: "ChildDependencies".to_string(), ty: tuple(child) },
            AssocType { name: "NodeDependencies".to_string(), ty: tuple(&[]) },
        ],
    };
    compile(&d).unwrap()
}

/// Node 0 is the parent of node 1; node 1 has children 2, 3 and 4.
fn tree() -> TreeIndex {
    TreeIndex {
        parents: vec![None, Some(0), Some(1), Some(1), Some(1)],
        children: vec![vec![1], vec![2, 3, 4], vec![], vec![], vec![]],
    }
}

fn empty_store(slots: usize) -> ComponentStore<Comp> {
    ComponentStore { slots: vec![vec![None; 5]; slots] }
}

#[test]
fn first_step_creates_from_parent_style() {
    let plan = layout_plan(&["Style"], &[]);
    let mut store = empty_store(2);
    store.slots[1][0] = Some(Comp::Style { width: 10 });
    let inputs = gather(&store, &tree(), &plan, 1);
    assert_eq!(inputs.parent, Some(vec![Comp::Style { width: 10 }]));
    assert_eq!(inputs.node, Some(vec![]));
    assert_eq!(inputs.children, vec![vec![], vec![], vec![]]);
    assert!(step(&mut store, &tree(), &plan, 1, create_layout, update_layout));
    assert_eq!(
        store.slots[0][1],
        Some(Comp::Layout { parent_width: Some(10), children: 3, node: true })
    );
}

#[test]
fn first_step_without_parent_style_gets_no_parent() {
    let plan = layout_plan(&["Style"], &[]);
    let mut store = empty_store(2);
    let inputs = gather(&store, &tree(), &plan, 1);
    assert_eq!(inputs.parent, None);
    assert!(step(&mut store, &tree(), &plan, 1, create_layout, update_layout));
    assert_eq!(
        store.slots[0][1],
        Some(Comp::Layout { parent_width: None, children: 3, node: true })
    );
}

#[test]
fn root_has_no_parent_data() {
    let plan = layout_plan(&[], &[]);
    let store = empty_store(1);
    assert_eq!(gather(&store, &tree(), &plan, 0).parent, None);
    assert_eq!(gather(&store, &tree(), &plan, 1).parent, Some(vec![]));
}

#[test]
fn children_missing_a_type_are_dropped() {
    let plan = layout_plan(&[], &["Style", "Size"]);
    let mut store = empty_store(3);
    store.slots[1][2] = Some(Comp::Style { width: 1 });
    store.slots[2][2] = Some(Comp::Style { width: 2 });
    store.slots[1][3] = Some(Comp::Style { width: 3 });
    store.slots[1][4] = Some(Comp::Style { width: 5 });
    store.slots[2][4] = Some(Comp::Style { width: 6 });
    let inputs = gather(&store, &tree(), &plan, 1);
    assert_eq!(
        inputs.children,
        vec![
            vec![Comp::Style { width: 1 }, Comp::Style { width: 2 }],
            vec![Comp::Style { width: 5 }, Comp::Style { width: 6 }],
        ]
    );
}

#[test]
fn parent_missing_one_type_gives_none() {
    let plan = layout_plan(&["Style", "Size"], &[]);
    let mut store = empty_store(3);
    store.slots[1][0] = Some(Comp::Style { width: 1 });
    assert_eq!(gather(&store, &tree(), &plan, 1).parent, None);
    store.slots[2][0] = Some(Comp::Style { width: 2 });
    assert_eq!(
        gather(&store, &tree(), &plan, 1).parent,
        Some(vec![Comp::Style { width: 1 }, Comp::Style { width: 2 }])
    );
}

#[test]
fn second_step_with_stable_update_reports_no_change() {
    let plan = layout_plan(&["Style"], &[]);
    let mut store = empty_store(2);
    store.slots[1][0] = Some(Comp::Style { width: 4 });
    store.slots[0][1] = Some(Comp::Layout { parent_width: None, children: 0, node: false });
    assert!(step(&mut store, &tree(), &plan, 1, create_layout, update_layout));
    assert!(!step(&mut store, &tree(), &plan, 1, create_layout, update_layout));
    assert_eq!(
        store.slots[0][1],
        Some(Comp::Layout { parent_width: Some(4), children: 3, node: true })
    );
}

#[test]
fn step_leaves_other_nodes_alone() {
    let plan = layout_plan(&["Style"], &[]);
    let mut store = empty_store(2);
    assert!(step(&mut store, &tree(), &plan, 3, create_layout, update_layout));
    for id in 0..5 {
        if id != 3 {
            assert_eq!(store.slots[0][id], None);
        }
    }
    assert!(store.slots[0][3].is_some());
}

/// Node 0 is the parent of node 1, which has no children.
fn pair() -> TreeIndex {
    TreeIndex { parents: vec![None, Some(0)], children: vec![vec![1], vec![]] }
}

#[test]
fn layout_created_from_parent_style_width() {
    let plan = layout_plan(&["Style"], &[]);
    let mut store = ComponentStore { slots: vec![vec![None; 2]; 2] };
    store.slots[1][0] = Some(Comp::Style { width: 10 });
    let inputs = gather(&store, &pair(), &plan, 1);
    assert_eq!(inputs.id, 1);
    assert_eq!(inputs.node, Some(vec![]));
    assert_eq!(inputs.parent, Some(vec![Comp::Style { width: 10 }]));
    assert!(inputs.children.is_empty());
    assert!(step(&mut store, &pair(), &plan, 1, create_layout, update_layout));
    assert_eq!(store.slots[0][1], Some(Comp::Layout { parent_width: Some(10), children: 0, node: true }));
}

#[test]
fn layout_created_without_parent_style() {
    let plan = layout_plan(&["Style"], &[]);
    let mut store = ComponentStore { slots: vec![vec![None; 2]; 2] };
    let inputs = gather(&store, &pair(), &plan, 1);
    assert_eq!(inputs.node, Some(vec![]));
    assert_eq!(inputs.parent, None);
    assert!(inputs.children.is_empty());
    assert!(step(&mut store, &pair(), &plan, 1, create_layout, update_layout));
    assert_eq!(store.slots[0][1], Some(Comp::Layout { parent_width: None, children: 0, node: true }));
}

#[test]
fn node_role_missing_a_type_gives_none() {
    let d = RuleDecl {
        self_ty: TypeExpr::Path("Layout".to_string()),
        assoc_types: vec![
            AssocType { name: "ParentDependencies".to_string(), ty: tuple(&[]) },
            AssocType { name: "ChildDependencies".to_string(), ty: tuple(&[]) },
            AssocType { name: "NodeDependencies".to_string(), ty: tuple(&["Style", "Size"]) },
        ],
    };
    let plan = compile(&d).unwrap();
    let mut store = ComponentStore { slots: vec![vec![None; 2]; 3] };
    store.slots[1][1] = Some(Comp::Style { width: 7 });
    assert_eq!(gather(&store, &pair(), &plan, 1).node, None);
    store.slots[2][1] = Some(Comp::Style { width: 8 });
    assert_eq!(
        gather(&store, &pair(), &plan, 1).node,
        Some(vec![Comp::Style { width: 7 }, Comp::Style { width: 8 }])
    );
}
