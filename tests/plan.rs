use native_core_macro::decl::{parse_declaration, AssocType, DeclError, Role, RuleDecl, TypeExpr};
use native_core_macro::plan::{compile, unify, AccessMode};

fn path(s: &str) -> TypeExpr {
    TypeExpr::Path(s.to_string())
}

fn tuple(items: &[&str]) -> TypeExpr {
    let text = if items.len() == 1 { format!("({},)", items[0]) } else { format!("({})", items.join(", ")) };
    TypeExpr::Tuple(items.iter().map(|s| path(s)).collect(), text)
}

fn assoc(name: &str, ty: TypeExpr) -> AssocType {
    AssocType { name: name.to_string(), ty }
}

fn decl(this: &str, parent: &[&str], child: &[&str], node: &[&str]) -> RuleDecl {
    RuleDecl {
        self_ty: path(this),
        assoc_types: vec![
            assoc("ParentDependencies", tuple(parent)),
            assoc("ChildDependencies", tuple(child)),
            assoc("NodeDependencies", tuple(node)),
        ],
    }
}

fn strings(v: &[&str]) -> Vec<String> {
    v.iter().map(|s| s.to_string()).collect()
}

#[test]
fn self_placeholder_is_replaced() {
    let d = decl("Layout", &["Self", "Style"], &["Self"], &[]);
    let deps = parse_declaration(&d).unwrap();
    assert_eq!(deps.this_type, "Layout");
    assert_eq!(deps.parent, strings(&["Layout", "Style"]));
    assert_eq!(deps.child, strings(&["Layout"]));
    assert!(deps.node.is_empty());
}

#[test]
fn group_around_tuple_is_looked_through() {
    let mut d = decl("Layout", &[], &[], &[]);
    d.assoc_types[0] = assoc("ParentDependencies", TypeExpr::Group(Box::new(tuple(&["Style"]))));
    let deps = parse_declaration(&d).unwrap();
    assert_eq!(deps.parent, strings(&["Style"]));
}

#[test]
fn missing_role_is_refused() {
    let mut d = decl("Layout", &[], &[], &[]);
    d.assoc_types.remove(1);
    match parse_declaration(&d) {
        Err(DeclError::MissingDependencyDeclaration(Role::Child)) => {}
        other => panic!("unexpected {:?}", other.err()),
    }
}

#[test]
fn non_tuple_role_is_refused() {
    let mut d = decl("Layout", &[], &[], &[]);
    d.assoc_types[2] = assoc("NodeDependencies", path("Style"));
    match parse_declaration(&d) {
        Err(DeclError::MalformedDependencyList(Role::Node, text)) => assert_eq!(text, "Style"),
        other => panic!("unexpected {:?}", other.err()),
    }
}

#[test]
fn non_path_element_is_refused() {
    let mut d = decl("Layout", &[], &[], &[]);
    d.assoc_types[0] = assoc(
        "ParentDependencies",
        TypeExpr::Tuple(vec![path("Style"), TypeExpr::Other("&Size".to_string())], "(Style, &Size)".to_string()),
    );
    match parse_declaration(&d) {
        Err(DeclError::NotATypePath(Role::Parent, text)) => assert_eq!(text, "&Size"),
        other => panic!("unexpected {:?}", other.err()),
    }
}

#[test]
fn non_path_self_is_refused() {
    let mut d = decl("Layout", &[], &[], &[]);
    d.self_ty = TypeExpr::Other("[u8; 4]".to_string());
    match parse_declaration(&d) {
        Err(DeclError::SelfNotATypePath(text)) => assert_eq!(text, "[u8; 4]"),
        other => panic!("unexpected {:?}", other.err()),
    }
}

#[test]
fn combined_set_is_deduplicated_in_declaration_order() {
    let d = decl("Layout", &["Style", "Self"], &["Size", "Style"], &["Tag", "Size"]);
    let deps = parse_declaration(&d).unwrap();
    assert_eq!(unify(&deps), strings(&["Layout", "Style", "Size", "Tag"]));
}

#[test]
fn plan_maps_roles_to_slots() {
    let d = decl("Layout", &["Style", "Self"], &["Size", "Style"], &["Tag"]);
    let plan = compile(&d).unwrap();
    assert_eq!(plan.combined, strings(&["Layout", "Style", "Size", "Tag"]));
    assert_eq!(plan.self_index, 0);
    assert_eq!(plan.parent, vec![1, 0]);
    assert_eq!(plan.child, vec![2, 1]);
    assert_eq!(plan.node, vec![3]);
    assert_eq!(
        plan.modes,
        vec![AccessMode::Exclusive, AccessMode::Shared, AccessMode::Shared, AccessMode::Shared]
    );
}

#[test]
fn plan_has_one_exclusive_slot() {
    let d = decl("Layout", &["Self"], &["Self"], &["Self"]);
    let plan = compile(&d).unwrap();
    assert_eq!(plan.combined, strings(&["Layout"]));
    assert_eq!(plan.modes.iter().filter(|m| **m == AccessMode::Exclusive).count(), 1);
    assert_eq!(plan.parent, vec![0]);
}

#[test]
fn compile_reports_parse_errors() {
    let mut d = decl("Layout", &[], &[], &[]);
    d.assoc_types.clear();
    assert!(matches!(compile(&d), Err(DeclError::MissingDependencyDeclaration(Role::Parent))));
}
