use vstd::prelude::*;

verus! {

/// The shape of a type as written in a rule declaration. Each leaf keeps the
/// text of the type it stands for; two type paths denote the same component
/// type exactly when their texts are equal.
pub enum TypeExpr {
    /// A type path such as `Style` or `crate::Layout`.
    Path(String),
    /// An invisible group around a type, as produced by macro expansion.
    Group(Box<TypeExpr>),
    /// A tuple of types, with the text of the whole tuple.
    Tuple(Vec<TypeExpr>, String),
    /// Any other kind of type, with its text.
    Other(String),
}

/// One associated type of the rule's impl block: `type <name> = <ty>;`.
pub struct AssocType {
    pub name: String,
    pub ty: TypeExpr,
}

/// A rule as declared: the type it computes and the associated types of its impl.
pub struct RuleDecl {
    pub self_ty: TypeExpr,
    pub assoc_types: Vec<AssocType>,
}

/// The three dependency roles that a rule declares.
#[derive(PartialEq, Eq, Structural, Clone, Copy, Debug)]
pub enum Role {
    Parent,
    Child,
    Node,
}

/// Why a rule declaration was refused.
#[derive(Debug)]
pub enum DeclError {
    /// The associated type for the role is absent.
    MissingDependencyDeclaration(Role),
    /// The associated type for the role is not a tuple; holds its text.
    MalformedDependencyList(Role, String),
    /// An element of the role's tuple is not a type path; holds its text.
    NotATypePath(Role, String),
    /// The rule's own type is not a type path; holds its text.
    SelfNotATypePath(String),
    /// A role refers to a type that is missing from the combined set.
    UnresolvedDependencyType(Role, String),
}

/// A refusal, with texts as character sequences.
pub enum DeclFault {
    MissingDependencyDeclaration(Role),
    MalformedDependencyList(Role, Seq<char>),
    NotATypePath(Role, Seq<char>),
    SelfNotATypePath(Seq<char>),
    UnresolvedDependencyType(Role, Seq<char>),
}

impl View for DeclError {
    type V = DeclFault;

    open spec fn view(&self) -> DeclFault {
        match self {
            DeclError::MissingDependencyDeclaration(r) => DeclFault::MissingDependencyDeclaration(*r),
            DeclError::MalformedDependencyList(r, s) => DeclFault::MalformedDependencyList(*r, s@),
            DeclError::NotATypePath(r, s) => DeclFault::NotATypePath(*r, s@),
            DeclError::SelfNotATypePath(s) => DeclFault::SelfNotATypePath(s@),
            DeclError::UnresolvedDependencyType(r, s) => DeclFault::UnresolvedDependencyType(*r, s@),
        }
    }
}

/// The three role lists of a rule and its own type, with every `Self`
/// placeholder replaced by the rule's own type.
pub struct Dependencies {
    pub this_type: String,
    pub parent: Vec<String>,
    pub child: Vec<String>,
    pub node: Vec<String>,
}

/// The mathematical content of `Dependencies`.
pub struct DepsModel {
    pub this_type: Seq<char>,
    pub parent: Seq<Seq<char>>,
    pub child: Seq<Seq<char>>,
    pub node: Seq<Seq<char>>,
}

impl View for Dependencies {
    type V = DepsModel;

    open spec fn view(&self) -> DepsModel {
        DepsModel {
            this_type: self.this_type@,
            parent: self.parent.deep_view(),
            child: self.child.deep_view(),
            node: self.node.deep_view(),
        }
    }
}

pub open spec fn role_name(role: Role) -> Seq<char> {
    match role {
        Role::Parent => seq!['P', 'a', 'r', 'e', 'n', 't', 'D', 'e', 'p', 'e', 'n', 'd', 'e', 'n', 'c', 'i', 'e', 's'],
        Role::Child => seq!['C', 'h', 'i', 'l', 'd', 'D', 'e', 'p', 'e', 'n', 'd', 'e', 'n', 'c', 'i', 'e', 's'],
        Role::Node => seq!['N', 'o', 'd', 'e', 'D', 'e', 'p', 'e', 'n', 'd', 'e', 'n', 'c', 'i', 'e', 's'],
    }
}

pub open spec fn self_placeholder() -> Seq<char> {
    seq!['S', 'e', 'l', 'f']
}

/// The type of the first associated type called `name`.
pub open spec fn find_assoc(items: Seq<AssocType>, name: Seq<char>) -> Option<TypeExpr>
    decreases items.len(),
{
    if items.len() == 0 {
        None
    } else if items[0].name@ == name {
        Some(items[0].ty)
    } else {
        find_assoc(items.drop_first(), name)
    }
}

/// The elements of a tuple type, looking through groups.
pub open spec fn tuple_elems(t: TypeExpr) -> Option<Seq<TypeExpr>>
    decreases t,
{
    match t {
        TypeExpr::Tuple(elems, _) => Some(elems@),
        TypeExpr::Group(inner) => tuple_elems(*inner),
        _ => None,
    }
}

/// The text of a type path, looking through groups.
pub open spec fn path_text(t: TypeExpr) -> Option<Seq<char>>
    decreases t,
{
    match t {
        TypeExpr::Path(s) => Some(s@),
        TypeExpr::Group(inner) => path_text(*inner),
        _ => None,
    }
}

/// The text of a type, looking through groups.
pub open spec fn type_text(t: TypeExpr) -> Seq<char>
    decreases t,
{
    match t {
        TypeExpr::Path(s) => s@,
        TypeExpr::Group(inner) => type_text(*inner),
        TypeExpr::Tuple(_, s) => s@,
        TypeExpr::Other(s) => s@,
    }
}

/// A type path with the placeholder `Self` replaced by the rule's own type.
pub open spec fn resolve(text: Seq<char>, this_type: Seq<char>) -> Seq<char> {
    if text == self_placeholder() {
        this_type
    } else {
        text
    }
}

/// The role list read from tuple elements: each element resolved, or the
/// first element that is not a type path.
pub open spec fn role_list(elems: Seq<TypeExpr>, role: Role, this_type: Seq<char>) -> Result<Seq<Seq<char>>, DeclFault>
    decreases elems.len(),
{
    if elems.len() == 0 {
        Ok(Seq::empty())
    } else {
        match role_list(elems.drop_last(), role, this_type) {
            Err(e) => Err(e),
            Ok(prefix) => match path_text(elems.last()) {
                None => Err(DeclFault::NotATypePath(role, type_text(elems.last()))),
                Some(p) => Ok(prefix.push(resolve(p, this_type))),
            },
        }
    }
}

/// The role list declared by the associated type of a role.
pub open spec fn role_decl(t: TypeExpr, role: Role, this_type: Seq<char>) -> Result<Seq<Seq<char>>, DeclFault> {
    match tuple_elems(t) {
        None => Err(DeclFault::MalformedDependencyList(role, type_text(t))),
        Some(elems) => role_list(elems, role, this_type),
    }
}

/// What a rule declaration denotes: the three associated types are looked up
/// first (parent, child, node), then the rule's own type is read, then the
/// three role lists in the same order.
pub open spec fn parse_decl(d: RuleDecl) -> Result<DepsModel, DeclFault> {
    let items = d.assoc_types@;
    match find_assoc(items, role_name(Role::Parent)) {
        None => Err(DeclFault::MissingDependencyDeclaration(Role::Parent)),
        Some(pt) => match find_assoc(items, role_name(Role::Child)) {
            None => Err(DeclFault::MissingDependencyDeclaration(Role::Child)),
            Some(ct) => match find_assoc(items, role_name(Role::Node)) {
                None => Err(DeclFault::MissingDependencyDeclaration(Role::Node)),
                Some(nt) => match path_text(d.self_ty) {
                    None => Err(DeclFault::SelfNotATypePath(type_text(d.self_ty))),
                    Some(this) => match role_decl(pt, Role::Parent, this) {
                        Err(e) => Err(e),
                        Ok(p) => match role_decl(ct, Role::Child, this) {
                            Err(e) => Err(e),
                            Ok(c) => match role_decl(nt, Role::Node, this) {
                                Err(e) => Err(e),
                                Ok(n) => Ok(DepsModel { this_type: this, parent: p, child: c, node: n }),
                            },
                        },
                    },
                },
            },
        },
    }
}

} // verus!

verus! {

/// The name of the associated type that declares a role.
pub fn role_name_string(role: Role) -> (r: String)
    ensures
        r@ == role_name(role),
{
    match role {
        Role::Parent => {
            proof {
                reveal_strlit("ParentDependencies");
            }
            "ParentDependencies".to_owned()
        },
        Role::Child => {
            proof {
                reveal_strlit("ChildDependencies");
            }
            "ChildDependencies".to_owned()
        },
        Role::Node => {
            proof {
                reveal_strlit("NodeDependencies");
            }
            "NodeDependencies".to_owned()
        },
    }
}

/// Whether a type path is the placeholder `Self`.
pub fn is_self_placeholder(text: &String) -> (r: bool)
    ensures
        r == (text@ == self_placeholder()),
{
    proof {
        reveal_strlit("Self");
    }
    let placeholder = "Self".to_owned();
    assert(placeholder@ =~= self_placeholder());
    text.eq(&placeholder)
}

/// The first associated type called `name`.
pub fn find_assoc_type<'a>(items: &'a Vec<AssocType>, name: &String) -> (r: Option<&'a TypeExpr>)
    ensures
        match r {
            None => find_assoc(items@, name@) is None,
            Some(t) => find_assoc(items@, name@) == Some(*t),
        },
{
    let mut i: usize = 0;
    assert(items@.subrange(0, items@.len() as int) =~= items@);
    while i < items.len()
        invariant
            i <= items.len(),
            find_assoc(items@, name@) == find_assoc(items@.subrange(i as int, items@.len() as int), name@),
        decreases items.len() - i,
    {
        assert(items@.subrange(i as int, items@.len() as int).drop_first() =~= items@.subrange(i + 1, items@.len() as int));
        if items[i].name == *name {
            return Some(&items[i].ty);
        }
        i = i + 1;
    }
    None
}

/// The elements of a tuple type, looking through groups.
pub fn extract_tuple(t: &TypeExpr) -> (r: Option<&Vec<TypeExpr>>)
    ensures
        match r {
            None => tuple_elems(*t) is None,
            Some(v) => tuple_elems(*t) == Some(v@),
        },
    decreases t,
{
    match t {
        TypeExpr::Tuple(elems, _) => Some(elems),
        TypeExpr::Group(inner) => extract_tuple(inner),
        _ => None,
    }
}

/// The text of a type path, looking through groups.
pub fn extract_type_path(t: &TypeExpr) -> (r: Option<&String>)
    ensures
        match r {
            None => path_text(*t) is None,
            Some(s) => path_text(*t) == Some(s@),
        },
    decreases t,
{
    match t {
        TypeExpr::Path(s) => Some(s),
        TypeExpr::Group(inner) => extract_type_path(inner),
        _ => None,
    }
}

/// The text of a type, looking through groups.
pub fn text_of(t: &TypeExpr) -> (r: String)
    ensures
        r@ == type_text(*t),
    decreases t,
{
    match t {
        TypeExpr::Path(s) => s.clone(),
        TypeExpr::Group(inner) => text_of(inner),
        TypeExpr::Tuple(_, s) => s.clone(),
        TypeExpr::Other(s) => s.clone(),
    }
}

} // verus!

verus! {

/// Reads the role list declared by `t`: a tuple of type paths, with `Self`
/// replaced by `this_type`.
pub fn parse_role_list(t: &TypeExpr, role: Role, this_type: &String) -> (r: Result<Vec<String>, DeclError>)
    ensures
        match r {
            Ok(v) => role_decl(*t, role, this_type@) == Ok::<Seq<Seq<char>>, DeclFault>(v.deep_view()),
            Err(e) => role_decl(*t, role, this_type@) == Err::<Seq<Seq<char>>, DeclFault>(e@),
        },
{
    let elems = match extract_tuple(t) {
        Some(elems) => elems,
        None => {
            return Err(DeclError::MalformedDependencyList(role, text_of(t)));
        },
    };
    let mut out: Vec<String> = Vec::new();
    let mut i: usize = 0;
    assert(elems@.subrange(0, 0) =~= Seq::<TypeExpr>::empty());
    assert(out.deep_view() =~= Seq::<Seq<char>>::empty());
    while i < elems.len()
        invariant
            i <= elems.len(),
            tuple_elems(*t) == Some(elems@),
            role_list(elems@.subrange(0, i as int), role, this_type@) == Ok::<Seq<Seq<char>>, DeclFault>(out.deep_view()),
        decreases elems.len() - i,
    {
        assert(elems@.subrange(0, i + 1).drop_last() =~= elems@.subrange(0, i as int));
        assert(elems@.subrange(0, i + 1).last() == elems@[i as int]);
        let item = match extract_type_path(&elems[i]) {
            Some(p) => {
                if is_self_placeholder(p) {
                    this_type.clone()
                } else {
                    p.clone()
                }
            },
            None => {
                let text = text_of(&elems[i]);
                assert(role_list(elems@.subrange(0, i + 1), role, this_type@) == Err::<Seq<Seq<char>>, DeclFault>(DeclFault::NotATypePath(role, text@)));
                proof {
                    lemma_role_list_err_extends(elems@, role, this_type@, i as int + 1);
                }
                assert(role_list(elems@, role, this_type@) == Err::<Seq<Seq<char>>, DeclFault>(DeclFault::NotATypePath(role, text@)));
                assert(role_decl(*t, role, this_type@) == Err::<Seq<Seq<char>>, DeclFault>(DeclFault::NotATypePath(role, text@)));
                return Err(DeclError::NotATypePath(role, text));
            },
        };
        let ghost prev = out.deep_view();
        out.push(item);
        assert(out.deep_view() =~= prev.push(item@));
        i = i + 1;
    }
    assert(elems@.subrange(0, elems@.len() as int) =~= elems@);
    Ok(out)
}

/// An error on a prefix of the elements is the error on the whole list.
proof fn lemma_role_list_err_extends(elems: Seq<TypeExpr>, role: Role, this_type: Seq<char>, k: int)
    requires
        0 <= k <= elems.len(),
        role_list(elems.subrange(0, k), role, this_type) is Err,
    ensures
        role_list(elems, role, this_type) == role_list(elems.subrange(0, k), role, this_type),
    decreases elems.len() - k,
{
    if k < elems.len() {
        let s = elems.subrange(0, k + 1);
        assert(s.drop_last() =~= elems.subrange(0, k));
        lemma_role_list_err_extends(elems, role, this_type, k + 1);
    } else {
        assert(elems.subrange(0, k) =~= elems);
    }
}

/// Reads a rule declaration: its own type and its three role lists.
pub fn parse_declaration(d: &RuleDecl) -> (r: Result<Dependencies, DeclError>)
    ensures
        match r {
            Ok(deps) => parse_decl(*d) == Ok::<DepsModel, DeclFault>(deps@),
            Err(e) => parse_decl(*d) == Err::<DepsModel, DeclFault>(e@),
        },
{
    let pt = match find_assoc_type(&d.assoc_types, &role_name_string(Role::Parent)) {
        Some(t) => t,
        None => return Err(DeclError::MissingDependencyDeclaration(Role::Parent)),
    };
    let ct = match find_assoc_type(&d.assoc_types, &role_name_string(Role::Child)) {
        Some(t) => t,
        None => return Err(DeclError::MissingDependencyDeclaration(Role::Child)),
    };
    let nt = match find_assoc_type(&d.assoc_types, &role_name_string(Role::Node)) {
        Some(t) => t,
        None => return Err(DeclError::MissingDependencyDeclaration(Role::Node)),
    };
    let this_type = match extract_type_path(&d.self_ty) {
        Some(p) => p.clone(),
        None => return Err(DeclError::SelfNotATypePath(text_of(&d.self_ty))),
    };
    let parent = parse_role_list(pt, Role::Parent, &this_type)?;
    let child = parse_role_list(ct, Role::Child, &this_type)?;
    let node = parse_role_list(nt, Role::Node, &this_type)?;
    Ok(Dependencies { this_type, parent, child, node })
}

} // verus!
