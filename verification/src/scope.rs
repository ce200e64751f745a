//! Scopes: chained symbol tables for variables, functions and blueprints.
//!
//! Scopes live in one vector and refer to each other by position. A scope's
//! parent always stands before it; a parent link that does not is treated as
//! a link to nothing.

use vstd::prelude::*;
use crate::ast::{lemma_nodes_view, lemma_nodes_view_push, nodes_view, ASTNode, Kind, Node, AST};
use crate::text::is_word;

verus! {

/// One symbol table with an optional parent.
#[derive(Debug)]
pub struct Scope {
    pub parent: Option<usize>,
    /// The variables, each stored as a `VAR_DEF`.
    pub variables: Vec<ASTNode>,
    /// The functions, each stored as a `FUNC_DEF`.
    pub functions: Vec<ASTNode>,
    /// The blueprints, each stored as a `CLASS`.
    pub classes: Vec<ASTNode>,
}

/// The mathematical value of a scope.
pub struct ScopeView {
    pub parent: Option<nat>,
    pub variables: Seq<Node>,
    pub functions: Seq<Node>,
    pub classes: Seq<Node>,
}

/// The three tables of a scope.
#[derive(Clone, Copy, Debug, PartialEq, Eq, Structural)]
pub enum Table {
    Variables,
    Functions,
    Classes,
}

impl View for Scope {
    type V = ScopeView;

    open spec fn view(&self) -> ScopeView {
        ScopeView {
            parent: match self.parent {
                Some(p) => Some(p as nat),
                None => None,
            },
            variables: nodes_view(self.variables@),
            functions: nodes_view(self.functions@),
            classes: nodes_view(self.classes@),
        }
    }
}

/// The values of a sequence of scopes.
pub open spec fn scopes_view(s: Seq<Scope>) -> Seq<ScopeView> {
    s.map_values(|x: Scope| x@)
}

impl ScopeView {
    /// A scope with nothing in it.
    pub open spec fn empty(parent: Option<nat>) -> ScopeView {
        ScopeView { parent, variables: Seq::empty(), functions: Seq::empty(), classes: Seq::empty() }
    }

    /// One of the three tables of a scope.
    pub open spec fn table(self, t: Table) -> Seq<Node> {
        match t {
            Table::Variables => self.variables,
            Table::Functions => self.functions,
            Table::Classes => self.classes,
        }
    }

    /// A scope with one of its tables replaced.
    pub open spec fn with_table(self, t: Table, entries: Seq<Node>) -> ScopeView {
        match t {
            Table::Variables => ScopeView { variables: entries, ..self },
            Table::Functions => ScopeView { functions: entries, ..self },
            Table::Classes => ScopeView { classes: entries, ..self },
        }
    }
}

impl Table {
    /// The name that a definition of the right kind for this table binds.
    pub open spec fn name_of(self, n: Node) -> Option<Seq<char>> {
        match (self, n.kind) {
            (Table::Variables, Kind::VAR_DEF { name, .. }) => Some(name),
            (Table::Functions, Kind::FUNC_DEF { name, .. }) => Some(name),
            (Table::Classes, Kind::CLASS { name, .. }) => Some(name),
            _ => None,
        }
    }

    /// What this table calls its entries in a message.
    pub open spec fn noun(self) -> Seq<char> {
        match self {
            Table::Variables => "Variable"@,
            Table::Functions => "Function"@,
            Table::Classes => "Blueprint"@,
        }
    }

    /// The message for a definition of the wrong kind.
    pub open spec fn invalid_text(self) -> Seq<char> {
        match self {
            Table::Variables => "Not a valid variable definition"@,
            Table::Functions => "Not a valid function definition"@,
            Table::Classes => "Not a valid blueprint definition"@,
        }
    }

    /// The message for a name that is already bound.
    pub open spec fn exists_text(self, name: Seq<char>) -> Seq<char> {
        self.noun() + " '"@ + name + "' already exists in the current scope"@
    }

    /// The message for a name that is not bound.
    pub open spec fn missing_text(self, name: Seq<char>) -> Seq<char> {
        self.noun() + " '"@ + name + "' does not exist in the current scope"@
    }
}

/// The name that a stored definition binds, whatever its table.
pub open spec fn entry_name(n: Node) -> Option<Seq<char>> {
    match n.kind {
        Kind::VAR_DEF { name, .. } => Some(name),
        Kind::FUNC_DEF { name, .. } => Some(name),
        Kind::CLASS { name, .. } => Some(name),
        _ => None,
    }
}

/// The first position at or after `i` whose entry binds `name`.
pub open spec fn find_from(entries: Seq<Node>, name: Seq<char>, i: nat) -> Option<nat>
    decreases entries.len() - i,
{
    if i >= entries.len() {
        None
    } else if entry_name(entries[i as int]) == Some(name) {
        Some(i)
    } else {
        find_from(entries, name, i + 1)
    }
}

/// The first position whose entry binds `name`.
pub open spec fn find(entries: Seq<Node>, name: Seq<char>) -> Option<nat> {
    find_from(entries, name, 0)
}

/// Where `name` is bound, looking in scope `at` and then up its parents:
/// the scope and the position in its table.
pub open spec fn lookup(scopes: Seq<ScopeView>, t: Table, at: nat, name: Seq<char>) -> Option<
    (nat, nat),
>
    decreases at,
{
    if at >= scopes.len() {
        None
    } else {
        match find(scopes[at as int].table(t), name) {
            Some(i) => Some((at, i)),
            None => match scopes[at as int].parent {
                Some(p) => if p < at {
                    lookup(scopes, t, p, name)
                } else {
                    None
                },
                None => None,
            },
        }
    }
}

/// The definition that `name` resolves to from scope `at`.
pub open spec fn resolve(scopes: Seq<ScopeView>, t: Table, at: nat, name: Seq<char>) -> Option<
    Node,
> {
    match lookup(scopes, t, at, name) {
        Some((s, i)) => Some(scopes[s as int].table(t)[i as int]),
        None => None,
    }
}

/// The topmost scope above `at`.
pub open spec fn root_of(scopes: Seq<ScopeView>, at: nat) -> nat
    decreases at,
{
    if at >= scopes.len() {
        at
    } else {
        match scopes[at as int].parent {
            Some(p) => if p < at {
                root_of(scopes, p)
            } else {
                at
            },
            None => at,
        }
    }
}

/// Adding a definition to scope `at`: refused when the definition is of
/// the wrong kind or its name is already bound in `at` or above it.
pub open spec fn add_entry(scopes: Seq<ScopeView>, t: Table, at: nat, node: Node) -> (
    Seq<ScopeView>,
    Result<(), Seq<char>>,
) {
    match t.name_of(node) {
        None => (scopes, Err(t.invalid_text())),
        Some(name) => if at >= scopes.len() {
            (scopes, Err(Seq::empty()))
        } else if lookup(scopes, t, at, name) is Some {
            (scopes, Err(t.exists_text(name)))
        } else {
            let scope = scopes[at as int];
            (scopes.update(at as int, scope.with_table(t, scope.table(t).push(node))), Ok(()))
        },
    }
}

/// Rebinding `name` in the nearest scope that binds it.
pub open spec fn set_entry(scopes: Seq<ScopeView>, at: nat, name: Seq<char>, node: Node) -> (
    Seq<ScopeView>,
    Result<(), Seq<char>>,
) {
    match lookup(scopes, Table::Variables, at, name) {
        Some((s, i)) => {
            let scope = scopes[s as int];
            (
                scopes.update(
                    s as int,
                    ScopeView { variables: scope.variables.update(i as int, node), ..scope },
                ),
                Ok(()),
            )
        },
        None => (scopes, Err(Table::Variables.missing_text(name))),
    }
}

/// Copying scope `at` and, before it, each scope above it: the copies are
/// appended, parents first, and the result names the copy of `at`.
pub open spec fn deep_copy(scopes: Seq<ScopeView>, at: nat) -> (Seq<ScopeView>, Option<nat>)
    decreases at,
{
    if at >= scopes.len() {
        (scopes, None)
    } else {
        let copied = scopes[at as int];
        let (above, parent) = match copied.parent {
            Some(p) => if p < at {
                deep_copy(scopes, p)
            } else {
                (scopes, None)
            },
            None => (scopes, None),
        };
        (above.push(ScopeView { parent, ..copied }), Some(above.len()))
    }
}

fn table_of(scope: &Scope, t: Table) -> (r: &Vec<ASTNode>)
    ensures
        nodes_view(r@) == scope@.table(t),
{
    match t {
        Table::Variables => &scope.variables,
        Table::Functions => &scope.functions,
        Table::Classes => &scope.classes,
    }
}

/// Whether a node is a definition that binds exactly `name`.
pub fn binds(node: &ASTNode, name: &String) -> (r: bool)
    ensures
        r == (entry_name(node@) == Some(name@)),
{
    match &node.kind {
        AST::VAR_DEF { name: n, .. } => *n == *name,
        AST::FUNC_DEF { name: n, .. } => *n == *name,
        AST::CLASS { name: n, .. } => *n == *name,
        _ => false,
    }
}

/// The first position whose entry binds `name`.
pub fn find_in(entries: &Vec<ASTNode>, name: &String) -> (r: Option<usize>)
    ensures
        match r {
            Some(i) => find(nodes_view(entries@), name@) == Some(i as nat) && i < entries.len(),
            None => find(nodes_view(entries@), name@) is None,
        },
{
    proof {
        lemma_nodes_view(entries@);
    }
    let mut i: usize = 0;
    while i < entries.len()
        invariant
            i <= entries.len(),
            nodes_view(entries@).len() == entries@.len(),
            forall|j: int| 0 <= j < entries@.len() ==> (#[trigger] nodes_view(entries@)[j]) == entries@[j]@,
            find(nodes_view(entries@), name@) == find_from(nodes_view(entries@), name@, i as nat),
        decreases entries.len() - i,
    {
        if binds(&entries[i], name) {
            return Some(i);
        }
        i += 1;
    }
    None
}

fn locate(scopes: &Vec<Scope>, t: Table, at: usize, name: &String) -> (r: Option<(usize, usize)>)
    ensures
        match r {
            Some((s, i)) => lookup(scopes_view(scopes@), t, at as nat, name@) == Some(
                (s as nat, i as nat),
            ) && s < scopes.len() && i < scopes@[s as int]@.table(t).len(),
            None => lookup(scopes_view(scopes@), t, at as nat, name@) is None,
        },
{
    let mut cur = at;
    loop
        invariant
            lookup(scopes_view(scopes@), t, at as nat, name@) == lookup(
                scopes_view(scopes@),
                t,
                cur as nat,
                name@,
            ),
        decreases cur,
    {
        if cur >= scopes.len() {
            return None;
        }
        assert(scopes_view(scopes@)[cur as int] == scopes@[cur as int]@);
        let entries = table_of(&scopes[cur], t);
        match find_in(entries, name) {
            Some(i) => {
                proof {
                    lemma_nodes_view(entries@);
                }
                return Some((cur, i));
            },
            None => {},
        }
        match scopes[cur].parent {
            Some(p) => {
                if p < cur {
                    cur = p;
                } else {
                    return None;
                }
            },
            None => {
                return None;
            },
        }
    }
}

/// A message that names something in quotes.
pub fn quoted_message(noun: &str, name: &String, rest: &str) -> (s: String)
    ensures
        s@ == noun@ + " '"@ + name@ + rest@,
{
    let mut s = String::from_str(noun);
    s.append(" '");
    s.append(name.as_str());
    s.append(rest);
    s
}

fn noun_of(t: Table) -> (s: &'static str)
    ensures
        s@ == t.noun(),
{
    match t {
        Table::Variables => "Variable",
        Table::Functions => "Function",
        Table::Classes => "Blueprint",
    }
}

fn name_in<'a>(t: Table, node: &'a ASTNode) -> (r: Option<&'a String>)
    ensures
        match r {
            Some(n) => t.name_of(node@) == Some(n@),
            None => t.name_of(node@) is None,
        },
{
    match (t, &node.kind) {
        (Table::Variables, AST::VAR_DEF { name, .. }) => Some(name),
        (Table::Functions, AST::FUNC_DEF { name, .. }) => Some(name),
        (Table::Classes, AST::CLASS { name, .. }) => Some(name),
        _ => None,
    }
}

fn add_to(scopes: &mut Vec<Scope>, t: Table, at: usize, node: &ASTNode) -> (r: Result<(), String>)
    ensures
        scopes_view(final(scopes)@) == add_entry(scopes_view(old(scopes)@), t, at as nat, node@).0,
        match r {
            Ok(_) => add_entry(scopes_view(old(scopes)@), t, at as nat, node@).1 == Ok::<
                (),
                Seq<char>,
            >(()),
            Err(s) => add_entry(scopes_view(old(scopes)@), t, at as nat, node@).1 == Err::<
                (),
                Seq<char>,
            >(s@),
        },
{
    let name = match name_in(t, node) {
        Some(name) => name,
        None => {
            return Err(
                match t {
                    Table::Variables => String::from_str("Not a valid variable definition"),
                    Table::Functions => String::from_str("Not a valid function definition"),
                    Table::Classes => String::from_str("Not a valid blueprint definition"),
                },
            );
        },
    };
    if at >= scopes.len() {
        return Err(String::new());
    }
    if locate(scopes, t, at, name).is_some() {
        return Err(quoted_message(noun_of(t), name, "' already exists in the current scope"));
    }
    let copy = node.clone();
    proof {
        lemma_nodes_view_push(old(scopes)@[at as int].variables@, copy);
        lemma_nodes_view_push(old(scopes)@[at as int].functions@, copy);
        lemma_nodes_view_push(old(scopes)@[at as int].classes@, copy);
        assert(scopes_view(old(scopes)@)[at as int] == old(scopes)@[at as int]@);
    }
    match t {
        Table::Variables => scopes[at].variables.push(copy),
        Table::Functions => scopes[at].functions.push(copy),
        Table::Classes => scopes[at].classes.push(copy),
    }
    assert(scopes_view(scopes@) =~= add_entry(scopes_view(old(scopes)@), t, at as nat, node@).0);
    Ok(())
}

impl Scope {
    /// A scope with nothing in it.
    pub fn new(parent: Option<usize>) -> (r: Scope)
        ensures
            r@ == ScopeView::empty(
                match parent {
                    Some(p) => Some(p as nat),
                    None => None,
                },
            ),
    {
        Scope { parent, variables: Vec::new(), functions: Vec::new(), classes: Vec::new() }
    }

    /// Defines a blueprint in scope `at`.
    pub fn add_blueprint(scopes: &mut Vec<Scope>, at: usize, node: &ASTNode) -> (r: Result<
        (),
        String,
    >)
        ensures
            scopes_view(final(scopes)@) == add_entry(
                scopes_view(old(scopes)@),
                Table::Classes,
                at as nat,
                node@,
            ).0,
            match r {
                Ok(_) => add_entry(scopes_view(old(scopes)@), Table::Classes, at as nat, node@).1
                    == Ok::<(), Seq<char>>(()),
                Err(s) => add_entry(scopes_view(old(scopes)@), Table::Classes, at as nat, node@).1
                    == Err::<(), Seq<char>>(s@),
            },
    {
        add_to(scopes, Table::Classes, at, node)
    }

    /// Defines a variable in scope `at`.
    pub fn add_var(scopes: &mut Vec<Scope>, at: usize, node: &ASTNode) -> (r: Result<(), String>)
        ensures
            scopes_view(final(scopes)@) == add_entry(
                scopes_view(old(scopes)@),
                Table::Variables,
                at as nat,
                node@,
            ).0,
            match r {
                Ok(_) => add_entry(scopes_view(old(scopes)@), Table::Variables, at as nat, node@).1
                    == Ok::<(), Seq<char>>(()),
                Err(s) => add_entry(
                    scopes_view(old(scopes)@),
                    Table::Variables,
                    at as nat,
                    node@,
                ).1 == Err::<(), Seq<char>>(s@),
            },
    {
        add_to(scopes, Table::Variables, at, node)
    }

    /// Defines a function in scope `at`.
    pub fn add_func(scopes: &mut Vec<Scope>, at: usize, node: &ASTNode) -> (r: Result<(), String>)
        ensures
            scopes_view(final(scopes)@) == add_entry(
                scopes_view(old(scopes)@),
                Table::Functions,
                at as nat,
                node@,
            ).0,
            match r {
                Ok(_) => add_entry(scopes_view(old(scopes)@), Table::Functions, at as nat, node@).1
                    == Ok::<(), Seq<char>>(()),
                Err(s) => add_entry(
                    scopes_view(old(scopes)@),
                    Table::Functions,
                    at as nat,
                    node@,
                ).1 == Err::<(), Seq<char>>(s@),
            },
    {
        add_to(scopes, Table::Functions, at, node)
    }

    /// Rebinds a variable in the nearest scope that binds it.
    pub fn set_var(scopes: &mut Vec<Scope>, at: usize, name: &String, node: &ASTNode) -> (r: Result<
        (),
        String,
    >)
        ensures
            scopes_view(final(scopes)@) == set_entry(
                scopes_view(old(scopes)@),
                at as nat,
                name@,
                node@,
            ).0,
            match r {
                Ok(_) => set_entry(scopes_view(old(scopes)@), at as nat, name@, node@).1 == Ok::<
                    (),
                    Seq<char>,
                >(()),
                Err(s) => set_entry(scopes_view(old(scopes)@), at as nat, name@, node@).1 == Err::<
                    (),
                    Seq<char>,
                >(s@),
            },
    {
        match locate(scopes, Table::Variables, at, name) {
            Some((s, i)) => {
                let copy = node.clone();
                proof {
                    lemma_nodes_view(old(scopes)@[s as int].variables@);
                    assert(scopes_view(old(scopes)@)[s as int] == old(scopes)@[s as int]@);
                }
                scopes[s].variables[i] = copy;
                proof {
                    lemma_nodes_view(scopes@[s as int].variables@);
                    assert(scopes@[s as int]@.variables =~= old(scopes)@[s as int]@.variables.update(
                        i as int,
                        node@,
                    ));
                    assert(scopes_view(scopes@) =~= set_entry(
                        scopes_view(old(scopes)@),
                        at as nat,
                        name@,
                        node@,
                    ).0);
                }
                Ok(())
            },
            None => Err(quoted_message("Variable", name, "' does not exist in the current scope")),
        }
    }

    /// Where a variable is bound: the scope and the position in its table.
    pub fn resolve_var(scopes: &Vec<Scope>, at: usize, name: &String) -> (r: Option<(usize, usize)>)
        ensures
            match r {
                Some((s, i)) => lookup(scopes_view(scopes@), Table::Variables, at as nat, name@)
                    == Some((s as nat, i as nat)) && s < scopes.len() && i
                    < scopes@[s as int].variables.len(),
                None => lookup(scopes_view(scopes@), Table::Variables, at as nat, name@) is None,
            },
    {
        let r = locate(scopes, Table::Variables, at, name);
        proof {
            if let Some((s, i)) = r {
                lemma_nodes_view(scopes@[s as int].variables@);
            }
        }
        r
    }

    fn resolve_in(scopes: &Vec<Scope>, t: Table, at: usize, name: &String) -> (r: Option<ASTNode>)
        ensures
            match r {
                Some(n) => resolve(scopes_view(scopes@), t, at as nat, name@) == Some(n@),
                None => resolve(scopes_view(scopes@), t, at as nat, name@) is None,
            },
    {
        match locate(scopes, t, at, name) {
            Some((s, i)) => {
                assert(scopes_view(scopes@)[s as int] == scopes@[s as int]@);
                let entries = table_of(&scopes[s], t);
                proof {
                    lemma_nodes_view(entries@);
                }
                Some(entries[i].clone())
            },
            None => None,
        }
    }

    /// A copy of the definition that a variable resolves to.
    pub fn resolve_var_cloned(scopes: &Vec<Scope>, at: usize, name: &String) -> (r: Option<ASTNode>)
        ensures
            match r {
                Some(n) => resolve(scopes_view(scopes@), Table::Variables, at as nat, name@)
                    == Some(n@),
                None => resolve(scopes_view(scopes@), Table::Variables, at as nat, name@) is None,
            },
    {
        Scope::resolve_in(scopes, Table::Variables, at, name)
    }

    /// A copy of the definition that a function name resolves to.
    pub fn resolve_func(scopes: &Vec<Scope>, at: usize, name: &String) -> (r: Option<ASTNode>)
        ensures
            match r {
                Some(n) => resolve(scopes_view(scopes@), Table::Functions, at as nat, name@)
                    == Some(n@),
                None => resolve(scopes_view(scopes@), Table::Functions, at as nat, name@) is None,
            },
    {
        Scope::resolve_in(scopes, Table::Functions, at, name)
    }

    /// A copy of the definition that a blueprint name resolves to.
    pub fn resolve_blueprint(scopes: &Vec<Scope>, at: usize, name: &String) -> (r: Option<ASTNode>)
        ensures
            match r {
                Some(n) => resolve(scopes_view(scopes@), Table::Classes, at as nat, name@) == Some(
                    n@,
                ),
                None => resolve(scopes_view(scopes@), Table::Classes, at as nat, name@) is None,
            },
    {
        Scope::resolve_in(scopes, Table::Classes, at, name)
    }

    /// The topmost scope above `at`.
    pub fn get_root_scope(scopes: &Vec<Scope>, at: usize) -> (r: usize)
        ensures
            r == root_of(scopes_view(scopes@), at as nat),
    {
        let mut cur = at;
        loop
            invariant
                root_of(scopes_view(scopes@), at as nat) == root_of(scopes_view(scopes@), cur as nat),
            decreases cur,
        {
            if cur >= scopes.len() {
                return cur;
            }
            assert(scopes_view(scopes@)[cur as int] == scopes@[cur as int]@);
            match scopes[cur].parent {
                Some(p) => {
                    if p < cur {
                        cur = p;
                    } else {
                        return cur;
                    }
                },
                None => {
                    return cur;
                },
            }
        }
    }

    /// Copies scope `at` and the scopes above it, and returns the copy of `at`.
    pub fn deep_clone(scopes: &mut Vec<Scope>, at: Option<usize>) -> (r: Option<usize>)
        ensures
            match at {
                Some(a) => {
                    &&& scopes_view(final(scopes)@) == deep_copy(
                        scopes_view(old(scopes)@),
                        a as nat,
                    ).0
                    &&& match r {
                        Some(c) => deep_copy(scopes_view(old(scopes)@), a as nat).1 == Some(
                            c as nat,
                        ),
                        None => deep_copy(scopes_view(old(scopes)@), a as nat).1 is None,
                    }
                },
                None => r is None && final(scopes)@ == old(scopes)@,
            },
        decreases
                match at {
                    Some(a) => a as int + 1,
                    None => 0,
                },
    {
        let a = match at {
            Some(a) => a,
            None => {
                return None;
            },
        };
        if a >= scopes.len() {
            return None;
        }
        assert(scopes_view(scopes@)[a as int] == scopes@[a as int]@);
        let parent = match scopes[a].parent {
            Some(p) => if p < a {
                proof {
                    lemma_deep_copy_grows(scopes_view(old(scopes)@), p as nat);
                }
                Scope::deep_clone(scopes, Some(p))
            } else {
                None
            },
            None => None,
        };
        let ghost above = scopes_view(scopes@);
        assert(scopes@.len() >= old(scopes)@.len());
        assert(scopes@[a as int]@ == old(scopes)@[a as int]@) by {
            assert(scopes_view(scopes@)[a as int] == scopes@[a as int]@);
        }
        let copy = Scope {
            parent,
            variables: crate::ast::clone_nodes(&scopes[a].variables),
            functions: crate::ast::clone_nodes(&scopes[a].functions),
            classes: crate::ast::clone_nodes(&scopes[a].classes),
        };
        let id = scopes.len();
        scopes.push(copy);
        assert(scopes_view(scopes@) =~= above.push(copy@));
        Some(id)
    }
}

/// A deep copy only appends: the scopes that were there stay as they were.
pub proof fn lemma_deep_copy_grows(scopes: Seq<ScopeView>, at: nat)
    ensures
        deep_copy(scopes, at).0.len() >= scopes.len(),
        forall|i: int| 0 <= i < scopes.len() ==> deep_copy(scopes, at).0[i] == scopes[i],
        deep_copy(scopes, at).1 matches Some(c) ==> c < deep_copy(scopes, at).0.len(),
    decreases at,
{
    if at < scopes.len() {
        match scopes[at as int].parent {
            Some(p) => {
                if p < at {
                    lemma_deep_copy_grows(scopes, p);
                }
            },
            None => {},
        }
    }
}

} // verus!
