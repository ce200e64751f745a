//! Laws of the language, proved from the definitions of its semantics.

use vstd::prelude::*;
use crate::ast::{Kind, Node};
use crate::error::Span;
use crate::scope::{deep_copy, lookup, root_of, set_entry, ScopeView, Table};
use crate::semantics::{
    cell_node, deref, eval, eval_list, eval_while, is_keyword, length_of_value, runtime_type,
    sanitize, Machine,
};
use crate::token::Tok;
use crate::values::{binop, bool_node, int_node, is_arithmetic, is_number, wrap32, Applied};

verus! {

/// An arithmetic operator on two integers yields an integer; the one
/// exception is a division or a remainder by zero, which yields no value.
pub proof fn law_integers_stay_integers(op: Tok, a: int, b: int, left: Span, right: Span, at: Span)
    requires
        is_arithmetic(op),
    ensures
        match binop(op, int_node(a, left), int_node(b, right), at) {
            Applied::Value(v) => v.kind is INT && v.span == at,
            Applied::DivideByZero(s) => (op is DIV || op is MOD) && b == 0 && s == right,
            Applied::Host => false,
        },
{
}

/// An arithmetic operator on two numbers of which one is floating-point is
/// left to the embedder's arithmetic.
pub proof fn law_floats_go_to_the_embedder(op: Tok, left: Node, right: Node, at: Span)
    requires
        is_arithmetic(op),
        is_number(left.kind),
        is_number(right.kind),
        left.kind is FLOAT || right.kind is FLOAT,
    ensures
        binop(op, left, right, at) is Host,
{
}

/// Whether two kinds of value are the same runtime kind: the same kind of
/// plain value, or two objects of one blueprint.
pub open spec fn same_runtime_kind(a: Kind, b: Kind) -> bool {
    match (a, b) {
        (Kind::STRING { .. }, Kind::STRING { .. }) => true,
        (Kind::INT { .. }, Kind::INT { .. }) => true,
        (Kind::FLOAT { .. }, Kind::FLOAT { .. }) => true,
        (Kind::BOOL { .. }, Kind::BOOL { .. }) => true,
        (Kind::LIST { .. }, Kind::LIST { .. }) => true,
        (Kind::OBJECT { class_name: x, .. }, Kind::OBJECT { class_name: y, .. }) => x == y,
        (_, _) => !has_named_type(a) && !has_named_type(b),
    }
}

/// Whether a kind is one of those whose runtime type has a name of its own.
pub open spec fn has_named_type(k: Kind) -> bool {
    k is STRING || k is INT || k is FLOAT || k is BOOL || k is LIST || k is OBJECT
}

/// Whether a name is one of those that the language gives to its own types.
pub open spec fn is_reserved_type(name: Seq<char>) -> bool {
    name == "String"@ || name == "Integer"@ || name == "Float"@ || name == "Boolean"@ || name
        == "List_Obj"@ || name == "Null"@
}

/// Whether a kind is no object of a blueprint that bears the name of one of
/// the language's own types.
pub open spec fn plainly_named(k: Kind) -> bool {
    k matches Kind::OBJECT { class_name, .. } ==> !is_reserved_type(class_name)
}

/// Comparing the runtime type of a value with itself yields true; comparing
/// the runtime types of two values yields true exactly when they are of the
/// same runtime kind. The law leaves out objects of a blueprint that is
/// named like one of the language's own types.
pub proof fn law_type_equality(a: Kind, b: Kind, left: Span, right: Span, at: Span)
    requires
        plainly_named(a),
        plainly_named(b),
    ensures
        binop(
            Tok::DEQL,
            Node { kind: Kind::TYPE { type_value: runtime_type(a) }, span: left },
            Node { kind: Kind::TYPE { type_value: runtime_type(a) }, span: right },
            at,
        ) == Applied::Value(bool_node(true, at)),
        binop(
            Tok::DEQL,
            Node { kind: Kind::TYPE { type_value: runtime_type(a) }, span: left },
            Node { kind: Kind::TYPE { type_value: runtime_type(b) }, span: right },
            at,
        ) == Applied::Value(bool_node(same_runtime_kind(a, b), at)),
{
    reveal_strlit("String");
    reveal_strlit("Integer");
    reveal_strlit("Float");
    reveal_strlit("Boolean");
    reveal_strlit("List_Obj");
    reveal_strlit("Null");
    assert("String"@.len() == 6);
    assert("Integer"@.len() == 7);
    assert("Float"@.len() == 5);
    assert("Boolean"@.len() == 7);
    assert("List_Obj"@.len() == 8);
    assert("Null"@.len() == 4);
    assert("Integer"@[0] != "Boolean"@[0]);
}

/// A loop whose body yields `break` in its first round ends with that
/// round: the body is evaluated once and the loop yields no value.
pub proof fn law_break_ends_the_loop(m: Machine, node: Node, fuel: nat)
    requires
        !m.stopped(),
        fuel > 0,
        node.kind is WHILE,
        ({
            let round = Machine {
                scopes: m.scopes.push(ScopeView::empty(Some(m.current))),
                current: m.scopes.len(),
                ..m
            };
            let (m1, c) = eval(round, *node.kind->WHILE_condition, (fuel - 1) as nat);
            let (m2, r) = eval(m1, *node.kind->WHILE_body, (fuel - 1) as nat);
            !m1.stopped() && c.kind == (Kind::BOOL { bool_value: true }) && !m2.stopped()
                && r.kind is BREAK
        }),
    ensures
        ({
            let round = Machine {
                scopes: m.scopes.push(ScopeView::empty(Some(m.current))),
                current: m.scopes.len(),
                ..m
            };
            let (m1, c) = eval(round, *node.kind->WHILE_condition, (fuel - 1) as nat);
            let (m2, r) = eval(m1, *node.kind->WHILE_body, (fuel - 1) as nat);
            eval_while(m, node, m.current, fuel) == (
                Machine { current: m.current, ..m2 },
                Node::noop(),
            )
        }),
{
}

/// Looking a name up from a scope below the end of the scopes gives the
/// same whether or not one more scope is appended.
pub proof fn lemma_lookup_survives_push(
    scopes: Seq<ScopeView>,
    extra: ScopeView,
    t: Table,
    at: nat,
    name: Seq<char>,
)
    requires
        at < scopes.len(),
    ensures
        lookup(scopes.push(extra), t, at, name) == lookup(scopes, t, at, name),
        root_of(scopes.push(extra), at) == root_of(scopes, at),
    decreases at,
{
    assert(scopes.push(extra)[at as int] == scopes[at as int]);
    match scopes[at as int].parent {
        Some(p) => {
            if p < at {
                lemma_lookup_survives_push(scopes, extra, t, p, name);
            }
        },
        None => {},
    }
}

/// The scope of a call hangs below the root scope, whatever scope the call
/// is made from: a name that the frame does not bind itself resolves from
/// the frame exactly as it resolves from the root.
pub proof fn law_frames_see_the_root(scopes: Seq<ScopeView>, current: nat, t: Table, name: Seq<char>)
    ensures
        lookup(
            scopes.push(ScopeView::empty(Some(root_of(scopes, current)))),
            t,
            scopes.len(),
            name,
        ) == lookup(scopes, t, root_of(scopes, current), name),
{
    let root = root_of(scopes, current);
    let frame = ScopeView::empty(Some(root));
    let after = scopes.push(frame);
    assert(after[scopes.len() as int] == frame);
    assert(crate::scope::find(frame.table(t), name) is None);
    if root < scopes.len() {
        lemma_lookup_survives_push(scopes, frame, t, root, name);
    }
}

/// A list literal whose elements all evaluate yields a list with one
/// element for each of them.
pub proof fn lemma_list_grows(
    m: Machine,
    items: Seq<Node>,
    i: nat,
    acc: Seq<Node>,
    span: Span,
    fuel: nat,
)
    requires
        i <= items.len(),
    ensures
        ({
            let (m1, v) = eval_list(m, items, i, acc, span, fuel);
            !m1.stopped() ==> v.kind is LIST && v.kind->LIST_contents.len() == acc.len()
                + items.len() - i
        }),
    decreases items.len() - i,
{
    if !m.stopped() && i < items.len() {
        let (m1, v) = eval(m, items[i as int], fuel);
        if !m1.stopped() {
            lemma_list_grows(
                Machine { cells: m1.cells.push(v), ..m1 },
                items,
                i + 1,
                acc.push(cell_node(m1.cells.len())),
                span,
                fuel,
            );
        }
    }
}

/// `length` of a list literal with `n` elements that all evaluate is `n`.
pub proof fn law_length_of_a_list(m: Machine, node: Node, at: Span, fuel: nat)
    requires
        node.kind is LIST,
        !eval(m, node, fuel).0.stopped(),
        node.kind->LIST_contents.len() <= i32::MAX,
    ensures
        length_of_value(eval(m, node, fuel).1, at) == int_node(
            node.kind->LIST_contents.len() as int,
            at,
        ),
{
    lemma_list_grows(m, node.kind->LIST_contents, 0, Seq::empty(), node.span, fuel);
}

/// `length` of a string is the number of its characters.
pub proof fn law_length_of_a_string(text: Seq<char>, span: Span, at: Span)
    requires
        text.len() <= i32::MAX,
    ensures
        length_of_value(Node { kind: Kind::STRING { str_value: text }, span }, at) == int_node(
            text.len() as int,
            at,
        ),
{
}

/// A deep copy appends scopes and leaves every scope that was there as it
/// was; the scopes it appends have their parents among themselves.
pub proof fn lemma_copy_is_closed(scopes: Seq<ScopeView>, at: nat)
    requires
        forall|i: int|
            0 <= i < scopes.len() ==> ((#[trigger] scopes[i]).parent matches Some(p) ==> p < i),
    ensures
        deep_copy(scopes, at).0.len() >= scopes.len(),
        forall|i: int| 0 <= i < scopes.len() ==> deep_copy(scopes, at).0[i] == scopes[i],
        forall|i: int|
            scopes.len() <= i < deep_copy(scopes, at).0.len() ==> ((#[trigger] deep_copy(
                scopes,
                at,
            ).0[i]).parent matches Some(p) ==> scopes.len() <= p < i),
        deep_copy(scopes, at).1 matches Some(c) ==> scopes.len() <= c < deep_copy(
            scopes,
            at,
        ).0.len(),
    decreases at,
{
    if at < scopes.len() {
        match scopes[at as int].parent {
            Some(p) => {
                if p < at {
                    lemma_copy_is_closed(scopes, p);
                }
            },
            None => {},
        }
    }
}

/// A name that is looked up from a scope at or above a bound, among scopes
/// whose parents from that bound on lie at or above it too, is found at or
/// above the bound.
pub proof fn lemma_lookup_stays_above(
    scopes: Seq<ScopeView>,
    bound: nat,
    t: Table,
    at: nat,
    name: Seq<char>,
)
    requires
        bound <= at,
        forall|i: int|
            bound <= i < scopes.len() ==> ((#[trigger] scopes[i]).parent matches Some(p) ==> bound
                <= p),
    ensures
        lookup(scopes, t, at, name) matches Some((s, _)) ==> bound <= s < scopes.len(),
    decreases at,
{
    if at < scopes.len() {
        match scopes[at as int].parent {
            Some(p) => {
                if p < at {
                    lemma_lookup_stays_above(scopes, bound, t, p, name);
                }
            },
            None => {},
        }
    }
}

/// Reading an object from a variable hands out a copy with scopes of its
/// own: rebinding a property through the copy leaves every scope that was
/// there before the copy as it was, and so the object that was read.
pub proof fn law_copies_are_independent(
    scopes: Seq<ScopeView>,
    object: nat,
    name: Seq<char>,
    def: Node,
)
    requires
        forall|i: int|
            0 <= i < scopes.len() ==> ((#[trigger] scopes[i]).parent matches Some(p) ==> p < i),
        deep_copy(scopes, object).1 is Some,
    ensures
        ({
            let (copied, copy) = deep_copy(scopes, object);
            let (after, _) = set_entry(copied, copy->0, name, def);
            &&& after.len() == copied.len()
            &&& forall|i: int| 0 <= i < scopes.len() ==> after[i] == scopes[i]
        }),
{
    lemma_copy_is_closed(scopes, object);
    let (copied, copy) = deep_copy(scopes, object);
    lemma_lookup_stays_above(copied, scopes.len(), Table::Variables, copy->0, name);
}

/// After `a[k] = v` for a variable `a` that holds a list and an index `k`
/// inside it, `a[k]` is `v`: the list that the variable is bound to holds,
/// at `k`, a cell that holds `v`.
pub proof fn law_assignment_is_read_back(m: Machine, name: Seq<char>, root: Node, k: int, v: Node)
    requires
        root.kind is LIST,
        0 <= k < root.kind->LIST_contents.len(),
        v.kind.is_value(),
        lookup(m.scopes, Table::Variables, m.current, name) is Some,
    ensures
        ({
            let after = crate::semantics::assign_store(m, name, root, None, root, k, v);
            match crate::scope::resolve(after.scopes, Table::Variables, after.current, name) {
                Some(def) => def.kind matches Kind::VAR_DEF { value, .. } && value.kind matches Kind::LIST {
                    contents,
                } && contents.len() == root.kind->LIST_contents.len() && deref(
                    after.cells,
                    contents[k],
                ) == v,
                None => false,
            }
        }),
{
    let found = lookup(m.scopes, Table::Variables, m.current, name)->0;
    lemma_lookup_in_range(m.scopes, Table::Variables, m.current, name);
    let after = crate::semantics::assign_store(m, name, root, None, root, k, v);
    lemma_set_then_lookup(
        m.scopes,
        m.current,
        name,
        Node {
            kind: Kind::VAR_DEF {
                name,
                value: Box::new(
                    Node {
                        kind: Kind::LIST {
                            contents: root.kind->LIST_contents.update(k, cell_node(m.cells.len())),
                        },
                        span: root.span,
                    },
                ),
            },
            span: root.span,
        },
    );
}

/// A name that is found is found in a scope that exists, at a position of
/// its table where the name is bound.
pub proof fn lemma_lookup_in_range(scopes: Seq<ScopeView>, t: Table, at: nat, name: Seq<char>)
    ensures
        lookup(scopes, t, at, name) matches Some((s, i)) ==> s < scopes.len() && i
            < scopes[s as int].table(t).len() && crate::scope::entry_name(
            scopes[s as int].table(t)[i as int],
        ) == Some(name) && crate::scope::find(scopes[s as int].table(t), name) == Some(i),
    decreases at,
{
    if at < scopes.len() {
        lemma_find_in_range(scopes[at as int].table(t), name, 0);
        match scopes[at as int].parent {
            Some(p) => {
                if p < at {
                    lemma_lookup_in_range(scopes, t, p, name);
                }
            },
            None => {},
        }
    }
}

/// The position that a search from `i` finds is a position from `i` on
/// whose entry binds the name.
pub proof fn lemma_find_in_range(entries: Seq<Node>, name: Seq<char>, i: nat)
    ensures
        crate::scope::find_from(entries, name, i) matches Some(j) ==> i <= j < entries.len()
            && crate::scope::entry_name(entries[j as int]) == Some(name),
    decreases entries.len() - i,
{
    if i < entries.len() && crate::scope::entry_name(entries[i as int]) != Some(name) {
        lemma_find_in_range(entries, name, i + 1);
    }
}

/// A search that finds a name at a position still finds it there after the
/// entry at that position is replaced by another that binds the same name.
pub proof fn lemma_find_after_update(
    entries: Seq<Node>,
    name: Seq<char>,
    i: nat,
    j: nat,
    def: Node,
)
    requires
        crate::scope::find_from(entries, name, i) == Some(j),
        crate::scope::entry_name(def) == Some(name),
    ensures
        crate::scope::find_from(entries.update(j as int, def), name, i) == Some(j),
    decreases entries.len() - i,
{
    lemma_find_in_range(entries, name, i);
    if i < j {
        lemma_find_after_update(entries, name, i + 1, j, def);
    }
}

/// Rebinding a variable changes only the scope that binds it: a lookup that
/// goes through other scopes goes as before.
pub proof fn lemma_lookup_after_update(
    scopes: Seq<ScopeView>,
    at: nat,
    name: Seq<char>,
    s: nat,
    i: nat,
    def: Node,
)
    requires
        lookup(scopes, Table::Variables, at, name) == Some((s, i)),
        crate::scope::entry_name(def) == Some(name),
    ensures
        lookup(
            scopes.update(
                s as int,
                ScopeView {
                    variables: scopes[s as int].variables.update(i as int, def),
                    ..scopes[s as int]
                },
            ),
            Table::Variables,
            at,
            name,
        ) == Some((s, i)),
    decreases at,
{
    lemma_lookup_in_range(scopes, Table::Variables, at, name);
    let after = scopes.update(
        s as int,
        ScopeView { variables: scopes[s as int].variables.update(i as int, def), ..scopes[s as int] },
    );
    if at < scopes.len() {
        if at == s {
            lemma_lookup_in_range(scopes, Table::Variables, at, name);
            lemma_find_after_update(scopes[s as int].variables, name, 0, i, def);
        } else {
            assert(after[at as int] == scopes[at as int]);
            match scopes[at as int].parent {
                Some(p) => {
                    if p < at {
                        lemma_lookup_after_update(scopes, p, name, s, i, def);
                    }
                },
                None => {},
            }
        }
    }
}

/// A variable that is bound resolves, after it is rebound, to the
/// definition it was rebound to.
pub proof fn lemma_set_then_lookup(scopes: Seq<ScopeView>, at: nat, name: Seq<char>, def: Node)
    requires
        lookup(scopes, Table::Variables, at, name) is Some,
        crate::scope::entry_name(def) == Some(name),
    ensures
        crate::scope::resolve(set_entry(scopes, at, name, def).0, Table::Variables, at, name)
            == Some(def),
{
    let (s, i) = lookup(scopes, Table::Variables, at, name)->0;
    lemma_lookup_in_range(scopes, Table::Variables, at, name);
    lemma_lookup_after_update(scopes, at, name, s, i, def);
}

/// What an operator yields, where it yields a value, is of a kind that
/// evaluation may yield.
pub proof fn lemma_operators_yield_values(op: Tok, left: Node, right: Node, at: Span)
    ensures
        binop(op, left, right, at) matches Applied::Value(v) ==> v.kind.is_value(),
        crate::values::unop(op, left, at) matches Some(v) ==> v.kind.is_value(),
{
}

proof fn lemma_list_is_value(
    m: Machine,
    items: Seq<Node>,
    i: nat,
    acc: Seq<Node>,
    span: Span,
    fuel: nat,
)
    ensures
        eval_list(m, items, i, acc, span, fuel).1.kind.is_value(),
    decreases items.len() - i,
{
    if !m.stopped() && i < items.len() {
        let (m1, v) = eval(m, items[i as int], fuel);
        if !m1.stopped() {
            lemma_list_is_value(
                Machine { cells: m1.cells.push(v), ..m1 },
                items,
                i + 1,
                acc.push(cell_node(m1.cells.len())),
                span,
                fuel,
            );
        }
    }
}

proof fn lemma_compound_is_value(m: Machine, statements: Seq<Node>, i: nat, fuel: nat)
    ensures
        crate::semantics::eval_compound(m, statements, i, fuel).1.kind.is_value(),
    decreases statements.len() - i,
{
    if !(m.stopped() || i >= statements.len()) {
        let (m1, r) = eval(m, statements[i as int], fuel);
        if !m1.stopped() && !(r.kind is RETURN || r.kind is BREAK) {
            lemma_compound_is_value(m1, statements, i + 1, fuel);
        }
    }
}

proof fn lemma_if_is_value(m: Machine, node: Node, i: nat, fuel: nat)
    ensures
        crate::semantics::eval_if(m, node, i, fuel).1.kind.is_value(),
    decreases
            match node.kind {
                Kind::IF { conditions, .. } => conditions.len() - i,
                _ => 0,
            },
{
    match node.kind {
        Kind::IF { conditions, bodies, else_body } => {
            if !m.stopped() && !(i >= conditions.len() || i >= bodies.len()) {
                let (m1, c) = eval(m, conditions[i as int], fuel);
                if !m1.stopped() {
                    match c.kind {
                        Kind::BOOL { bool_value } => {
                            if !bool_value {
                                lemma_if_is_value(m1, node, i + 1, fuel);
                            }
                        },
                        _ => {},
                    }
                }
            }
        },
        _ => {},
    }
}

proof fn lemma_while_is_value(m: Machine, node: Node, origin: nat, fuel: nat)
    ensures
        eval_while(m, node, origin, fuel).1.kind.is_value(),
    decreases fuel,
{
    match node.kind {
        Kind::WHILE { condition, body } => {
            if !m.stopped() && fuel > 0 {
                let round = Machine {
                    scopes: m.scopes.push(ScopeView::empty(Some(origin))),
                    current: m.scopes.len(),
                    ..m
                };
                let (m1, c) = eval(round, *condition, (fuel - 1) as nat);
                if !m1.stopped() {
                    match c.kind {
                        Kind::BOOL { bool_value } => {
                            if bool_value {
                                let (m2, r) = eval(m1, *body, (fuel - 1) as nat);
                                if !m2.stopped() && !(r.kind is RETURN) && !(r.kind is BREAK) {
                                    lemma_while_is_value(
                                        Machine { current: origin, ..m2 },
                                        node,
                                        origin,
                                        (fuel - 1) as nat,
                                    );
                                }
                            }
                        },
                        _ => {},
                    }
                }
            }
        },
        _ => {},
    }
}

proof fn lemma_write_is_value(m: Machine, args: Seq<Node>, i: nat, line: Seq<char>, fuel: nat)
    ensures
        crate::semantics::builtin_write(m, args, i, line, fuel).1.kind.is_value(),
    decreases args.len() - i,
{
    if !m.stopped() && i < args.len() {
        let (m1, v) = eval(m, args[i as int], fuel);
        if !m1.stopped() {
            match crate::semantics::show(m1.cells, m1.scopes, v, fuel) {
                crate::semantics::Shown::Text(t) => {
                    lemma_write_is_value(m1, args, i + 1, line + t, fuel);
                },
                _ => {},
            }
        }
    }
}

proof fn lemma_walk_is_value(
    m: Machine,
    name: Seq<char>,
    root: Node,
    place: Option<nat>,
    indices: Seq<Node>,
    i: nat,
    v: Node,
    fuel: nat,
)
    ensures
        crate::semantics::assign_walk(m, name, root, place, indices, i, v, fuel).1
            == Node::noop(),
    decreases indices.len() - i,
{
    if !(m.stopped() || i >= indices.len()) {
        let (m1, ix) = eval(m, indices[i as int], fuel);
        if !m1.stopped() {
            let cur = crate::semantics::walk_list(m1.cells, root, place);
            match ix.kind {
                Kind::INT { int_value } => {
                    match cur.kind {
                        Kind::LIST { contents } => {
                            if !(int_value < 0 || int_value >= contents.len()) && i + 1
                                != indices.len() {
                                match contents[int_value].kind {
                                    Kind::CELL { id } => {
                                        lemma_walk_is_value(
                                            m1,
                                            name,
                                            root,
                                            Some(id),
                                            indices,
                                            i + 1,
                                            v,
                                            fuel,
                                        );
                                    },
                                    _ => {},
                                }
                            }
                        },
                        _ => {},
                    }
                },
                _ => {},
            }
        }
    }
}

proof fn lemma_call_is_value(m: Machine, node: Node, via: Option<nat>, fuel: nat)
    ensures
        crate::semantics::eval_call(m, node, via, fuel).1.kind.is_value(),
{
    match node.kind {
        Kind::FUNC_CALL { name, args } => {
            if !m.stopped() {
                if crate::semantics::is_builtin(name) {
                    assert(crate::semantics::eval_builtin(m, node, fuel).1.kind.is_value()) by {
                        lemma_write_is_value(m, args, 0, Seq::empty(), fuel);
                        assert(crate::semantics::builtin_write_call(m, node, fuel).1.kind.is_value());
                        assert(crate::semantics::builtin_type(m, node, fuel).1.kind.is_value());
                        assert(crate::semantics::builtin_to_int(m, node, fuel).1.kind.is_value());
                        assert(crate::semantics::builtin_to_float(m, node, fuel).1.kind.is_value());
                        assert(crate::semantics::builtin_length(m, node, fuel).1.kind.is_value());
                        assert(crate::semantics::builtin_random_int(
                            m,
                            node,
                            fuel,
                        ).1.kind.is_value());
                        assert(crate::semantics::builtin_replace(m, node, fuel).1.kind.is_value());
                    }
                } else {
                    let from = match via {
                        Some(s) => s,
                        None => m.current,
                    };
                    match crate::scope::resolve(m.scopes, Table::Functions, from, name) {
                        Some(function) => {
                            assert(crate::semantics::invoke(
                                m,
                                function,
                                name,
                                args,
                                node.span,
                                match via {
                                    Some(s) => s,
                                    None => root_of(m.scopes, m.current),
                                },
                                fuel,
                            ).1.kind.is_value());
                        },
                        None => {},
                    }
                }
            }
        },
        _ => {},
    }
}

proof fn lemma_index_is_value(m: Machine, cur: Node, indices: Seq<Node>, i: nat, fuel: nat)
    requires
        cur.kind.is_value(),
    ensures
        crate::semantics::eval_index(m, cur, indices, i, fuel).1.kind.is_value(),
    decreases indices.len() - i,
{
    if !m.stopped() && i < indices.len() {
        let (m1, ix) = eval(m, indices[i as int], fuel);
        if !m1.stopped() {
            match ix.kind {
                Kind::INT { int_value } => {
                    match cur.kind {
                        Kind::LIST { contents } => {
                            if !(int_value < 0 || int_value >= contents.len()) {
                                lemma_index_is_value(
                                    m1,
                                    deref(m1.cells, contents[int_value]),
                                    indices,
                                    i + 1,
                                    fuel,
                                );
                            }
                        },
                        _ => {},
                    }
                },
                _ => {},
            }
        }
    }
}

proof fn lemma_access_is_value(
    m: Machine,
    class_name: Seq<char>,
    scope: nat,
    property: Node,
    copy: bool,
    fuel: nat,
)
    ensures
        crate::semantics::access(m, class_name, scope, property, copy, fuel).1.kind.is_value(),
    decreases fuel, property, 2nat,
{
    if !m.stopped() {
        match property.kind {
            Kind::FUNC_CALL { .. } => {
                lemma_call_is_value(m, property, Some(scope), fuel);
            },
            Kind::INDEX { .. } | Kind::OBJECT_INDEX { .. } => {
                law_results_are_values(Machine { current: scope, ..m }, property, fuel);
            },
            _ => {},
        }
    }
}

/// Evaluation yields a value or one of the two sentinels, and never a node
/// of another kind: a string, an integer, a floating-point number, a truth
/// value, a list, an object, a type or "no value", or `return` or `break`.
pub proof fn law_results_are_values(m: Machine, node: Node, fuel: nat)
    ensures
        eval(m, node, fuel).1.kind.is_value(),
    decreases fuel, node, 1nat,
{
    if !m.stopped() {
        match node.kind {
            Kind::BINOP { left, op, right } => {
                let (m1, l) = eval(m, *left, fuel);
                let (m2, r) = eval(m1, *right, fuel);
                lemma_operators_yield_values(op, l, r, node.span);
                assert(crate::semantics::eval_binop(m, node, fuel).1.kind.is_value());
            },
            Kind::UNOP { op, body } => {
                let (m1, b) = eval(m, *body, fuel);
                lemma_operators_yield_values(op, b, b, node.span);
                assert(crate::semantics::eval_unop(m, node, fuel).1.kind.is_value());
            },
            Kind::RETURN { .. } => {
                assert(crate::semantics::eval_return(m, node, fuel).1.kind.is_value());
            },
            Kind::COMPOUND { compound_value } => {
                lemma_compound_is_value(m, compound_value, 0, fuel);
            },
            Kind::VAR_DEF { .. } => {
                assert(crate::semantics::eval_variable_definition(m, node, fuel).1.kind.is_value());
            },
            Kind::VAR_REASSIGN { .. } => {
                assert(crate::semantics::eval_variable_reassign(m, node, fuel).1.kind.is_value());
            },
            Kind::VAR { .. } => {
                assert(crate::semantics::eval_variable(m, node).1.kind.is_value());
            },
            Kind::FUNC_DEF { .. } => {
                assert(crate::semantics::eval_function_definition(m, node).1.kind.is_value());
            },
            Kind::CLASS { .. } => {
                assert(crate::semantics::eval_blueprint(m, node).1.kind.is_value());
            },
            Kind::LIST { contents } => {
                lemma_list_is_value(m, contents, 0, Seq::empty(), node.span, fuel);
                assert(crate::semantics::eval_list_literal(m, node, fuel).1.kind.is_value());
            },
            Kind::INDEX { target, indices } => {
                law_results_are_values(m, *target, fuel);
                let (m1, t) = eval(m, *target, fuel);
                lemma_index_is_value(m1, t, indices, 0, fuel);
                assert(crate::semantics::eval_index_of(m, node, fuel).1.kind.is_value());
            },
            Kind::LIST_REASSIGN { target, value } => {
                let (m1, v) = eval(m, *value, fuel);
                match target.kind {
                    Kind::INDEX { target: list, indices } => {
                        match list.kind {
                            Kind::VAR { name } => {
                                let (m2, root) = crate::semantics::read_variable(
                                    m1,
                                    name,
                                    list.span,
                                );
                                lemma_walk_is_value(m2, name, root, None, indices, 0, v, fuel);
                            },
                            _ => {},
                        }
                    },
                    _ => {},
                }
                assert(crate::semantics::assign_into(m1, *target, v, fuel).1.kind.is_value());
                assert(crate::semantics::eval_list_reassign(m, node, fuel).1.kind.is_value());
            },
            Kind::IF { .. } => {
                lemma_if_is_value(m, node, 0, fuel);
            },
            Kind::WHILE { .. } => {
                lemma_while_is_value(m, node, m.current, fuel);
            },
            Kind::FUNC_CALL { .. } => {
                lemma_call_is_value(m, node, None, fuel);
            },
            Kind::NEW { .. } => {
                assert(crate::semantics::eval_new(m, node, fuel).1.kind.is_value());
            },
            Kind::OBJECT_INDEX { object, property } => {
                let (m1, o) = if property.kind is FUNC_CALL {
                    crate::semantics::locate(m, *object, fuel)
                } else {
                    eval(m, *object, fuel)
                };
                match o.kind {
                    Kind::OBJECT { class_name, scope } => {
                        lemma_access_is_value(m1, class_name, scope, *property, true, fuel);
                    },
                    _ => {},
                }
                assert(crate::semantics::eval_obj_index(m, node, fuel).1.kind.is_value());
            },
            Kind::OBJECT_REASSIGN { .. } => {
                assert(crate::semantics::eval_obj_reassign(m, node, fuel).1.kind.is_value());
            },
            _ => {},
        }
    }
}

/// Whether each of the index expressions evaluates, in the state before
/// and in the state after, to the integer that `ks` has for it, and leaves
/// the state as it was. An integer literal does; so does a variable that
/// is bound to an integer in both states.
pub open spec fn steady(
    indices: Seq<Node>,
    ks: Seq<int>,
    fuel: nat,
    before: Machine,
    after: Machine,
) -> bool {
    &&& ks.len() == indices.len()
    &&& forall|j: int|
        0 <= j < indices.len() ==> {
            &&& eval(before, #[trigger] indices[j], fuel).0 == before
            &&& eval(before, indices[j], fuel).1.kind == (Kind::INT { int_value: ks[j] })
            &&& eval(after, indices[j], fuel).0 == after
            &&& eval(after, indices[j], fuel).1.kind == (Kind::INT { int_value: ks[j] })
        }
}

/// Integer literals are steady between any two states that have not
/// stopped.
pub proof fn lemma_literals_are_steady(
    indices: Seq<Node>,
    ks: Seq<int>,
    fuel: nat,
    before: Machine,
    after: Machine,
)
    requires
        !before.stopped(),
        !after.stopped(),
        ks.len() == indices.len(),
        forall|j: int|
            0 <= j < indices.len() ==> (#[trigger] indices[j]).kind == (Kind::INT {
                int_value: ks[j],
            }),
    ensures
        steady(indices, ks, fuel, before, after),
{
    assert forall|j: int| 0 <= j < indices.len() implies {
        &&& eval(before, #[trigger] indices[j], fuel).0 == before
        &&& eval(before, indices[j], fuel).1.kind == (Kind::INT { int_value: ks[j] })
        &&& eval(after, indices[j], fuel).0 == after
        &&& eval(after, indices[j], fuel).1.kind == (Kind::INT { int_value: ks[j] })
    } by {
        assert(eval(before, indices[j], fuel) == (before, indices[j]));
        assert(eval(after, indices[j], fuel) == (after, indices[j]));
    }
}

/// After `a[i] = e` for a variable `a` that holds a list and an index
/// expression that evaluates to the same integer before and after without
/// changing the state, where the assignment ends without a halt, `a[i]`
/// evaluates to what `e` evaluated to, and reading it changes nothing.
pub proof fn law_assigned_element_is_read_back(
    m: Machine,
    name: Seq<char>,
    index: Node,
    k: int,
    value: Node,
    spans: (Span, Span, Span),
    fuel: nat,
)
    requires
        ({
            let var = Node { kind: Kind::VAR { name }, span: spans.0 };
            let target = Node {
                kind: Kind::INDEX { target: Box::new(var), indices: seq![index] },
                span: spans.1,
            };
            let assignment = Node {
                kind: Kind::LIST_REASSIGN { target: Box::new(target), value: Box::new(value) },
                span: spans.2,
            };
            &&& !eval(m, assignment, fuel).0.stopped()
            &&& steady(
                seq![index],
                seq![k],
                fuel,
                eval(m, value, fuel).0,
                eval(m, assignment, fuel).0,
            )
        }),
    ensures
        ({
            let var = Node { kind: Kind::VAR { name }, span: spans.0 };
            let target = Node {
                kind: Kind::INDEX { target: Box::new(var), indices: seq![index] },
                span: spans.1,
            };
            let assignment = Node {
                kind: Kind::LIST_REASSIGN { target: Box::new(target), value: Box::new(value) },
                span: spans.2,
            };
            let after = eval(m, assignment, fuel).0;
            eval(after, target, fuel) == (after, eval(m, value, fuel).1)
        }),
{
    let var = Node { kind: Kind::VAR { name }, span: spans.0 };
    let indices = seq![index];
    let target = Node { kind: Kind::INDEX { target: Box::new(var), indices }, span: spans.1 };
    let assignment = Node {
        kind: Kind::LIST_REASSIGN { target: Box::new(target), value: Box::new(value) },
        span: spans.2,
    };
    let (m1, v) = eval(m, value, fuel);
    law_results_are_values(m, value, fuel);
    assert(eval(m, assignment, fuel) == crate::semantics::eval_list_reassign(m, assignment, fuel));
    assert(!m1.stopped());
    let stored = crate::semantics::assign_into(m1, target, v, fuel);
    assert(eval(m, assignment, fuel) == stored);
    let (m2, root) = crate::semantics::read_variable(m1, name, spans.0);
    assert(!m2.stopped());
    assert(stored == crate::semantics::assign_walk(m2, name, root, None, indices, 0, v, fuel));
    let after = stored.0;
    assert(indices[0] == index);
    assert(root.kind is LIST);
    lemma_read_finds(m1, name, spans.0);
    assert(m2 == m1);
    let ix = eval(m2, index, fuel).1;
    assert(eval(m2, index, fuel) == (m2, ix));
    let contents = root.kind->LIST_contents;
    assert(0 <= k < contents.len());
    assert(after == crate::semantics::assign_store(m2, name, root, None, root, k, v));
    law_assignment_is_read_back(m2, name, root, k, v);
    let def = crate::scope::resolve(after.scopes, Table::Variables, after.current, name)->0;
    let list = *def.kind->VAR_DEF_value;
    assert(!after.stopped());
    assert(crate::semantics::eval_variable(after, var) == (after, list));
    assert(eval(after, var, fuel) == (after, list));
    let iy = eval(after, index, fuel).1;
    assert(eval(after, index, fuel) == (after, iy));
    assert(eval(after, target, fuel) == crate::semantics::eval_index_of(after, target, fuel));
    assert(crate::semantics::eval_index_of(after, target, fuel)
        == crate::semantics::eval_index(after, list, indices, 0, fuel));
    let element = deref(after.cells, list.kind->LIST_contents[k]);
    assert(crate::semantics::eval_index(after, list, indices, 0, fuel)
        == crate::semantics::eval_index(after, element, indices, 1, fuel));
    assert(crate::semantics::eval_index(after, element, indices, 1, fuel) == (after, element));
}

/// A variable that was read without a halt is bound, and reading it leaves
/// the machine as it was unless it holds an object.
pub proof fn lemma_read_finds(m: Machine, name: Seq<char>, span: Span)
    requires
        !m.stopped(),
        !crate::semantics::read_variable(m, name, span).0.stopped(),
    ensures
        lookup(m.scopes, Table::Variables, m.current, name) is Some,
        !(crate::semantics::read_variable(m, name, span).1.kind is OBJECT)
            ==> crate::semantics::read_variable(m, name, span).0 == m,
{
}

/// The cell that an index leads to from the list in cell `c`.
pub open spec fn next_cell(cells: Seq<Node>, c: nat, k: int) -> Option<nat> {
    if c < cells.len() {
        match cells[c as int].kind {
            Kind::LIST { contents } => if 0 <= k < contents.len() {
                match contents[k].kind {
                    Kind::CELL { id } => Some(id),
                    _ => None,
                }
            } else {
                None
            },
            _ => None,
        }
    } else {
        None
    }
}

/// The cell of the list that the last of the indices from the `i`-th on
/// points into, on the way that starts at the list in cell `c`.
pub open spec fn last_cell(cells: Seq<Node>, c: nat, indices: Seq<int>, i: nat) -> nat
    decreases indices.len() - i,
{
    if i + 1 >= indices.len() {
        c
    } else {
        match next_cell(cells, c, indices[i as int]) {
            Some(next) => last_cell(cells, next, indices, i + 1),
            None => c,
        }
    }
}

/// Whether the way from the list in cell `c` through the indices from the
/// `i`-th on comes to its last cell only at its end.
pub open spec fn way_is_straight(cells: Seq<Node>, c: nat, indices: Seq<int>, i: nat) -> bool
    decreases indices.len() - i,
{
    if i + 1 >= indices.len() {
        true
    } else {
        c != last_cell(cells, c, indices, i) && match next_cell(cells, c, indices[i as int]) {
            Some(next) => way_is_straight(cells, next, indices, i + 1),
            None => true,
        }
    }
}

/// A walk that starts at the list in cell `c` and ends without a halt
/// stores the value so that reading along the same indices, from the same
/// cell, yields it; it adds one cell, changes no other cell but the last of
/// the way, and binds the variable to its list.
pub proof fn lemma_walk_then_read(
    m: Machine,
    name: Seq<char>,
    root: Node,
    c: nat,
    indices: Seq<Node>,
    ks: Seq<int>,
    i: nat,
    v: Node,
    fuel: nat,
)
    requires
        !m.stopped(),
        i < indices.len(),
        steady(
            indices,
            ks,
            fuel,
            m,
            crate::semantics::assign_walk(m, name, root, Some(c), indices, i, v, fuel).0,
        ),
        v.kind.is_value(),
        lookup(m.scopes, Table::Variables, m.current, name) is Some,
        way_is_straight(m.cells, c, ks, i),
        !crate::semantics::assign_walk(m, name, root, Some(c), indices, i, v, fuel).0.stopped(),
    ensures
        ({
            let after = crate::semantics::assign_walk(
                m,
                name,
                root,
                Some(c),
                indices,
                i,
                v,
                fuel,
            ).0;
            &&& c < m.cells.len()
            &&& after.cells.len() == m.cells.len() + 1
            &&& after.current == m.current
            &&& forall|id: int|
                0 <= id < m.cells.len() && id != last_cell(m.cells, c, ks, i)
                    ==> after.cells[id] == m.cells[id]
            &&& crate::semantics::eval_index(
                after,
                sanitize(after.cells[c as int]),
                indices,
                i,
                fuel,
            ) == (after, v)
            &&& crate::scope::resolve(after.scopes, Table::Variables, after.current, name)
                matches Some(def) && def.kind matches Kind::VAR_DEF { value, .. } && *value
                == root
        }),
    decreases indices.len() - i,
{
    let index = indices[i as int];
    let k = ks[i as int];
    let ix = eval(m, index, fuel).1;
    assert(eval(m, index, fuel) == (m, ix));
    let cur = crate::semantics::walk_list(m.cells, root, Some(c));
    let whole = crate::semantics::assign_walk(m, name, root, Some(c), indices, i, v, fuel);
    let iy = eval(whole.0, index, fuel).1;
    assert(eval(whole.0, index, fuel) == (whole.0, iy));
    assert(cur.kind is LIST);
    assert(c < m.cells.len());
    let contents = cur.kind->LIST_contents;
    assert(0 <= k < contents.len());
    if i + 1 == indices.len() {
        let after = crate::semantics::assign_store(m, name, root, Some(c), cur, k, v);
        assert(whole.0 == after);
        let updated = Node {
            kind: Kind::LIST { contents: contents.update(k, cell_node(m.cells.len())) },
            span: cur.span,
        };
        assert(after.cells == m.cells.push(v).update(c as int, updated));
        assert(after.cells[c as int] == updated);
        let element = deref(after.cells, updated.kind->LIST_contents[k]);
        assert(element == v);
        assert(crate::semantics::eval_index(after, updated, indices, i, fuel)
            == crate::semantics::eval_index(after, element, indices, i + 1, fuel));
        lemma_set_then_lookup(
            m.scopes,
            m.current,
            name,
            Node { kind: Kind::VAR_DEF { name, value: Box::new(root) }, span: cur.span },
        );
    } else {
        let next = contents[k].kind->CELL_id;
        assert(contents[k].kind is CELL);
        assert(next_cell(m.cells, c, k) == Some(next));
        assert(whole == crate::semantics::assign_walk(
            m,
            name,
            root,
            Some(next),
            indices,
            i + 1,
            v,
            fuel,
        ));
        lemma_walk_then_read(m, name, root, next, indices, ks, i + 1, v, fuel);
        let after = whole.0;
        assert(after.cells[c as int] == m.cells[c as int]);
        assert(deref(after.cells, contents[k]) == sanitize(after.cells[next as int]));
        assert(crate::semantics::eval_index(after, cur, indices, i, fuel)
            == crate::semantics::eval_index(
            after,
            sanitize(after.cells[next as int]),
            indices,
            i + 1,
            fuel,
        ));
    }
}

/// After `a[i1]...[in] = e` for a variable `a` and index expressions that
/// evaluate to the same integers before and after without changing the
/// state, where the assignment ends without a halt, `a[i1]...[in]`
/// evaluates to what `e` evaluated to, and reading it changes nothing. The
/// law leaves out lists that hold themselves: the way through the indices
/// may come to the list that holds the last element only at its end.
pub proof fn law_assignment_is_read_back_at_any_depth(
    m: Machine,
    name: Seq<char>,
    indices: Seq<Node>,
    ks: Seq<int>,
    value: Node,
    spans: (Span, Span, Span),
    fuel: nat,
)
    requires
        indices.len() >= 2,
        ({
            let var = Node { kind: Kind::VAR { name }, span: spans.0 };
            let target = Node {
                kind: Kind::INDEX { target: Box::new(var), indices },
                span: spans.1,
            };
            let assignment = Node {
                kind: Kind::LIST_REASSIGN { target: Box::new(target), value: Box::new(value) },
                span: spans.2,
            };
            let m1 = eval(m, value, fuel).0;
            let root = crate::semantics::read_variable(m1, name, spans.0).1;
            &&& !eval(m, assignment, fuel).0.stopped()
            &&& steady(indices, ks, fuel, m1, eval(m, assignment, fuel).0)
            &&& (root.kind matches Kind::LIST { contents } ==> (0 <= ks[0] < contents.len() ==> (
            contents[ks[0]].kind matches Kind::CELL { id } ==> way_is_straight(
                m1.cells,
                id,
                ks,
                1,
            ))))
        }),
    ensures
        ({
            let var = Node { kind: Kind::VAR { name }, span: spans.0 };
            let target = Node {
                kind: Kind::INDEX { target: Box::new(var), indices },
                span: spans.1,
            };
            let assignment = Node {
                kind: Kind::LIST_REASSIGN { target: Box::new(target), value: Box::new(value) },
                span: spans.2,
            };
            let after = eval(m, assignment, fuel).0;
            eval(after, target, fuel) == (after, eval(m, value, fuel).1)
        }),
{
    let var = Node { kind: Kind::VAR { name }, span: spans.0 };
    let target = Node { kind: Kind::INDEX { target: Box::new(var), indices }, span: spans.1 };
    let assignment = Node {
        kind: Kind::LIST_REASSIGN { target: Box::new(target), value: Box::new(value) },
        span: spans.2,
    };
    let (m1, v) = eval(m, value, fuel);
    law_results_are_values(m, value, fuel);
    assert(eval(m, assignment, fuel) == crate::semantics::eval_list_reassign(m, assignment, fuel));
    assert(!m1.stopped());
    let stored = crate::semantics::assign_into(m1, target, v, fuel);
    assert(eval(m, assignment, fuel) == stored);
    let (m2, root) = crate::semantics::read_variable(m1, name, spans.0);
    assert(!m2.stopped());
    assert(stored == crate::semantics::assign_walk(m2, name, root, None, indices, 0, v, fuel));
    let index = indices[0];
    let k = ks[0];
    assert(root.kind is LIST);
    lemma_read_finds(m1, name, spans.0);
    assert(m2 == m1);
    let ix = eval(m2, index, fuel).1;
    assert(eval(m2, index, fuel) == (m2, ix));
    let contents = root.kind->LIST_contents;
    assert(0 <= k < contents.len());
    assert(contents[k].kind is CELL);
    let first = contents[k].kind->CELL_id;
    assert(stored == crate::semantics::assign_walk(
        m2,
        name,
        root,
        Some(first),
        indices,
        1,
        v,
        fuel,
    ));
    lemma_walk_then_read(m2, name, root, first, indices, ks, 1, v, fuel);
    let after = stored.0;
    assert(!after.stopped());
    assert(crate::semantics::eval_variable(after, var) == (after, root));
    assert(eval(after, var, fuel) == (after, root));
    let iy = eval(after, index, fuel).1;
    assert(eval(after, index, fuel) == (after, iy));
    assert(eval(after, target, fuel) == crate::semantics::eval_index_of(after, target, fuel));
    assert(crate::semantics::eval_index_of(after, target, fuel)
        == crate::semantics::eval_index(after, root, indices, 0, fuel));
    assert(deref(after.cells, contents[k]) == sanitize(after.cells[first as int]));
    assert(crate::semantics::eval_index(after, root, indices, 0, fuel)
        == crate::semantics::eval_index(
        after,
        sanitize(after.cells[first as int]),
        indices,
        1,
        fuel,
    ));
}

/// A method that is called through a variable runs below the scope of the
/// object that the variable holds, not below a copy: the call is the call
/// of the method with that scope as the scope of the object.
pub proof fn law_methods_run_on_their_object(
    m: Machine,
    name: Seq<char>,
    call: Node,
    spans: (Span, Span),
    fuel: nat,
)
    requires
        !m.stopped(),
        call.kind is FUNC_CALL,
        crate::scope::resolve(m.scopes, Table::Variables, m.current, name) matches Some(def)
            && def.kind matches Kind::VAR_DEF { value, .. } && value.kind is OBJECT,
    ensures
        ({
            let def = crate::scope::resolve(m.scopes, Table::Variables, m.current, name)->0;
            let scope = def.kind->VAR_DEF_value.kind->OBJECT_scope;
            let var = Node { kind: Kind::VAR { name }, span: spans.0 };
            let node = Node {
                kind: Kind::OBJECT_INDEX { object: Box::new(var), property: Box::new(call) },
                span: spans.1,
            };
            eval(m, node, fuel) == crate::semantics::eval_call(m, call, Some(scope), fuel)
        }),
{
    let def = crate::scope::resolve(m.scopes, Table::Variables, m.current, name)->0;
    let object = *def.kind->VAR_DEF_value;
    let var = Node { kind: Kind::VAR { name }, span: spans.0 };
    let node = Node {
        kind: Kind::OBJECT_INDEX { object: Box::new(var), property: Box::new(call) },
        span: spans.1,
    };
    assert(eval(m, node, fuel) == crate::semantics::eval_obj_index(m, node, fuel));
    assert(crate::semantics::locate(m, var, fuel) == (m, object));
    assert(crate::semantics::access(
        m,
        object.kind->OBJECT_class_name,
        object.kind->OBJECT_scope,
        call,
        true,
        fuel,
    ) == crate::semantics::eval_call(m, call, Some(object.kind->OBJECT_scope), fuel));
}

/// What a method rebinds is rebound in its object: a property that the
/// object binds, rebound from the scope of a call that hangs below the
/// scope of the object, reads back from the scope of the object as what it
/// was rebound to.
pub proof fn law_methods_change_their_object(
    scopes: Seq<ScopeView>,
    object: nat,
    name: Seq<char>,
    def: Node,
)
    requires
        object < scopes.len(),
        lookup(scopes, Table::Variables, object, name) is Some,
        crate::scope::entry_name(def) == Some(name),
    ensures
        ({
            let framed = scopes.push(ScopeView::empty(Some(object)));
            let after = set_entry(framed, scopes.len(), name, def).0;
            crate::scope::resolve(after, Table::Variables, object, name) == Some(def)
        }),
{
    let frame = ScopeView::empty(Some(object));
    let framed = scopes.push(frame);
    assert(framed[scopes.len() as int] == frame);
    assert(crate::scope::find(frame.table(Table::Variables), name) is None);
    lemma_lookup_survives_push(scopes, frame, Table::Variables, object, name);
    assert(lookup(framed, Table::Variables, scopes.len(), name) == lookup(
        framed,
        Table::Variables,
        object,
        name,
    ));
    lemma_set_then_lookup(framed, object, name, def);
}

/// Whether every scope stands after its parent.
pub open spec fn parents_first(scopes: Seq<ScopeView>) -> bool {
    forall|i: int| 0 <= i < scopes.len() ==> ((#[trigger] scopes[i]).parent matches Some(p) ==> p < i)
}

/// A name resolves from a scope below the end of the scopes to the same
/// definition whether or not one more scope is appended.
pub proof fn lemma_resolve_survives_push(
    scopes: Seq<ScopeView>,
    extra: ScopeView,
    t: Table,
    at: nat,
    name: Seq<char>,
)
    requires
        at < scopes.len(),
    ensures
        crate::scope::resolve(scopes.push(extra), t, at, name) == crate::scope::resolve(
            scopes,
            t,
            at,
            name,
        ),
{
    lemma_lookup_survives_push(scopes, extra, t, at, name);
    lemma_lookup_in_range(scopes, t, at, name);
    match lookup(scopes, t, at, name) {
        Some((s, i)) => {
            assert(scopes.push(extra)[s as int] == scopes[s as int]);
        },
        None => {},
    }
}

/// A name resolves from the copy of a scope to the definition that it
/// resolves to from the scope itself.
pub proof fn lemma_copy_resolves(scopes: Seq<ScopeView>, at: nat, t: Table, name: Seq<char>)
    requires
        parents_first(scopes),
        at < scopes.len(),
    ensures
        deep_copy(scopes, at).1 matches Some(c) && crate::scope::resolve(
            deep_copy(scopes, at).0,
            t,
            c,
            name,
        ) == crate::scope::resolve(scopes, t, at, name),
    decreases at,
{
    let original = scopes[at as int];
    lemma_copy_is_closed(scopes, at);
    lemma_find_in_range(original.table(t), name, 0);
    match original.parent {
        Some(p) => {
            assert(p < at);
            lemma_copy_resolves(scopes, p, t, name);
            lemma_copy_is_closed(scopes, p);
            let (above, parent) = deep_copy(scopes, p);
            let copy = ScopeView { parent, ..original };
            let copied = above.push(copy);
            assert(copied[above.len() as int] == copy);
            assert(copy.table(t) == original.table(t));
            lemma_resolve_survives_push(above, copy, t, parent->0, name);
            lemma_lookup_survives_push(above, copy, t, parent->0, name);
        },
        None => {
            let copy = ScopeView { parent: None, ..original };
            let copied = scopes.push(copy);
            assert(copied[scopes.len() as int] == copy);
            assert(copy.table(t) == original.table(t));
        },
    }
}

/// The scope of the object that a variable holds.
pub open spec fn object_scope(m: Machine, name: Seq<char>) -> Option<nat> {
    match crate::scope::resolve(m.scopes, Table::Variables, m.current, name) {
        Some(def) => match def.kind {
            Kind::VAR_DEF { value, .. } => match value.kind {
                Kind::OBJECT { scope, .. } => Some(scope),
                _ => None,
            },
            _ => None,
        },
        None => None,
    }
}

/// The value that a scope binds a variable to.
pub open spec fn bound_value(scopes: Seq<ScopeView>, scope: nat, name: Seq<char>) -> Option<Node> {
    match crate::scope::resolve(scopes, Table::Variables, scope, name) {
        Some(def) => match def.kind {
            Kind::VAR_DEF { value, .. } => Some(*value),
            _ => None,
        },
        None => None,
    }
}

/// Reading a property through a variable reads what the scope of the
/// variable's object binds: for a property that holds a plain value, the
/// value that `c.p` evaluates to is the value that the object's scope binds
/// `p` to, and no scope that was there changes. With the two laws on
/// methods this gives: after `c.m()`, a property that `m` rebinds reads
/// back through `c`.
pub proof fn law_properties_read_the_object(
    m: Machine,
    name: Seq<char>,
    property: Seq<char>,
    spans: (Span, Span, Span),
    fuel: nat,
)
    requires
        !m.stopped(),
        parents_first(m.scopes),
        object_scope(m, name) is Some,
        object_scope(m, name)->0 < m.scopes.len(),
        bound_value(m.scopes, object_scope(m, name)->0, property) is Some,
        bound_value(m.scopes, object_scope(m, name)->0, property)->0.kind.is_value(),
        !(bound_value(m.scopes, object_scope(m, name)->0, property)->0.kind is OBJECT),
    ensures
        ({
            let var = Node { kind: Kind::VAR { name }, span: spans.0 };
            let prop = Node { kind: Kind::VAR { name: property }, span: spans.1 };
            let node = Node {
                kind: Kind::OBJECT_INDEX { object: Box::new(var), property: Box::new(prop) },
                span: spans.2,
            };
            &&& eval(m, node, fuel).1 == bound_value(
                m.scopes,
                object_scope(m, name)->0,
                property,
            )->0
            &&& !eval(m, node, fuel).0.stopped()
            &&& eval(m, node, fuel).0.current == m.current
            &&& forall|i: int|
                0 <= i < m.scopes.len() ==> eval(m, node, fuel).0.scopes[i] == m.scopes[i]
        }),
{
    let def = crate::scope::resolve(m.scopes, Table::Variables, m.current, name)->0;
    let object = *def.kind->VAR_DEF_value;
    let scope = object.kind->OBJECT_scope;
    let class_name = object.kind->OBJECT_class_name;
    let var = Node { kind: Kind::VAR { name }, span: spans.0 };
    let prop = Node { kind: Kind::VAR { name: property }, span: spans.1 };
    let node = Node {
        kind: Kind::OBJECT_INDEX { object: Box::new(var), property: Box::new(prop) },
        span: spans.2,
    };
    lemma_copy_resolves(m.scopes, scope, Table::Variables, property);
    lemma_copy_is_closed(m.scopes, scope);
    let (copied, copy) = deep_copy(m.scopes, scope);
    let m1 = Machine { scopes: copied, ..m };
    assert(eval(m, node, fuel) == crate::semantics::eval_obj_index(m, node, fuel));
    assert(crate::semantics::eval_variable(m, var) == (
        m1,
        Node { kind: Kind::OBJECT { class_name, scope: copy->0 }, span: spans.0 },
    ));
    assert(eval(m, var, fuel) == crate::semantics::eval_variable(m, var));
    assert(crate::semantics::eval_obj_index(m, node, fuel) == crate::semantics::access(
        m1,
        class_name,
        copy->0,
        prop,
        true,
        fuel,
    ));
}

/// After `c.m()`, a property that `m` rebinds reads back through `c`. For
/// a variable `c` that holds an object, a method `m` without parameters
/// whose body is the one statement `p = e`, and a property `p` of the
/// object: where `e` evaluates, in the scope of the call, to a plain value
/// without changing a scope, and `c` holds the object afterwards as
/// before, `c.p` evaluates after the call to what `e` evaluated to.
pub proof fn law_method_changes_are_read_back(
    m: Machine,
    name: Seq<char>,
    method: Seq<char>,
    property: Seq<char>,
    function: Node,
    e: Node,
    spans: (Span, Span, Span, Span, Span),
    fuel: nat,
)
    requires
        !m.stopped(),
        parents_first(m.scopes),
        fuel > 0,
        object_scope(m, name) is Some,
        object_scope(m, name)->0 < m.scopes.len(),
        !crate::semantics::is_builtin(method),
        crate::scope::resolve(m.scopes, Table::Functions, object_scope(m, name)->0, method)
            == Some(function),
        function.kind is FUNC_DEF,
        function.kind->FUNC_DEF_args.len() == 0,
        function.kind->FUNC_DEF_body.kind == (Kind::COMPOUND {
            compound_value: seq![
                Node {
                    kind: Kind::VAR_REASSIGN { name: property, value: Box::new(e) },
                    span: spans.4,
                },
            ],
        }),
        lookup(m.scopes, Table::Variables, object_scope(m, name)->0, property) is Some,
        ({
            let framed = Machine {
                scopes: m.scopes.push(ScopeView::empty(Some(object_scope(m, name)->0))),
                current: m.scopes.len(),
                ..m
            };
            let (m1, w) = eval(framed, e, (fuel - 1) as nat);
            &&& !m1.stopped()
            &&& m1.scopes == framed.scopes
            &&& m1.current == framed.current
            &&& !(w.kind is OBJECT)
        }),
        ({
            let call = Node {
                kind: Kind::FUNC_CALL { name: method, args: Seq::empty() },
                span: spans.1,
            };
            let var = Node { kind: Kind::VAR { name }, span: spans.0 };
            let node = Node {
                kind: Kind::OBJECT_INDEX { object: Box::new(var), property: Box::new(call) },
                span: spans.2,
            };
            object_scope(eval(m, node, fuel).0, name) == object_scope(m, name)
        }),
    ensures
        ({
            let scope = object_scope(m, name)->0;
            let framed = Machine {
                scopes: m.scopes.push(ScopeView::empty(Some(scope))),
                current: m.scopes.len(),
                ..m
            };
            let w = eval(framed, e, (fuel - 1) as nat).1;
            let call = Node {
                kind: Kind::FUNC_CALL { name: method, args: Seq::empty() },
                span: spans.1,
            };
            let var = Node { kind: Kind::VAR { name }, span: spans.0 };
            let node = Node {
                kind: Kind::OBJECT_INDEX { object: Box::new(var), property: Box::new(call) },
                span: spans.2,
            };
            let prop = Node { kind: Kind::VAR { name: property }, span: spans.3 };
            let read = Node {
                kind: Kind::OBJECT_INDEX { object: Box::new(var), property: Box::new(prop) },
                span: spans.2,
            };
            let after = eval(m, node, fuel).0;
            !after.stopped() && eval(after, read, fuel).1 == w
        }),
{
    let scope = object_scope(m, name)->0;
    let frame = m.scopes.len();
    let framed_scopes = m.scopes.push(ScopeView::empty(Some(scope)));
    let m0 = Machine { scopes: framed_scopes, ..m };
    let framed = Machine { current: frame, ..m0 };
    let (m1, w) = eval(framed, e, (fuel - 1) as nat);
    law_results_are_values(framed, e, (fuel - 1) as nat);
    let args = Seq::<Node>::empty();
    let call = Node { kind: Kind::FUNC_CALL { name: method, args }, span: spans.1 };
    let var = Node { kind: Kind::VAR { name }, span: spans.0 };
    let node = Node {
        kind: Kind::OBJECT_INDEX { object: Box::new(var), property: Box::new(call) },
        span: spans.2,
    };
    let statement = Node {
        kind: Kind::VAR_REASSIGN { name: property, value: Box::new(e) },
        span: spans.4,
    };
    let statements = seq![statement];
    let body = *function.kind->FUNC_DEF_body;
    let def = Node { kind: Kind::VAR_DEF { name: property, value: Box::new(w) }, span: spans.4 };
    law_methods_run_on_their_object(m, name, call, (spans.0, spans.2), fuel);
    assert(eval(m, node, fuel) == crate::semantics::eval_call(m, call, Some(scope), fuel));
    assert(crate::semantics::eval_call(m, call, Some(scope), fuel)
        == crate::semantics::invoke(m, function, method, args, spans.1, scope, fuel));
    assert(crate::semantics::bind_args(
        m0,
        function.kind->FUNC_DEF_args,
        args,
        0,
        frame,
        fuel,
    ) == m0);
    // The body: one statement that rebinds the property.
    assert(eval(framed, body, (fuel - 1) as nat) == crate::semantics::eval_compound(
        framed,
        statements,
        0,
        (fuel - 1) as nat,
    ));
    assert(eval(framed, statement, (fuel - 1) as nat)
        == crate::semantics::eval_variable_reassign(framed, statement, (fuel - 1) as nat));
    // From the frame the property is found in the object.
    law_methods_change_their_object(m.scopes, scope, property, def);
    let frame_view = ScopeView::empty(Some(scope));
    assert(framed_scopes[frame as int] == frame_view);
    assert(crate::scope::find(frame_view.table(Table::Variables), property) is None);
    lemma_lookup_survives_push(m.scopes, frame_view, Table::Variables, scope, property);
    assert(lookup(framed_scopes, Table::Variables, frame, property) is Some);
    let rebound = set_entry(framed_scopes, frame, property, def).0;
    let m2 = Machine { scopes: rebound, ..m1 };
    assert(crate::semantics::eval_variable_reassign(framed, statement, (fuel - 1) as nat) == (
        m2,
        Node::noop(),
    ));
    assert(crate::semantics::eval_compound(framed, statements, 0, (fuel - 1) as nat)
        == crate::semantics::eval_compound(m2, statements, 1, (fuel - 1) as nat));
    assert(crate::semantics::eval_compound(m2, statements, 1, (fuel - 1) as nat) == (
        m2,
        Node::noop(),
    ));
    let after = Machine { current: m.current, ..m2 };
    assert(crate::semantics::invoke(m, function, method, args, spans.1, scope, fuel).0 == after);
    // The scopes still stand after their parents.
    lemma_lookup_in_range(framed_scopes, Table::Variables, frame, property);
    assert(parents_first(rebound)) by {
        let found = lookup(framed_scopes, Table::Variables, frame, property)->0;
        assert forall|i: int| 0 <= i < rebound.len() implies ((
            #[trigger] rebound[i]).parent matches Some(q) ==> q < i) by {
            if i < m.scopes.len() {
                assert(framed_scopes[i] == m.scopes[i]);
            }
            assert(rebound[i].parent == framed_scopes[i].parent);
        }
    }
    assert(crate::scope::resolve(rebound, Table::Variables, scope, property) == Some(def));
    law_properties_read_the_object(after, name, property, (spans.0, spans.3, spans.2), fuel);
}

/// Whether the scopes from `bound` on have their parents among themselves.
pub open spec fn closed_above(scopes: Seq<ScopeView>, bound: nat) -> bool {
    forall|i: int|
        bound <= i < scopes.len() ==> ((#[trigger] scopes[i]).parent matches Some(p) ==> bound <= p)
}

/// Reading a variable that holds an object hands out an object whose scope
/// is new: it stands after every scope that was there, the scopes that
/// were there are as they were, and the new ones have their parents among
/// themselves.
pub proof fn law_reading_an_object_copies_it(m: Machine, name: Seq<char>, span: Span)
    requires
        !m.stopped(),
        parents_first(m.scopes),
        object_scope(m, name) is Some,
        object_scope(m, name)->0 < m.scopes.len(),
    ensures
        ({
            let (after, v) = crate::semantics::read_variable(m, name, span);
            &&& v.kind matches Kind::OBJECT { scope, .. } && m.scopes.len() <= scope
                < after.scopes.len()
            &&& forall|i: int| 0 <= i < m.scopes.len() ==> after.scopes[i] == m.scopes[i]
            &&& closed_above(after.scopes, m.scopes.len())
            &&& after.current == m.current
            &&& !after.stopped()
        }),
{
    lemma_copy_is_closed(m.scopes, object_scope(m, name)->0);
    lemma_copy_resolves(m.scopes, object_scope(m, name)->0, Table::Variables, name);
}

/// After `y.p = e` for a variable `y` that holds a copy of an object, an
/// object whose scope and the scopes above it stand at or after `bound`,
/// where `e` evaluates without changing a scope: every scope before
/// `bound` is as it was, so an object that lives there keeps its
/// properties, and the scope of the copy binds `p`, if it bound it, to what
/// `e` evaluated to.
pub proof fn law_assignment_through_a_copy(
    m: Machine,
    name: Seq<char>,
    property: Seq<char>,
    e: Node,
    bound: nat,
    spans: (Span, Span, Span, Span),
    fuel: nat,
)
    requires
        !m.stopped(),
        object_scope(m, name) is Some,
        bound <= object_scope(m, name)->0,
        closed_above(m.scopes, bound),
        !eval(m, e, fuel).0.stopped(),
        eval(m, e, fuel).0.scopes == m.scopes,
        eval(m, e, fuel).0.current == m.current,
    ensures
        ({
            let copy = object_scope(m, name)->0;
            let var = Node { kind: Kind::VAR { name }, span: spans.0 };
            let prop = Node { kind: Kind::VAR { name: property }, span: spans.1 };
            let target = Node {
                kind: Kind::OBJECT_INDEX { object: Box::new(var), property: Box::new(prop) },
                span: spans.2,
            };
            let node = Node {
                kind: Kind::OBJECT_REASSIGN { object_index: Box::new(target), value: Box::new(e) },
                span: spans.3,
            };
            let after = eval(m, node, fuel).0;
            &&& !after.stopped()
            &&& after.scopes.len() == m.scopes.len()
            &&& forall|i: int| 0 <= i < bound && i < m.scopes.len() ==> after.scopes[i] == m.scopes[i]
            &&& lookup(m.scopes, Table::Variables, copy, property) is Some ==> bound_value(
                after.scopes,
                copy,
                property,
            ) == Some(eval(m, e, fuel).1)
        }),
{
    let copy = object_scope(m, name)->0;
    let def0 = crate::scope::resolve(m.scopes, Table::Variables, m.current, name)->0;
    let object = *def0.kind->VAR_DEF_value;
    let var = Node { kind: Kind::VAR { name }, span: spans.0 };
    let prop = Node { kind: Kind::VAR { name: property }, span: spans.1 };
    let target = Node {
        kind: Kind::OBJECT_INDEX { object: Box::new(var), property: Box::new(prop) },
        span: spans.2,
    };
    let node = Node {
        kind: Kind::OBJECT_REASSIGN { object_index: Box::new(target), value: Box::new(e) },
        span: spans.3,
    };
    let (m2, v) = eval(m, e, fuel);
    let def = Node { kind: Kind::VAR_DEF { name: property, value: Box::new(v) }, span: v.span };
    assert(eval(m, node, fuel) == crate::semantics::eval_obj_reassign(m, node, fuel));
    assert(crate::semantics::locate(m, var, fuel) == (m, object));
    let after = Machine { scopes: set_entry(m2.scopes, copy, property, def).0, ..m2 };
    assert(crate::semantics::eval_obj_reassign(m, node, fuel) == (after, Node::noop()));
    lemma_lookup_stays_above(m.scopes, bound, Table::Variables, copy, property);
    lemma_lookup_in_range(m.scopes, Table::Variables, copy, property);
    if lookup(m.scopes, Table::Variables, copy, property) is Some {
        lemma_set_then_lookup(m.scopes, copy, property, def);
    }
}

} // verus!
