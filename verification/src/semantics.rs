//! What evaluation means: a function from a machine state and a node to
//! the next state and a value.

use vstd::prelude::*;
use crate::ast::{Kind, Node};
use crate::error::{ETypes, ErrorRecord, Span};
use crate::scope::{
    add_entry, deep_copy, entry_name, find, resolve, root_of, set_entry, ScopeView, Table,
};
use crate::text::{int_text, nat_text, parse_int};
use crate::values::{binop, int_node, unop, wrap32, Applied};

verus! {

/// Why an evaluation stopped before it had a value.
#[derive(Clone, Copy, Debug, PartialEq, Eq, Structural)]
pub enum Halt {
    /// A fatal error was reported.
    Fatal,
    /// The allowance of calls and loop rounds ran out.
    OutOfFuel,
}

/// The state of the evaluator.
pub struct Machine {
    pub scopes: Seq<ScopeView>,
    /// The shared cells that hold the elements of lists.
    pub cells: Seq<Node>,
    /// The scope in which the next statement is evaluated.
    pub current: nat,
    pub errors: Seq<ErrorRecord>,
    /// The lines written so far.
    pub output: Seq<Seq<char>>,
    /// The lines that `read` hands out, and how many it has handed out.
    pub input: Seq<Seq<char>>,
    pub next_input: nat,
    pub halted: Option<Halt>,
    /// Whether a result so far came from outside the library: from the
    /// embedder's arithmetic or from the random number generator. From then
    /// on this model does not say what the evaluator holds.
    pub foreign: bool,
}

impl Machine {
    /// Whether evaluation has come to an end in this state.
    pub open spec fn stopped(self) -> bool {
        self.halted is Some || self.foreign
    }

    /// Records an error and goes on.
    pub open spec fn report(self, etype: ETypes, message: Seq<char>, span: Span) -> Machine {
        Machine { errors: self.errors.push(ErrorRecord { etype, message, span }), ..self }
    }

    /// Records an error and halts.
    pub open spec fn fail(self, etype: ETypes, message: Seq<char>, span: Span) -> Machine {
        Machine { halted: Some(Halt::Fatal), ..self.report(etype, message, span) }
    }

    /// Halts for want of fuel.
    pub open spec fn exhaust(self) -> Machine {
        Machine { halted: Some(Halt::OutOfFuel), ..self }
    }

    /// Marks that a result came from outside the library.
    pub open spec fn taint(self) -> Machine {
        Machine { foreign: true, ..self }
    }
}

/// The words that no definition may bind.
pub open spec fn is_keyword(name: Seq<char>) -> bool {
    name == "assign"@ || name == "funct"@ || name == "if"@ || name == "param"@ || name == "return"@
        || name == "blueprint"@ || name == "new"@ || name == "while"@ || name == "break"@ || name
        == "true"@ || name == "false"@
}

/// A node as a value: itself where its kind is one that evaluation may
/// yield, and "no value" otherwise.
pub open spec fn sanitize(n: Node) -> Node {
    if n.kind.is_value() {
        n
    } else {
        Node::noop()
    }
}

/// What an element of a list value holds.
pub open spec fn deref(cells: Seq<Node>, element: Node) -> Node {
    match element.kind {
        Kind::CELL { id } => if id < cells.len() {
            sanitize(cells[id as int])
        } else {
            Node::noop()
        },
        _ => Node::noop(),
    }
}

/// A returned value where a body yielded `return`, and "no value" otherwise.
pub open spec fn returned(r: Node) -> Node {
    match r.kind {
        Kind::RETURN { value } => sanitize(*value),
        _ => Node::noop(),
    }
}

/// The result of a body inside a conditional or a loop: a sentinel goes up
/// unchanged, anything else is dropped.
pub open spec fn sentinel_only(r: Node) -> Node {
    if r.kind is RETURN || r.kind is BREAK {
        r
    } else {
        Node::noop()
    }
}

/// A handle to the cell with the given position.
pub open spec fn cell_node(id: nat) -> Node {
    Node { kind: Kind::CELL { id }, span: Span::none() }
}

/// The message for an index outside a list.
pub open spec fn out_of_bounds_text(index: int, len: nat) -> Seq<char> {
    "Index "@ + int_text(index) + " is out of bounds for list of length "@ + nat_text(len)
}

/// The message for a call with the wrong number of arguments.
pub open spec fn arity_text(name: Seq<char>, wanted: nat, given: nat) -> Seq<char> {
    "Function '"@ + name + "' requires "@ + nat_text(wanted) + " argument(s), not "@ + nat_text(
        given,
    )
}

/// The message for a property that an object does not have.
pub open spec fn property_text(name: Seq<char>, class_name: Seq<char>) -> Seq<char> {
    "Property '"@ + name + "' does not exist on blueprint '"@ + class_name + "'"@
}

/// The message for a string that denotes no integer.
pub open spec fn cast_text(text: Seq<char>) -> Seq<char> {
    "Could not cast '"@ + text + "' to type 'Integer'"@
}

/// The name of the runtime type of a value.
pub open spec fn runtime_type(k: Kind) -> Seq<char> {
    match k {
        Kind::STRING { .. } => "String"@,
        Kind::INT { .. } => "Integer"@,
        Kind::FLOAT { .. } => "Float"@,
        Kind::BOOL { .. } => "Boolean"@,
        Kind::LIST { .. } => "List_Obj"@,
        Kind::OBJECT { class_name, .. } => class_name,
        _ => "Null"@,
    }
}

/// The text of a value, where the library can tell it.
pub enum Shown {
    Text(Seq<char>),
    /// The value holds a floating-point number, whose text the embedder
    /// decides.
    Host,
    /// The value is nested deeper than the allowance.
    TooDeep,
}

/// The text of a value as `write` prints it. `depth` bounds how deep lists
/// and objects may nest.
pub open spec fn show(cells: Seq<Node>, scopes: Seq<ScopeView>, v: Node, depth: nat) -> Shown
    decreases depth, 1nat, 0nat,
{
    match v.kind {
        Kind::STRING { str_value } => Shown::Text(str_value),
        Kind::INT { int_value } => Shown::Text(int_text(int_value)),
        Kind::FLOAT { .. } => Shown::Host,
        Kind::BOOL { bool_value } => Shown::Text(
            if bool_value {
                "true"@
            } else {
                "false"@
            },
        ),
        Kind::TYPE { type_value } => Shown::Text(type_value),
        Kind::NOOP => Shown::Text("no operation"@),
        Kind::LIST { contents } => if depth == 0 {
            Shown::TooDeep
        } else {
            show_list(cells, scopes, contents, 0, "["@, (depth - 1) as nat)
        },
        Kind::OBJECT { class_name, scope } => if depth == 0 {
            Shown::TooDeep
        } else if scope >= scopes.len() {
            Shown::Text(class_name + " instance { "@ + " }"@)
        } else {
            match show_variables(
                cells,
                scopes,
                scopes[scope as int].variables,
                0,
                class_name + " instance { "@,
                (depth - 1) as nat,
            ) {
                Shown::Text(t) => Shown::Text(
                    show_functions(
                        scopes[scope as int].functions,
                        0,
                        t,
                        scopes[scope as int].variables.len() > 0,
                    ) + " }"@,
                ),
                other => other,
            }
        },
        _ => Shown::Text("undefined"@),
    }
}

/// The text of the elements of a list from the `i`-th on, after `acc`.
pub open spec fn show_list(
    cells: Seq<Node>,
    scopes: Seq<ScopeView>,
    contents: Seq<Node>,
    i: nat,
    acc: Seq<char>,
    depth: nat,
) -> Shown
    decreases depth, 2nat, contents.len() - i,
{
    if i >= contents.len() {
        Shown::Text(acc + "]"@)
    } else {
        match show(cells, scopes, deref(cells, contents[i as int]), depth) {
            Shown::Text(t) => show_list(
                cells,
                scopes,
                contents,
                i + 1,
                if i > 0 {
                    acc + ", "@ + t
                } else {
                    acc + t
                },
                depth,
            ),
            other => other,
        }
    }
}

/// The text of the variables of an object from the `i`-th on, after `acc`.
pub open spec fn show_variables(
    cells: Seq<Node>,
    scopes: Seq<ScopeView>,
    variables: Seq<Node>,
    i: nat,
    acc: Seq<char>,
    depth: nat,
) -> Shown
    decreases depth, 2nat, variables.len() - i,
{
    if i >= variables.len() {
        Shown::Text(acc)
    } else {
        let start = if i > 0 {
            acc + ", "@
        } else {
            acc
        };
        match variables[i as int].kind {
            Kind::VAR_DEF { name, value } => match show(cells, scopes, sanitize(*value), depth) {
                Shown::Text(t) => show_variables(
                    cells,
                    scopes,
                    variables,
                    i + 1,
                    start + name + ": \""@ + t + "\""@,
                    depth,
                ),
                other => other,
            },
            _ => show_variables(cells, scopes, variables, i + 1, start, depth),
        }
    }
}

/// The names of the parameters from the `i`-th on, after `acc`.
pub open spec fn show_parameters(parameters: Seq<Node>, i: nat, acc: Seq<char>) -> Seq<char>
    decreases parameters.len() - i,
{
    if i >= parameters.len() {
        acc
    } else {
        let start = if i > 0 {
            acc + ", "@
        } else {
            acc + "params: "@
        };
        match parameters[i as int].kind {
            Kind::VAR_DEF { name, .. } => show_parameters(parameters, i + 1, start + name),
            _ => show_parameters(parameters, i + 1, start),
        }
    }
}

/// The text of the functions of an object from the `i`-th on, after `acc`;
/// `lead` says whether anything stands before the first of them.
pub open spec fn show_functions(functions: Seq<Node>, i: nat, acc: Seq<char>, lead: bool) -> Seq<
    char,
>
    decreases functions.len() - i,
{
    if i >= functions.len() {
        acc
    } else {
        let start = if i > 0 || lead {
            acc + ", "@
        } else {
            acc
        };
        match functions[i as int].kind {
            Kind::FUNC_DEF { name, args, .. } => show_functions(
                functions,
                i + 1,
                show_parameters(args, 0, start + name + ": function("@) + ")"@,
                lead,
            ),
            _ => show_functions(functions, i + 1, start, lead),
        }
    }
}

/// Adds the definitions from the `i`-th on to scope `at`; one that the scope
/// refuses is passed over.
pub open spec fn add_all(scopes: Seq<ScopeView>, t: Table, at: nat, entries: Seq<Node>, i: nat) -> Seq<
    ScopeView,
>
    decreases entries.len() - i,
{
    if i >= entries.len() {
        scopes
    } else {
        add_all(add_entry(scopes, t, at, entries[i as int]).0, t, at, entries, i + 1)
    }
}

/// Adds the methods from the `i`-th on to scope `at`, but for `create`.
pub open spec fn add_methods(scopes: Seq<ScopeView>, at: nat, methods: Seq<Node>, i: nat) -> Seq<
    ScopeView,
>
    decreases methods.len() - i,
{
    if i >= methods.len() {
        scopes
    } else if entry_name(methods[i as int]) == Some("create"@) {
        add_methods(scopes, at, methods, i + 1)
    } else {
        add_methods(
            add_entry(scopes, Table::Functions, at, methods[i as int]).0,
            at,
            methods,
            i + 1,
        )
    }
}

/// The scope that a new object starts with: its properties, the blueprints
/// of the root scope, and its methods but for `create`.
pub open spec fn object_scopes(
    scopes: Seq<ScopeView>,
    current: nat,
    properties: Seq<Node>,
    methods: Seq<Node>,
) -> Seq<ScopeView> {
    let id = scopes.len();
    let root = root_of(scopes, current);
    let visible = if root < scopes.len() {
        scopes[root as int].classes
    } else {
        Seq::empty()
    };
    let s0 = scopes.push(ScopeView::empty(None));
    let s1 = add_all(s0, Table::Variables, id, properties, 0);
    let s2 = add_all(s1, Table::Classes, id, visible, 0);
    add_methods(s2, id, methods, 0)
}

/// Evaluates a node. `fuel` bounds the depth of calls and the rounds of
/// loops on the way.
pub open spec fn eval(m: Machine, node: Node, fuel: nat) -> (Machine, Node)
    decreases fuel, node, 1nat, 0nat,
{
    if m.stopped() {
        (m, Node::noop())
    } else {
        match node.kind {
            Kind::STRING { .. }
            | Kind::INT { .. }
            | Kind::FLOAT { .. }
            | Kind::BOOL { .. }
            | Kind::BREAK
            | Kind::OBJECT { .. }
            | Kind::TYPE { .. }
            | Kind::NOOP => (m, node),
            Kind::CELL { .. } => (m, deref(m.cells, node)),
            Kind::BINOP { .. } => eval_binop(m, node, fuel),
            Kind::UNOP { .. } => eval_unop(m, node, fuel),
            Kind::RETURN { .. } => eval_return(m, node, fuel),
            Kind::COMPOUND { compound_value } => eval_compound(m, compound_value, 0, fuel),
            Kind::VAR_DEF { .. } => eval_variable_definition(m, node, fuel),
            Kind::VAR_REASSIGN { .. } => eval_variable_reassign(m, node, fuel),
            Kind::VAR { .. } => eval_variable(m, node),
            Kind::FUNC_DEF { .. } => eval_function_definition(m, node),
            Kind::CLASS { .. } => eval_blueprint(m, node),
            Kind::LIST { .. } => eval_list_literal(m, node, fuel),
            Kind::INDEX { .. } => eval_index_of(m, node, fuel),
            Kind::LIST_REASSIGN { .. } => eval_list_reassign(m, node, fuel),
            Kind::IF { .. } => eval_if(m, node, 0, fuel),
            Kind::WHILE { .. } => eval_while(m, node, m.current, fuel),
            Kind::FUNC_CALL { .. } => eval_call(m, node, None, fuel),
            Kind::NEW { .. } => eval_new(m, node, fuel),
            Kind::OBJECT_INDEX { .. } => eval_obj_index(m, node, fuel),
            Kind::OBJECT_REASSIGN { .. } => eval_obj_reassign(m, node, fuel),
            _ => (m, Node::noop()),
        }
    }
}

/// Evaluates both operands, left to right, and applies the operator.
pub open spec fn eval_binop(m: Machine, node: Node, fuel: nat) -> (Machine, Node)
    decreases fuel, node, 0nat, 0nat,
{
    if m.stopped() {
        (m, Node::noop())
    } else {
        match node.kind {
        Kind::BINOP { left, op, right } => {
            let (m1, l) = eval(m, *left, fuel);
            if m1.stopped() {
                (m1, Node::noop())
            } else {
                let (m2, r) = eval(m1, *right, fuel);
                if m2.stopped() {
                    (m2, Node::noop())
                } else {
                    match binop(op, l, r, node.span) {
                        Applied::Value(v) => (m2, v),
                        Applied::DivideByZero(s) => (
                            m2.fail(ETypes::DivideByZeroError, "Cannot divide by zero"@, s),
                            Node::noop(),
                        ),
                        Applied::Host => (m2.taint(), Node::noop()),
                    }
                }
            }
        },
            _ => (m, Node::noop()),
        }
    }
}

/// Evaluates the operand and applies the operator.
pub open spec fn eval_unop(m: Machine, node: Node, fuel: nat) -> (Machine, Node)
    decreases fuel, node, 0nat, 0nat,
{
    if m.stopped() {
        (m, Node::noop())
    } else {
        match node.kind {
        Kind::UNOP { op, body } => {
            let (m1, b) = eval(m, *body, fuel);
            if m1.stopped() {
                (m1, Node::noop())
            } else {
                match unop(op, b, node.span) {
                    Some(v) => (m1, v),
                    None => (m1.taint(), Node::noop()),
                }
            }
        },
            _ => (m, Node::noop()),
        }
    }
}

/// Evaluates the value and wraps it in the sentinel that unwinds a function body.
pub open spec fn eval_return(m: Machine, node: Node, fuel: nat) -> (Machine, Node)
    decreases fuel, node, 0nat, 0nat,
{
    if m.stopped() {
        (m, Node::noop())
    } else {
        match node.kind {
        Kind::RETURN { value } => {
            let (m1, v) = eval(m, *value, fuel);
            if m1.stopped() {
                (m1, Node::noop())
            } else {
                (m1, Node { kind: Kind::RETURN { value: Box::new(v) }, span: node.span })
            }
        },
            _ => (m, Node::noop()),
        }
    }
}

/// Evaluates the value and defines the variable in the current scope.
pub open spec fn eval_variable_definition(m: Machine, node: Node, fuel: nat) -> (Machine, Node)
    decreases fuel, node, 0nat, 0nat,
{
    if m.stopped() {
        (m, Node::noop())
    } else {
        match node.kind {
        Kind::VAR_DEF { name, value } => {
            if is_keyword(name) {
                (
                    m.fail(
                        ETypes::VariableDefinitionError,
                        "Illegal use of keyword for variable definition"@,
                        node.span,
                    ),
                    Node::noop(),
                )
            } else {
                let (m1, v) = eval(m, *value, fuel);
                if m1.stopped() {
                    (m1, Node::noop())
                } else {
                    let def = Node {
                        kind: Kind::VAR_DEF { name, value: Box::new(v) },
                        span: node.span,
                    };
                    let (scopes, r) = add_entry(m1.scopes, Table::Variables, m1.current, def);
                    match r {
                        Ok(_) => (Machine { scopes, ..m1 }, Node::noop()),
                        Err(s) => (
                            m1.fail(ETypes::VariableDefinitionError, s, node.span),
                            Node::noop(),
                        ),
                    }
                }
            }
        },
            _ => (m, Node::noop()),
        }
    }
}

/// Evaluates the value and rebinds the variable in the nearest scope that binds it.
pub open spec fn eval_variable_reassign(m: Machine, node: Node, fuel: nat) -> (Machine, Node)
    decreases fuel, node, 0nat, 0nat,
{
    if m.stopped() {
        (m, Node::noop())
    } else {
        match node.kind {
        Kind::VAR_REASSIGN { name, value } => {
            let (m1, v) = eval(m, *value, fuel);
            if m1.stopped() {
                (m1, Node::noop())
            } else {
                let def = Node {
                    kind: Kind::VAR_DEF { name, value: Box::new(v) },
                    span: node.span,
                };
                let (scopes, r) = set_entry(m1.scopes, m1.current, name, def);
                match r {
                    Ok(_) => (Machine { scopes, ..m1 }, Node::noop()),
                    Err(s) => (
                        m1.fail(ETypes::VariableDefinitionError, s, node.span),
                        Node::noop(),
                    ),
                }
            }
        },
            _ => (m, Node::noop()),
        }
    }
}

/// Evaluates the target and descends through the indices.
pub open spec fn eval_index_of(m: Machine, node: Node, fuel: nat) -> (Machine, Node)
    decreases fuel, node, 0nat, 0nat,
{
    if m.stopped() {
        (m, Node::noop())
    } else {
        match node.kind {
        Kind::INDEX { target, indices } => {
            let (m1, t) = eval(m, *target, fuel);
            if m1.stopped() {
                (m1, Node::noop())
            } else {
                eval_index(m1, t, indices, 0, fuel)
            }
        },
            _ => (m, Node::noop()),
        }
    }
}

/// Evaluates the value and stores it at the target.
pub open spec fn eval_list_reassign(m: Machine, node: Node, fuel: nat) -> (Machine, Node)
    decreases fuel, node, 0nat, 0nat,
{
    if m.stopped() {
        (m, Node::noop())
    } else {
        match node.kind {
        Kind::LIST_REASSIGN { target, value } => {
            let (m1, v) = eval(m, *value, fuel);
            if m1.stopped() {
                (m1, Node::noop())
            } else {
                assign_into(m1, *target, v, fuel)
            }
        },
            _ => (m, Node::noop()),
        }
    }
}

/// Makes an object of a blueprint and runs its `create` method on it.
pub open spec fn eval_new(m: Machine, node: Node, fuel: nat) -> (Machine, Node)
    decreases fuel, node, 0nat, 0nat,
{
    if m.stopped() {
        (m, Node::noop())
    } else {
        match node.kind {
        Kind::NEW { name, args } => match resolve(m.scopes, Table::Classes, m.current, name) {
            None => (
                m.fail(ETypes::BlueprintError, Table::Classes.missing_text(name), node.span),
                Node::noop(),
            ),
            Some(blueprint) => match blueprint.kind {
                Kind::CLASS { properties, methods, .. } => match find(methods, "create"@) {
                    None => (
                        m.fail(
                            ETypes::BlueprintError,
                            "Expected constructor method 'create' for blueprint definition"@,
                            blueprint.span,
                        ),
                        Node::noop(),
                    ),
                    Some(c) => {
                        let id = m.scopes.len();
                        let m1 = Machine {
                            scopes: object_scopes(m.scopes, m.current, properties, methods),
                            ..m
                        };
                        let (m2, r) = invoke(
                            m1,
                            methods[c as int],
                            "create"@,
                            args,
                            node.span,
                            id,
                            fuel,
                        );
                        if m2.stopped() {
                            (m2, Node::noop())
                        } else {
                            (
                                m2,
                                Node {
                                    kind: Kind::OBJECT { class_name: name, scope: id },
                                    span: node.span,
                                },
                            )
                        }
                    },
                },
                _ => (m, Node::noop()),
            },
        },
            _ => (m, Node::noop()),
        }
    }
}

/// Reads a property, calls a method or indexes a list of an object. For a
/// method call the object is found without copying it, so that the method
/// runs on the object itself; for the rest it is evaluated.
pub open spec fn eval_obj_index(m: Machine, node: Node, fuel: nat) -> (Machine, Node)
    decreases fuel, node, 0nat, 0nat,
{
    if m.stopped() {
        (m, Node::noop())
    } else {
        match node.kind {
        Kind::OBJECT_INDEX { object, property } => {
            let (m1, o) = if property.kind is FUNC_CALL {
                locate(m, *object, fuel)
            } else {
                eval(m, *object, fuel)
            };
            if m1.stopped() {
                (m1, Node::noop())
            } else {
                match o.kind {
                    Kind::OBJECT { class_name, scope } => access(
                        m1,
                        class_name,
                        scope,
                        *property,
                        true,
                        fuel,
                    ),
                    _ => (
                        m1.fail(
                            ETypes::SyntaxError,
                            "Invalid use of dot operator on non-object"@,
                            node.span,
                        ),
                        Node::noop(),
                    ),
                }
            }
        },
            _ => (m, Node::noop()),
        }
    }
}

/// Finds the object and rebinds one of its properties, or stores into one of its lists.
pub open spec fn eval_obj_reassign(m: Machine, node: Node, fuel: nat) -> (Machine, Node)
    decreases fuel, node, 0nat, 0nat,
{
    if m.stopped() {
        (m, Node::noop())
    } else {
        match node.kind {
        Kind::OBJECT_REASSIGN { object_index, value } => match object_index.kind {
            Kind::OBJECT_INDEX { object, property } => {
                let (m1, o) = locate(m, *object, fuel);
                if m1.stopped() {
                    (m1, Node::noop())
                } else {
                    match o.kind {
                        Kind::OBJECT { scope, .. } => {
                            let (m2, v) = eval(m1, *value, fuel);
                            if m2.stopped() {
                                (m2, Node::noop())
                            } else {
                                match property.kind {
                                    Kind::VAR { name } => {
                                        let def = Node {
                                            kind: Kind::VAR_DEF { name, value: Box::new(v) },
                                            span: v.span,
                                        };
                                        (
                                            Machine {
                                                scopes: set_entry(m2.scopes, scope, name, def).0,
                                                ..m2
                                            },
                                            Node::noop(),
                                        )
                                    },
                                    Kind::INDEX { .. } => {
                                        let (m3, r) = assign_into(
                                            Machine { current: scope, ..m2 },
                                            *property,
                                            v,
                                            fuel,
                                        );
                                        if m3.stopped() {
                                            (m3, Node::noop())
                                        } else {
                                            (Machine { current: m2.current, ..m3 }, Node::noop())
                                        }
                                    },
                                    _ => (m2, Node::noop()),
                                }
                            }
                        },
                        _ => (
                            m1.fail(
                                ETypes::SyntaxError,
                                "Invalid use of dot operator on non-object"@,
                                object.span,
                            ),
                            Node::noop(),
                        ),
                    }
                }
            },
            _ => (m, Node::noop()),
        },
            _ => (m, Node::noop()),
        }
    }
}

/// Reads the variable that a node names.
pub open spec fn eval_variable(m: Machine, node: Node) -> (Machine, Node) {
    match node.kind {
        Kind::VAR { name } => read_variable(m, name, node.span),
        _ => (m, Node::noop()),
    }
}

/// Defines a function in the current scope.
pub open spec fn eval_function_definition(m: Machine, node: Node) -> (Machine, Node) {
    match node.kind {
        Kind::FUNC_DEF { name, .. } => define(
            m,
            Table::Functions,
            ETypes::FunctionDefinitionError,
            "Illegal use of keyword for function definition"@,
            name,
            node,
        ),
        _ => (m, Node::noop()),
    }
}

/// Defines a blueprint in the current scope.
pub open spec fn eval_blueprint(m: Machine, node: Node) -> (Machine, Node) {
    match node.kind {
        Kind::CLASS { name, .. } => define(
            m,
            Table::Classes,
            ETypes::BlueprintError,
            "Illegal use of keyword for blueprint definition"@,
            name,
            node,
        ),
        _ => (m, Node::noop()),
    }
}

/// Evaluates a list literal: each element into a fresh cell.
pub open spec fn eval_list_literal(m: Machine, node: Node, fuel: nat) -> (Machine, Node)
    decreases fuel, node, 0nat, 0nat,
{
    match node.kind {
        Kind::LIST { contents } => eval_list(m, contents, 0, Seq::empty(), node.span, fuel),
        _ => (m, Node::noop()),
    }
}

/// Defines a function or a blueprint in the current scope.
pub open spec fn define(
    m: Machine,
    t: Table,
    etype: ETypes,
    keyword_text: Seq<char>,
    name: Seq<char>,
    node: Node,
) -> (Machine, Node) {
    if m.stopped() {
        (m, Node::noop())
    } else {
        if is_keyword(name) {
            (m.fail(etype, keyword_text, node.span), Node::noop())
        } else {
            let (scopes, r) = add_entry(m.scopes, t, m.current, node);
            match r {
                Ok(_) => (Machine { scopes, ..m }, Node::noop()),
                Err(s) => (m.fail(etype, s, node.span), Node::noop()),
            }
        }
    }
}

/// Evaluates the statements from the `i`-th on, in order, and stops at the
/// first that yields one of the two sentinels.
pub open spec fn eval_compound(m: Machine, statements: Seq<Node>, i: nat, fuel: nat) -> (
    Machine,
    Node,
)
    decreases fuel, statements, 0nat, statements.len() - i,
{
    if m.stopped() || i >= statements.len() {
        (m, Node::noop())
    } else {
        let (m1, r) = eval(m, statements[i as int], fuel);
        if m1.stopped() {
            (m1, Node::noop())
        } else if r.kind is RETURN || r.kind is BREAK {
            (m1, r)
        } else {
            eval_compound(m1, statements, i + 1, fuel)
        }
    }
}

/// Evaluates the elements of a list literal from the `i`-th on, each into a
/// fresh cell, after the handles `acc`.
pub open spec fn eval_list(
    m: Machine,
    items: Seq<Node>,
    i: nat,
    acc: Seq<Node>,
    span: Span,
    fuel: nat,
) -> (Machine, Node)
    decreases fuel, items, 0nat, items.len() - i,
{
    if m.stopped() {
        (m, Node::noop())
    } else if i >= items.len() {
        (m, Node { kind: Kind::LIST { contents: acc }, span })
    } else {
        let (m1, v) = eval(m, items[i as int], fuel);
        if m1.stopped() {
            (m1, Node::noop())
        } else {
            eval_list(
                Machine { cells: m1.cells.push(v), ..m1 },
                items,
                i + 1,
                acc.push(cell_node(m1.cells.len())),
                span,
                fuel,
            )
        }
    }
}

/// Evaluates expressions from the `i`-th on, in order, after the values `acc`.
pub open spec fn eval_args(m: Machine, args: Seq<Node>, i: nat, acc: Seq<Node>, fuel: nat) -> (
    Machine,
    Seq<Node>,
)
    decreases fuel, args, 0nat, args.len() - i,
{
    if m.stopped() || i >= args.len() {
        (m, acc)
    } else {
        let (m1, v) = eval(m, args[i as int], fuel);
        if m1.stopped() {
            (m1, acc)
        } else {
            eval_args(m1, args, i + 1, acc.push(v), fuel)
        }
    }
}

/// Descends from the value `cur` through the indices from the `i`-th on.
pub open spec fn eval_index(m: Machine, cur: Node, indices: Seq<Node>, i: nat, fuel: nat) -> (
    Machine,
    Node,
)
    decreases fuel, indices, 0nat, indices.len() - i,
{
    if m.stopped() {
        (m, Node::noop())
    } else if i >= indices.len() {
        (m, cur)
    } else {
        let (m1, ix) = eval(m, indices[i as int], fuel);
        if m1.stopped() {
            (m1, Node::noop())
        } else {
            match ix.kind {
                Kind::INT { int_value } => match cur.kind {
                    Kind::LIST { contents } => if int_value < 0 || int_value >= contents.len() {
                        (
                            m1.fail(
                                ETypes::ListError,
                                out_of_bounds_text(int_value, contents.len()),
                                ix.span,
                            ),
                            Node::noop(),
                        )
                    } else {
                        eval_index(m1, deref(m1.cells, contents[int_value]), indices, i + 1, fuel)
                    },
                    _ => (
                        m1.report(ETypes::ListError, "Indexed target is not a list"@, cur.span),
                        Node::noop(),
                    ),
                },
                _ => (
                    m1.fail(ETypes::ListError, "Expected integer to index list"@, ix.span),
                    Node::noop(),
                ),
            }
        }
    }
}

/// Stores `v` at `target`, which is a variable followed by indices.
pub open spec fn assign_into(m: Machine, target: Node, v: Node, fuel: nat) -> (Machine, Node)
    decreases fuel, target, 2nat, 0nat,
{
    if m.stopped() {
        (m, Node::noop())
    } else {
        match target.kind {
            Kind::INDEX { target: list, indices } => match list.kind {
                Kind::VAR { name } => {
                    let (m1, root) = read_variable(m, name, list.span);
                    if m1.stopped() {
                        (m1, Node::noop())
                    } else {
                        assign_walk(m1, name, root, None, indices, 0, v, fuel)
                    }
                },
                _ => (m, Node::noop()),
            },
            _ => (m, Node::noop()),
        }
    }
}

/// The list that a walk stands at: the copy of the variable's list, or the
/// list in a cell.
pub open spec fn walk_list(cells: Seq<Node>, root: Node, place: Option<nat>) -> Node {
    match place {
        None => root,
        Some(c) => if c < cells.len() {
            cells[c as int]
        } else {
            Node::noop()
        },
    }
}

/// Walks through the indices from the `i`-th on, and at the last one puts
/// `v`, in a fresh cell, in the place of the element; then rebinds the
/// variable to its list.
pub open spec fn assign_walk(
    m: Machine,
    name: Seq<char>,
    root: Node,
    place: Option<nat>,
    indices: Seq<Node>,
    i: nat,
    v: Node,
    fuel: nat,
) -> (Machine, Node)
    decreases fuel, indices, 0nat, indices.len() - i,
{
    if m.stopped() || i >= indices.len() {
        (m, Node::noop())
    } else {
        let (m1, ix) = eval(m, indices[i as int], fuel);
        if m1.stopped() {
            (m1, Node::noop())
        } else {
            let cur = walk_list(m1.cells, root, place);
            match ix.kind {
                Kind::INT { int_value } => match cur.kind {
                    Kind::LIST { contents } => if int_value < 0 || int_value >= contents.len() {
                        (
                            m1.fail(
                                ETypes::ListError,
                                out_of_bounds_text(int_value, contents.len()),
                                ix.span,
                            ),
                            Node::noop(),
                        )
                    } else if i + 1 == indices.len() {
                        (assign_store(m1, name, root, place, cur, int_value, v), Node::noop())
                    } else {
                        match contents[int_value].kind {
                            Kind::CELL { id } => assign_walk(
                                m1,
                                name,
                                root,
                                Some(id),
                                indices,
                                i + 1,
                                v,
                                fuel,
                            ),
                            _ => (
                                m1.fail(
                                    ETypes::ListError,
                                    "Indexed object is not a list"@,
                                    cur.span,
                                ),
                                Node::noop(),
                            ),
                        }
                    },
                    _ => (
                        m1.fail(ETypes::ListError, "Indexed object is not a list"@, cur.span),
                        Node::noop(),
                    ),
                },
                _ => (
                    m1.fail(ETypes::ListError, "Expected integer to index list"@, ix.span),
                    Node::noop(),
                ),
            }
        }
    }
}

/// The last step of an assignment into a list: `v` goes into a fresh cell,
/// slot `k` of the list `cur` is made to hold that cell, and the variable is
/// bound again to its list.
pub open spec fn assign_store(
    m: Machine,
    name: Seq<char>,
    root: Node,
    place: Option<nat>,
    cur: Node,
    k: int,
    v: Node,
) -> Machine {
    let contents = cur.kind->LIST_contents;
    let updated = Node {
        kind: Kind::LIST { contents: contents.update(k, cell_node(m.cells.len())) },
        span: cur.span,
    };
    let cells = m.cells.push(v);
    match place {
        None => {
            let def = Node {
                kind: Kind::VAR_DEF { name, value: Box::new(updated) },
                span: cur.span,
            };
            Machine { scopes: set_entry(m.scopes, m.current, name, def).0, cells, ..m }
        },
        Some(c) => {
            let def = Node { kind: Kind::VAR_DEF { name, value: Box::new(root) }, span: cur.span };
            Machine {
                scopes: set_entry(m.scopes, m.current, name, def).0,
                cells: cells.update(c as int, updated),
                ..m
            }
        },
    }
}

/// Tries the conditions of an `IF` from the `i`-th on.
pub open spec fn eval_if(m: Machine, node: Node, i: nat, fuel: nat) -> (Machine, Node)
    decreases fuel, node, 0nat,
        match node.kind {
            Kind::IF { conditions, .. } => conditions.len() - i,
            _ => 0,
        },
{
    match node.kind {
        Kind::IF { conditions, bodies, else_body } => if m.stopped() {
            (m, Node::noop())
        } else if i >= conditions.len() || i >= bodies.len() {
            match else_body {
                Some(b) => {
                    let (m1, r) = eval(m, *b, fuel);
                    if m1.stopped() {
                        (m1, Node::noop())
                    } else {
                        (m1, sentinel_only(r))
                    }
                },
                None => (m, Node::noop()),
            }
        } else {
            let (m1, c) = eval(m, conditions[i as int], fuel);
            if m1.stopped() {
                (m1, Node::noop())
            } else {
                match c.kind {
                    Kind::BOOL { bool_value } => if bool_value {
                        let (m2, r) = eval(m1, bodies[i as int], fuel);
                        if m2.stopped() {
                            (m2, Node::noop())
                        } else {
                            (m2, sentinel_only(r))
                        }
                    } else {
                        eval_if(m1, node, i + 1, fuel)
                    },
                    _ => (
                        m1.report(
                            ETypes::ConditionalError,
                            "Expected conditional expression"@,
                            conditions[i as int].span,
                        ),
                        Node::noop(),
                    ),
                }
            }
        },
        _ => (m, Node::noop()),
    }
}

/// Runs a loop whose outer scope is `origin`: each round gets a fresh scope
/// below `origin` and costs one unit of fuel.
pub open spec fn eval_while(m: Machine, node: Node, origin: nat, fuel: nat) -> (Machine, Node)
    decreases fuel, node, 0nat, 0nat,
{
    match node.kind {
        Kind::WHILE { condition, body } => if m.stopped() {
            (m, Node::noop())
        } else if fuel == 0 {
            (m.exhaust(), Node::noop())
        } else {
            let round = Machine {
                scopes: m.scopes.push(ScopeView::empty(Some(origin))),
                current: m.scopes.len(),
                ..m
            };
            let (m1, c) = eval(round, *condition, (fuel - 1) as nat);
            if m1.stopped() {
                (m1, Node::noop())
            } else {
                match c.kind {
                    Kind::BOOL { bool_value } => if !bool_value {
                        (Machine { current: origin, ..m1 }, Node::noop())
                    } else {
                        let (m2, r) = eval(m1, *body, (fuel - 1) as nat);
                        if m2.stopped() {
                            (m2, Node::noop())
                        } else if r.kind is RETURN {
                            (Machine { current: origin, ..m2 }, r)
                        } else if r.kind is BREAK {
                            (Machine { current: origin, ..m2 }, Node::noop())
                        } else {
                            eval_while(
                                Machine { current: origin, ..m2 },
                                node,
                                origin,
                                (fuel - 1) as nat,
                            )
                        }
                    },
                    _ => (Machine { current: origin, ..m1 }, Node::noop()),
                }
            }
        },
        _ => (m, Node::noop()),
    }
}

/// Binds one parameter in scope `frame`. Where the scope refuses the
/// binding, because the name is bound in it or above it, the scope's
/// message becomes a line of output and the name stays as it was.
pub open spec fn bind_one(m: Machine, frame: nat, def: Node) -> Machine {
    let (scopes, r) = add_entry(m.scopes, Table::Variables, frame, def);
    match r {
        Ok(_) => Machine { scopes, ..m },
        Err(text) => Machine { output: m.output.push(text), ..m },
    }
}

/// Evaluates the arguments from the `i`-th on in the caller's scope and binds
/// each to its parameter in scope `frame`.
pub open spec fn bind_args(
    m: Machine,
    parameters: Seq<Node>,
    args: Seq<Node>,
    i: nat,
    frame: nat,
    fuel: nat,
) -> Machine
    decreases fuel, args, 0nat, args.len() - i,
{
    if m.stopped() || i >= args.len() || i >= parameters.len() {
        m
    } else {
        let (m1, v) = eval(m, args[i as int], fuel);
        if m1.stopped() {
            m1
        } else {
            match parameters[i as int].kind {
                Kind::VAR_DEF { name, .. } => {
                    let def = Node {
                        kind: Kind::VAR_DEF { name, value: Box::new(v) },
                        span: args[i as int].span,
                    };
                    bind_args(
                        bind_one(m1, frame, def),
                        parameters,
                        args,
                        i + 1,
                        frame,
                        fuel,
                    )
                },
                _ => bind_args(m1, parameters, args, i + 1, frame, fuel),
            }
        }
    }
}

/// Calls a function: checks the number of arguments, makes a scope below
/// `parent`, binds the arguments there, and runs the body in that scope with
/// one unit of fuel less.
pub open spec fn invoke(
    m: Machine,
    function: Node,
    name: Seq<char>,
    args: Seq<Node>,
    span: Span,
    parent: nat,
    fuel: nat,
) -> (Machine, Node)
    decreases fuel, args, 1nat, 0nat,
{
    match function.kind {
        Kind::FUNC_DEF { body, args: parameters, .. } => if m.stopped() {
            (m, Node::noop())
        } else if args.len() != parameters.len() {
            (
                m.report(
                    ETypes::FunctionError,
                    arity_text(name, parameters.len(), args.len()),
                    span,
                ),
                Node::noop(),
            )
        } else if fuel == 0 {
            (m.exhaust(), Node::noop())
        } else {
            let frame = m.scopes.len();
            let m1 = bind_args(
                Machine { scopes: m.scopes.push(ScopeView::empty(Some(parent))), ..m },
                parameters,
                args,
                0,
                frame,
                fuel,
            );
            if m1.stopped() {
                (m1, Node::noop())
            } else {
                let (m2, r) = eval(Machine { current: frame, ..m1 }, *body, (fuel - 1) as nat);
                if m2.stopped() {
                    (m2, Node::noop())
                } else {
                    (Machine { current: m1.current, ..m2 }, returned(r))
                }
            }
        },
        _ => (m, Node::noop()),
    }
}

/// Whether a name is that of a function that the language brings along.
pub open spec fn is_builtin(name: Seq<char>) -> bool {
    name == "write"@ || name == "read"@ || name == "ast_debug"@ || name == "type"@ || name
        == "to_int"@ || name == "to_float"@ || name == "random_int"@ || name == "length"@ || name
        == "replace"@
}

/// Evaluates a call. `via` is the scope of the object where the call is a
/// method call; the function is then looked up there, and its body runs
/// below that scope instead of below the root scope.
pub open spec fn eval_call(m: Machine, node: Node, via: Option<nat>, fuel: nat) -> (Machine, Node)
    decreases fuel, node, 0nat, 2nat,
{
    match node.kind {
        Kind::FUNC_CALL { name, args } => if m.stopped() {
            (m, Node::noop())
        } else if is_builtin(name) {
            eval_builtin(m, node, fuel)
        } else {
            let from = match via {
                Some(s) => s,
                None => m.current,
            };
            match resolve(m.scopes, Table::Functions, from, name) {
                None => (
                    m.fail(ETypes::FunctionError, Table::Functions.missing_text(name), node.span),
                    Node::noop(),
                ),
                Some(function) => invoke(
                    m,
                    function,
                    name,
                    args,
                    node.span,
                    match via {
                        Some(s) => s,
                        None => root_of(m.scopes, m.current),
                    },
                    fuel,
                ),
            }
        },
        _ => (m, Node::noop()),
    }
}

/// The texts of the trees of the arguments, one line each.
pub open spec fn debug_lines(args: Seq<Node>) -> Seq<Seq<char>> {
    args.map_values(|a: Node| crate::tree::tree_text(a))
}

/// Evaluates a call of one of the functions that the language brings along.
pub open spec fn eval_builtin(m: Machine, node: Node, fuel: nat) -> (Machine, Node)
    decreases fuel, node, 0nat, 1nat,
{
    if m.stopped() {
        (m, Node::noop())
    } else {
        match node.kind {
            Kind::FUNC_CALL { name, args } => if name == "write"@ {
                builtin_write(m, args, 0, Seq::empty(), fuel)
            } else if name == "read"@ {
                builtin_read(m, args, node.span)
            } else if name == "ast_debug"@ {
                builtin_debug(m, args)
            } else if name == "type"@ {
                builtin_type(m, node, fuel)
            } else if name == "to_int"@ {
                builtin_to_int(m, node, fuel)
            } else if name == "to_float"@ {
                builtin_to_float(m, node, fuel)
            } else if name == "random_int"@ {
                builtin_random_int(m, node, fuel)
            } else if name == "length"@ {
                builtin_length(m, node, fuel)
            } else if name == "replace"@ {
                builtin_replace(m, node, fuel)
            } else {
                (m, Node::noop())
            },
            _ => (m, Node::noop()),
        }
    }
}

/// `write`: the texts of the values of the arguments become one more line
/// of output.
pub open spec fn builtin_write_call(m: Machine, node: Node, fuel: nat) -> (Machine, Node)
    decreases fuel, node, 0nat, 0nat,
{
    match node.kind {
        Kind::FUNC_CALL { args, .. } => builtin_write(m, args, 0, Seq::empty(), fuel),
        _ => (m, Node::noop()),
    }
}

/// `read`: the next line of input.
pub open spec fn builtin_read_call(m: Machine, node: Node) -> (Machine, Node) {
    match node.kind {
        Kind::FUNC_CALL { args, .. } => builtin_read(m, args, node.span),
        _ => (m, Node::noop()),
    }
}

/// `ast_debug`: one line of output for each argument.
pub open spec fn builtin_debug_call(m: Machine, node: Node) -> (Machine, Node) {
    match node.kind {
        Kind::FUNC_CALL { args, .. } => builtin_debug(m, args),
        _ => (m, Node::noop()),
    }
}

/// `ast_debug`: one line of output for each argument, the text of its
/// tree; the arguments are not evaluated.
pub open spec fn builtin_debug(m: Machine, args: Seq<Node>) -> (Machine, Node) {
    if m.stopped() {
        (m, Node::noop())
    } else {
        (Machine { output: m.output + debug_lines(args), ..m }, Node::noop())
    }
}

/// The report of a call with the wrong number of arguments.
pub open spec fn wrong_arity(m: Machine, name: Seq<char>, wanted: nat, given: nat, span: Span) -> (
    Machine,
    Node,
) {
    (m.report(ETypes::FunctionError, arity_text(name, wanted, given), span), Node::noop())
}

/// `type`: the name of the runtime type of the value of the argument.
pub open spec fn builtin_type(m: Machine, node: Node, fuel: nat) -> (Machine, Node)
    decreases fuel, node, 0nat, 0nat,
{
    if m.stopped() {
        (m, Node::noop())
    } else {
        match node.kind {
            Kind::FUNC_CALL { name, args } => if args.len() != 1 {
                wrong_arity(m, name, 1, args.len(), node.span)
            } else {
                let (m1, v) = eval(m, args[0], fuel);
                if m1.stopped() {
                    (m1, Node::noop())
                } else {
                    (
                        m1,
                        Node { kind: Kind::TYPE { type_value: runtime_type(v.kind) }, span: args[0].span },
                    )
                }
            },
            _ => (m, Node::noop()),
        }
    }
}

/// `to_int`: the integer that the string value of the argument denotes.
pub open spec fn builtin_to_int(m: Machine, node: Node, fuel: nat) -> (Machine, Node)
    decreases fuel, node, 0nat, 0nat,
{
    if m.stopped() {
        (m, Node::noop())
    } else {
        match node.kind {
            Kind::FUNC_CALL { name, args } => if args.len() != 1 {
                wrong_arity(m, name, 1, args.len(), node.span)
            } else {
                let (m1, v) = eval(m, args[0], fuel);
                if m1.stopped() {
                    (m1, Node::noop())
                } else {
                    to_int_of(m1, v, node.span)
                }
            },
            _ => (m, Node::noop()),
        }
    }
}

/// `to_float`: what the embedder makes of the string value of the argument.
pub open spec fn builtin_to_float(m: Machine, node: Node, fuel: nat) -> (Machine, Node)
    decreases fuel, node, 0nat, 0nat,
{
    if m.stopped() {
        (m, Node::noop())
    } else {
        match node.kind {
            Kind::FUNC_CALL { name, args } => if args.len() != 1 {
                wrong_arity(m, name, 1, args.len(), node.span)
            } else {
                let (m1, v) = eval(m, args[0], fuel);
                if m1.stopped() {
                    (m1, Node::noop())
                } else {
                    to_float_of(m1, v, node.span)
                }
            },
            _ => (m, Node::noop()),
        }
    }
}

/// `length`: the length of the value of the argument.
pub open spec fn builtin_length(m: Machine, node: Node, fuel: nat) -> (Machine, Node)
    decreases fuel, node, 0nat, 0nat,
{
    if m.stopped() {
        (m, Node::noop())
    } else {
        match node.kind {
            Kind::FUNC_CALL { name, args } => if args.len() != 1 {
                wrong_arity(m, name, 1, args.len(), node.span)
            } else {
                let (m1, v) = eval(m, args[0], fuel);
                if m1.stopped() {
                    (m1, Node::noop())
                } else {
                    (m1, length_of_value(v, node.span))
                }
            },
            _ => (m, Node::noop()),
        }
    }
}

/// `random_int`: a number drawn between the values of the two arguments.
pub open spec fn builtin_random_int(m: Machine, node: Node, fuel: nat) -> (Machine, Node)
    decreases fuel, node, 0nat, 0nat,
{
    if m.stopped() {
        (m, Node::noop())
    } else {
        match node.kind {
            Kind::FUNC_CALL { name, args } => if args.len() != 2 {
                wrong_arity(m, name, 2, args.len(), node.span)
            } else {
                let (m1, values) = eval_args(m, args, 0, Seq::empty(), fuel);
                if m1.stopped() {
                    (m1, Node::noop())
                } else {
                    random_int_of(m1, values[0], values[1], node.span)
                }
            },
            _ => (m, Node::noop()),
        }
    }
}

/// `replace`: the first argument with one character replaced.
pub open spec fn builtin_replace(m: Machine, node: Node, fuel: nat) -> (Machine, Node)
    decreases fuel, node, 0nat, 0nat,
{
    if m.stopped() {
        (m, Node::noop())
    } else {
        match node.kind {
            Kind::FUNC_CALL { name, args } => if args.len() != 3 {
                wrong_arity(m, name, 3, args.len(), node.span)
            } else {
                let (m1, values) = eval_args(m, args, 0, Seq::empty(), fuel);
                if m1.stopped() {
                    (m1, Node::noop())
                } else {
                    replace_of(m1, values[0], values[1], values[2], node.span)
                }
            },
            _ => (m, Node::noop()),
        }
    }
}

/// `write`: the texts of the arguments from the `i`-th on, after `line`,
/// become one more line of output.
pub open spec fn builtin_write(m: Machine, args: Seq<Node>, i: nat, line: Seq<char>, fuel: nat) -> (
    Machine,
    Node,
)
    decreases fuel, args, 0nat, args.len() - i,
{
    if m.stopped() {
        (m, Node::noop())
    } else if i >= args.len() {
        (Machine { output: m.output.push(line), ..m }, Node::noop())
    } else {
        let (m1, v) = eval(m, args[i as int], fuel);
        if m1.stopped() {
            (m1, Node::noop())
        } else {
            match show(m1.cells, m1.scopes, v, fuel) {
                Shown::Text(t) => builtin_write(m1, args, i + 1, line + t, fuel),
                Shown::Host => (m1.taint(), Node::noop()),
                Shown::TooDeep => (m1.exhaust(), Node::noop()),
            }
        }
    }
}

/// `read`: the next line of input, or the empty string when none is left.
pub open spec fn builtin_read(m: Machine, args: Seq<Node>, span: Span) -> (Machine, Node) {
    if m.stopped() {
        (m, Node::noop())
    } else {
        if args.len() != 0 {
            (m.report(ETypes::FunctionError, arity_text("read"@, 0, args.len()), span), Node::noop())
        } else if m.next_input < m.input.len() {
            (
                Machine { next_input: m.next_input + 1, ..m },
                Node { kind: Kind::STRING { str_value: m.input[m.next_input as int] }, span },
            )
        } else {
            (m, Node { kind: Kind::STRING { str_value: Seq::empty() }, span })
        }
    }
}

/// `to_int`: the integer that a string denotes.
pub open spec fn to_int_of(m: Machine, v: Node, span: Span) -> (Machine, Node) {
    match v.kind {
        Kind::STRING { str_value } => match parse_int(str_value) {
            Some(i) => (m, int_node(i, span)),
            None => (m.fail(ETypes::TypeError, cast_text(str_value), span), Node::noop()),
        },
        _ => (
            m.fail(ETypes::TypeError, "Invalid attempted type cast to type 'Integer'"@, span),
            Node::noop(),
        ),
    }
}

/// `to_float`: what the embedder makes of a string.
pub open spec fn to_float_of(m: Machine, v: Node, span: Span) -> (Machine, Node) {
    match v.kind {
        Kind::STRING { .. } => (m.taint(), Node::noop()),
        _ => (
            m.fail(ETypes::TypeError, "Invalid attempted type cast to type 'Float'"@, span),
            Node::noop(),
        ),
    }
}

/// `length`: the number of elements of a list or of characters of a string,
/// and zero for anything else.
pub open spec fn length_of_value(v: Node, span: Span) -> Node {
    match v.kind {
        Kind::LIST { contents } => int_node(wrap32(contents.len() as int), span),
        Kind::STRING { str_value } => int_node(wrap32(str_value.len() as int), span),
        _ => int_node(0, span),
    }
}

/// `random_int`: a number drawn between two integers, both included.
pub open spec fn random_int_of(m: Machine, low: Node, high: Node, span: Span) -> (
    Machine,
    Node,
) {
    match (low.kind, high.kind) {
        (Kind::INT { int_value: a }, Kind::INT { int_value: b }) => if a <= b {
            (m.taint(), Node::noop())
        } else {
            (
                m.report(
                    ETypes::TypeError,
                    "Invalid range to function 'random_int': Expected low <= high"@,
                    span,
                ),
                Node::noop(),
            )
        },
        _ => (
            m.report(
                ETypes::TypeError,
                "Invalid type(s) to function 'random_integer': Expected (Integer, Integer)"@,
                span,
            ),
            Node::noop(),
        ),
    }
}

/// `replace`: the string with the character at a position replaced by the
/// first character of another string.
pub open spec fn replace_of(m: Machine, text: Node, at: Node, with: Node, span: Span) -> (
    Machine,
    Node,
) {
    match (text.kind, at.kind, with.kind) {
        (
            Kind::STRING { str_value: s },
            Kind::INT { int_value: i },
            Kind::STRING { str_value: c },
        ) => if 0 <= i < s.len() && c.len() > 0 {
            (m, Node { kind: Kind::STRING { str_value: s.update(i, c[0]) }, span })
        } else {
            (
                m.report(
                    ETypes::TypeError,
                    "Invalid argument(s) to function 'replace': Expected an index inside the string and a character"@,
                    span,
                ),
                Node::noop(),
            )
        },
        _ => (
            m.report(
                ETypes::TypeError,
                "Invalid type(s) to function 'replace': Expected (String, Integer, Character)"@,
                span,
            ),
            Node::noop(),
        ),
    }
}

/// Reads a property, calls a method or indexes a list of the object whose
/// scope is `scope`. A method runs below that very scope, so what it
/// rebinds is rebound in the object. Where `copy` is set, a property that
/// holds an object is handed out as a copy, as a variable is; where it is
/// not, the object itself is handed out.
pub open spec fn access(
    m: Machine,
    class_name: Seq<char>,
    scope: nat,
    property: Node,
    copy: bool,
    fuel: nat,
) -> (Machine, Node)
    decreases fuel, property, 2nat, 0nat,
{
    if m.stopped() {
        (m, Node::noop())
    } else {
        match property.kind {
            Kind::VAR { name } => match resolve(m.scopes, Table::Variables, scope, name) {
                Some(def) => match def.kind {
                    Kind::VAR_DEF { value, .. } => if copy {
                        hand_out(m, *value, property.span)
                    } else {
                        (m, sanitize(*value))
                    },
                    _ => (m, Node::noop()),
                },
                None => (
                    m.report(
                        ETypes::BlueprintError,
                        property_text(name, class_name),
                        property.span,
                    ),
                    Node::noop(),
                ),
            },
            Kind::FUNC_CALL { .. } => eval_call(m, property, Some(scope), fuel),
            Kind::INDEX { .. } | Kind::OBJECT_INDEX { .. } => {
                let (m1, r) = eval(Machine { current: scope, ..m }, property, fuel);
                if m1.stopped() {
                    (m1, Node::noop())
                } else {
                    (Machine { current: m.current, ..m1 }, r)
                }
            },
            _ => (m, Node::noop()),
        }
    }
}

/// Finds the object that the left side of a property assignment names,
/// without copying it.
pub open spec fn locate(m: Machine, object: Node, fuel: nat) -> (Machine, Node)
    decreases fuel, object, 2nat, 0nat,
{
    if m.stopped() {
        (m, Node::noop())
    } else {
        match object.kind {
            Kind::VAR { name } => match resolve(m.scopes, Table::Variables, m.current, name) {
                None => (
                    m.fail(
                        ETypes::IdentifierError,
                        Table::Variables.missing_text(name),
                        object.span,
                    ),
                    Node::noop(),
                ),
                Some(def) => match def.kind {
                    Kind::VAR_DEF { value, .. } => (m, sanitize(*value)),
                    _ => (m, Node::noop()),
                },
            },
            Kind::OBJECT_INDEX { object: inner, property } => {
                let (m1, o) = locate(m, *inner, fuel);
                if m1.stopped() {
                    (m1, Node::noop())
                } else {
                    match o.kind {
                        Kind::OBJECT { class_name, scope } => access(
                            m1,
                            class_name,
                            scope,
                            *property,
                            false,
                            fuel,
                        ),
                        _ => (
                            m1.fail(
                                ETypes::SyntaxError,
                                "Invalid use of dot operator on non-object"@,
                                inner.span,
                            ),
                            Node::noop(),
                        ),
                    }
                }
            },
            _ => eval(m, object, fuel),
        }
    }
}

/// Hands out a stored value: an object as a copy with scopes of its own
/// and the span of the place that reads it, anything else as it is stored.
pub open spec fn hand_out(m: Machine, value: Node, span: Span) -> (Machine, Node) {
    match value.kind {
        Kind::OBJECT { class_name, scope } => {
            let (scopes, copy) = deep_copy(m.scopes, scope);
            match copy {
                Some(id) => (
                    Machine { scopes, ..m },
                    Node { kind: Kind::OBJECT { class_name, scope: id }, span },
                ),
                None => (m, Node::noop()),
            }
        },
        _ => (m, sanitize(value)),
    }
}

/// Reads a variable. An object is handed out as a copy with a scope of its
/// own; anything else as it is stored.
pub open spec fn read_variable(m: Machine, name: Seq<char>, span: Span) -> (Machine, Node) {
    if m.stopped() {
        (m, Node::noop())
    } else {
        match resolve(m.scopes, Table::Variables, m.current, name) {
            None => (
                m.fail(ETypes::IdentifierError, Table::Variables.missing_text(name), span),
                Node::noop(),
            ),
            Some(def) => match def.kind {
                Kind::VAR_DEF { value, .. } => hand_out(m, *value, span),
                _ => (m, Node::noop()),
            },
        }
    }
}

/// What holds of a binary operation whatever the embedder's arithmetic
/// answers: where both operands evaluate and the operator is the
/// embedder's to apply, the state is what the operands left, and the
/// result is a floating-point number or a truth value with the span of the
/// operation; or the divisor was zero, which is reported at the divisor and
/// is fatal.
pub open spec fn binop_by_host(
    before: Machine,
    node: Node,
    fuel: nat,
    after: Machine,
    r: Result<Node, Halt>,
) -> bool {
    match node.kind {
        Kind::BINOP { left, op, right } => {
            let (m1, l) = eval(before, *left, fuel);
            let (m2, rt) = eval(m1, *right, fuel);
            (!before.stopped() && !m1.stopped() && !m2.stopped() && binop(op, l, rt, node.span)
                is Host) ==> match r {
                Ok(n) => after == m2 && crate::values::host_shaped(op, Ok(n), node.span, rt.span),
                Err(h) => h == Halt::Fatal && (op is DIV || op is MOD) && after == m2.fail(
                    ETypes::DivideByZeroError,
                    "Cannot divide by zero"@,
                    rt.span,
                ),
            }
        },
        _ => true,
    }
}

/// What holds of a unary operation whatever the embedder's arithmetic
/// answers: the negation of a floating-point number leaves the state as the
/// operand left it and yields a floating-point number with the span of the
/// operation.
pub open spec fn unop_by_host(
    before: Machine,
    node: Node,
    fuel: nat,
    after: Machine,
    r: Result<Node, Halt>,
) -> bool {
    match node.kind {
        Kind::UNOP { op, body } => {
            let (m1, b) = eval(before, *body, fuel);
            (!before.stopped() && !m1.stopped() && unop(op, b, node.span) is None) ==> match r {
                Ok(n) => after == m1 && n.kind is FLOAT && n.span == node.span,
                Err(_) => false,
            }
        },
        _ => true,
    }
}

/// The message for a string that denotes no floating-point number.
pub open spec fn float_cast_text(text: Seq<char>) -> Seq<char> {
    "Could not cast '"@ + text + "' to type 'Float'"@
}

/// What holds of `to_float` whatever the embedder reads: where the
/// argument evaluates to a string, the state is what the argument left and
/// the result a floating-point number with the span of the call; or the
/// string denotes none, which is reported and is fatal.
pub open spec fn to_float_by_host(
    before: Machine,
    node: Node,
    fuel: nat,
    after: Machine,
    r: Result<Node, Halt>,
) -> bool {
    match node.kind {
        Kind::FUNC_CALL { args, .. } => if args.len() == 1 {
            let (m1, v) = eval(before, args[0], fuel);
            (!before.stopped() && !m1.stopped() && v.kind is STRING) ==> match r {
                Ok(n) => after == m1 && n.kind is FLOAT && n.span == node.span,
                Err(h) => h == Halt::Fatal && after == m1.fail(
                    ETypes::TypeError,
                    float_cast_text(v.kind->STRING_str_value),
                    node.span,
                ),
            }
        } else {
            true
        },
        _ => true,
    }
}

/// What holds of `write` whatever text the embedder gives a number: where
/// the arguments evaluate, a result comes with exactly one more line of
/// output and the rest of the state as the arguments left it, and the only
/// halt is the one for a value nested too deep.
pub open spec fn write_by_host(
    before: Machine,
    node: Node,
    fuel: nat,
    after: Machine,
    r: Result<Node, Halt>,
) -> bool {
    match node.kind {
        Kind::FUNC_CALL { args, .. } => {
            let (m1, values) = eval_args(before, args, 0, Seq::empty(), fuel);
            (!before.stopped() && !m1.stopped()) ==> match r {
                Ok(n) => {
                    &&& n == Node::noop()
                    &&& after.output.len() == m1.output.len() + 1
                    &&& after.output.drop_last() == m1.output
                    &&& (Machine { output: m1.output, ..after }) == m1
                },
                Err(h) => h == Halt::OutOfFuel,
            }
        },
        _ => true,
    }
}

} // verus!
