//! The evaluator: walks a tree, changes scopes and cells, and yields values.

use vstd::prelude::*;
use crate::ast::{
    lemma_nodes_view, lemma_nodes_view_push, lemma_view, nodes_view, ASTNode, Kind, Node, AST,
};
use crate::error::{ETypes, ErrorInfo, ErrorStack};
use crate::host::FloatUnit;
use crate::scope::{entry_name, find_in, quoted_message, scopes_view, Scope, Table};
use crate::semantics::{
    binop_by_host, unop_by_host, hand_out, eval_blueprint, eval_function_definition, eval_list_literal, eval_variable, access, assign_into, assign_walk, eval_list_reassign, eval_obj_index, eval_obj_reassign,
    locate, property_text, eval_binop, eval_index_of, eval_new, eval_return, eval_unop, eval_variable_definition,
    eval_variable_reassign, add_all, add_methods, arity_text, bind_args, cell_node, define, deref, eval, eval_args,
    eval_call, eval_compound, eval_if, eval_index, eval_list, eval_while, invoke, is_keyword,
    object_scopes, out_of_bounds_text, read_variable, returned, sanitize, sentinel_only, show,
    show_functions, show_list, show_parameters, show_variables, Halt, Machine, Shown,
};
use crate::stdfunc::{
    std_func_debug, std_func_length, std_func_random_int, std_func_read, std_func_replace,
    std_func_to_float, std_func_to_int, std_func_type, std_func_write,
};
use crate::text::{i32_to_string, is_word, usize_to_string};
use crate::values::{apply_binop, apply_unop};

verus! {

/// The evaluator and everything it holds: the scopes, the shared cells of
/// lists, the errors reported, the lines written and the lines to read.
#[derive(Debug)]
pub struct Visitor {
    pub scopes: Vec<Scope>,
    pub cells: Vec<ASTNode>,
    pub current_scope: usize,
    pub errorstack: ErrorStack,
    pub output: Vec<String>,
    pub input: Vec<String>,
    pub next_input: usize,
    pub halted: Option<Halt>,
}

/// The values of a sequence of strings.
pub open spec fn strings_view(s: Seq<String>) -> Seq<Seq<char>> {
    s.map_values(|x: String| x@)
}

impl View for Visitor {
    type V = Machine;

    open spec fn view(&self) -> Machine {
        Machine {
            scopes: scopes_view(self.scopes@),
            cells: nodes_view(self.cells@),
            current: self.current_scope as nat,
            errors: self.errorstack@,
            output: strings_view(self.output@),
            input: strings_view(self.input@),
            next_input: self.next_input as nat,
            halted: self.halted,
            foreign: false,
        }
    }
}

/// Whether an evaluator and a result are what the model says they are.
/// Nothing is claimed once a result came from outside the library.
pub open spec fn realizes(v: Visitor, r: Result<ASTNode, Halt>, expected: (Machine, Node)) -> bool {
    !expected.0.foreign ==> {
        &&& v@ == expected.0
        &&& match expected.0.halted {
            Some(h) => r == Err::<ASTNode, Halt>(h),
            None => r matches Ok(n) && n@ == expected.1,
        }
    }
}

/// The value of a result.
pub open spec fn result_view(r: Result<ASTNode, Halt>) -> Result<Node, Halt> {
    match r {
        Ok(n) => Ok(n@),
        Err(h) => Err(h),
    }
}

/// What every step of the evaluator promises: the state and the result are
/// what the model says, a result is a value and leaves the evaluator
/// running, and a halt is recorded in the evaluator.
pub open spec fn visits(v: Visitor, r: Result<ASTNode, Halt>, expected: (Machine, Node)) -> bool {
    &&& realizes(v, r, expected)
    &&& r matches Ok(n) ==> n@.kind.is_value() && v.halted is None
    &&& r matches Err(h) ==> v.halted == Some(h)
}

/// Whether a name is one of the words that no definition may bind.
pub fn is_keyword_name(name: &String) -> (r: bool)
    ensures
        r == is_keyword(name@),
{
    is_word(name, "assign") || is_word(name, "funct") || is_word(name, "if") || is_word(
        name,
        "param",
    ) || is_word(name, "return") || is_word(name, "blueprint") || is_word(name, "new") || is_word(
        name,
        "while",
    ) || is_word(name, "break") || is_word(name, "true") || is_word(name, "false")
}

/// A copy of a node where its kind is one that evaluation may yield, and
/// "no value" otherwise.
pub fn sanitized(node: &ASTNode) -> (r: ASTNode)
    ensures
        r@ == sanitize(node@),
        r@.kind.is_value(),
{
    if node.kind.is_value() {
        node.clone()
    } else {
        ASTNode::new_noop()
    }
}

/// The result of a body inside a conditional or a loop: a sentinel goes up
/// unchanged, anything else is dropped.
pub fn sentinel(r: ASTNode) -> (out: ASTNode)
    ensures
        out@ == sentinel_only(r@),
        r@.kind.is_value() ==> out@.kind.is_value(),
{
    match &r.kind {
        AST::RETURN { .. } | AST::BREAK => r,
        _ => ASTNode::new_noop(),
    }
}

/// The message for an index outside a list.
pub fn out_of_bounds_message(index: i32, len: usize) -> (s: String)
    ensures
        s@ == out_of_bounds_text(index as int, len as nat),
{
    let mut s = String::from_str("Index ");
    s.append(i32_to_string(index).as_str());
    s.append(" is out of bounds for list of length ");
    s.append(usize_to_string(len).as_str());
    s
}

/// A returned value where a body yielded `return`, and "no value" otherwise.
pub fn returned_value(r: &ASTNode) -> (out: ASTNode)
    ensures
        out@ == returned(r@),
        out@.kind.is_value(),
{
    proof {
        lemma_view(*r);
    }
    match &r.kind {
        AST::RETURN { value } => sanitized(value),
        _ => ASTNode::new_noop(),
    }
}

/// The message for a property that an object does not have.
pub fn property_message(name: &String, class_name: &String) -> (s: String)
    ensures
        s@ == property_text(name@, class_name@),
{
    let mut s = String::from_str("Property '");
    s.append(name.as_str());
    s.append("' does not exist on blueprint '");
    s.append(class_name.as_str());
    s.append("'");
    s
}

/// The message for a call with the wrong number of arguments.
pub fn arity_message(name: &String, wanted: usize, given: usize) -> (s: String)
    ensures
        s@ == arity_text(name@, wanted as nat, given as nat),
{
    let mut s = String::from_str("Function '");
    s.append(name.as_str());
    s.append("' requires ");
    s.append(usize_to_string(wanted).as_str());
    s.append(" argument(s), not ");
    s.append(usize_to_string(given).as_str());
    s
}

fn show_parameters_into(s: &mut String, parameters: &Vec<ASTNode>)
    ensures
        final(s)@ == show_parameters(nodes_view(parameters@), 0, old(s)@),
{
    proof {
        lemma_nodes_view(parameters@);
    }
    let mut i: usize = 0;
    while i < parameters.len()
        invariant
            i <= parameters.len(),
            nodes_view(parameters@).len() == parameters@.len(),
            forall|j: int|
                0 <= j < parameters@.len() ==> (#[trigger] nodes_view(parameters@)[j])
                    == parameters@[j]@,
            show_parameters(nodes_view(parameters@), 0, old(s)@) == show_parameters(
                nodes_view(parameters@),
                i as nat,
                s@,
            ),
        decreases parameters.len() - i,
    {
        if i > 0 {
            s.append(", ");
        } else {
            s.append("params: ");
        }
        proof {
            lemma_view(parameters@[i as int]);
        }
        match &parameters[i].kind {
            AST::VAR_DEF { name, .. } => {
                s.append(name.as_str());
            },
            _ => {},
        }
        i += 1;
    }
}

fn show_functions_into(s: &mut String, functions: &Vec<ASTNode>, lead: bool)
    ensures
        final(s)@ == show_functions(nodes_view(functions@), 0, old(s)@, lead),
{
    proof {
        lemma_nodes_view(functions@);
    }
    let mut i: usize = 0;
    while i < functions.len()
        invariant
            i <= functions.len(),
            nodes_view(functions@).len() == functions@.len(),
            forall|j: int|
                0 <= j < functions@.len() ==> (#[trigger] nodes_view(functions@)[j])
                    == functions@[j]@,
            show_functions(nodes_view(functions@), 0, old(s)@, lead) == show_functions(
                nodes_view(functions@),
                i as nat,
                s@,
                lead,
            ),
        decreases functions.len() - i,
    {
        if i > 0 || lead {
            s.append(", ");
        }
        proof {
            lemma_view(functions@[i as int]);
        }
        match &functions[i].kind {
            AST::FUNC_DEF { name, args, .. } => {
                s.append(name.as_str());
                s.append(": function(");
                show_parameters_into(s, args);
                s.append(")");
            },
            _ => {},
        }
        i += 1;
    }
}

fn add_each(scopes: &mut Vec<Scope>, t: Table, at: usize, entries: &Vec<ASTNode>)
    ensures
        scopes_view(final(scopes)@) == add_all(
            scopes_view(old(scopes)@),
            t,
            at as nat,
            nodes_view(entries@),
            0,
        ),
{
    proof {
        lemma_nodes_view(entries@);
    }
    let mut i: usize = 0;
    while i < entries.len()
        invariant
            i <= entries.len(),
            nodes_view(entries@).len() == entries@.len(),
            forall|j: int|
                0 <= j < entries@.len() ==> (#[trigger] nodes_view(entries@)[j]) == entries@[j]@,
            add_all(scopes_view(old(scopes)@), t, at as nat, nodes_view(entries@), 0) == add_all(
                scopes_view(scopes@),
                t,
                at as nat,
                nodes_view(entries@),
                i as nat,
            ),
        decreases entries.len() - i,
    {
        let _ = match t {
            Table::Variables => Scope::add_var(scopes, at, &entries[i]),
            Table::Functions => Scope::add_func(scopes, at, &entries[i]),
            Table::Classes => Scope::add_blueprint(scopes, at, &entries[i]),
        };
        i += 1;
    }
}

fn add_methods_to(scopes: &mut Vec<Scope>, at: usize, methods: &Vec<ASTNode>)
    ensures
        scopes_view(final(scopes)@) == add_methods(
            scopes_view(old(scopes)@),
            at as nat,
            nodes_view(methods@),
            0,
        ),
{
    proof {
        lemma_nodes_view(methods@);
    }
    let create = String::from_str("create");
    let mut i: usize = 0;
    while i < methods.len()
        invariant
            i <= methods.len(),
            create@ == "create"@,
            nodes_view(methods@).len() == methods@.len(),
            forall|j: int|
                0 <= j < methods@.len() ==> (#[trigger] nodes_view(methods@)[j]) == methods@[j]@,
            add_methods(scopes_view(old(scopes)@), at as nat, nodes_view(methods@), 0)
                == add_methods(scopes_view(scopes@), at as nat, nodes_view(methods@), i as nat),
        decreases methods.len() - i,
    {
        if !crate::scope::binds(&methods[i], &create) {
            let _ = Scope::add_func(scopes, at, &methods[i]);
        }
        i += 1;
    }
}

impl Visitor {
    /// An evaluator with one empty scope, nothing written and nothing to read.
    pub fn new(errorstack: ErrorStack) -> (r: Visitor)
        ensures
            r@.scopes == seq![crate::scope::ScopeView::empty(None)],
            r@.cells == Seq::<Node>::empty(),
            r@.current == 0,
            r@.errors == errorstack@,
            r@.output == Seq::<Seq<char>>::empty(),
            r@.input == Seq::<Seq<char>>::empty(),
            r@.next_input == 0,
            r@.halted is None,
    {
        let mut scopes: Vec<Scope> = Vec::new();
        scopes.push(Scope::new(None));
        let r = Visitor {
            scopes,
            cells: Vec::new(),
            current_scope: 0,
            errorstack,
            output: Vec::new(),
            input: Vec::new(),
            next_input: 0,
            halted: None,
        };
        assert(r@.scopes =~= seq![crate::scope::ScopeView::empty(None)]);
        assert(r@.output =~= Seq::<Seq<char>>::empty());
        assert(r@.input =~= Seq::<Seq<char>>::empty());
        r
    }

    /// Records a fatal error and halts the evaluator.
    pub fn fail(&mut self, etype: ETypes, message: &str, einfo: &ErrorInfo) -> (h: Halt)
        ensures
            final(self)@ == old(self)@.fail(etype, message@, einfo@),
            h == Halt::Fatal,
            final(self).halted == Some(h),
    {
        self.errorstack.report(etype, message, einfo);
        self.halted = Some(Halt::Fatal);
        Halt::Fatal
    }

    /// Evaluates a node. `fuel` bounds the depth of calls and the rounds of
    /// loops on the way.
    #[verifier::loop_isolation(false)]
    pub fn visit<H: FloatUnit>(&mut self, host: &H, node: &ASTNode, fuel: u64) -> (r: Result<
        ASTNode,
        Halt,
    >)
        ensures
            visits(*final(self), r, eval(old(self)@, node@, fuel as nat)),
        decreases fuel, node, 4nat,
    {
        if let Some(h) = self.halted {
            return Err(h);
        }
        proof {
            lemma_view(*node);
        }
        match &node.kind {
            AST::STRING { .. }
            | AST::INT { .. }
            | AST::FLOAT { .. }
            | AST::BOOL { .. }
            | AST::BREAK
            | AST::OBJECT { .. }
            | AST::TYPE { .. }
            | AST::NOOP => Ok(node.clone()),
            AST::CELL { id } => {
                proof {
                    lemma_nodes_view(self.cells@);
                }
                if *id < self.cells.len() {
                    Ok(sanitized(&self.cells[*id]))
                } else {
                    Ok(ASTNode::new_noop())
                }
            },
            AST::BINOP { .. } => self.visit_binop(host, node, fuel),
            AST::UNOP { .. } => self.visit_unop(host, node, fuel),
            AST::RETURN { .. } => self.visit_return(host, node, fuel),
            AST::VAR_DEF { .. } => self.visit_variable_definition(host, node, fuel),
            AST::VAR_REASSIGN { .. } => self.visit_variable_reassign(host, node, fuel),
            AST::VAR { .. } => self.visit_variable(node),
            AST::FUNC_DEF { .. } => self.visit_function_definition(node),
            AST::CLASS { .. } => self.visit_blueprint(node),
            AST::LIST { .. } => self.visit_list(host, node, fuel),
            AST::INDEX { .. } => self.visit_index(host, node, fuel),
            AST::IF { .. } => self.visit_if(host, node, fuel),
            AST::WHILE { .. } => self.visit_while(host, node, fuel),
            AST::FUNC_CALL { .. } => self.visit_function_call(host, node, None, fuel),
            AST::NEW { .. } => self.visit_new(host, node, fuel),
            AST::LIST_REASSIGN { .. } => self.visit_list_reassign(host, node, fuel),
            AST::OBJECT_INDEX { .. } => self.visit_obj_index(host, node, fuel),
            AST::OBJECT_REASSIGN { .. } => self.visit_obj_reassign(host, node, fuel),
            AST::COMPOUND { compound_value } => {
                let ghost whole = eval(old(self)@, node@, fuel as nat);
                let mut i: usize = 0;
                while i < compound_value.len()
                    invariant
                        i <= compound_value.len(),
                        node.kind == (AST::COMPOUND { compound_value: *compound_value }),
                        self.halted is None,
                        whole.0.foreign || whole == eval_compound(
                            self@,
                            nodes_view(compound_value@),
                            i as nat,
                            fuel as nat,
                        ),
                    decreases compound_value.len() - i,
                {
                    proof {
                        lemma_nodes_view(compound_value@);
                    }
                    let r = self.visit(host, &compound_value[i], fuel)?;
                    match &r.kind {
                        AST::RETURN { .. } | AST::BREAK => {
                            return Ok(r);
                        },
                        _ => {},
                    }
                    i += 1;
                }
                proof {
                    lemma_nodes_view(compound_value@);
                }
                Ok(ASTNode::new_noop())
            },
            _ => Ok(ASTNode::new_noop()),
        }
    }

    /// Evaluates both operands of a binary operation, left to right, and
    /// applies the operator.
    pub fn visit_binop<H: FloatUnit>(&mut self, host: &H, node: &ASTNode, fuel: u64) -> (r: Result<
        ASTNode,
        Halt,
    >)
        ensures
            visits(*final(self), r, eval_binop(old(self)@, node@, fuel as nat)),
            binop_by_host(old(self)@, node@, fuel as nat, final(self)@, result_view(r)),
        decreases fuel, node, 3nat,
    {
        if let Some(h) = self.halted {
            return Err(h);
        }
        proof {
            lemma_view(*node);
        }
        match &node.kind {
            AST::BINOP { left, op, right } => {
                let l = self.visit(host, left, fuel)?;
                let r = self.visit(host, right, fuel)?;
                match apply_binop(host, op, &l, &r, &node.einfo) {
                    Ok(v) => Ok(v),
                    Err(at) => Err(
                        self.fail(ETypes::DivideByZeroError, "Cannot divide by zero", &at),
                    ),
                }
            },
            _ => Ok(ASTNode::new_noop()),
        }
    }

    /// Evaluates the operand of a unary operation and applies the operator.
    pub fn visit_unop<H: FloatUnit>(&mut self, host: &H, node: &ASTNode, fuel: u64) -> (r: Result<
        ASTNode,
        Halt,
    >)
        ensures
            visits(*final(self), r, eval_unop(old(self)@, node@, fuel as nat)),
            unop_by_host(old(self)@, node@, fuel as nat, final(self)@, result_view(r)),
        decreases fuel, node, 3nat,
    {
        if let Some(h) = self.halted {
            return Err(h);
        }
        proof {
            lemma_view(*node);
        }
        match &node.kind {
            AST::UNOP { op, body } => {
                let b = self.visit(host, body, fuel)?;
                Ok(apply_unop(host, op, &b, &node.einfo))
            },
            _ => Ok(ASTNode::new_noop()),
        }
    }

    /// Evaluates the value of a `return` and wraps it in the sentinel that
    /// unwinds a function body.
    pub fn visit_return<H: FloatUnit>(&mut self, host: &H, node: &ASTNode, fuel: u64) -> (r: Result<
        ASTNode,
        Halt,
    >)
        ensures
            visits(*final(self), r, eval_return(old(self)@, node@, fuel as nat)),
        decreases fuel, node, 3nat,
    {
        if let Some(h) = self.halted {
            return Err(h);
        }
        proof {
            lemma_view(*node);
        }
        match &node.kind {
            AST::RETURN { value } => {
                let v = self.visit(host, value, fuel)?;
                Ok(ASTNode::new(AST::RETURN { value: Box::new(v) }, node.einfo.clone()))
            },
            _ => Ok(ASTNode::new_noop()),
        }
    }

    /// Evaluates the value of a definition and defines the variable in the
    /// current scope.
    pub fn visit_variable_definition<H: FloatUnit>(
        &mut self,
        host: &H,
        node: &ASTNode,
        fuel: u64,
    ) -> (r: Result<ASTNode, Halt>)
        ensures
            visits(*final(self), r, eval_variable_definition(old(self)@, node@, fuel as nat)),
        decreases fuel, node, 3nat,
    {
        if let Some(h) = self.halted {
            return Err(h);
        }
        proof {
            lemma_view(*node);
        }
        match &node.kind {
            AST::VAR_DEF { name, value } => {
                if is_keyword_name(name) {
                    return Err(
                        self.fail(
                            ETypes::VariableDefinitionError,
                            "Illegal use of keyword for variable definition",
                            &node.einfo,
                        ),
                    );
                }
                let v = self.visit(host, value, fuel)?;
                let def = ASTNode::new(
                    AST::VAR_DEF { name: name.clone(), value: Box::new(v) },
                    node.einfo.clone(),
                );
                match Scope::add_var(&mut self.scopes, self.current_scope, &def) {
                    Ok(_) => Ok(ASTNode::new_noop()),
                    Err(s) => Err(
                        self.fail(ETypes::VariableDefinitionError, s.as_str(), &node.einfo),
                    ),
                }
            },
            _ => Ok(ASTNode::new_noop()),
        }
    }

    /// Evaluates the value of an assignment and rebinds the variable in the
    /// nearest scope that binds it.
    pub fn visit_variable_reassign<H: FloatUnit>(
        &mut self,
        host: &H,
        node: &ASTNode,
        fuel: u64,
    ) -> (r: Result<ASTNode, Halt>)
        ensures
            visits(*final(self), r, eval_variable_reassign(old(self)@, node@, fuel as nat)),
        decreases fuel, node, 3nat,
    {
        if let Some(h) = self.halted {
            return Err(h);
        }
        proof {
            lemma_view(*node);
        }
        match &node.kind {
            AST::VAR_REASSIGN { name, value } => {
                let v = self.visit(host, value, fuel)?;
                let def = ASTNode::new(
                    AST::VAR_DEF { name: name.clone(), value: Box::new(v) },
                    node.einfo.clone(),
                );
                match Scope::set_var(&mut self.scopes, self.current_scope, name, &def) {
                    Ok(_) => Ok(ASTNode::new_noop()),
                    Err(s) => Err(
                        self.fail(ETypes::VariableDefinitionError, s.as_str(), &node.einfo),
                    ),
                }
            },
            _ => Ok(ASTNode::new_noop()),
        }
    }

    /// Reads a variable. An object is handed out as a copy with a scope of its
    /// own.
    pub fn visit_variable(&mut self, node: &ASTNode) -> (r: Result<ASTNode, Halt>)
        ensures
            visits(*final(self), r, eval_variable(old(self)@, node@)),
    {
        if let Some(h) = self.halted {
            return Err(h);
        }
        proof {
            lemma_view(*node);
        }
        match &node.kind {
            AST::VAR { name } => {
                match Scope::resolve_var_cloned(&self.scopes, self.current_scope, name) {
                    None => {
                        let message = quoted_message(
                            "Variable",
                            name,
                            "' does not exist in the current scope",
                        );
                        Err(self.fail(ETypes::IdentifierError, message.as_str(), &node.einfo))
                    },
                    Some(def) => {
                        proof {
                            lemma_view(def);
                        }
                        match &def.kind {
                            AST::VAR_DEF { value, .. } => Ok(self.hand_out(value, &node.einfo)),
                            _ => Ok(ASTNode::new_noop()),
                        }
                    },
                }
            },
            _ => Ok(ASTNode::new_noop()),
        }
    }


    /// Halts the evaluator for want of fuel.
    pub fn exhaust(&mut self) -> (h: Halt)
        ensures
            final(self)@ == old(self)@.exhaust(),
            h == Halt::OutOfFuel,
            final(self).halted == Some(h),
    {
        self.halted = Some(Halt::OutOfFuel);
        Halt::OutOfFuel
    }

    /// Records an error that is not fatal.
    pub fn report(&mut self, etype: ETypes, message: &str, einfo: &ErrorInfo)
        ensures
            final(self)@ == old(self)@.report(etype, message@, einfo@),
            final(self).halted == old(self).halted,
    {
        self.errorstack.report(etype, message, einfo);
    }

    /// Hands out a stored value: an object as a copy with scopes of its
    /// own and the given span, anything else as it is stored.
    pub fn hand_out(&mut self, value: &ASTNode, einfo: &ErrorInfo) -> (r: ASTNode)
        ensures
            (final(self)@, r@) == hand_out(old(self)@, value@, einfo@),
            r@.kind.is_value(),
            final(self).halted == old(self).halted,
    {
        proof {
            lemma_view(*value);
        }
        match &value.kind {
            AST::OBJECT { class_name, scope } => {
                match Scope::deep_clone(&mut self.scopes, Some(*scope)) {
                    Some(id) => ASTNode::new(
                        AST::OBJECT { class_name: class_name.clone(), scope: id },
                        einfo.clone(),
                    ),
                    None => ASTNode::new_noop(),
                }
            },
            _ => sanitized(value),
        }
    }

    /// What an element of a list value holds.
    pub fn element(&self, element: &ASTNode) -> (r: ASTNode)
        ensures
            r@ == deref(self@.cells, element@),
            r@.kind.is_value(),
    {
        proof {
            lemma_nodes_view(self.cells@);
        }
        match &element.kind {
            AST::CELL { id } => if *id < self.cells.len() {
                sanitized(&self.cells[*id])
            } else {
                ASTNode::new_noop()
            },
            _ => ASTNode::new_noop(),
        }
    }

    /// Puts a value in a fresh cell and returns the handle to it.
    fn store(&mut self, value: ASTNode) -> (r: ASTNode)
        ensures
            r@ == cell_node(old(self)@.cells.len()),
            final(self)@ == (Machine { cells: old(self)@.cells.push(value@), ..old(self)@ }),
            final(self).halted == old(self).halted,
    {
        proof {
            lemma_nodes_view_push(self.cells@, value);
            lemma_nodes_view(self.cells@);
        }
        let id = self.cells.len();
        self.cells.push(value);
        ASTNode::new(AST::CELL { id }, ErrorInfo::empty())
    }

    /// Defines a function in the current scope.
    pub fn visit_function_definition(&mut self, node: &ASTNode) -> (r: Result<ASTNode, Halt>)
        ensures
            visits(*final(self), r, eval_function_definition(old(self)@, node@)),
    {
        if let Some(h) = self.halted {
            return Err(h);
        }
        proof {
            lemma_view(*node);
        }
        match &node.kind {
            AST::FUNC_DEF { name, .. } => {
                if is_keyword_name(name) {
                    return Err(
                        self.fail(
                            ETypes::FunctionDefinitionError,
                            "Illegal use of keyword for function definition",
                            &node.einfo,
                        ),
                    );
                }
                match Scope::add_func(&mut self.scopes, self.current_scope, node) {
                    Ok(_) => Ok(ASTNode::new_noop()),
                    Err(s) => Err(
                        self.fail(ETypes::FunctionDefinitionError, s.as_str(), &node.einfo),
                    ),
                }
            },
            _ => Ok(ASTNode::new_noop()),
        }
    }

    /// Defines a blueprint in the current scope.
    pub fn visit_blueprint(&mut self, node: &ASTNode) -> (r: Result<ASTNode, Halt>)
        ensures
            visits(*final(self), r, eval_blueprint(old(self)@, node@)),
    {
        if let Some(h) = self.halted {
            return Err(h);
        }
        proof {
            lemma_view(*node);
        }
        match &node.kind {
            AST::CLASS { name, .. } => {
                if is_keyword_name(name) {
                    return Err(
                        self.fail(
                            ETypes::BlueprintError,
                            "Illegal use of keyword for blueprint definition",
                            &node.einfo,
                        ),
                    );
                }
                match Scope::add_blueprint(&mut self.scopes, self.current_scope, node) {
                    Ok(_) => Ok(ASTNode::new_noop()),
                    Err(s) => Err(self.fail(ETypes::BlueprintError, s.as_str(), &node.einfo)),
                }
            },
            _ => Ok(ASTNode::new_noop()),
        }
    }

    /// Evaluates a list literal: each element, in order, into a fresh cell.
    #[verifier::loop_isolation(false)]
    pub fn visit_list<H: FloatUnit>(&mut self, host: &H, node: &ASTNode, fuel: u64) -> (r: Result<
        ASTNode,
        Halt,
    >)
        ensures
            visits(*final(self), r, eval_list_literal(old(self)@, node@, fuel as nat)),
        decreases fuel, node, 3nat,
    {
        if let Some(h) = self.halted {
            return Err(h);
        }
        proof {
            lemma_view(*node);
        }
        match &node.kind {
            AST::LIST { contents } => {
                let mut acc: Vec<ASTNode> = Vec::new();
                let mut i: usize = 0;
                assert(nodes_view(acc@) =~= Seq::<Node>::empty()) by {
                    lemma_nodes_view(acc@);
                }
                let ghost whole = eval_list(
                    old(self)@,
                    nodes_view(contents@),
                    0,
                    Seq::empty(),
                    node@.span,
                    fuel as nat,
                );
                while i < contents.len()
                    invariant
                        i <= contents.len(),
                        node.kind == (AST::LIST { contents: *contents }),
                        self.halted is None,
                        whole.0.foreign || whole == eval_list(
                            self@,
                            nodes_view(contents@),
                            i as nat,
                            nodes_view(acc@),
                            node@.span,
                            fuel as nat,
                        ),
                    decreases contents.len() - i,
                {
                    proof {
                        lemma_nodes_view(contents@);
                    }
                    let v = self.visit(host, &contents[i], fuel)?;
                    let handle = self.store(v);
                    proof {
                        lemma_nodes_view_push(acc@, handle);
                    }
                    acc.push(handle);
                    i += 1;
                }
                proof {
                    lemma_nodes_view(contents@);
                }
                Ok(ASTNode::new(AST::LIST { contents: acc }, node.einfo.clone()))
            },
            _ => Ok(ASTNode::new_noop()),
        }
    }

    /// Evaluates the target of an index expression and descends through the
    /// indices.
    #[verifier::loop_isolation(false)]
    pub fn visit_index<H: FloatUnit>(&mut self, host: &H, node: &ASTNode, fuel: u64) -> (r: Result<
        ASTNode,
        Halt,
    >)
        ensures
            visits(*final(self), r, eval_index_of(old(self)@, node@, fuel as nat)),
        decreases fuel, node, 3nat,
    {
        if let Some(h) = self.halted {
            return Err(h);
        }
        proof {
            lemma_view(*node);
        }
        match &node.kind {
            AST::INDEX { target, indices } => {
                let mut cur = self.visit(host, target, fuel)?;
                let ghost whole = eval_index_of(old(self)@, node@, fuel as nat);
                let mut i: usize = 0;
                while i < indices.len()
                    invariant
                        i <= indices.len(),
                        node.kind == (AST::INDEX { target: *target, indices: *indices }),
                        self.halted is None,
                        cur@.kind.is_value(),
                        whole.0.foreign || whole == eval_index(
                            self@,
                            cur@,
                            nodes_view(indices@),
                            i as nat,
                            fuel as nat,
                        ),
                    decreases indices.len() - i,
                {
                    proof {
                        lemma_nodes_view(indices@);
                    }
                    let ix = self.visit(host, &indices[i], fuel)?;
                    let next = match &ix.kind {
                        AST::INT { int_value } => match &cur.kind {
                            AST::LIST { contents } => {
                                proof {
                                    lemma_nodes_view(contents@);
                                }
                                if *int_value < 0 || (*int_value as usize) >= contents.len() {
                                    let message = out_of_bounds_message(*int_value, contents.len());
                                    return Err(
                                        self.fail(ETypes::ListError, message.as_str(), &ix.einfo),
                                    );
                                }
                                self.element(&contents[*int_value as usize])
                            },
                            _ => {
                                self.report(
                                    ETypes::ListError,
                                    "Indexed target is not a list",
                                    &cur.einfo,
                                );
                                return Ok(ASTNode::new_noop());
                            },
                        },
                        _ => {
                            return Err(
                                self.fail(
                                    ETypes::ListError,
                                    "Expected integer to index list",
                                    &ix.einfo,
                                ),
                            );
                        },
                    };
                    cur = next;
                    i += 1;
                }
                proof {
                    lemma_nodes_view(indices@);
                }
                Ok(cur)
            },
            _ => Ok(ASTNode::new_noop()),
        }
    }

    /// Tries the conditions in order and evaluates the body of the first that
    /// holds, or the last body where none does.
    #[verifier::loop_isolation(false)]
    pub fn visit_if<H: FloatUnit>(&mut self, host: &H, node: &ASTNode, fuel: u64) -> (r: Result<
        ASTNode,
        Halt,
    >)
        ensures
            visits(*final(self), r, eval_if(old(self)@, node@, 0, fuel as nat)),
        decreases fuel, node, 3nat,
    {
        if let Some(h) = self.halted {
            return Err(h);
        }
        proof {
            lemma_view(*node);
        }
        match &node.kind {
            AST::IF { conditions, bodies, else_body } => {
                proof {
                    lemma_nodes_view(conditions@);
                    lemma_nodes_view(bodies@);
                }
                let ghost whole = eval_if(old(self)@, node@, 0, fuel as nat);
                let mut i: usize = 0;
                while i < conditions.len() && i < bodies.len()
                    invariant
                        node.kind == (AST::IF {
                            conditions: *conditions,
                            bodies: *bodies,
                            else_body: *else_body,
                        }),
                        self.halted is None,
                        nodes_view(conditions@).len() == conditions@.len(),
                        nodes_view(bodies@).len() == bodies@.len(),
                        forall|j: int|
                            0 <= j < conditions@.len() ==> (#[trigger] nodes_view(conditions@)[j])
                                == conditions@[j]@,
                        forall|j: int|
                            0 <= j < bodies@.len() ==> (#[trigger] nodes_view(bodies@)[j])
                                == bodies@[j]@,
                        whole.0.foreign || whole == eval_if(self@, node@, i as nat, fuel as nat),
                    decreases conditions.len() - i,
                {
                    let c = self.visit(host, &conditions[i], fuel)?;
                    match &c.kind {
                        AST::BOOL { bool_value } => {
                            if *bool_value {
                                let r = self.visit(host, &bodies[i], fuel)?;
                                return Ok(sentinel(r));
                            }
                        },
                        _ => {
                            self.report(
                                ETypes::ConditionalError,
                                "Expected conditional expression",
                                &conditions[i].einfo,
                            );
                            return Ok(ASTNode::new_noop());
                        },
                    }
                    i += 1;
                }
                match else_body {
                    Some(b) => {
                        let r = self.visit(host, b, fuel)?;
                        Ok(sentinel(r))
                    },
                    None => Ok(ASTNode::new_noop()),
                }
            },
            _ => Ok(ASTNode::new_noop()),
        }
    }

    /// Runs a loop: each round in a fresh scope below the scope of the loop.
    #[verifier::loop_isolation(false)]
    pub fn visit_while<H: FloatUnit>(&mut self, host: &H, node: &ASTNode, fuel: u64) -> (r: Result<
        ASTNode,
        Halt,
    >)
        ensures
            visits(*final(self), r, eval_while(old(self)@, node@, old(self)@.current, fuel as nat)),
        decreases fuel, node, 3nat,
    {
        if let Some(h) = self.halted {
            return Err(h);
        }
        proof {
            lemma_view(*node);
        }
        match &node.kind {
            AST::WHILE { condition, body } => {
                let origin = self.current_scope;
                let ghost whole = eval_while(old(self)@, node@, old(self)@.current, fuel as nat);
                let mut remaining = fuel;
                loop
                    invariant
                        node.kind == (AST::WHILE { condition: *condition, body: *body }),
                        self.halted is None,
                        remaining <= fuel,
                        whole.0.foreign || whole == eval_while(self@, node@, origin as nat, remaining as nat),
                    decreases remaining,
                {
                    if remaining == 0 {
                        return Err(self.exhaust());
                    }
                    let ghost before = self@;
                    let child = self.scopes.len();
                    self.scopes.push(Scope::new(Some(origin)));
                    self.current_scope = child;
                    assert(self@.scopes =~= before.scopes.push(
                        crate::scope::ScopeView::empty(Some(origin as nat)),
                    ));
                    proof {
                        lemma_view(*node);
                    }
                    let c = self.visit(host, condition, remaining - 1)?;
                    match &c.kind {
                        AST::BOOL { bool_value } => {
                            if !*bool_value {
                                self.current_scope = origin;
                                return Ok(ASTNode::new_noop());
                            }
                        },
                        _ => {
                            self.current_scope = origin;
                            return Ok(ASTNode::new_noop());
                        },
                    }
                    let r = self.visit(host, body, remaining - 1)?;
                    self.current_scope = origin;
                    match &r.kind {
                        AST::RETURN { .. } => {
                            return Ok(r);
                        },
                        AST::BREAK => {
                            return Ok(ASTNode::new_noop());
                        },
                        _ => {},
                    }
                    remaining = remaining - 1;
                }
            },
            _ => Ok(ASTNode::new_noop()),
        }
    }


    /// The text of a value as `write` prints it. `depth` bounds how deep
    /// lists and objects may nest; a value nested deeper is refused.
    #[verifier::loop_isolation(false)]
    pub fn node_to_string<H: FloatUnit>(&self, host: &H, node: &ASTNode, depth: u64) -> (r: Result<
        String,
        Halt,
    >)
        ensures
            match show(self@.cells, self@.scopes, node@, depth as nat) {
                Shown::Text(t) => r matches Ok(s) && s@ == t,
                Shown::TooDeep => r is Err,
                Shown::Host => true,
            },
        decreases depth, 1nat,
    {
        proof {
            lemma_view(*node);
        }
        match &node.kind {
            AST::STRING { str_value } => Ok(str_value.clone()),
            AST::INT { int_value } => Ok(i32_to_string(*int_value)),
            AST::FLOAT { float_value } => Ok(host.to_text(*float_value)),
            AST::BOOL { bool_value } => Ok(
                if *bool_value {
                    String::from_str("true")
                } else {
                    String::from_str("false")
                },
            ),
            AST::TYPE { type_value } => Ok(type_value.clone()),
            AST::NOOP => Ok(String::from_str("no operation")),
            AST::LIST { contents } => {
                if depth == 0 {
                    return Err(Halt::OutOfFuel);
                }
                let mut s = String::from_str("[");
                let mut i: usize = 0;
                proof {
                    lemma_nodes_view(contents@);
                }
                while i < contents.len()
                    invariant
                        i <= contents.len(),
                        depth > 0,
                        nodes_view(contents@).len() == contents@.len(),
                        forall|j: int|
                            0 <= j < contents@.len() ==> (#[trigger] nodes_view(contents@)[j])
                                == contents@[j]@,
                        show(self@.cells, self@.scopes, node@, depth as nat) is Host || show(
                            self@.cells,
                            self@.scopes,
                            node@,
                            depth as nat,
                        ) == show_list(
                            self@.cells,
                            self@.scopes,
                            nodes_view(contents@),
                            i as nat,
                            s@,
                            (depth - 1) as nat,
                        ),
                    decreases contents.len() - i,
                {
                    let item = self.element(&contents[i]);
                    let t = self.node_to_string(host, &item, depth - 1)?;
                    if i > 0 {
                        s.append(", ");
                    }
                    s.append(t.as_str());
                    i += 1;
                }
                s.append("]");
                Ok(s)
            },
            AST::OBJECT { class_name, scope } => {
                if depth == 0 {
                    return Err(Halt::OutOfFuel);
                }
                let mut s = class_name.clone();
                s.append(" instance { ");
                if *scope >= self.scopes.len() {
                    s.append(" }");
                    return Ok(s);
                }
                assert(scopes_view(self.scopes@)[*scope as int] == self.scopes@[*scope as int]@);
                let variables = &self.scopes[*scope].variables;
                let functions = &self.scopes[*scope].functions;
                proof {
                    lemma_nodes_view(variables@);
                }
                let ghost start = s@;
                let ghost whole = show_variables(
                    self@.cells,
                    self@.scopes,
                    nodes_view(variables@),
                    0,
                    start,
                    (depth - 1) as nat,
                );
                let mut i: usize = 0;
                while i < variables.len()
                    invariant
                        i <= variables.len(),
                        depth > 0,
                        nodes_view(variables@).len() == variables@.len(),
                        forall|j: int|
                            0 <= j < variables@.len() ==> (#[trigger] nodes_view(variables@)[j])
                                == variables@[j]@,
                        whole is Host || whole == show_variables(
                            self@.cells,
                            self@.scopes,
                            nodes_view(variables@),
                            i as nat,
                            s@,
                            (depth - 1) as nat,
                        ),
                    decreases variables.len() - i,
                {
                    if i > 0 {
                        s.append(", ");
                    }
                    proof {
                        lemma_view(variables@[i as int]);
                    }
                    match &variables[i].kind {
                        AST::VAR_DEF { name, value } => {
                            let v = sanitized(value);
                            match self.node_to_string(host, &v, depth - 1) {
                                Ok(t) => {
                                    s.append(name.as_str());
                                    s.append(": \"");
                                    s.append(t.as_str());
                                    s.append("\"");
                                },
                                Err(h) => {
                                    return Err(h);
                                },
                            }
                        },
                        _ => {},
                    }
                    i += 1;
                }
                show_functions_into(&mut s, functions, variables.len() > 0);
                s.append(" }");
                Ok(s)
            },
            _ => Ok(String::from_str("undefined")),
        }
    }

    /// Evaluates expressions in order and returns their values.
    #[verifier::loop_isolation(false)]
    pub fn visit_args<H: FloatUnit>(&mut self, host: &H, args: &Vec<ASTNode>, fuel: u64) -> (r:
        Result<Vec<ASTNode>, Halt>)
        ensures
            ({
                let expected = eval_args(
                    old(self)@,
                    nodes_view(args@),
                    0,
                    Seq::empty(),
                    fuel as nat,
                );
                !expected.0.foreign ==> {
                    &&& final(self)@ == expected.0
                    &&& match expected.0.halted {
                        Some(h) => r == Err::<Vec<ASTNode>, Halt>(h),
                        None => r matches Ok(values) && nodes_view(values@) == expected.1,
                    }
                }
            }),
            r matches Ok(values) ==> final(self).halted is None && values@.len() == args@.len(),
            r matches Err(h) ==> final(self).halted == Some(h),
        decreases fuel, args, 0nat,
    {
        if let Some(h) = self.halted {
            return Err(h);
        }
        let mut values: Vec<ASTNode> = Vec::new();
        let mut i: usize = 0;
        proof {
            lemma_nodes_view(values@);
            lemma_nodes_view(args@);
            assert(nodes_view(values@) =~= Seq::<Node>::empty());
        }
        let ghost whole = eval_args(old(self)@, nodes_view(args@), 0, Seq::empty(), fuel as nat);
        while i < args.len()
            invariant
                i <= args.len(),
                values@.len() == i,
                self.halted is None,
                nodes_view(args@).len() == args@.len(),
                forall|j: int|
                    0 <= j < args@.len() ==> (#[trigger] nodes_view(args@)[j]) == args@[j]@,
                whole.0.foreign || whole == eval_args(
                    self@,
                    nodes_view(args@),
                    i as nat,
                    nodes_view(values@),
                    fuel as nat,
                ),
            decreases args.len() - i,
        {
            let v = self.visit(host, &args[i], fuel)?;
            proof {
                lemma_nodes_view_push(values@, v);
            }
            values.push(v);
            i += 1;
        }
        Ok(values)
    }

    /// Calls a function with the given arguments, in a fresh scope below
    /// `parent`.
    #[verifier::loop_isolation(false)]
    pub fn call_function<H: FloatUnit>(
        &mut self,
        host: &H,
        function: &ASTNode,
        name: &String,
        args: &Vec<ASTNode>,
        einfo: &ErrorInfo,
        parent: usize,
        fuel: u64,
    ) -> (r: Result<ASTNode, Halt>)
        ensures
            visits(
                *final(self),
                r,
                invoke(
                    old(self)@,
                    function@,
                    name@,
                    nodes_view(args@),
                    einfo@,
                    parent as nat,
                    fuel as nat,
                ),
            ),
        decreases fuel, args, 1nat,
    {
        if let Some(h) = self.halted {
            return Err(h);
        }
        proof {
            lemma_view(*function);
        }
        match &function.kind {
            AST::FUNC_DEF { body, args: parameters, .. } => {
                proof {
                    lemma_nodes_view(args@);
                    lemma_nodes_view(parameters@);
                }
                if args.len() != parameters.len() {
                    let message = arity_message(name, parameters.len(), args.len());
                    self.report(ETypes::FunctionError, message.as_str(), einfo);
                    return Ok(ASTNode::new_noop());
                }
                if fuel == 0 {
                    return Err(self.exhaust());
                }
                let frame = self.scopes.len();
                self.scopes.push(Scope::new(Some(parent)));
                assert(self@.scopes =~= old(self)@.scopes.push(
                    crate::scope::ScopeView::empty(Some(parent as nat)),
                ));
                let ghost whole = invoke(
                    old(self)@,
                    function@,
                    name@,
                    nodes_view(args@),
                    einfo@,
                    parent as nat,
                    fuel as nat,
                );
                let ghost bound = bind_args(
                    self@,
                    nodes_view(parameters@),
                    nodes_view(args@),
                    0,
                    frame as nat,
                    fuel as nat,
                );
                let mut i: usize = 0;
                while i < args.len()
                    invariant
                        i <= args.len(),
                        args.len() == parameters.len(),
                        self.halted is None,
                        nodes_view(args@).len() == args@.len(),
                        nodes_view(parameters@).len() == parameters@.len(),
                        forall|j: int|
                            0 <= j < args@.len() ==> (#[trigger] nodes_view(args@)[j]) == args@[j]@,
                        forall|j: int|
                            0 <= j < parameters@.len() ==> (#[trigger] nodes_view(parameters@)[j])
                                == parameters@[j]@,
                        bound.foreign || bound == bind_args(
                            self@,
                            nodes_view(parameters@),
                            nodes_view(args@),
                            i as nat,
                            frame as nat,
                            fuel as nat,
                        ),
                        whole.0.foreign || whole == (if bound.stopped() {
                            (bound, Node::noop())
                        } else {
                            let (m2, r) = eval(
                                Machine { current: frame as nat, ..bound },
                                (**body)@,
                                (fuel - 1) as nat,
                            );
                            if m2.stopped() {
                                (m2, Node::noop())
                            } else {
                                (Machine { current: bound.current, ..m2 }, returned(r))
                            }
                        }),
                    decreases args.len() - i,
                {
                    let v = match self.visit(host, &args[i], fuel) {
                        Ok(v) => v,
                        Err(h) => {
                            return Err(h);
                        },
                    };
                    proof {
                        lemma_view(parameters@[i as int]);
                    }
                    match &parameters[i].kind {
                        AST::VAR_DEF { name: parameter, .. } => {
                            let def = ASTNode::new(
                                AST::VAR_DEF { name: parameter.clone(), value: Box::new(v) },
                                args[i].einfo.clone(),
                            );
                            proof {
                                lemma_view(def);
                            }
                            match Scope::add_var(&mut self.scopes, frame, &def) {
                                Ok(_) => {},
                                Err(text) => {
                                    let ghost lines = self.output@;
                                    self.output.push(text);
                                    assert(strings_view(self.output@) =~= strings_view(lines).push(
                                        text@,
                                    ));
                                },
                            }
                        },
                        _ => {},
                    }
                    i += 1;
                }
                let caller = self.current_scope;
                self.current_scope = frame;
                let r = self.visit(host, body, fuel - 1)?;
                self.current_scope = caller;
                Ok(returned_value(&r))
            },
            _ => Ok(ASTNode::new_noop()),
        }
    }

    /// Evaluates a call. `via` is the scope of the object where the call is
    /// a method call.
    pub fn visit_function_call<H: FloatUnit>(
        &mut self,
        host: &H,
        node: &ASTNode,
        via: Option<usize>,
        fuel: u64,
    ) -> (r: Result<ASTNode, Halt>)
        ensures
            visits(
                *final(self),
                r,
                eval_call(
                    old(self)@,
                    node@,
                    match via {
                        Some(s) => Some(s as nat),
                        None => None,
                    },
                    fuel as nat,
                ),
            ),
        decreases fuel, node, 3nat,
    {
        if let Some(h) = self.halted {
            return Err(h);
        }
        proof {
            lemma_view(*node);
            crate::stdfunc::lemma_builtin_names();
        }
        match &node.kind {
            AST::FUNC_CALL { name, args } => {
                if is_word(name, "write") {
                    return std_func_write(self, host, node, fuel);
                }
                if is_word(name, "read") {
                    return std_func_read(self, node);
                }
                if is_word(name, "ast_debug") {
                    return std_func_debug(self, node);
                }
                if is_word(name, "type") {
                    return std_func_type(self, host, node, fuel);
                }
                if is_word(name, "to_int") {
                    return std_func_to_int(self, host, node, fuel);
                }
                if is_word(name, "to_float") {
                    return std_func_to_float(self, host, node, fuel);
                }
                if is_word(name, "random_int") {
                    return std_func_random_int(self, host, node, fuel);
                }
                if is_word(name, "length") {
                    return std_func_length(self, host, node, fuel);
                }
                if is_word(name, "replace") {
                    return std_func_replace(self, host, node, fuel);
                }
                let from = match via {
                    Some(s) => s,
                    None => self.current_scope,
                };
                match Scope::resolve_func(&self.scopes, from, name) {
                    None => {
                        let message = quoted_message(
                            "Function",
                            name,
                            "' does not exist in the current scope",
                        );
                        Err(self.fail(ETypes::FunctionError, message.as_str(), &node.einfo))
                    },
                    Some(function) => {
                        let parent = match via {
                            Some(s) => s,
                            None => Scope::get_root_scope(&self.scopes, self.current_scope),
                        };
                        self.call_function(host, &function, name, args, &node.einfo, parent, fuel)
                    },
                }
            },
            _ => Ok(ASTNode::new_noop()),
        }
    }

    /// Makes the scope that a new object starts with, and returns its handle.
    fn instantiate(&mut self, properties: &Vec<ASTNode>, methods: &Vec<ASTNode>) -> (id: usize)
        ensures
            id == old(self)@.scopes.len(),
            final(self)@ == (Machine {
                scopes: object_scopes(
                    old(self)@.scopes,
                    old(self)@.current,
                    nodes_view(properties@),
                    nodes_view(methods@),
                ),
                ..old(self)@
            }),
            final(self).halted == old(self).halted,
    {
        let id = self.scopes.len();
        let root = Scope::get_root_scope(&self.scopes, self.current_scope);
        let visible = if root < self.scopes.len() {
            assert(scopes_view(self.scopes@)[root as int] == self.scopes@[root as int]@);
            crate::ast::clone_nodes(&self.scopes[root].classes)
        } else {
            let empty: Vec<ASTNode> = Vec::new();
            proof {
                lemma_nodes_view(empty@);
                assert(nodes_view(empty@) =~= Seq::<Node>::empty());
            }
            empty
        };
        self.scopes.push(Scope::new(None));
        assert(self@.scopes =~= old(self)@.scopes.push(crate::scope::ScopeView::empty(None)));
        add_each(&mut self.scopes, Table::Variables, id, properties);
        add_each(&mut self.scopes, Table::Classes, id, &visible);
        add_methods_to(&mut self.scopes, id, methods);
        id
    }

    /// Makes an object of a blueprint and runs its `create` method on it.
    pub fn visit_new<H: FloatUnit>(&mut self, host: &H, node: &ASTNode, fuel: u64) -> (r: Result<
        ASTNode,
        Halt,
    >)
        ensures
            visits(*final(self), r, eval_new(old(self)@, node@, fuel as nat)),
        decreases fuel, node, 3nat,
    {
        if let Some(h) = self.halted {
            return Err(h);
        }
        proof {
            lemma_view(*node);
        }
        match &node.kind {
            AST::NEW { name, args } => {
                match Scope::resolve_blueprint(&self.scopes, self.current_scope, name) {
                    None => {
                        let message = quoted_message(
                            "Blueprint",
                            name,
                            "' does not exist in the current scope",
                        );
                        Err(self.fail(ETypes::BlueprintError, message.as_str(), &node.einfo))
                    },
                    Some(blueprint) => {
                        proof {
                            lemma_view(blueprint);
                        }
                        match &blueprint.kind {
                            AST::CLASS { properties, methods, .. } => {
                                let create = String::from_str("create");
                                match find_in(methods, &create) {
                                    None => Err(
                                        self.fail(
                                            ETypes::BlueprintError,
                                            "Expected constructor method 'create' for blueprint definition",
                                            &blueprint.einfo,
                                        ),
                                    ),
                                    Some(c) => {
                                        proof {
                                            lemma_nodes_view(methods@);
                                        }
                                        let id = self.instantiate(properties, methods);
                                        let _ = self.call_function(
                                            host,
                                            &methods[c],
                                            &create,
                                            args,
                                            &node.einfo,
                                            id,
                                            fuel,
                                        )?;
                                        Ok(
                                            ASTNode::new(
                                                AST::OBJECT { class_name: name.clone(), scope: id },
                                                node.einfo.clone(),
                                            ),
                                        )
                                    },
                                }
                            },
                            _ => Ok(ASTNode::new_noop()),
                        }
                    },
                }
            },
            _ => Ok(ASTNode::new_noop()),
        }
    }


    /// Reads a property, calls a method or indexes a list of the object
    /// whose scope is `scope`.
    pub fn access<H: FloatUnit>(
        &mut self,
        host: &H,
        class_name: &String,
        scope: usize,
        property: &ASTNode,
        copy: bool,
        fuel: u64,
    ) -> (r: Result<ASTNode, Halt>)
        ensures
            visits(
                *final(self),
                r,
                access(old(self)@, class_name@, scope as nat, property@, copy, fuel as nat),
            ),
        decreases fuel, property, 5nat,
    {
        if let Some(h) = self.halted {
            return Err(h);
        }
        proof {
            lemma_view(*property);
        }
        match &property.kind {
            AST::VAR { name } => match Scope::resolve_var_cloned(&self.scopes, scope, name) {
                Some(def) => {
                    proof {
                        lemma_view(def);
                    }
                    match &def.kind {
                        AST::VAR_DEF { value, .. } => if copy {
                            Ok(self.hand_out(value, &property.einfo))
                        } else {
                            Ok(sanitized(value))
                        },
                        _ => Ok(ASTNode::new_noop()),
                    }
                },
                None => {
                    let message = property_message(name, class_name);
                    self.report(ETypes::BlueprintError, message.as_str(), &property.einfo);
                    Ok(ASTNode::new_noop())
                },
            },
            AST::FUNC_CALL { .. } => self.visit_function_call(host, property, Some(scope), fuel),
            AST::INDEX { .. } | AST::OBJECT_INDEX { .. } => {
                let saved = self.current_scope;
                self.current_scope = scope;
                let r = self.visit(host, property, fuel)?;
                self.current_scope = saved;
                Ok(r)
            },
            _ => Ok(ASTNode::new_noop()),
        }
    }

    /// Evaluates the object of a property access and reads the property, calls
    /// the method or indexes the list.
    pub fn visit_obj_index<H: FloatUnit>(&mut self, host: &H, node: &ASTNode, fuel: u64) -> (r:
        Result<ASTNode, Halt>)
        ensures
            visits(*final(self), r, eval_obj_index(old(self)@, node@, fuel as nat)),
        decreases fuel, node, 3nat,
    {
        if let Some(h) = self.halted {
            return Err(h);
        }
        proof {
            lemma_view(*node);
        }
        match &node.kind {
            AST::OBJECT_INDEX { object, property } => {
                proof {
                    lemma_view(**property);
                }
                let o = match &property.kind {
                    AST::FUNC_CALL { .. } => self.obj_index_mut(host, object, fuel)?,
                    _ => self.visit(host, object, fuel)?,
                };
                proof {
                    lemma_view(o);
                }
                match &o.kind {
                    AST::OBJECT { class_name, scope } => self.access(
                        host,
                        class_name,
                        *scope,
                        property,
                        true,
                        fuel,
                    ),
                    _ => Err(
                        self.fail(
                            ETypes::SyntaxError,
                            "Invalid use of dot operator on non-object",
                            &node.einfo,
                        ),
                    ),
                }
            },
            _ => Ok(ASTNode::new_noop()),
        }
    }

    /// Finds the object that the left side of a property assignment names,
    /// without copying it.
    pub fn obj_index_mut<H: FloatUnit>(&mut self, host: &H, object: &ASTNode, fuel: u64) -> (r:
        Result<ASTNode, Halt>)
        ensures
            visits(*final(self), r, locate(old(self)@, object@, fuel as nat)),
        decreases fuel, object, 5nat,
    {
        if let Some(h) = self.halted {
            return Err(h);
        }
        proof {
            lemma_view(*object);
        }
        match &object.kind {
            AST::VAR { name } => match Scope::resolve_var_cloned(
                &self.scopes,
                self.current_scope,
                name,
            ) {
                None => {
                    let message = quoted_message(
                        "Variable",
                        name,
                        "' does not exist in the current scope",
                    );
                    Err(self.fail(ETypes::IdentifierError, message.as_str(), &object.einfo))
                },
                Some(def) => {
                    proof {
                        lemma_view(def);
                    }
                    match &def.kind {
                        AST::VAR_DEF { value, .. } => Ok(sanitized(value)),
                        _ => Ok(ASTNode::new_noop()),
                    }
                },
            },
            AST::OBJECT_INDEX { object: inner, property } => {
                let o = self.obj_index_mut(host, inner, fuel)?;
                proof {
                    lemma_view(o);
                    lemma_view(**inner);
                }
                match &o.kind {
                    AST::OBJECT { class_name, scope } => self.access(
                        host,
                        class_name,
                        *scope,
                        property,
                        false,
                        fuel,
                    ),
                    _ => Err(
                        self.fail(
                            ETypes::SyntaxError,
                            "Invalid use of dot operator on non-object",
                            &inner.einfo,
                        ),
                    ),
                }
            },
            _ => self.visit(host, object, fuel),
        }
    }

    /// Finds the object of a property assignment and rebinds the property, or
    /// stores into the list that the property holds.
    pub fn visit_obj_reassign<H: FloatUnit>(&mut self, host: &H, node: &ASTNode, fuel: u64) -> (r:
        Result<ASTNode, Halt>)
        ensures
            visits(*final(self), r, eval_obj_reassign(old(self)@, node@, fuel as nat)),
        decreases fuel, node, 3nat,
    {
        if let Some(h) = self.halted {
            return Err(h);
        }
        proof {
            lemma_view(*node);
        }
        match &node.kind {
            AST::OBJECT_REASSIGN { object_index, value } => {
                proof {
                    lemma_view(**object_index);
                }
                match &object_index.kind {
                    AST::OBJECT_INDEX { object, property } => {
                        let o = self.obj_index_mut(host, object, fuel)?;
                        proof {
                            lemma_view(o);
                            lemma_view(**object);
                            lemma_view(**property);
                        }
                        match &o.kind {
                            AST::OBJECT { scope, .. } => {
                                let v = self.visit(host, value, fuel)?;
                                match &property.kind {
                                    AST::VAR { name } => {
                                        let einfo = v.einfo.clone();
                                        proof {
                                            lemma_view(v);
                                        }
                                        let def = ASTNode::new(
                                            AST::VAR_DEF { name: name.clone(), value: Box::new(v) },
                                            einfo,
                                        );
                                        proof {
                                            lemma_view(def);
                                        }
                                        let _ = Scope::set_var(&mut self.scopes, *scope, name, &def);
                                        Ok(ASTNode::new_noop())
                                    },
                                    AST::INDEX { .. } => {
                                        let saved = self.current_scope;
                                        self.current_scope = *scope;
                                        let _ = self.assign_into(host, property, v, fuel)?;
                                        self.current_scope = saved;
                                        Ok(ASTNode::new_noop())
                                    },
                                    _ => Ok(ASTNode::new_noop()),
                                }
                            },
                            _ => Err(
                                self.fail(
                                    ETypes::SyntaxError,
                                    "Invalid use of dot operator on non-object",
                                    &object.einfo,
                                ),
                            ),
                        }
                    },
                    _ => Ok(ASTNode::new_noop()),
                }
            },
            _ => Ok(ASTNode::new_noop()),
        }
    }

    /// Evaluates the value of an assignment into a list and stores it.
    pub fn visit_list_reassign<H: FloatUnit>(&mut self, host: &H, node: &ASTNode, fuel: u64) -> (r:
        Result<ASTNode, Halt>)
        ensures
            visits(*final(self), r, eval_list_reassign(old(self)@, node@, fuel as nat)),
        decreases fuel, node, 3nat,
    {
        if let Some(h) = self.halted {
            return Err(h);
        }
        proof {
            lemma_view(*node);
        }
        match &node.kind {
            AST::LIST_REASSIGN { target, value } => {
                let v = self.visit(host, value, fuel)?;
                self.assign_into(host, target, v, fuel)
            },
            _ => Ok(ASTNode::new_noop()),
        }
    }

    /// Stores `v` at `target`, which is a variable followed by indices.
    pub fn assign_into<H: FloatUnit>(&mut self, host: &H, target: &ASTNode, v: ASTNode, fuel: u64) -> (r:
        Result<ASTNode, Halt>)
        ensures
            visits(*final(self), r, assign_into(old(self)@, target@, v@, fuel as nat)),
        decreases fuel, target, 5nat,
    {
        if let Some(h) = self.halted {
            return Err(h);
        }
        proof {
            lemma_view(*target);
        }
        match &target.kind {
            AST::INDEX { target: list, indices } => {
                proof {
                    lemma_view(**list);
                }
                match &list.kind {
                    AST::VAR { name } => {
                        let root = self.visit_variable(list)?;
                        self.list_get_mut(host, name, root, indices, v, fuel)
                    },
                    _ => Ok(ASTNode::new_noop()),
                }
            },
            _ => Ok(ASTNode::new_noop()),
        }
    }

    /// Walks from the list `root` of the variable `name` through the
    /// indices to the list that holds the last slot, puts `v` there in a
    /// fresh cell, and binds the variable again to its list.
    #[verifier::loop_isolation(false)]
    pub fn list_get_mut<H: FloatUnit>(
        &mut self,
        host: &H,
        name: &String,
        root: ASTNode,
        indices: &Vec<ASTNode>,
        v: ASTNode,
        fuel: u64,
    ) -> (r: Result<ASTNode, Halt>)
        ensures
            visits(
                *final(self),
                r,
                assign_walk(
                    old(self)@,
                    name@,
                    root@,
                    None,
                    nodes_view(indices@),
                    0,
                    v@,
                    fuel as nat,
                ),
            ),
        decreases fuel, indices, 0nat,
    {
        if let Some(h) = self.halted {
            return Err(h);
        }
        proof {
            lemma_nodes_view(indices@);
        }
        let ghost whole = assign_walk(
            old(self)@,
            name@,
            root@,
            None,
            nodes_view(indices@),
            0,
            v@,
            fuel as nat,
        );
        let mut place: Option<usize> = None;
        let mut i: usize = 0;
        while i < indices.len()
            invariant
                i <= indices.len(),
                self.halted is None,
                whole.0.foreign || whole == assign_walk(
                    self@,
                    name@,
                    root@,
                    match place {
                        Some(c) => Some(c as nat),
                        None => None,
                    },
                    nodes_view(indices@),
                    i as nat,
                    v@,
                    fuel as nat,
                ),
            decreases indices.len() - i,
        {
            let ix = self.visit(host, &indices[i], fuel)?;
            proof {
                lemma_view(ix);
                lemma_nodes_view(self.cells@);
            }
            let k: i32 = match &ix.kind {
                AST::INT { int_value } => *int_value,
                _ => {
                    return Err(
                        self.fail(ETypes::ListError, "Expected integer to index list", &ix.einfo),
                    );
                },
            };
            let cur: ASTNode = match place {
                None => root.clone(),
                Some(c) => if c < self.cells.len() {
                    self.cells[c].clone()
                } else {
                    ASTNode::new_noop()
                },
            };
            proof {
                lemma_view(cur);
            }
            match &cur.kind {
                AST::LIST { contents } => {
                    proof {
                        lemma_nodes_view(contents@);
                    }
                    if k < 0 || (k as usize) >= contents.len() {
                        let message = out_of_bounds_message(k, contents.len());
                        return Err(self.fail(ETypes::ListError, message.as_str(), &ix.einfo));
                    }
                    if i + 1 == indices.len() {
                        let ghost before = self@;
                        let handle = self.store(v);
                        let mut items = crate::ast::clone_nodes(contents);
                        proof {
                            lemma_nodes_view(items@);
                        }
                        items[k as usize] = handle;
                        proof {
                            lemma_nodes_view(items@);
                            assert(nodes_view(items@) =~= nodes_view(contents@).update(
                                k as int,
                                cell_node(before.cells.len()),
                            ));
                        }
                        let updated = ASTNode::new(
                            AST::LIST { contents: items },
                            cur.einfo.clone(),
                        );
                        proof {
                            lemma_view(updated);
                        }
                        match place {
                            None => {
                                let def = ASTNode::new(
                                    AST::VAR_DEF { name: name.clone(), value: Box::new(updated) },
                                    cur.einfo.clone(),
                                );
                                proof {
                                    lemma_view(def);
                                }
                                let _ = Scope::set_var(
                                    &mut self.scopes,
                                    self.current_scope,
                                    name,
                                    &def,
                                );
                            },
                            Some(c) => {
                                let def = ASTNode::new(
                                    AST::VAR_DEF { name: name.clone(), value: Box::new(root) },
                                    cur.einfo.clone(),
                                );
                                proof {
                                    lemma_view(def);
                                }
                                let _ = Scope::set_var(
                                    &mut self.scopes,
                                    self.current_scope,
                                    name,
                                    &def,
                                );
                                let ghost cells_before = self.cells@;
                                proof {
                                    lemma_nodes_view(cells_before);
                                }
                                self.cells[c] = updated;
                                proof {
                                    lemma_nodes_view(self.cells@);
                                    assert(nodes_view(self.cells@) =~= nodes_view(
                                        cells_before,
                                    ).update(c as int, updated@));
                                }
                            },
                        }
                        return Ok(ASTNode::new_noop());
                    }
                    proof {
                        lemma_view(contents@[k as int]);
                    }
                    match &contents[k as usize].kind {
                        AST::CELL { id } => {
                            place = Some(*id);
                        },
                        _ => {
                            return Err(
                                self.fail(
                                    ETypes::ListError,
                                    "Indexed object is not a list",
                                    &cur.einfo,
                                ),
                            );
                        },
                    }
                },
                _ => {
                    return Err(
                        self.fail(ETypes::ListError, "Indexed object is not a list", &cur.einfo),
                    );
                },
            }
            i += 1;
        }
        Ok(ASTNode::new_noop())
    }
}

} // verus!
