//! The functions that the language brings along.

use vstd::prelude::*;
use rand::Rng;
use crate::ast::{lemma_nodes_view, lemma_view, nodes_view, ASTNode, Kind, Node, AST};
use crate::error::{ETypes, ErrorInfo};
use crate::host::FloatUnit;
use crate::semantics::{
    builtin_debug_call, builtin_read_call, builtin_write_call, builtin_debug, builtin_length, builtin_random_int, builtin_read, builtin_replace,
    builtin_to_float, builtin_to_int, builtin_type, builtin_write, debug_lines, length_of_value,
    runtime_type, Halt, Machine,
};
use crate::text::{from_chars, parse_i32, to_chars};
use crate::values::{int_node, wrap32};
use crate::visitor::{arity_message, strings_view, visits, Visitor};

verus! {

/// A number drawn between `low` and `high`, both included.
///
/// Trusted: `rand::Rng::gen_range` on the generator of `rand::thread_rng`,
/// with an inclusive range. It panics on an empty range, so `low` may not
/// exceed `high`; the number it returns lies in the range. (The generator
/// itself gives up where the operating system has no randomness to seed it
/// with.)
#[verifier::external_body]
fn random_between(low: i32, high: i32) -> (r: i32)
    requires
        low <= high,
    ensures
        low <= r <= high,
{
    rand::thread_rng().gen_range(low..=high)
}

/// The names of the functions that the language brings along differ from
/// each other.
pub proof fn lemma_builtin_names()
    ensures
        "write"@ != "read"@,
        "write"@ != "ast_debug"@,
        "write"@ != "type"@,
        "write"@ != "to_int"@,
        "write"@ != "to_float"@,
        "write"@ != "random_int"@,
        "write"@ != "length"@,
        "write"@ != "replace"@,
        "read"@ != "ast_debug"@,
        "read"@ != "type"@,
        "read"@ != "to_int"@,
        "read"@ != "to_float"@,
        "read"@ != "random_int"@,
        "read"@ != "length"@,
        "read"@ != "replace"@,
        "ast_debug"@ != "type"@,
        "ast_debug"@ != "to_int"@,
        "ast_debug"@ != "to_float"@,
        "ast_debug"@ != "random_int"@,
        "ast_debug"@ != "length"@,
        "ast_debug"@ != "replace"@,
        "type"@ != "to_int"@,
        "type"@ != "to_float"@,
        "type"@ != "random_int"@,
        "type"@ != "length"@,
        "type"@ != "replace"@,
        "to_int"@ != "to_float"@,
        "to_int"@ != "random_int"@,
        "to_int"@ != "length"@,
        "to_int"@ != "replace"@,
        "to_float"@ != "random_int"@,
        "to_float"@ != "length"@,
        "to_float"@ != "replace"@,
        "random_int"@ != "length"@,
        "random_int"@ != "replace"@,
        "length"@ != "replace"@,
{
    reveal_strlit("write");
    reveal_strlit("read");
    reveal_strlit("ast_debug");
    reveal_strlit("type");
    reveal_strlit("to_int");
    reveal_strlit("to_float");
    reveal_strlit("random_int");
    reveal_strlit("length");
    reveal_strlit("replace");
    assert("write"@.len() == 5);
    assert("read"@.len() == 4);
    assert("ast_debug"@.len() == 9);
    assert("type"@.len() == 4);
    assert("to_int"@.len() == 6);
    assert("to_float"@.len() == 8);
    assert("random_int"@.len() == 10);
    assert("length"@.len() == 6);
    assert("replace"@.len() == 7);
    assert("read"@[0] != "type"@[0]);
    assert("to_int"@[0] != "length"@[0]);
}

fn wrong_arity(v: &mut Visitor, node: &ASTNode, name: &String, wanted: usize, given: usize)
    ensures
        final(v)@ == old(v)@.report(
            ETypes::FunctionError,
            crate::semantics::arity_text(name@, wanted as nat, given as nat),
            node@.span,
        ),
        final(v).halted == old(v).halted,
{
    let message = arity_message(name, wanted, given);
    v.report(ETypes::FunctionError, message.as_str(), &node.einfo);
}

/// `ast_debug`: writes one line for each argument, the text of its tree;
/// the arguments are not evaluated.
#[verifier::loop_isolation(false)]
pub fn std_func_debug(v: &mut Visitor, node: &ASTNode) -> (r: Result<ASTNode, Halt>)
    ensures
        visits(*final(v), r, builtin_debug_call(old(v)@, node@)),
{
    if let Some(h) = v.halted {
        return Err(h);
    }
    proof {
        lemma_view(*node);
    }
    match &node.kind {
        AST::FUNC_CALL { args, .. } => {
            proof {
                lemma_nodes_view(args@);
            }
            let mut i: usize = 0;
            while i < args.len()
                invariant
                    i <= args.len(),
                    nodes_view(args@).len() == args@.len(),
                    forall|j: int|
                        0 <= j < args@.len() ==> (#[trigger] nodes_view(args@)[j]) == args@[j]@,
                    v@ == (Machine {
                        output: old(v)@.output + debug_lines(nodes_view(args@)).take(i as int),
                        ..old(v)@
                    }),
                decreases args.len() - i,
            {
                proof {
                    lemma_view(args@[i as int]);
                }
                let line = crate::tree::tree_to_string(&args[i]);
                let ghost lines = debug_lines(nodes_view(args@));
                let ghost before = v.output@;
                assert(lines[i as int] == line@);
                assert(lines.take(i + 1) =~= lines.take(i as int).push(line@));
                v.output.push(line);
                assert(strings_view(v.output@) =~= strings_view(before).push(line@));
                assert(v@.output =~= old(v)@.output + debug_lines(nodes_view(args@)).take(
                    i + 1,
                ));
                i += 1;
            }
            assert(debug_lines(nodes_view(args@)).take(args.len() as int) =~= debug_lines(
                nodes_view(args@),
            ));
            Ok(ASTNode::new_noop())
        },
        _ => Ok(ASTNode::new_noop()),
    }
}

/// `write`: the texts of the values of the arguments, one after the other,
/// become one more line of output.
#[verifier::loop_isolation(false)]
pub fn std_func_write<H: FloatUnit>(v: &mut Visitor, host: &H, node: &ASTNode, fuel: u64) -> (r:
    Result<ASTNode, Halt>)
    ensures
        visits(*final(v), r, builtin_write_call(old(v)@, node@, fuel as nat)),
        crate::semantics::write_by_host(
            old(v)@,
            node@,
            fuel as nat,
            final(v)@,
            crate::visitor::result_view(r),
        ),
    decreases fuel, node, 2nat,
{
    if let Some(h) = v.halted {
        return Err(h);
    }
    proof {
        lemma_view(*node);
    }
    match &node.kind {
        AST::FUNC_CALL { args, name } => {
            proof {
                lemma_nodes_view(args@);
            }
            let ghost whole = builtin_write(
                old(v)@,
                nodes_view(args@),
                0,
                Seq::empty(),
                fuel as nat,
            );
            let ghost evaluated = crate::semantics::eval_args(
                old(v)@,
                nodes_view(args@),
                0,
                Seq::empty(),
                fuel as nat,
            );
            let ghost values: Seq<Node> = Seq::empty();
            let mut line = String::new();
            let mut i: usize = 0;
            while i < args.len()
                invariant
                    i <= args.len(),
                    node.kind == (AST::FUNC_CALL { name: *name, args: *args }),
                    v.halted is None,
                    evaluated.0.stopped() || evaluated == crate::semantics::eval_args(
                        v@,
                        nodes_view(args@),
                        i as nat,
                        values,
                        fuel as nat,
                    ),
                    nodes_view(args@).len() == args@.len(),
                    forall|j: int|
                        0 <= j < args@.len() ==> (#[trigger] nodes_view(args@)[j]) == args@[j]@,
                    whole.0.foreign || whole == builtin_write(
                        v@,
                        nodes_view(args@),
                        i as nat,
                        line@,
                        fuel as nat,
                    ),
                decreases args.len() - i,
            {
                let value = v.visit(host, &args[i], fuel)?;
                proof {
                    values = values.push(value@);
                }
                match v.node_to_string(host, &value, fuel) {
                    Ok(t) => {
                        line.append(t.as_str());
                    },
                    Err(_) => {
                        return Err(v.exhaust());
                    },
                }
                i += 1;
            }
            let ghost before = v.output@;
            v.output.push(line);
            assert(strings_view(v.output@) =~= strings_view(before).push(line@));
            assert(strings_view(v.output@).drop_last() =~= strings_view(before));
            Ok(ASTNode::new_noop())
        },
        _ => Ok(ASTNode::new_noop()),
    }
}

/// `read`: the next line of input as a string, or the empty string when
/// none is left.
pub fn std_func_read(v: &mut Visitor, node: &ASTNode) -> (r: Result<ASTNode, Halt>)
    ensures
        visits(*final(v), r, builtin_read_call(old(v)@, node@)),
{
    if let Some(h) = v.halted {
        return Err(h);
    }
    proof {
        lemma_view(*node);
    }
    match &node.kind {
        AST::FUNC_CALL { args, name } => {
            proof {
                lemma_nodes_view(args@);
            }
            if args.len() != 0 {
                let read = String::from_str("read");
                wrong_arity(v, node, &read, 0, args.len());
                return Ok(ASTNode::new_noop());
            }
            let line = if v.next_input < v.input.len() {
                let line = v.input[v.next_input].clone();
                v.next_input = v.next_input + 1;
                line
            } else {
                String::new()
            };
            Ok(ASTNode::new(AST::STRING { str_value: line }, node.einfo.clone()))
        },
        _ => Ok(ASTNode::new_noop()),
    }
}

/// The name of the runtime type of a value.
pub fn type_of(value: &ASTNode) -> (s: String)
    ensures
        s@ == runtime_type(value@.kind),
{
    proof {
        lemma_view(*value);
    }
    match &value.kind {
        AST::STRING { .. } => String::from_str("String"),
        AST::INT { .. } => String::from_str("Integer"),
        AST::FLOAT { .. } => String::from_str("Float"),
        AST::BOOL { .. } => String::from_str("Boolean"),
        AST::LIST { .. } => String::from_str("List_Obj"),
        AST::OBJECT { class_name, .. } => class_name.clone(),
        _ => String::from_str("Null"),
    }
}

/// `type`: the name of the runtime type of the value of the argument.
pub fn std_func_type<H: FloatUnit>(v: &mut Visitor, host: &H, node: &ASTNode, fuel: u64) -> (r:
    Result<ASTNode, Halt>)
    ensures
        visits(*final(v), r, builtin_type(old(v)@, node@, fuel as nat)),
    decreases fuel, node, 2nat,
{
    if let Some(h) = v.halted {
        return Err(h);
    }
    proof {
        lemma_view(*node);
    }
    match &node.kind {
        AST::FUNC_CALL { args, name } => {
            proof {
                lemma_nodes_view(args@);
            }
            if args.len() != 1 {
                wrong_arity(v, node, name, 1, args.len());
                return Ok(ASTNode::new_noop());
            }
            let value = v.visit(host, &args[0], fuel)?;
            Ok(ASTNode::new(AST::TYPE { type_value: type_of(&value) }, args[0].einfo.clone()))
        },
        _ => Ok(ASTNode::new_noop()),
    }
}

/// `to_int`: the integer that the string value of the argument denotes.
pub fn std_func_to_int<H: FloatUnit>(v: &mut Visitor, host: &H, node: &ASTNode, fuel: u64) -> (r:
    Result<ASTNode, Halt>)
    ensures
        visits(*final(v), r, builtin_to_int(old(v)@, node@, fuel as nat)),
    decreases fuel, node, 2nat,
{
    if let Some(h) = v.halted {
        return Err(h);
    }
    proof {
        lemma_view(*node);
    }
    match &node.kind {
        AST::FUNC_CALL { args, name } => {
            proof {
                lemma_nodes_view(args@);
            }
            if args.len() != 1 {
                wrong_arity(v, node, name, 1, args.len());
                return Ok(ASTNode::new_noop());
            }
            let value = v.visit(host, &args[0], fuel)?;
            proof {
                lemma_view(value);
            }
            match &value.kind {
                AST::STRING { str_value } => {
                    let chars = to_chars(str_value.as_str());
                    match parse_i32(&chars) {
                        Some(i) => Ok(
                            ASTNode::new(AST::INT { int_value: i }, node.einfo.clone()),
                        ),
                        None => {
                            let mut message = String::from_str("Could not cast '");
                            message.append(str_value.as_str());
                            message.append("' to type 'Integer'");
                            Err(v.fail(ETypes::TypeError, message.as_str(), &node.einfo))
                        },
                    }
                },
                _ => Err(
                    v.fail(
                        ETypes::TypeError,
                        "Invalid attempted type cast to type 'Integer'",
                        &node.einfo,
                    ),
                ),
            }
        },
        _ => Ok(ASTNode::new_noop()),
    }
}

/// `to_float`: the number that the string value of the argument denotes, as
/// the embedder reads it.
pub fn std_func_to_float<H: FloatUnit>(v: &mut Visitor, host: &H, node: &ASTNode, fuel: u64) -> (r:
    Result<ASTNode, Halt>)
    ensures
        visits(*final(v), r, builtin_to_float(old(v)@, node@, fuel as nat)),
        crate::semantics::to_float_by_host(
            old(v)@,
            node@,
            fuel as nat,
            final(v)@,
            crate::visitor::result_view(r),
        ),
        r matches Ok(n) ==> n@.kind is FLOAT || n@ == Node::noop(),
    decreases fuel, node, 2nat,
{
    if let Some(h) = v.halted {
        return Err(h);
    }
    proof {
        lemma_view(*node);
    }
    match &node.kind {
        AST::FUNC_CALL { args, name } => {
            proof {
                lemma_nodes_view(args@);
            }
            if args.len() != 1 {
                wrong_arity(v, node, name, 1, args.len());
                return Ok(ASTNode::new_noop());
            }
            let value = v.visit(host, &args[0], fuel)?;
            proof {
                lemma_view(value);
            }
            match &value.kind {
                AST::STRING { str_value } => match host.parse(str_value) {
                    Some(bits) => Ok(
                        ASTNode::new(AST::FLOAT { float_value: bits }, node.einfo.clone()),
                    ),
                    None => {
                        let mut message = String::from_str("Could not cast '");
                        message.append(str_value.as_str());
                        message.append("' to type 'Float'");
                        Err(v.fail(ETypes::TypeError, message.as_str(), &node.einfo))
                    },
                },
                _ => Err(
                    v.fail(
                        ETypes::TypeError,
                        "Invalid attempted type cast to type 'Float'",
                        &node.einfo,
                    ),
                ),
            }
        },
        _ => Ok(ASTNode::new_noop()),
    }
}

/// What holds of `random_int` whatever number is drawn: where the two
/// arguments evaluate to integers `low <= high`, the evaluator is left as
/// the evaluation of the arguments left it, and the result is an integer
/// between `low` and `high`, with the span of the call.
pub open spec fn drawn_in_range(
    before: Machine,
    node: Node,
    fuel: nat,
    after: Machine,
    r: Result<ASTNode, Halt>,
) -> bool {
    match node.kind {
        Kind::FUNC_CALL { args, .. } => {
            let (m1, values) = crate::semantics::eval_args(before, args, 0, Seq::empty(), fuel);
            (!before.stopped() && args.len() == 2 && !m1.stopped()) ==> (match (
                values[0].kind,
                values[1].kind,
            ) {
                (Kind::INT { int_value: low }, Kind::INT { int_value: high }) => low <= high ==> {
                    &&& after == m1
                    &&& r matches Ok(n) && n@.span == node.span && (n@.kind matches Kind::INT {
                        int_value,
                    } && low <= int_value <= high)
                },
                _ => true,
            })
        },
        _ => true,
    }
}

/// The result of `random_int` for a number that was drawn.
pub fn random_result(draw: i32, einfo: &ErrorInfo) -> (r: ASTNode)
    ensures
        r@ == int_node(draw as int, einfo@),
{
    ASTNode::new(AST::INT { int_value: draw }, einfo.clone())
}

/// `random_int`: a number drawn between the two integer values of the
/// arguments, both included.
pub fn std_func_random_int<H: FloatUnit>(v: &mut Visitor, host: &H, node: &ASTNode, fuel: u64) -> (r:
    Result<ASTNode, Halt>)
    ensures
        visits(*final(v), r, builtin_random_int(old(v)@, node@, fuel as nat)),
        r matches Ok(n) ==> n@.kind is INT || n@ == Node::noop(),
        drawn_in_range(old(v)@, node@, fuel as nat, final(v)@, r),
    decreases fuel, node, 2nat,
{
    if let Some(h) = v.halted {
        return Err(h);
    }
    proof {
        lemma_view(*node);
    }
    match &node.kind {
        AST::FUNC_CALL { args, name } => {
            proof {
                lemma_nodes_view(args@);
            }
            if args.len() != 2 {
                wrong_arity(v, node, name, 2, args.len());
                return Ok(ASTNode::new_noop());
            }
            let values = v.visit_args(host, args, fuel)?;
            proof {
                lemma_nodes_view(values@);
                lemma_view(values@[0]);
                lemma_view(values@[1]);
            }
            match (&values[0].kind, &values[1].kind) {
                (AST::INT { int_value: low }, AST::INT { int_value: high }) => {
                    if *low <= *high {
                        Ok(random_result(random_between(*low, *high), &node.einfo))
                    } else {
                        v.report(
                            ETypes::TypeError,
                            "Invalid range to function 'random_int': Expected low <= high",
                            &node.einfo,
                        );
                        Ok(ASTNode::new_noop())
                    }
                },
                _ => {
                    v.report(
                        ETypes::TypeError,
                        "Invalid type(s) to function 'random_integer': Expected (Integer, Integer)",
                        &node.einfo,
                    );
                    Ok(ASTNode::new_noop())
                },
            }
        },
        _ => Ok(ASTNode::new_noop()),
    }
}

/// The length of a value as `length` counts it.
pub fn length_of(value: &ASTNode, einfo: &ErrorInfo) -> (r: ASTNode)
    ensures
        r@ == length_of_value(value@, einfo@),
{
    proof {
        lemma_view(*value);
    }
    let n: i32 = match &value.kind {
        AST::LIST { contents } => {
            proof {
                lemma_nodes_view(contents@);
            }
            crate::values::wrap_len(contents.len())
        },
        AST::STRING { str_value } => crate::values::wrap_len(str_value.as_str().unicode_len()),
        _ => 0,
    };
    ASTNode::new(AST::INT { int_value: n }, einfo.clone())
}

/// `length`: the number of elements of a list or of characters of a string.
pub fn std_func_length<H: FloatUnit>(v: &mut Visitor, host: &H, node: &ASTNode, fuel: u64) -> (r:
    Result<ASTNode, Halt>)
    ensures
        visits(*final(v), r, builtin_length(old(v)@, node@, fuel as nat)),
    decreases fuel, node, 2nat,
{
    if let Some(h) = v.halted {
        return Err(h);
    }
    proof {
        lemma_view(*node);
    }
    match &node.kind {
        AST::FUNC_CALL { args, name } => {
            proof {
                lemma_nodes_view(args@);
            }
            if args.len() != 1 {
                wrong_arity(v, node, name, 1, args.len());
                return Ok(ASTNode::new_noop());
            }
            let value = v.visit(host, &args[0], fuel)?;
            Ok(length_of(&value, &node.einfo))
        },
        _ => Ok(ASTNode::new_noop()),
    }
}

/// `replace`: the string with the character at a position replaced by the
/// first character of another string.
pub fn std_func_replace<H: FloatUnit>(v: &mut Visitor, host: &H, node: &ASTNode, fuel: u64) -> (r:
    Result<ASTNode, Halt>)
    ensures
        visits(*final(v), r, builtin_replace(old(v)@, node@, fuel as nat)),
    decreases fuel, node, 2nat,
{
    if let Some(h) = v.halted {
        return Err(h);
    }
    proof {
        lemma_view(*node);
    }
    match &node.kind {
        AST::FUNC_CALL { args, name } => {
            proof {
                lemma_nodes_view(args@);
            }
            if args.len() != 3 {
                wrong_arity(v, node, name, 3, args.len());
                return Ok(ASTNode::new_noop());
            }
            let values = v.visit_args(host, args, fuel)?;
            proof {
                lemma_nodes_view(values@);
                lemma_view(values@[0]);
                lemma_view(values@[1]);
                lemma_view(values@[2]);
            }
            match (&values[0].kind, &values[1].kind, &values[2].kind) {
                (
                    AST::STRING { str_value: text },
                    AST::INT { int_value: at },
                    AST::STRING { str_value: with },
                ) => {
                    let mut chars = to_chars(text.as_str());
                    let replacement = to_chars(with.as_str());
                    if *at >= 0 && (*at as usize) < chars.len() && replacement.len() > 0 {
                        chars[*at as usize] = replacement[0];
                        Ok(
                            ASTNode::new(
                                AST::STRING { str_value: from_chars(&chars) },
                                node.einfo.clone(),
                            ),
                        )
                    } else {
                        v.report(
                            ETypes::TypeError,
                            "Invalid argument(s) to function 'replace': Expected an index inside the string and a character",
                            &node.einfo,
                        );
                        Ok(ASTNode::new_noop())
                    }
                },
                _ => {
                    v.report(
                        ETypes::TypeError,
                        "Invalid type(s) to function 'replace': Expected (String, Integer, Character)",
                        &node.einfo,
                    );
                    Ok(ASTNode::new_noop())
                },
            }
        },
        _ => Ok(ASTNode::new_noop()),
    }
}

} // verus!
