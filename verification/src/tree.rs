//! The text of a tree, as `ast_debug` writes it.

use vstd::prelude::*;
use crate::ast::{lemma_nodes_view, lemma_view, nodes_view, ASTNode, Kind, Node, AST};
use crate::text::{i32_to_string, int_text, nat_text, u64_to_string, usize_to_string};

verus! {

/// The text of a tree: the name of the kind of its root and, in brackets,
/// its parts in order, each a name or a number, the label of an operator,
/// the text of a tree below, or such texts in square brackets.
pub open spec fn tree_text(n: Node) -> Seq<char>
    decreases n, 1nat, 0nat,
{
    match n.kind {
        Kind::STRING { str_value } => "STRING("@ + "\""@ + str_value + "\""@ + ")"@,
        Kind::INT { int_value } => "INT("@ + int_text(int_value) + ")"@,
        Kind::FLOAT { float_value } => "FLOAT("@ + "bits "@ + nat_text(float_value as nat) + ")"@,
        Kind::BOOL { bool_value } => "BOOL("@ + (if bool_value { "true"@ } else { "false"@ }) + ")"@,
        Kind::LIST { contents } => trees_text(contents, 0, "LIST("@ + "["@) + "]"@ + ")"@,
        Kind::CELL { id } => "CELL("@ + nat_text(id) + ")"@,
        Kind::INDEX { target, indices } => trees_text(indices, 0, "INDEX("@ + tree_text(*target) + ", "@ + "["@) + "]"@ + ")"@,
        Kind::LIST_REASSIGN { target, value } => "LIST_REASSIGN("@ + tree_text(*target) + ", "@ + tree_text(*value) + ")"@,
        Kind::OBJECT_REASSIGN { object_index, value } => "OBJECT_REASSIGN("@ + tree_text(*object_index) + ", "@ + tree_text(*value) + ")"@,
        Kind::BINOP { left, op, right } => "BINOP("@ + tree_text(*left) + ", "@ + op.label() + ", "@ + tree_text(*right) + ")"@,
        Kind::UNOP { op, body } => "UNOP("@ + op.label() + ", "@ + tree_text(*body) + ")"@,
        Kind::VAR_DEF { name, value } => "VAR_DEF("@ + "\""@ + name + "\""@ + ", "@ + tree_text(*value) + ")"@,
        Kind::VAR { name } => "VAR("@ + "\""@ + name + "\""@ + ")"@,
        Kind::VAR_REASSIGN { name, value } => "VAR_REASSIGN("@ + "\""@ + name + "\""@ + ", "@ + tree_text(*value) + ")"@,
        Kind::FUNC_DEF { body, name, args } => trees_text(args, 0, "FUNC_DEF("@ + tree_text(*body) + ", "@ + "\""@ + name + "\""@ + ", "@ + "["@) + "]"@ + ")"@,
        Kind::FUNC_CALL { name, args } => trees_text(args, 0, "FUNC_CALL("@ + "\""@ + name + "\""@ + ", "@ + "["@) + "]"@ + ")"@,
        Kind::RETURN { value } => "RETURN("@ + tree_text(*value) + ")"@,
        Kind::CLASS { name, properties, methods } => trees_text(methods, 0, trees_text(properties, 0, "CLASS("@ + "\""@ + name + "\""@ + ", "@ + "["@) + "]"@ + ", "@ + "["@) + "]"@ + ")"@,
        Kind::NEW { name, args } => trees_text(args, 0, "NEW("@ + "\""@ + name + "\""@ + ", "@ + "["@) + "]"@ + ")"@,
        Kind::OBJECT { class_name, scope } => "OBJECT("@ + "\""@ + class_name + "\""@ + ", "@ + nat_text(scope) + ")"@,
        Kind::OBJECT_INDEX { object, property } => "OBJECT_INDEX("@ + tree_text(*object) + ", "@ + tree_text(*property) + ")"@,
        Kind::IF { conditions, bodies, else_body } => trees_text(bodies, 0, trees_text(conditions, 0, "IF("@ + "["@) + "]"@ + ", "@ + "["@) + "]"@ + ", "@ + (match else_body { Some(b) => tree_text(*b), None => "none"@ }) + ")"@,
        Kind::WHILE { condition, body } => "WHILE("@ + tree_text(*condition) + ", "@ + tree_text(*body) + ")"@,
        Kind::TYPE { type_value } => "TYPE("@ + "\""@ + type_value + "\""@ + ")"@,
        Kind::BREAK => "BREAK"@,
        Kind::COMPOUND { compound_value } => trees_text(compound_value, 0, "COMPOUND("@ + "["@) + "]"@ + ")"@,
        Kind::IMPORT { filename, object_name } => "IMPORT("@ + "\""@ + filename + "\""@ + ", "@ + "\""@ + object_name + "\""@ + ")"@,
        Kind::NOOP => "NOOP"@,
        Kind::EOF => "EOF"@,
    }
}

/// The texts of the trees from the `i`-th on, separated by commas, after
/// `acc`.
pub open spec fn trees_text(ns: Seq<Node>, i: nat, acc: Seq<char>) -> Seq<char>
    decreases ns, 0nat, ns.len() - i,
{
    if i >= ns.len() {
        acc
    } else if i > 0 {
        trees_text(ns, i + 1, acc + ", "@ + tree_text(ns[i as int]))
    } else {
        trees_text(ns, i + 1, acc + tree_text(ns[i as int]))
    }
}

/// Appends the texts of trees, separated by commas.
pub fn append_trees(s: &mut String, ns: &Vec<ASTNode>)
    ensures
        final(s)@ == trees_text(nodes_view(ns@), 0, old(s)@),
    decreases ns, 0nat,
{
    proof {
        lemma_nodes_view(ns@);
    }
    let mut i: usize = 0;
    while i < ns.len()
        invariant
            i <= ns.len(),
            nodes_view(ns@).len() == ns@.len(),
            forall|j: int| 0 <= j < ns@.len() ==> (#[trigger] nodes_view(ns@)[j]) == ns@[j]@,
            trees_text(nodes_view(ns@), 0, old(s)@) == trees_text(nodes_view(ns@), i as nat, s@),
        decreases ns.len() - i,
    {
        if i > 0 {
            s.append(", ");
        }
        let part = tree_to_string(&ns[i]);
        s.append(part.as_str());
        i += 1;
    }
}

/// The text of a tree.
pub fn tree_to_string(node: &ASTNode) -> (r: String)
    ensures
        r@ == tree_text(node@),
    decreases node, 1nat,
{
    proof {
        lemma_view(*node);
    }
    match &node.kind {
        AST::STRING { str_value } => {
            let mut s = String::from_str("STRING(");
            s.append("\"");
            s.append(str_value.as_str());
            s.append("\"");
            s.append(")");
            s
        },
        AST::INT { int_value } => {
            let mut s = String::from_str("INT(");
            s.append(i32_to_string(*int_value).as_str());
            s.append(")");
            s
        },
        AST::FLOAT { float_value } => {
            let mut s = String::from_str("FLOAT(");
            s.append("bits ");
            s.append(u64_to_string(*float_value as u64).as_str());
            s.append(")");
            s
        },
        AST::BOOL { bool_value } => {
            let mut s = String::from_str("BOOL(");
            if *bool_value {
                s.append("true");
            } else {
                s.append("false");
            }
            s.append(")");
            s
        },
        AST::LIST { contents } => {
            let mut s = String::from_str("LIST(");
            s.append("[");
            append_trees(&mut s, contents);
            s.append("]");
            s.append(")");
            s
        },
        AST::CELL { id } => {
            let mut s = String::from_str("CELL(");
            s.append(usize_to_string(*id).as_str());
            s.append(")");
            s
        },
        AST::INDEX { target, indices } => {
            let mut s = String::from_str("INDEX(");
            let part = tree_to_string(target);
            s.append(part.as_str());
            s.append(", ");
            s.append("[");
            append_trees(&mut s, indices);
            s.append("]");
            s.append(")");
            s
        },
        AST::LIST_REASSIGN { target, value } => {
            let mut s = String::from_str("LIST_REASSIGN(");
            let part = tree_to_string(target);
            s.append(part.as_str());
            s.append(", ");
            let part = tree_to_string(value);
            s.append(part.as_str());
            s.append(")");
            s
        },
        AST::OBJECT_REASSIGN { object_index, value } => {
            let mut s = String::from_str("OBJECT_REASSIGN(");
            let part = tree_to_string(object_index);
            s.append(part.as_str());
            s.append(", ");
            let part = tree_to_string(value);
            s.append(part.as_str());
            s.append(")");
            s
        },
        AST::BINOP { left, op, right } => {
            let mut s = String::from_str("BINOP(");
            let part = tree_to_string(left);
            s.append(part.as_str());
            s.append(", ");
            s.append(op.label().as_str());
            s.append(", ");
            let part = tree_to_string(right);
            s.append(part.as_str());
            s.append(")");
            s
        },
        AST::UNOP { op, body } => {
            let mut s = String::from_str("UNOP(");
            s.append(op.label().as_str());
            s.append(", ");
            let part = tree_to_string(body);
            s.append(part.as_str());
            s.append(")");
            s
        },
        AST::VAR_DEF { name, value } => {
            let mut s = String::from_str("VAR_DEF(");
            s.append("\"");
            s.append(name.as_str());
            s.append("\"");
            s.append(", ");
            let part = tree_to_string(value);
            s.append(part.as_str());
            s.append(")");
            s
        },
        AST::VAR { name } => {
            let mut s = String::from_str("VAR(");
            s.append("\"");
            s.append(name.as_str());
            s.append("\"");
            s.append(")");
            s
        },
        AST::VAR_REASSIGN { name, value } => {
            let mut s = String::from_str("VAR_REASSIGN(");
            s.append("\"");
            s.append(name.as_str());
            s.append("\"");
            s.append(", ");
            let part = tree_to_string(value);
            s.append(part.as_str());
            s.append(")");
            s
        },
        AST::FUNC_DEF { body, name, args } => {
            let mut s = String::from_str("FUNC_DEF(");
            let part = tree_to_string(body);
            s.append(part.as_str());
            s.append(", ");
            s.append("\"");
            s.append(name.as_str());
            s.append("\"");
            s.append(", ");
            s.append("[");
            append_trees(&mut s, args);
            s.append("]");
            s.append(")");
            s
        },
        AST::FUNC_CALL { name, args } => {
            let mut s = String::from_str("FUNC_CALL(");
            s.append("\"");
            s.append(name.as_str());
            s.append("\"");
            s.append(", ");
            s.append("[");
            append_trees(&mut s, args);
            s.append("]");
            s.append(")");
            s
        },
        AST::RETURN { value } => {
            let mut s = String::from_str("RETURN(");
            let part = tree_to_string(value);
            s.append(part.as_str());
            s.append(")");
            s
        },
        AST::CLASS { name, properties, methods } => {
            let mut s = String::from_str("CLASS(");
            s.append("\"");
            s.append(name.as_str());
            s.append("\"");
            s.append(", ");
            s.append("[");
            append_trees(&mut s, properties);
            s.append("]");
            s.append(", ");
            s.append("[");
            append_trees(&mut s, methods);
            s.append("]");
            s.append(")");
            s
        },
        AST::NEW { name, args } => {
            let mut s = String::from_str("NEW(");
            s.append("\"");
            s.append(name.as_str());
            s.append("\"");
            s.append(", ");
            s.append("[");
            append_trees(&mut s, args);
            s.append("]");
            s.append(")");
            s
        },
        AST::OBJECT { class_name, scope } => {
            let mut s = String::from_str("OBJECT(");
            s.append("\"");
            s.append(class_name.as_str());
            s.append("\"");
            s.append(", ");
            s.append(usize_to_string(*scope).as_str());
            s.append(")");
            s
        },
        AST::OBJECT_INDEX { object, property } => {
            let mut s = String::from_str("OBJECT_INDEX(");
            let part = tree_to_string(object);
            s.append(part.as_str());
            s.append(", ");
            let part = tree_to_string(property);
            s.append(part.as_str());
            s.append(")");
            s
        },
        AST::IF { conditions, bodies, else_body } => {
            let mut s = String::from_str("IF(");
            s.append("[");
            append_trees(&mut s, conditions);
            s.append("]");
            s.append(", ");
            s.append("[");
            append_trees(&mut s, bodies);
            s.append("]");
            s.append(", ");
            match else_body {
                Some(b) => {
                    let part = tree_to_string(b);
                    s.append(part.as_str());
                },
                None => {
                    s.append("none");
                },
            }
            s.append(")");
            s
        },
        AST::WHILE { condition, body } => {
            let mut s = String::from_str("WHILE(");
            let part = tree_to_string(condition);
            s.append(part.as_str());
            s.append(", ");
            let part = tree_to_string(body);
            s.append(part.as_str());
            s.append(")");
            s
        },
        AST::TYPE { type_value } => {
            let mut s = String::from_str("TYPE(");
            s.append("\"");
            s.append(type_value.as_str());
            s.append("\"");
            s.append(")");
            s
        },
        AST::BREAK => String::from_str("BREAK"),
        AST::COMPOUND { compound_value } => {
            let mut s = String::from_str("COMPOUND(");
            s.append("[");
            append_trees(&mut s, compound_value);
            s.append("]");
            s.append(")");
            s
        },
        AST::IMPORT { filename, object_name } => {
            let mut s = String::from_str("IMPORT(");
            s.append("\"");
            s.append(filename.as_str());
            s.append("\"");
            s.append(", ");
            s.append("\"");
            s.append(object_name.as_str());
            s.append("\"");
            s.append(")");
            s
        },
        AST::NOOP => String::from_str("NOOP"),
        AST::EOF => String::from_str("EOF"),
    }
}

} // verus!
