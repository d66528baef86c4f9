//! What a tree settles to when its text is read back.
//!
//! The grammar reads `!f(x,y) + 1` as a sum whose left operand is a
//! negation, and the formatter writes that negation apart from the call,
//! which has a space in it: `! f(x, y) + 1`. Read back, the `!` negates the
//! whole sum. The two trees are written the same, so the text is stable
//! though the tree is not. `settled_expression` is the tree that is read
//! back; it is canonical and has the text of the tree it came from.

use crate::canonical::{
    begins_with_not, is_argument, is_canonical_body, is_canonical_condition,
    is_canonical_expression, is_canonical_node,
    is_call_name, is_closer, is_opener, is_operand, is_plain_name,
};
use crate::condition::{condition_text, ConditionModel};
use crate::error::ParseErrorModel;
use crate::expression::{arguments_text, expression_text, is_dense, ExpressionModel};
use crate::formatter::{body_text, format_program, header_text, node_text};
use crate::nesting::{
    all_have_canonical_names, has_canonical_names, is_nested_body, is_nested_node,
    lemma_program_names, lemma_program_nested,
};
use crate::node::{parse_program, LoopTypeModel, NodeModel};
use crate::number::is_literal;
use crate::operator::{arithmetic_symbol, ArithmeticOperator};
use crate::round_trip::lemma_program_round_trip;
use crate::text::tokens_of;
use crate::text_lemmas::is_solid;
use vstd::prelude::*;

verus! {

/// A variable, a literal or a call, or the negation of such a negation: what
/// the grammar takes for the left operand of a binary operation.
pub open spec fn is_left_operand(e: ExpressionModel) -> bool
    decreases e,
{
    match e {
        ExpressionModel::Variable(_) => true,
        ExpressionModel::Literal(_) => true,
        ExpressionModel::FunctionCall { .. } => true,
        ExpressionModel::Not(inner) => is_left_operand(*inner),
        ExpressionModel::BinaryOp { .. } => false,
    }
}

/// The expressions whose text is stable: as the canonical ones, but with
/// any left operand that the grammar takes for one.
pub open spec fn is_stable_expression(e: ExpressionModel) -> bool
    decreases e,
{
    match e {
        ExpressionModel::Variable(name) => is_operand(name) && !is_literal(name),
        ExpressionModel::Literal(value) => is_operand(value) && is_literal(value),
        ExpressionModel::BinaryOp { left, right, .. } => is_left_operand(*left)
            && is_stable_expression(*left) && is_stable_expression(*right),
        ExpressionModel::FunctionCall { name, args } => is_plain_name(name) && forall|i: int|
            0 <= i < args.len() ==> is_stable_expression(#[trigger] args[i]) && is_argument(
                args[i],
            ),
        ExpressionModel::Not(inner) => is_stable_expression(*inner),
    }
}

/// A stable call: its name can stand before `(`, and each of its arguments
/// is stable and can stand as an argument.
pub open spec fn is_stable_call(name: Seq<char>, args: Seq<ExpressionModel>) -> bool {
    is_call_name(name) && forall|i: int|
        0 <= i < args.len() ==> is_stable_expression(#[trigger] args[i]) && is_argument(args[i])
}

/// The binary operation of `left` and `right` as it is read back: where
/// `left` is a negation written apart from what it negates, the negation
/// takes the whole operation.
pub open spec fn settled_operation(
    left: ExpressionModel,
    operator: ArithmeticOperator,
    right: ExpressionModel,
) -> ExpressionModel
    decreases left,
{
    match left {
        ExpressionModel::Not(inner) => if is_dense(*inner) {
            ExpressionModel::BinaryOp { left: Box::new(left), operator, right: Box::new(right) }
        } else {
            ExpressionModel::Not(Box::new(settled_operation(*inner, operator, right)))
        },
        _ => ExpressionModel::BinaryOp { left: Box::new(left), operator, right: Box::new(right) },
    }
}

/// The expression that the text of `e` is read back as.
pub open spec fn settled_expression(e: ExpressionModel) -> ExpressionModel
    decreases e,
{
    match e {
        ExpressionModel::Variable(_) => e,
        ExpressionModel::Literal(_) => e,
        ExpressionModel::BinaryOp { left, operator, right } => settled_operation(
            settled_expression(*left),
            operator,
            settled_expression(*right),
        ),
        ExpressionModel::FunctionCall { name, args } => ExpressionModel::FunctionCall {
            name,
            args: Seq::new(
                args.len(),
                |i: int|
                    if 0 <= i < args.len() {
                        settled_expression(args[i])
                    } else {
                        ExpressionModel::Variable(Seq::empty())
                    },
            ),
        },
        ExpressionModel::Not(inner) => ExpressionModel::Not(Box::new(settled_expression(*inner))),
    }
}

/// The settled arguments of a call.
pub open spec fn settled_arguments(args: Seq<ExpressionModel>) -> Seq<ExpressionModel> {
    Seq::new(args.len(), |i: int| settled_expression(args[i]))
}

/// A settled operation is written as the operation it came from, is not
/// written without a space, and begins with `!` where its left operand
/// does.
pub proof fn lemma_settled_operation_text(
    left: ExpressionModel,
    operator: ArithmeticOperator,
    right: ExpressionModel,
)
    ensures
        expression_text(settled_operation(left, operator, right)) == expression_text(left) + " "@
            + arithmetic_symbol(operator) + " "@ + expression_text(right),
        !is_dense(settled_operation(left, operator, right)),
        begins_with_not(settled_operation(left, operator, right)) == begins_with_not(left),
        is_argument(settled_operation(left, operator, right)) == (is_argument(left)
            && is_argument(right)),
    decreases left,
{
    match left {
        ExpressionModel::Not(inner) => {
            if !is_dense(*inner) {
                lemma_settled_operation_text(*inner, operator, right);
                let middle = " "@ + arithmetic_symbol(operator) + " "@ + expression_text(right);
                assert(expression_text(settled_operation(left, operator, right)) =~= "! "@ + (
                expression_text(*inner) + " "@ + arithmetic_symbol(operator) + " "@
                    + expression_text(right)));
                assert(expression_text(left) == "! "@ + expression_text(*inner));
                assert("! "@ + (expression_text(*inner) + " "@ + arithmetic_symbol(operator) + " "@
                    + expression_text(right)) =~= "! "@ + expression_text(*inner) + " "@
                    + arithmetic_symbol(operator) + " "@ + expression_text(right));
            }
        },
        _ => {},
    }
}

/// A settled operation is canonical where its operands are and the left one
/// is what the grammar takes for a left operand.
pub proof fn lemma_settled_operation_canonical(
    left: ExpressionModel,
    operator: ArithmeticOperator,
    right: ExpressionModel,
)
    requires
        is_left_operand(left),
        is_canonical_expression(left),
        is_canonical_expression(right),
    ensures
        is_canonical_expression(settled_operation(left, operator, right)),
    decreases left,
{
    match left {
        ExpressionModel::Not(inner) => {
            if !is_dense(*inner) {
                lemma_settled_operation_canonical(*inner, operator, right);
            }
        },
        _ => {},
    }
}

/// Settling leaves the text of an expression as it was, and with it
/// whether the expression is written without a space, begins with `!` and
/// can stand as an argument; and it leaves a left operand a left operand.
pub proof fn lemma_settled_text(e: ExpressionModel)
    ensures
        expression_text(settled_expression(e)) == expression_text(e),
        is_dense(settled_expression(e)) == is_dense(e),
        begins_with_not(settled_expression(e)) == begins_with_not(e),
        is_argument(settled_expression(e)) == is_argument(e),
        is_left_operand(e) ==> is_left_operand(settled_expression(e)),
    decreases e, 1nat,
{
    match e {
        ExpressionModel::BinaryOp { left, operator, right } => {
            lemma_settled_text(*left);
            lemma_settled_text(*right);
            lemma_settled_operation_text(
                settled_expression(*left),
                operator,
                settled_expression(*right),
            );
        },
        ExpressionModel::FunctionCall { name, args } => {
            lemma_settled_arguments_text(args);
            let settled = settled_expression(e);
            assert(settled->FunctionCall_args =~= settled_arguments(args));
        },
        ExpressionModel::Not(inner) => {
            lemma_settled_text(*inner);
        },
        _ => {},
    }
}

/// Settling leaves the text of arguments as it was.
pub proof fn lemma_settled_arguments_text(args: Seq<ExpressionModel>)
    ensures
        arguments_text(settled_arguments(args)) == arguments_text(args),
        forall|i: int|
            0 <= i < args.len() ==> is_dense(#[trigger] settled_arguments(args)[i]) == is_dense(
                args[i],
            ) && is_argument(settled_arguments(args)[i]) == is_argument(args[i]),
    decreases args, 0nat,
{
    let settled = settled_arguments(args);
    assert forall|i: int| 0 <= i < args.len() implies is_dense(#[trigger] settled[i]) == is_dense(
        args[i],
    ) && is_argument(settled[i]) == is_argument(args[i]) by {
        lemma_settled_text(args[i]);
    }
    if args.len() == 0 {
    } else if args.len() == 1 {
        lemma_settled_text(args[0]);
    } else {
        let front = args.drop_last();
        lemma_settled_arguments_text(front);
        lemma_settled_text(args.last());
        assert(settled.drop_last() =~= settled_arguments(front));
        assert(settled.last() == settled_expression(args.last()));
    }
}

/// A stable expression settles to a canonical one.
pub proof fn lemma_settled_canonical(e: ExpressionModel)
    requires
        is_stable_expression(e),
    ensures
        is_canonical_expression(settled_expression(e)),
    decreases e,
{
    match e {
        ExpressionModel::BinaryOp { left, operator, right } => {
            lemma_settled_canonical(*left);
            lemma_settled_canonical(*right);
            lemma_settled_text(*left);
            lemma_settled_operation_canonical(
                settled_expression(*left),
                operator,
                settled_expression(*right),
            );
        },
        ExpressionModel::FunctionCall { name, args } => {
            let settled = settled_expression(e);
            assert(settled->FunctionCall_args =~= settled_arguments(args));
            assert forall|i: int| 0 <= i < args.len() implies is_canonical_expression(
                #[trigger] settled_arguments(args)[i],
            ) && is_argument(settled_arguments(args)[i]) by {
                assert(is_stable_expression(args[i]) && is_argument(args[i]));
                lemma_settled_canonical(args[i]);
                lemma_settled_text(args[i]);
            }
        },
        ExpressionModel::Not(inner) => {
            lemma_settled_canonical(*inner);
        },
        _ => {},
    }
}

/// The conditions whose text is stable: as the canonical ones, over stable
/// expressions.
pub open spec fn is_stable_condition(c: ConditionModel) -> bool
    decreases c,
{
    match c {
        ConditionModel::ComparisonOperator { left, right, .. } => is_stable_expression(left)
            && !begins_with_not(left) && is_stable_expression(right),
        ConditionModel::LogicalOperator { left, right, .. } => (*left is ComparisonOperator
            || *left is Value) && is_stable_condition(*left) && is_stable_condition(*right),
        ConditionModel::Value(name) => is_operand(name) && !is_literal(name),
        ConditionModel::NotValue(name) => is_solid(name),
    }
}

/// The condition that the text of `c` is read back as.
pub open spec fn settled_condition(c: ConditionModel) -> ConditionModel
    decreases c,
{
    match c {
        ConditionModel::ComparisonOperator { left, operator, right } => {
            ConditionModel::ComparisonOperator {
                left: settled_expression(left),
                operator,
                right: settled_expression(right),
            }
        },
        ConditionModel::LogicalOperator { left, operator, right } => {
            ConditionModel::LogicalOperator {
                left: Box::new(settled_condition(*left)),
                operator,
                right: Box::new(settled_condition(*right)),
            }
        },
        _ => c,
    }
}

/// Settling leaves the text of a condition as it was, and a stable
/// condition settles to a canonical one.
pub proof fn lemma_settled_condition(c: ConditionModel)
    ensures
        condition_text(settled_condition(c)) == condition_text(c),
        settled_condition(c) is ComparisonOperator == c is ComparisonOperator,
        settled_condition(c) is Value == c is Value,
        is_stable_condition(c) ==> is_canonical_condition(settled_condition(c)),
    decreases c,
{
    match c {
        ConditionModel::ComparisonOperator { left, operator, right } => {
            lemma_settled_text(left);
            lemma_settled_text(right);
            if is_stable_condition(c) {
                lemma_settled_canonical(left);
                lemma_settled_canonical(right);
            }
        },
        ConditionModel::LogicalOperator { left, operator, right } => {
            lemma_settled_condition(*left);
            lemma_settled_condition(*right);
        },
        _ => {},
    }
}

/// The statement that the text of `n` is read back as: each of its
/// expressions and conditions settled, and so all through its block.
pub open spec fn settled_node(n: NodeModel) -> NodeModel
    decreases n, 1nat,
{
    match n {
        NodeModel::Start { body } => NodeModel::Start { body: settled_body(body) },
        NodeModel::Loop { loop_type, body } => NodeModel::Loop {
            loop_type: match loop_type {
                LoopTypeModel::While(condition) => LoopTypeModel::While(
                    settled_condition(condition),
                ),
                LoopTypeModel::For { .. } => loop_type,
            },
            body: settled_body(body),
        },
        NodeModel::If { condition, body } => NodeModel::If {
            condition: settled_condition(condition),
            body: settled_body(body),
        },
        NodeModel::ElseIf { condition, body } => NodeModel::ElseIf {
            condition: settled_condition(condition),
            body: settled_body(body),
        },
        NodeModel::Else { body } => NodeModel::Else { body: settled_body(body) },
        NodeModel::Assignment { var, value } => NodeModel::Assignment {
            var,
            value: settled_expression(value),
        },
        NodeModel::FunctionCall { name, args } => NodeModel::FunctionCall {
            name,
            args: settled_arguments(args),
        },
        NodeModel::Return { value } => NodeModel::Return { value: settled_expression(value) },
        _ => n,
    }
}

/// The block that the text of `nodes` is read back as.
pub open spec fn settled_body(nodes: Seq<NodeModel>) -> Seq<NodeModel>
    decreases nodes, 0nat,
{
    Seq::new(
        nodes.len(),
        |i: int|
            if 0 <= i < nodes.len() {
                settled_node(nodes[i])
            } else {
                NodeModel::End
            },
    )
}

/// Every expression, condition and call of the tree, at any depth, is
/// stable.
pub open spec fn has_stable_terms(n: NodeModel) -> bool
    decreases n, 1nat,
{
    match n {
        NodeModel::Start { body } => all_have_stable_terms(body),
        NodeModel::Loop { loop_type, body } => (match loop_type {
            LoopTypeModel::While(condition) => is_stable_condition(condition),
            LoopTypeModel::For { .. } => true,
        }) && all_have_stable_terms(body),
        NodeModel::If { condition, body } => is_stable_condition(condition)
            && all_have_stable_terms(body),
        NodeModel::ElseIf { condition, body } => is_stable_condition(condition)
            && all_have_stable_terms(body),
        NodeModel::Else { body } => all_have_stable_terms(body),
        NodeModel::Assignment { value, .. } => is_stable_expression(value),
        NodeModel::FunctionCall { name, args } => is_stable_call(name, args),
        NodeModel::Return { value } => is_stable_expression(value),
        _ => true,
    }
}

/// Every expression, condition and call of the block, at any depth, is
/// stable.
pub open spec fn all_have_stable_terms(nodes: Seq<NodeModel>) -> bool
    decreases nodes, 0nat,
{
    forall|i: int| 0 <= i < nodes.len() ==> has_stable_terms(#[trigger] nodes[i])
}

/// Settling leaves the text of a statement as it was, and the kind of the
/// statement.
pub proof fn lemma_settled_node_text(n: NodeModel, level: nat)
    ensures
        header_text(settled_node(n)) == header_text(n),
        node_text(settled_node(n), level) == node_text(n, level),
        is_closer(settled_node(n)) == is_closer(n),
        is_opener(settled_node(n)) == is_opener(n),
    decreases n, 1nat,
{
    match n {
        NodeModel::Start { body } => {
            lemma_settled_body_text(body, level + 1);
        },
        NodeModel::Loop { loop_type, body } => {
            match loop_type {
                LoopTypeModel::While(condition) => {
                    lemma_settled_condition(condition);
                },
                _ => {},
            }
            lemma_settled_body_text(body, level + 1);
        },
        NodeModel::If { condition, body } => {
            lemma_settled_condition(condition);
            lemma_settled_body_text(body, level + 1);
        },
        NodeModel::ElseIf { condition, body } => {
            lemma_settled_condition(condition);
            lemma_settled_body_text(body, level + 1);
        },
        NodeModel::Else { body } => {
            lemma_settled_body_text(body, level + 1);
        },
        NodeModel::Assignment { value, .. } => {
            lemma_settled_text(value);
        },
        NodeModel::FunctionCall { args, .. } => {
            lemma_settled_arguments_text(args);
        },
        NodeModel::Return { value } => {
            lemma_settled_text(value);
        },
        _ => {},
    }
}

/// Settling leaves the text of a block as it was.
pub proof fn lemma_settled_body_text(nodes: Seq<NodeModel>, level: nat)
    ensures
        body_text(settled_body(nodes), level) == body_text(nodes, level),
    decreases nodes, 0nat,
{
    if nodes.len() > 0 {
        let front = nodes.drop_last();
        lemma_settled_body_text(front, level);
        lemma_settled_node_text(nodes.last(), level);
        assert(settled_body(nodes).drop_last() =~= settled_body(front));
        assert(settled_body(nodes).last() == settled_node(nodes.last()));
    }
}

/// A well-nested statement with canonical names and stable expressions,
/// conditions and calls settles to a canonical statement.
pub proof fn lemma_settled_node_canonical(n: NodeModel, open: bool)
    requires
        is_nested_node(n, open),
        has_canonical_names(n),
        has_stable_terms(n),
    ensures
        is_canonical_node(settled_node(n), open),
    decreases n, 1nat,
{
    match n {
        NodeModel::Loop { loop_type, body } => {
            match loop_type {
                LoopTypeModel::While(condition) => {
                    lemma_settled_condition(condition);
                },
                _ => {},
            }
            lemma_settled_body_canonical(body, open);
        },
        NodeModel::If { condition, body } => {
            lemma_settled_condition(condition);
            lemma_settled_body_canonical(body, open);
        },
        NodeModel::ElseIf { condition, body } => {
            lemma_settled_condition(condition);
            lemma_settled_body_canonical(body, open);
        },
        NodeModel::Else { body } => {
            lemma_settled_body_canonical(body, open);
        },
        NodeModel::Assignment { value, .. } => {
            lemma_settled_canonical(value);
        },
        NodeModel::FunctionCall { name, args } => {
            assert forall|i: int| 0 <= i < args.len() implies is_canonical_expression(
                #[trigger] settled_arguments(args)[i],
            ) && is_argument(settled_arguments(args)[i]) by {
                assert(is_stable_expression(args[i]) && is_argument(args[i]));
                lemma_settled_canonical(args[i]);
                lemma_settled_text(args[i]);
            }
        },
        NodeModel::Return { value } => {
            lemma_settled_canonical(value);
        },
        _ => {},
    }
}

/// A well-nested block with canonical names and stable expressions,
/// conditions and calls settles to a canonical block.
pub proof fn lemma_settled_body_canonical(nodes: Seq<NodeModel>, open: bool)
    requires
        is_nested_body(nodes, open),
        all_have_canonical_names(nodes),
        all_have_stable_terms(nodes),
    ensures
        is_canonical_body(settled_body(nodes), open),
    decreases nodes, 0nat,
{
    let settled = settled_body(nodes);
    assert forall|i: int| 0 <= i < settled.len() implies is_canonical_node(
        #[trigger] settled[i],
        open && i == settled.len() - 1,
    ) by {
        assert(is_nested_node(nodes[i], open && i == nodes.len() - 1));
        assert(has_canonical_names(nodes[i]));
        assert(has_stable_terms(nodes[i]));
        lemma_settled_node_canonical(nodes[i], open && i == nodes.len() - 1);
    }
    assert forall|i: int| 0 <= i < settled.len() implies is_closer(#[trigger] settled[i])
        == is_closer(nodes[i]) && is_opener(settled[i]) == is_opener(nodes[i]) by {
        lemma_settled_node_text(nodes[i], 0);
    }
    assert forall|i: int|
        0 <= i < settled.len() && is_opener(#[trigger] settled[i]) implies (i + 1 < settled.len()
        && is_closer(settled[i + 1])) || (open && i == settled.len() - 1) by {
        assert(is_opener(nodes[i]));
        if i + 1 < nodes.len() {
            assert(is_closer(settled[i + 1]) == is_closer(nodes[i + 1]));
        }
    }
    assert forall|i: int| 0 <= i < settled.len() && is_closer(#[trigger] settled[i]) implies i > 0
        && is_opener(settled[i - 1]) by {
        assert(is_closer(nodes[i]));
        assert(is_opener(settled[i - 1]) == is_opener(nodes[i - 1]));
    }
}

/// The text of a formatted program is stable: where a text parses to a
/// program whose expressions, conditions and calls are stable, the
/// formatted text of that program parses again, to the settled program, and
/// formatting it once more gives the same text, character for character.
pub proof fn lemma_text_stable(text: Seq<char>)
    requires
        parse_program(tokens_of(text)) is Ok,
        has_stable_terms(parse_program(tokens_of(text))->Ok_0),
    ensures
        format_program(tokens_of(text)) is Ok,
        parse_program(tokens_of(format_program(tokens_of(text))->Ok_0)) == Ok::<
            NodeModel,
            ParseErrorModel,
        >(settled_node(parse_program(tokens_of(text))->Ok_0)),
        format_program(tokens_of(format_program(tokens_of(text))->Ok_0)) == format_program(
            tokens_of(text),
        ),
{
    let program = parse_program(tokens_of(text))->Ok_0;
    lemma_program_names(text);
    lemma_program_nested(tokens_of(text));
    lemma_settled_node_text(program, 0);
    match program {
        NodeModel::Start { body } => {
            lemma_settled_body_canonical(body, true);
        },
        _ => {},
    }
    lemma_program_round_trip(settled_node(program));
}

} // verus!
