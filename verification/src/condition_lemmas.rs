//! That the parser reads the text of a canonical condition back as the
//! condition it was written for.

use crate::canonical::is_canonical_condition;
use crate::condition::{condition_text, continue_logical, parse_condition, ConditionModel};
use crate::error::ParseErrorModel;
use crate::expression::{expression_text, starts_with_bang, ExpressionModel};
use crate::expression_lemmas::{
    lemma_expression_round_trip, lemma_expression_text, lemma_operand_facts,
    lemma_spaced_infix, reveal_text_literals,
};
use crate::keyword_lemmas::is_operator;
use crate::operator::{
    arithmetic_of, comparison_of, comparison_symbol, lemma_comparison_symbol, lemma_logical_symbol,
    logical_symbol, reveal_operator_literals, ComparisonOperator, LogicalOperator,
};
use crate::text::{
    is_token, is_whitespace, lemma_word_len, tokens_of, word_len,
};
use crate::text_lemmas::{
    is_normalized, lemma_normalized_join, lemma_tokens_single,
};
use vstd::prelude::*;

verus! {

/// What follows a condition does not go on with it: it does not begin with
/// an operator.
pub open spec fn ends_condition(rest: Seq<Seq<char>>) -> bool {
    rest.len() == 0 || !is_operator(rest[0])
}

/// What may follow the left side of a logical operation: a logical
/// operator, or what may follow a condition.
pub open spec fn ends_comparison(rest: Seq<Seq<char>>) -> bool {
    rest.len() == 0 || (arithmetic_of(rest[0]) is None && comparison_of(rest[0]) is None)
}

/// The first token of a normalized text begins where the text begins.
pub proof fn lemma_first_token(t: Seq<char>)
    requires
        is_normalized(t),
        t.len() > 0,
    ensures
        tokens_of(t).len() > 0,
        tokens_of(t)[0].len() > 0,
        tokens_of(t)[0][0] == t[0],
{
    lemma_word_len(t);
    let w = word_len(t) as int;
    assert(tokens_of(t)[0] == t.take(w));
}

/// The symbols of the comparison and logical operators are tokens.
pub proof fn lemma_operator_symbols()
    ensures
        forall|op: ComparisonOperator| is_token(#[trigger] comparison_symbol(op)),
        forall|op: LogicalOperator| is_token(#[trigger] logical_symbol(op)),
{
    reveal_operator_literals();
    assert forall|op: ComparisonOperator| is_token(#[trigger] comparison_symbol(op)) by {
        let s = comparison_symbol(op);
        assert(s.len() == 1 || s.len() == 2);
        assert forall|i: int| 0 <= i < s.len() implies !is_whitespace(#[trigger] s[i]) by {
            assert(i == 0 || i == 1);
        }
    }
    assert forall|op: LogicalOperator| is_token(#[trigger] logical_symbol(op)) by {
        let s = logical_symbol(op);
        assert(s.len() == 2);
        assert forall|i: int| 0 <= i < s.len() implies !is_whitespace(#[trigger] s[i]) by {
            assert(i == 0 || i == 1);
        }
    }
}

/// The text of a canonical condition is normalized and not empty.
pub proof fn lemma_condition_text(c: ConditionModel)
    requires
        is_canonical_condition(c),
    ensures
        is_normalized(condition_text(c)),
        condition_text(c).len() > 0,
    decreases c,
{
    reveal_text_literals();
    lemma_operator_symbols();
    match c {
        ConditionModel::ComparisonOperator { left, operator, right } => {
            lemma_expression_text(left);
            lemma_expression_text(right);
            lemma_spaced_infix(
                expression_text(left),
                comparison_symbol(operator),
                expression_text(right),
            );
        },
        ConditionModel::LogicalOperator { left, operator, right } => {
            lemma_condition_text(*left);
            lemma_condition_text(*right);
            lemma_spaced_infix(
                condition_text(*left),
                logical_symbol(operator),
                condition_text(*right),
            );
        },
        ConditionModel::Value(name) => {
            lemma_operand_facts(name);
        },
        ConditionModel::NotValue(name) => {
            let w = "!"@ + name;
            assert(w =~= seq!['!'] + name);
            assert forall|i: int| 0 <= i < w.len() implies !is_whitespace(#[trigger] w[i]) by {
                if i > 0 {
                    assert(w[i] == name[i - 1]);
                }
            }
            assert(is_token(w));
        },
    }
}

/// The text of a canonical comparison or name, with anything behind it that
/// is no arithmetic and no comparison operator, is read as that condition
/// and goes on as the grammar says.
pub proof fn lemma_comparison_round_trip(c: ConditionModel, rest: Seq<Seq<char>>)
    requires
        is_canonical_condition(c),
        c is ComparisonOperator || c is Value,
        ends_comparison(rest),
    ensures
        parse_condition(tokens_of(condition_text(c)) + rest) == continue_logical(c, rest),
{
    reveal_text_literals();
    lemma_operator_symbols();
    let ts = tokens_of(condition_text(c)) + rest;
    match c {
        ConditionModel::ComparisonOperator { left, operator, right } => {
            let a = expression_text(left);
            let b = expression_text(right);
            let symbol = comparison_symbol(operator);
            lemma_expression_text(left);
            lemma_expression_text(right);
            lemma_spaced_infix(a, symbol, b);
            lemma_comparison_symbol(operator);
            lemma_normalized_join(a);
            lemma_normalized_join(b);
            lemma_first_token(a);
            let behind = seq![symbol] + tokens_of(b) + rest;
            assert(ts =~= tokens_of(a) + behind);
            assert(ts[0] == tokens_of(a)[0]);
            assert(!starts_with_bang(ts[0]));
            assert(behind[0] == symbol);
            lemma_expression_round_trip(left, behind);
            assert(behind.skip(1) =~= tokens_of(b) + rest);
            lemma_expression_round_trip(right, rest);
        },
        ConditionModel::Value(name) => {
            lemma_operand_facts(name);
            assert(ts[0] == name);
            assert(expression_text(ExpressionModel::Variable(name)) == name);
            lemma_expression_round_trip(ExpressionModel::Variable(name), rest);
        },
        _ => {},
    }
}

/// The text of a canonical condition, followed by tokens that do not go on
/// with it, is read back as that condition, and those tokens are left.
pub proof fn lemma_condition_round_trip(c: ConditionModel, rest: Seq<Seq<char>>)
    requires
        is_canonical_condition(c),
        ends_condition(rest),
    ensures
        parse_condition(tokens_of(condition_text(c)) + rest) == Ok::<
            (ConditionModel, Seq<Seq<char>>),
            ParseErrorModel,
        >((c, rest)),
    decreases c,
{
    reveal_text_literals();
    lemma_operator_symbols();
    let ts = tokens_of(condition_text(c)) + rest;
    match c {
        ConditionModel::ComparisonOperator { .. } => {
            lemma_comparison_round_trip(c, rest);
        },
        ConditionModel::Value(_) => {
            lemma_comparison_round_trip(c, rest);
        },
        ConditionModel::LogicalOperator { left, operator, right } => {
            let a = condition_text(*left);
            let b = condition_text(*right);
            let symbol = logical_symbol(operator);
            lemma_condition_text(*left);
            lemma_condition_text(*right);
            lemma_spaced_infix(a, symbol, b);
            lemma_logical_symbol(operator);
            lemma_normalized_join(b);
            let behind = seq![symbol] + tokens_of(b) + rest;
            assert(ts =~= tokens_of(a) + behind);
            assert(behind[0] == symbol);
            lemma_comparison_round_trip(*left, behind);
            assert(behind.skip(1) =~= tokens_of(b) + rest);
            lemma_condition_round_trip(*right, rest);
        },
        ConditionModel::NotValue(name) => {
            let w = "!"@ + name;
            assert(w =~= seq!['!'] + name);
            assert forall|i: int| 0 <= i < w.len() implies !is_whitespace(#[trigger] w[i]) by {
                if i > 0 {
                    assert(w[i] == name[i - 1]);
                }
            }
            lemma_tokens_single(w);
            assert(ts[0] == w);
            assert(ts.skip(1) =~= rest);
            assert(w.drop_first() =~= name);
        },
    }
}

} // verus!
