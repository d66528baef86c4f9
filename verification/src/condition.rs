//! Conditions: comparisons of expressions, bare and negated names, and the
//! logical operations that chain them to the right.

use crate::error::{ParseError, ParseErrorModel};
use crate::expression::{
    expression_matches, expression_text, lemma_expression_consumes, parse_expression,
    starts_with_bang, Expression, ExpressionModel,
};
use crate::operator::{
    comparison_of, comparison_symbol, logical_of, logical_symbol, ComparisonOperator,
    LogicalOperator,
};
use crate::parsing::{
    consumed_prefix, lemma_consumed_skip, lemma_consumed_transitive, parsed, Parsable,
};
use crate::text::rest_of;
use vstd::prelude::*;
use vstd::string::*;

verus! {

/// A condition: what `if`, `elseif` and `while` test.
#[allow(inconsistent_fields)]
#[derive(Debug, PartialEq, Eq)]
pub enum Condition {
    ComparisonOperator {
        left: Box<Expression>,
        operator: Box<ComparisonOperator>,
        right: Box<Expression>,
    },
    LogicalOperator { left: Box<Condition>, operator: Box<LogicalOperator>, right: Box<Condition> },
    Value(String),
    NotValue(String),
}

/// A `Condition` with its texts as sequences of characters.
#[allow(inconsistent_fields)]
pub enum ConditionModel {
    ComparisonOperator {
        left: ExpressionModel,
        operator: ComparisonOperator,
        right: ExpressionModel,
    },
    LogicalOperator {
        left: Box<ConditionModel>,
        operator: LogicalOperator,
        right: Box<ConditionModel>,
    },
    Value(Seq<char>),
    NotValue(Seq<char>),
}

/// The model of a condition.
pub open spec fn condition_model(c: Condition) -> ConditionModel
    decreases c,
{
    match c {
        Condition::ComparisonOperator { left, operator, right } => {
            ConditionModel::ComparisonOperator { left: left@, operator: *operator, right: right@ }
        },
        Condition::LogicalOperator { left, operator, right } => ConditionModel::LogicalOperator {
            left: Box::new(condition_model(*left)),
            operator: *operator,
            right: Box::new(condition_model(*right)),
        },
        Condition::Value(name) => ConditionModel::Value(name@),
        Condition::NotValue(name) => ConditionModel::NotValue(name@),
    }
}

impl View for Condition {
    type V = ConditionModel;

    open spec fn view(&self) -> ConditionModel {
        condition_model(*self)
    }
}

/// The tokens that look like the start of a condition.
pub open spec fn condition_matches(value: Seq<char>) -> bool {
    expression_matches(value) || starts_with_bang(value)
}

/// The error for an expression that is no condition: it is not a lone
/// variable, and `rest`, which follows it, does not begin with a comparison
/// operator and a token behind it.
pub open spec fn not_a_condition(rest: Seq<Seq<char>>) -> ParseErrorModel {
    if rest.len() == 0 || comparison_of(rest[0]) is Some {
        ParseErrorModel::MissingTokens
    } else {
        ParseErrorModel::InvalidOperator(rest[0])
    }
}

/// The grammar of a condition. A token that begins with `!` is a negated
/// name, whatever follows it: the name is the token without that `!`.
/// Otherwise an expression is read; with a comparison operator and a token
/// behind it, a second expression makes a comparison of the two; without
/// one, a lone variable is a condition by itself. After a comparison or a
/// variable, a logical operator with a token behind it chains the condition
/// that follows. Anything else is an error, and no tokens at all are
/// missing tokens.
pub open spec fn parse_condition(ts: Seq<Seq<char>>) -> Result<
    (ConditionModel, Seq<Seq<char>>),
    ParseErrorModel,
>
    decreases ts.len(), 1nat,
{
    if ts.len() == 0 {
        Err(ParseErrorModel::MissingTokens)
    } else if starts_with_bang(ts[0]) {
        Ok((ConditionModel::NotValue(ts[0].drop_first()), ts.skip(1)))
    } else {
        proof {
            lemma_expression_consumes(ts);
        }
        match parse_expression(ts) {
            Err(e) => Err(e),
            Ok((left, rest)) => {
                if rest.len() >= 2 && comparison_of(rest[0]) is Some {
                    proof {
                        lemma_expression_consumes(rest.skip(1));
                    }
                    match parse_expression(rest.skip(1)) {
                        Err(e) => Err(e),
                        Ok((right, after)) => continue_logical(
                            ConditionModel::ComparisonOperator {
                                left,
                                operator: comparison_of(rest[0])->0,
                                right,
                            },
                            after,
                        ),
                    }
                } else {
                    match left {
                        ExpressionModel::Variable(name) => continue_logical(
                            ConditionModel::Value(name),
                            rest,
                        ),
                        _ => Err(not_a_condition(rest)),
                    }
                }
            },
        }
    }
}

/// What becomes of a comparison or a variable with `rest` behind it: the
/// left side of a logical operation where a logical operator and at least
/// one more token follow, itself where they do not.
pub open spec fn continue_logical(left: ConditionModel, rest: Seq<Seq<char>>) -> Result<
    (ConditionModel, Seq<Seq<char>>),
    ParseErrorModel,
>
    decreases rest.len(), 0nat,
{
    if rest.len() >= 2 && logical_of(rest[0]) is Some {
        match parse_condition(rest.skip(1)) {
            Err(e) => Err(e),
            Ok((right, after)) => Ok(
                (
                    ConditionModel::LogicalOperator {
                        left: Box::new(left),
                        operator: logical_of(rest[0])->0,
                        right: Box::new(right),
                    },
                    after,
                ),
            ),
        }
    } else {
        Ok((left, rest))
    }
}

/// A condition takes one token or more from the front of its input and
/// leaves the rest as it was.
pub proof fn lemma_condition_consumes(ts: Seq<Seq<char>>)
    ensures
        parse_condition(ts) matches Ok((_, rest)) ==> consumed_prefix(ts, rest),
    decreases ts.len(), 1nat,
{
    if ts.len() == 0 {
    } else if starts_with_bang(ts[0]) {
        lemma_consumed_skip(ts, 1);
    } else {
        lemma_expression_consumes(ts);
        match parse_expression(ts) {
            Err(_) => {},
            Ok((left, rest)) => {
                if rest.len() >= 2 && comparison_of(rest[0]) is Some {
                    lemma_consumed_skip(rest, 1);
                    lemma_expression_consumes(rest.skip(1));
                    match parse_expression(rest.skip(1)) {
                        Err(_) => {},
                        Ok((right, after)) => {
                            lemma_consumed_transitive(rest, rest.skip(1), after);
                            lemma_consumed_transitive(ts, rest, after);
                            lemma_logical_consumes(
                                ts,
                                ConditionModel::ComparisonOperator {
                                    left,
                                    operator: comparison_of(rest[0])->0,
                                    right,
                                },
                                after,
                            );
                        },
                    }
                } else {
                    match left {
                        ExpressionModel::Variable(name) => {
                            lemma_logical_consumes(ts, ConditionModel::Value(name), rest);
                        },
                        _ => {},
                    }
                }
            },
        }
    }
}

/// What the left side of a logical operation and its right side leave of
/// `ts`, where the left side alone leaves `rest`.
pub proof fn lemma_logical_consumes(ts: Seq<Seq<char>>, left: ConditionModel, rest: Seq<Seq<char>>)
    requires
        consumed_prefix(ts, rest),
    ensures
        continue_logical(left, rest) matches Ok((_, after)) ==> consumed_prefix(ts, after),
    decreases ts.len(), 0nat,
{
    if rest.len() >= 2 && logical_of(rest[0]) is Some {
        lemma_consumed_skip(rest, 1);
        lemma_condition_consumes(rest.skip(1));
        match parse_condition(rest.skip(1)) {
            Ok((_, after)) => {
                lemma_consumed_transitive(rest, rest.skip(1), after);
                lemma_consumed_transitive(ts, rest, after);
            },
            Err(_) => {},
        }
    }
}

/// A condition as the formatter writes it.
pub open spec fn condition_text(c: ConditionModel) -> Seq<char>
    decreases c,
{
    match c {
        ConditionModel::ComparisonOperator { left, operator, right } => expression_text(left)
            + " "@ + comparison_symbol(operator) + " "@ + expression_text(right),
        ConditionModel::LogicalOperator { left, operator, right } => condition_text(*left) + " "@
            + logical_symbol(operator) + " "@ + condition_text(*right),
        ConditionModel::Value(name) => name,
        ConditionModel::NotValue(name) => "!"@ + name,
    }
}

impl Condition {
    /// Tells whether `value` looks like the start of a condition.
    pub fn matches(value: &str) -> (b: bool)
        ensures
            b == condition_matches(value@),
    {
        Expression::matches(value) || (value.unicode_len() > 0 && value.get_char(0) == '!')
    }

    /// Looks for a logical operator with at least one token behind it at the
    /// front of `rest`, and chains the condition that follows it to `left`.
    fn parse_logical_tail<'a>(left: Box<Condition>, rest: &'a [&'a str]) -> (r: Result<
        (Box<Self>, &'a [&'a str]),
        ParseError,
    >)
        ensures
            parsed(r, continue_logical(left@, rest.deep_view())),
        decreases rest@.len(), 0nat,
    {
        if rest.len() >= 2 {
            match LogicalOperator::parse(rest) {
                Ok((operator, remaining)) => {
                    return match Self::parse(remaining) {
                        Err(e) => Err(e),
                        Ok((right, after)) => Ok(
                            (Box::new(Condition::LogicalOperator { left, operator, right }), after),
                        ),
                    };
                },
                Err(_) => {},
            }
        }
        Ok((left, rest))
    }

    /// Reads one condition from the front of `parts` and hands back the
    /// tokens behind it.
    pub fn parse<'a>(parts: &'a [&'a str]) -> (r: Result<(Box<Self>, &'a [&'a str]), ParseError>)
        ensures
            parsed(r, parse_condition(parts.deep_view())),
        decreases parts@.len(), 1nat,
    {
        let ghost ts = parts.deep_view();
        if parts.len() == 0 {
            return Err(ParseError::MissingTokens);
        }
        let first = parts[0];
        if first.unicode_len() > 0 && first.get_char(0) == '!' {
            let name = String::from_str(first.substring_char(1, first.unicode_len()));
            assert(name@ =~= ts[0].drop_first());
            return Ok((Box::new(Condition::NotValue(name)), rest_of(parts, 1)));
        }
        proof {
            lemma_expression_consumes(ts);
        }
        let (left, rest) = match Expression::parse(parts) {
            Err(e) => {
                return Err(e);
            },
            Ok(found) => found,
        };
        if rest.len() >= 2 {
            match ComparisonOperator::parse(rest) {
                Ok((operator, remaining)) => {
                    proof {
                        lemma_expression_consumes(rest.deep_view().skip(1));
                    }
                    return match Expression::parse(remaining) {
                        Err(e) => Err(e),
                        Ok((right, after)) => Self::parse_logical_tail(
                            Box::new(Condition::ComparisonOperator { left, operator, right }),
                            after,
                        ),
                    };
                },
                Err(_) => {},
            }
        }
        match *left {
            Expression::Variable(name) => Self::parse_logical_tail(
                Box::new(Condition::Value(name)),
                rest,
            ),
            _ => {
                if rest.len() == 0 || ComparisonOperator::matches(rest[0]) {
                    Err(ParseError::MissingTokens)
                } else {
                    Err(ParseError::invalid_operator(rest[0]))
                }
            },
        }
    }

    /// The condition as text, its parts in the order in which they were
    /// read, without parentheses.
    pub fn fmt(&self) -> (text: String)
        ensures
            text@ == condition_text(self@),
        decreases self,
    {
        match self {
            Condition::ComparisonOperator { left, operator, right } => {
                let mut text = left.fmt();
                text.append(" ");
                text.append(operator.fmt().as_str());
                text.append(" ");
                text.append(right.fmt().as_str());
                text
            },
            Condition::LogicalOperator { left, operator, right } => {
                let mut text = left.fmt();
                text.append(" ");
                text.append(operator.fmt().as_str());
                text.append(" ");
                text.append(right.fmt().as_str());
                text
            },
            Condition::Value(name) => name.clone(),
            Condition::NotValue(name) => {
                let mut text = String::from_str("!");
                text.append(name.as_str());
                text
            },
        }
    }
}

impl Parsable for Condition {
    open spec fn leading(value: Seq<char>) -> bool {
        condition_matches(value)
    }

    open spec fn grammar(tokens: Seq<Seq<char>>) -> Result<
        (Self::V, Seq<Seq<char>>),
        ParseErrorModel,
    > {
        parse_condition(tokens)
    }

    fn matches(value: &str) -> (b: bool) {
        Condition::matches(value)
    }

    fn parse<'a>(parts: &'a [&'a str]) -> (r: Result<(Box<Self>, &'a [&'a str]), ParseError>) {
        Condition::parse(parts)
    }
}

} // verus!
