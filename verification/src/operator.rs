//! The operator tables: which symbol stands for which operator.

use crate::error::{ParseError, ParseErrorModel};
use crate::parsing::{parsed, Parsable};
use crate::text::{rest_of, text_eq};
use vstd::prelude::*;
use vstd::string::*;

verus! {

/// The operators that compare two expressions.
#[derive(Debug, Clone, Copy, PartialEq, Eq, Structural)]
pub enum ComparisonOperator {
    Eq,
    Neq,
    Gt,
    Lt,
    Gte,
    Lte,
}

/// The operators that make one expression of two.
#[derive(Debug, Clone, Copy, PartialEq, Eq, Structural)]
pub enum ArithmeticOperator {
    Addition,
    Subtraction,
    Multiplication,
    Division,
    Modulo,
}

/// The operators that chain conditions.
#[derive(Debug, Clone, Copy, PartialEq, Eq, Structural)]
pub enum LogicalOperator {
    And,
    Or,
}

impl View for ComparisonOperator {
    type V = ComparisonOperator;

    open spec fn view(&self) -> ComparisonOperator {
        *self
    }
}

impl View for ArithmeticOperator {
    type V = ArithmeticOperator;

    open spec fn view(&self) -> ArithmeticOperator {
        *self
    }
}

impl View for LogicalOperator {
    type V = LogicalOperator;

    open spec fn view(&self) -> LogicalOperator {
        *self
    }
}

/// The comparison operator that the token `t` spells, if any.
pub open spec fn comparison_of(t: Seq<char>) -> Option<ComparisonOperator> {
    if t == "=="@ {
        Some(ComparisonOperator::Eq)
    } else if t == "!="@ {
        Some(ComparisonOperator::Neq)
    } else if t == ">"@ {
        Some(ComparisonOperator::Gt)
    } else if t == "<"@ {
        Some(ComparisonOperator::Lt)
    } else if t == ">="@ {
        Some(ComparisonOperator::Gte)
    } else if t == "<="@ {
        Some(ComparisonOperator::Lte)
    } else {
        None
    }
}

/// The arithmetic operator that the token `t` spells, if any.
pub open spec fn arithmetic_of(t: Seq<char>) -> Option<ArithmeticOperator> {
    if t == "+"@ {
        Some(ArithmeticOperator::Addition)
    } else if t == "-"@ {
        Some(ArithmeticOperator::Subtraction)
    } else if t == "*"@ {
        Some(ArithmeticOperator::Multiplication)
    } else if t == "/"@ {
        Some(ArithmeticOperator::Division)
    } else if t == "%"@ {
        Some(ArithmeticOperator::Modulo)
    } else {
        None
    }
}

/// The logical operator that the token `t` spells, if any.
pub open spec fn logical_of(t: Seq<char>) -> Option<LogicalOperator> {
    if t == "&&"@ {
        Some(LogicalOperator::And)
    } else if t == "||"@ {
        Some(LogicalOperator::Or)
    } else {
        None
    }
}

/// The symbol that stands for a comparison operator.
pub open spec fn comparison_symbol(op: ComparisonOperator) -> Seq<char> {
    match op {
        ComparisonOperator::Eq => "=="@,
        ComparisonOperator::Neq => "!="@,
        ComparisonOperator::Gt => ">"@,
        ComparisonOperator::Lt => "<"@,
        ComparisonOperator::Gte => ">="@,
        ComparisonOperator::Lte => "<="@,
    }
}

/// The symbol that stands for an arithmetic operator.
pub open spec fn arithmetic_symbol(op: ArithmeticOperator) -> Seq<char> {
    match op {
        ArithmeticOperator::Addition => "+"@,
        ArithmeticOperator::Subtraction => "-"@,
        ArithmeticOperator::Multiplication => "*"@,
        ArithmeticOperator::Division => "/"@,
        ArithmeticOperator::Modulo => "%"@,
    }
}

/// The symbol that stands for a logical operator.
pub open spec fn logical_symbol(op: LogicalOperator) -> Seq<char> {
    match op {
        LogicalOperator::And => "&&"@,
        LogicalOperator::Or => "||"@,
    }
}

/// The grammar of a comparison operator: the first token, which must spell
/// one.
pub open spec fn parse_comparison(ts: Seq<Seq<char>>) -> Result<
    (ComparisonOperator, Seq<Seq<char>>),
    ParseErrorModel,
> {
    if ts.len() == 0 {
        Err(ParseErrorModel::MissingTokens)
    } else {
        match comparison_of(ts[0]) {
            Some(op) => Ok((op, ts.skip(1))),
            None => Err(ParseErrorModel::InvalidOperator(ts[0])),
        }
    }
}

/// The grammar of an arithmetic operator.
pub open spec fn parse_arithmetic(ts: Seq<Seq<char>>) -> Result<
    (ArithmeticOperator, Seq<Seq<char>>),
    ParseErrorModel,
> {
    if ts.len() == 0 {
        Err(ParseErrorModel::MissingTokens)
    } else {
        match arithmetic_of(ts[0]) {
            Some(op) => Ok((op, ts.skip(1))),
            None => Err(ParseErrorModel::InvalidOperator(ts[0])),
        }
    }
}

/// The grammar of a logical operator.
pub open spec fn parse_logical(ts: Seq<Seq<char>>) -> Result<
    (LogicalOperator, Seq<Seq<char>>),
    ParseErrorModel,
> {
    if ts.len() == 0 {
        Err(ParseErrorModel::MissingTokens)
    } else {
        match logical_of(ts[0]) {
            Some(op) => Ok((op, ts.skip(1))),
            None => Err(ParseErrorModel::InvalidOperator(ts[0])),
        }
    }
}

/// Each symbol is read back as the operator it was written for.
pub proof fn lemma_comparison_symbol(op: ComparisonOperator)
    ensures
        comparison_of(comparison_symbol(op)) == Some(op),
        arithmetic_of(comparison_symbol(op)) is None,
        logical_of(comparison_symbol(op)) is None,
{
    reveal_operator_literals();
}

/// Each symbol is read back as the operator it was written for.
pub proof fn lemma_arithmetic_symbol(op: ArithmeticOperator)
    ensures
        arithmetic_of(arithmetic_symbol(op)) == Some(op),
        comparison_of(arithmetic_symbol(op)) is None,
        logical_of(arithmetic_symbol(op)) is None,
{
    reveal_operator_literals();
}

/// Each symbol is read back as the operator it was written for.
pub proof fn lemma_logical_symbol(op: LogicalOperator)
    ensures
        logical_of(logical_symbol(op)) == Some(op),
        comparison_of(logical_symbol(op)) is None,
        arithmetic_of(logical_symbol(op)) is None,
{
    reveal_operator_literals();
}

/// What the thirteen operator symbols hold, character by character.
pub proof fn reveal_operator_literals()
    ensures
        "=="@.len() == 2 && "=="@[0] == '=' && "=="@[1] == '=',
        "!="@.len() == 2 && "!="@[0] == '!' && "!="@[1] == '=',
        ">"@.len() == 1 && ">"@[0] == '>',
        "<"@.len() == 1 && "<"@[0] == '<',
        ">="@.len() == 2 && ">="@[0] == '>' && ">="@[1] == '=',
        "<="@.len() == 2 && "<="@[0] == '<' && "<="@[1] == '=',
        "+"@.len() == 1 && "+"@[0] == '+',
        "-"@.len() == 1 && "-"@[0] == '-',
        "*"@.len() == 1 && "*"@[0] == '*',
        "/"@.len() == 1 && "/"@[0] == '/',
        "%"@.len() == 1 && "%"@[0] == '%',
        "&&"@.len() == 2 && "&&"@[0] == '&' && "&&"@[1] == '&',
        "||"@.len() == 2 && "||"@[0] == '|' && "||"@[1] == '|',
{
    reveal_strlit("==");
    reveal_strlit("!=");
    reveal_strlit(">");
    reveal_strlit("<");
    reveal_strlit(">=");
    reveal_strlit("<=");
    reveal_strlit("+");
    reveal_strlit("-");
    reveal_strlit("*");
    reveal_strlit("/");
    reveal_strlit("%");
    reveal_strlit("&&");
    reveal_strlit("||");
}

impl ComparisonOperator {
    /// Tells whether `value` spells a comparison operator.
    pub fn matches(value: &str) -> (b: bool)
        ensures
            b == comparison_of(value@).is_some(),
    {
        text_eq(value, "==") || text_eq(value, "!=") || text_eq(value, ">") || text_eq(value, "<")
            || text_eq(value, ">=") || text_eq(value, "<=")
    }

    /// Takes the first token as a comparison operator.
    pub fn parse<'a>(parts: &'a [&'a str]) -> (r: Result<(Box<Self>, &'a [&'a str]), ParseError>)
        ensures
            parsed(r, parse_comparison(parts.deep_view())),
    {
        if parts.len() == 0 {
            return Err(ParseError::MissingTokens);
        }
        let first = parts[0];
        let operator = if text_eq(first, "==") {
            ComparisonOperator::Eq
        } else if text_eq(first, "!=") {
            ComparisonOperator::Neq
        } else if text_eq(first, ">") {
            ComparisonOperator::Gt
        } else if text_eq(first, "<") {
            ComparisonOperator::Lt
        } else if text_eq(first, ">=") {
            ComparisonOperator::Gte
        } else if text_eq(first, "<=") {
            ComparisonOperator::Lte
        } else {
            return Err(ParseError::invalid_operator(first));
        };
        Ok((Box::new(operator), rest_of(parts, 1)))
    }

    /// The symbol of the operator.
    pub fn fmt(&self) -> (symbol: String)
        ensures
            symbol@ == comparison_symbol(*self),
    {
        match self {
            ComparisonOperator::Eq => String::from_str("=="),
            ComparisonOperator::Neq => String::from_str("!="),
            ComparisonOperator::Gt => String::from_str(">"),
            ComparisonOperator::Lt => String::from_str("<"),
            ComparisonOperator::Gte => String::from_str(">="),
            ComparisonOperator::Lte => String::from_str("<="),
        }
    }
}

impl ArithmeticOperator {
    /// Tells whether `value` spells an arithmetic operator.
    pub fn matches(value: &str) -> (b: bool)
        ensures
            b == arithmetic_of(value@).is_some(),
    {
        text_eq(value, "+") || text_eq(value, "-") || text_eq(value, "*") || text_eq(value, "/")
            || text_eq(value, "%")
    }

    /// Takes the first token as an arithmetic operator.
    pub fn parse<'a>(parts: &'a [&'a str]) -> (r: Result<(Box<Self>, &'a [&'a str]), ParseError>)
        ensures
            parsed(r, parse_arithmetic(parts.deep_view())),
    {
        if parts.len() == 0 {
            return Err(ParseError::MissingTokens);
        }
        let first = parts[0];
        let operator = if text_eq(first, "+") {
            ArithmeticOperator::Addition
        } else if text_eq(first, "-") {
            ArithmeticOperator::Subtraction
        } else if text_eq(first, "*") {
            ArithmeticOperator::Multiplication
        } else if text_eq(first, "/") {
            ArithmeticOperator::Division
        } else if text_eq(first, "%") {
            ArithmeticOperator::Modulo
        } else {
            return Err(ParseError::invalid_operator(first));
        };
        Ok((Box::new(operator), rest_of(parts, 1)))
    }

    /// The symbol of the operator.
    pub fn fmt(&self) -> (symbol: String)
        ensures
            symbol@ == arithmetic_symbol(*self),
    {
        match self {
            ArithmeticOperator::Addition => String::from_str("+"),
            ArithmeticOperator::Subtraction => String::from_str("-"),
            ArithmeticOperator::Multiplication => String::from_str("*"),
            ArithmeticOperator::Division => String::from_str("/"),
            ArithmeticOperator::Modulo => String::from_str("%"),
        }
    }
}

impl LogicalOperator {
    /// Tells whether `value` spells a logical operator.
    pub fn matches(value: &str) -> (b: bool)
        ensures
            b == logical_of(value@).is_some(),
    {
        text_eq(value, "&&") || text_eq(value, "||")
    }

    /// Takes the first token as a logical operator.
    pub fn parse<'a>(parts: &'a [&'a str]) -> (r: Result<(Box<Self>, &'a [&'a str]), ParseError>)
        ensures
            parsed(r, parse_logical(parts.deep_view())),
    {
        if parts.len() == 0 {
            return Err(ParseError::MissingTokens);
        }
        let first = parts[0];
        let operator = if text_eq(first, "&&") {
            LogicalOperator::And
        } else if text_eq(first, "||") {
            LogicalOperator::Or
        } else {
            return Err(ParseError::invalid_operator(first));
        };
        Ok((Box::new(operator), rest_of(parts, 1)))
    }

    /// The symbol of the operator.
    pub fn fmt(&self) -> (symbol: String)
        ensures
            symbol@ == logical_symbol(*self),
    {
        match self {
            LogicalOperator::And => String::from_str("&&"),
            LogicalOperator::Or => String::from_str("||"),
        }
    }
}

impl Parsable for ComparisonOperator {
    open spec fn leading(value: Seq<char>) -> bool {
        comparison_of(value).is_some()
    }

    open spec fn grammar(tokens: Seq<Seq<char>>) -> Result<
        (Self::V, Seq<Seq<char>>),
        ParseErrorModel,
    > {
        parse_comparison(tokens)
    }

    fn matches(value: &str) -> (b: bool) {
        ComparisonOperator::matches(value)
    }

    fn parse<'a>(parts: &'a [&'a str]) -> (r: Result<(Box<Self>, &'a [&'a str]), ParseError>) {
        ComparisonOperator::parse(parts)
    }
}

impl Parsable for ArithmeticOperator {
    open spec fn leading(value: Seq<char>) -> bool {
        arithmetic_of(value).is_some()
    }

    open spec fn grammar(tokens: Seq<Seq<char>>) -> Result<
        (Self::V, Seq<Seq<char>>),
        ParseErrorModel,
    > {
        parse_arithmetic(tokens)
    }

    fn matches(value: &str) -> (b: bool) {
        ArithmeticOperator::matches(value)
    }

    fn parse<'a>(parts: &'a [&'a str]) -> (r: Result<(Box<Self>, &'a [&'a str]), ParseError>) {
        ArithmeticOperator::parse(parts)
    }
}

impl Parsable for LogicalOperator {
    open spec fn leading(value: Seq<char>) -> bool {
        logical_of(value).is_some()
    }

    open spec fn grammar(tokens: Seq<Seq<char>>) -> Result<
        (Self::V, Seq<Seq<char>>),
        ParseErrorModel,
    > {
        parse_logical(tokens)
    }

    fn matches(value: &str) -> (b: bool) {
        LogicalOperator::matches(value)
    }

    fn parse<'a>(parts: &'a [&'a str]) -> (r: Result<(Box<Self>, &'a [&'a str]), ParseError>) {
        LogicalOperator::parse(parts)
    }
}

} // verus!
