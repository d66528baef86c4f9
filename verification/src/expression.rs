//! Expressions: variables, literals, calls, negations and the binary
//! operations built from them.
//!
//! The grammar has no precedence: a binary operation takes everything to its
//! right as its right operand, so `a + b * c` reads as `a + (b * c)`.

use crate::error::{ParseError, ParseErrorModel};
use crate::number::{
    is_literal, is_literal_token, is_number, is_number_token, is_quoted, is_quoted_token,
};
use crate::operator::{arithmetic_of, arithmetic_symbol, ArithmeticOperator};
use crate::parsing::{
    consumed_prefix, lemma_consumed_skip, lemma_consumed_transitive, parsed, Parsable,
};
use crate::text::{
    count_char, count_in, find_char, first_index, join_prefix, join_tokens, last_index_end,
    lemma_first_index, lemma_join_len, lemma_last_index_end,
    lemma_token_size_one, lemma_token_size_split, lemma_tokens_size_bound, rest_of,
    rfind_char_end, token_size, tokenize, tokens_of,
};
use vstd::prelude::*;
use vstd::string::*;

verus! {

/// An expression: what is assigned, returned, compared and passed to calls.
#[derive(Debug, PartialEq, Eq)]
pub enum Expression {
    Variable(String),
    Literal(String),
    BinaryOp { left: Box<Expression>, operator: Box<ArithmeticOperator>, right: Box<Expression> },
    FunctionCall { name: String, args: Vec<Expression> },
    Not(Box<Expression>),
}

/// An `Expression` with its texts as sequences of characters.
pub enum ExpressionModel {
    Variable(Seq<char>),
    Literal(Seq<char>),
    BinaryOp {
        left: Box<ExpressionModel>,
        operator: ArithmeticOperator,
        right: Box<ExpressionModel>,
    },
    FunctionCall { name: Seq<char>, args: Seq<ExpressionModel> },
    Not(Box<ExpressionModel>),
}

/// The model of an expression.
pub open spec fn expression_model(e: Expression) -> ExpressionModel
    decreases e,
{
    match e {
        Expression::Variable(name) => ExpressionModel::Variable(name@),
        Expression::Literal(value) => ExpressionModel::Literal(value@),
        Expression::BinaryOp { left, operator, right } => ExpressionModel::BinaryOp {
            left: Box::new(expression_model(*left)),
            operator: *operator,
            right: Box::new(expression_model(*right)),
        },
        Expression::FunctionCall { name, args } => ExpressionModel::FunctionCall {
            name: name@,
            args: Seq::new(
                args@.len(),
                |i: int|
                    if 0 <= i < args@.len() {
                        expression_model(args@[i])
                    } else {
                        ExpressionModel::Variable(Seq::empty())
                    },
            ),
        },
        Expression::Not(inner) => ExpressionModel::Not(Box::new(expression_model(*inner))),
    }
}

impl View for Expression {
    type V = ExpressionModel;

    open spec fn view(&self) -> ExpressionModel {
        expression_model(*self)
    }
}

/// The models of a list of expressions, in order.
pub open spec fn expression_models(es: Seq<Expression>) -> Seq<ExpressionModel> {
    Seq::new(es.len(), |i: int| es[i]@)
}

/// The model of a call holds the models of its arguments, in order.
pub proof fn lemma_call_model(name: String, args: Vec<Expression>)
    ensures
        (Expression::FunctionCall { name, args })@ == (ExpressionModel::FunctionCall {
            name: name@,
            args: expression_models(args@),
        }),
{
    let e = Expression::FunctionCall { name, args };
    assert(e@->FunctionCall_args =~= expression_models(args@));
}

/// Whether `c` is alphabetic or numeric as Unicode defines it: the value of
/// `char::is_alphanumeric`.
pub uninterp spec fn is_alphanumeric(c: char) -> bool;

/// Calls `char::is_alphanumeric`. Its answer is a property of the code point
/// alone, and is given the name `is_alphanumeric`.
#[verifier::external_body]
fn char_is_alphanumeric(c: char) -> (b: bool)
    ensures
        b == is_alphanumeric(c),
{
    c.is_alphanumeric()
}

/// Every character is alphabetic, numeric or `_`.
pub open spec fn is_word(value: Seq<char>) -> bool {
    forall|i: int| 0 <= i < value.len() ==> is_alphanumeric(#[trigger] value[i]) || value[i] == '_'
}

/// The tokens that look like the start of an expression.
pub open spec fn expression_matches(value: Seq<char>) -> bool {
    &&& value.len() > 0
    &&& (is_word(value) || is_number(value) || is_quoted(value) || value[0] == '!'
        || value.contains('('))
}

/// What a lone token is when it is neither a negation nor a call.
pub open spec fn simple_expression(token: Seq<char>) -> ExpressionModel {
    if is_literal(token) {
        ExpressionModel::Literal(token)
    } else {
        ExpressionModel::Variable(token)
    }
}

/// The token begins with `!`.
pub open spec fn starts_with_bang(t: Seq<char>) -> bool {
    t.len() > 0 && t[0] == '!'
}

/// Opening minus closing parentheses in `s`.
pub open spec fn paren_depth(s: Seq<char>) -> int {
    count_char(s, '(') - count_char(s, ')')
}

/// With `k` tokens read and `depth` parentheses open: how many tokens are
/// read when the parentheses first balance at the end of a token.
pub open spec fn call_end(ts: Seq<Seq<char>>, k: nat, depth: int) -> Option<nat>
    decreases ts.len() - k,
{
    if k >= ts.len() {
        None
    } else {
        let now = depth + paren_depth(ts[k as int]);
        if now == 0 {
            Some(k + 1)
        } else {
            call_end(ts, k + 1, now)
        }
    }
}

/// The parts of a call that begins at the front of a token list.
pub struct CallParts {
    /// What stands before the first `(`.
    pub name: Seq<char>,
    /// What stands between the first `(` and the last `)`.
    pub arguments: Seq<char>,
    /// How many tokens the call spans.
    pub tokens: nat,
}

/// Delimits the call at the front of `ts`: the tokens up to the one that
/// closes the parentheses are joined by single spaces, and the text between
/// the first `(` and the last `)` holds the arguments. `None` where the
/// parentheses never balance, or where no `)` follows the first `(`.
pub open spec fn call_parts(ts: Seq<Seq<char>>) -> Option<CallParts> {
    match call_end(ts, 0, 0) {
        None => None,
        Some(k) => {
            let joined = join_tokens(ts.take(k as int));
            let open = first_index(joined, '(');
            let close_end = last_index_end(joined, ')');
            if open < close_end {
                Some(
                    CallParts {
                        name: joined.take(open as int),
                        arguments: joined.subrange(open as int + 1, close_end as int - 1),
                        tokens: k,
                    },
                )
            } else {
                None
            }
        },
    }
}

/// A call ends behind the tokens already read and within the list.
pub proof fn lemma_call_end(ts: Seq<Seq<char>>, k: nat, depth: int)
    ensures
        call_end(ts, k, depth) is Some ==> k < call_end(ts, k, depth)->0 <= ts.len(),
    decreases ts.len() - k,
{
    if k < ts.len() {
        let now = depth + paren_depth(ts[k as int]);
        if now != 0 {
            lemma_call_end(ts, k + 1, now);
        }
    }
}

/// A call spans at least one token, and its argument text is smaller than
/// the tokens it was cut from.
pub proof fn lemma_call_parts(ts: Seq<Seq<char>>)
    requires
        call_parts(ts) is Some,
    ensures
        1 <= call_parts(ts)->0.tokens <= ts.len(),
        call_parts(ts)->0.arguments.len() + 1 < token_size(ts),
        token_size(ts.skip(call_parts(ts)->0.tokens as int)) < token_size(ts),
{
    lemma_call_end(ts, 0, 0);
    let k = call_end(ts, 0, 0)->0;
    let joined = join_tokens(ts.take(k as int));
    lemma_first_index(joined, '(');
    lemma_last_index_end(joined, ')');
    lemma_join_len(ts.take(k as int));
    lemma_token_size_split(ts, k as int);
    lemma_consumed_skip(ts, k as int);
}

/// The grammar of an expression. A leading `!` negates: a bare `!` negates
/// the expression that the following tokens make, any other token that
/// begins with `!` negates what is left of that token alone without that
/// one `!`, so that `!!x` is the negation of the negation of `x`. A token
/// that holds `(` begins a call. Any other token is a literal or a
/// variable. After that primary expression, an arithmetic operator with a
/// token behind it makes a binary operation of the primary and of
/// everything that follows. No tokens at all are missing tokens.
pub open spec fn parse_expression(ts: Seq<Seq<char>>) -> Result<
    (ExpressionModel, Seq<Seq<char>>),
    ParseErrorModel,
>
    decreases token_size(ts), 1nat,
{
    if ts.len() == 0 {
        Err(ParseErrorModel::MissingTokens)
    } else if starts_with_bang(ts[0]) {
        let inner_text = ts[0].drop_first();
        if inner_text.len() == 0 {
            proof {
                lemma_consumed_skip(ts, 1);
            }
            // the negated expression has taken every operator that follows
            match parse_expression(ts.skip(1)) {
                Err(e) => Err(e),
                Ok((inner, rest)) => Ok((ExpressionModel::Not(Box::new(inner)), rest)),
            }
        } else {
            proof {
                lemma_token_size_one(inner_text);
                lemma_token_size_one(ts[0]);
                lemma_token_size_split(ts, 1);
                assert(ts.take(1) =~= seq![ts[0]]);
                lemma_consumed_skip(ts, 1);
            }
            match parse_expression(seq![inner_text]) {
                Err(e) => Err(e),
                Ok((inner, _)) => continue_binary(
                    ExpressionModel::Not(Box::new(inner)),
                    ts.skip(1),
                ),
            }
        }
    } else if ts[0].contains('(') {
        match call_parts(ts) {
            None => Err(ParseErrorModel::MissingTokens),
            Some(call) => {
                proof {
                    lemma_call_parts(ts);
                }
                match parse_arguments(call.arguments) {
                    Err(e) => Err(e),
                    Ok(args) => continue_binary(
                        ExpressionModel::FunctionCall { name: call.name, args },
                        ts.skip(call.tokens as int),
                    ),
                }
            },
        }
    } else {
        proof {
            lemma_consumed_skip(ts, 1);
        }
        continue_binary(simple_expression(ts[0]), ts.skip(1))
    }
}

/// What becomes of a primary expression with `rest` behind it: the left
/// operand of a binary operation where an arithmetic operator and at least
/// one more token follow, itself where they do not.
pub open spec fn continue_binary(primary: ExpressionModel, rest: Seq<Seq<char>>) -> Result<
    (ExpressionModel, Seq<Seq<char>>),
    ParseErrorModel,
>
    decreases token_size(rest), 0nat,
{
    if rest.len() >= 2 && arithmetic_of(rest[0]) is Some {
        proof {
            lemma_consumed_skip(rest, 1);
        }
        match parse_expression(rest.skip(1)) {
            Err(e) => Err(e),
            Ok((right, after)) => Ok(
                (
                    ExpressionModel::BinaryOp {
                        left: Box::new(primary),
                        operator: arithmetic_of(rest[0])->0,
                        right: Box::new(right),
                    },
                    after,
                ),
            ),
        }
    } else {
        Ok((primary, rest))
    }
}

/// The grammar of an argument list: the text is cut at every comma, and each
/// piece that holds a token is read as one expression, on its own. What a
/// piece holds behind its expression is dropped.
pub open spec fn parse_arguments(text: Seq<char>) -> Result<Seq<ExpressionModel>, ParseErrorModel>
    decreases text.len() + 1, 2nat,
{
    let cut = first_index(text, ',');
    let tokens = tokens_of(text.take(cut as int));
    proof {
        lemma_first_index(text, ',');
        lemma_tokens_size_bound(text.take(cut as int));
    }
    let head = if tokens.len() == 0 {
        Ok(Seq::empty())
    } else {
        match parse_expression(tokens) {
            Err(e) => Err(e),
            Ok((argument, _)) => Ok(seq![argument]),
        }
    };
    match head {
        Err(e) => Err(e),
        Ok(first) => if cut < text.len() {
            match parse_arguments(text.skip(cut as int + 1)) {
                Err(e) => Err(e),
                Ok(more) => Ok(first + more),
            }
        } else {
            Ok(first)
        },
    }
}

/// The grammar of a call on its own: name, arguments, and the tokens behind
/// the one that closes it.
pub open spec fn parse_call(ts: Seq<Seq<char>>) -> Result<
    (Seq<char>, Seq<ExpressionModel>, Seq<Seq<char>>),
    ParseErrorModel,
> {
    match call_parts(ts) {
        None => Err(ParseErrorModel::MissingTokens),
        Some(call) => match parse_arguments(call.arguments) {
            Err(e) => Err(e),
            Ok(args) => Ok((call.name, args, ts.skip(call.tokens as int))),
        },
    }
}

/// An expression that is written without a space: a variable, a literal,
/// a call of at most one such argument, or the negation of such an
/// expression.
pub open spec fn is_dense(e: ExpressionModel) -> bool
    decreases e,
{
    match e {
        ExpressionModel::Variable(_) => true,
        ExpressionModel::Literal(_) => true,
        ExpressionModel::BinaryOp { .. } => false,
        ExpressionModel::FunctionCall { args, .. } => args.len() <= 1 && forall|i: int|
            0 <= i < args.len() ==> is_dense(#[trigger] args[i]),
        ExpressionModel::Not(inner) => is_dense(*inner),
    }
}

/// An expression as the formatter writes it. Operands stand in the order in
/// which they were read, without parentheses. A negation is written against
/// what it negates where that is written without a space, and apart from
/// it otherwise, so that it is read back as the negation of the same.
pub open spec fn expression_text(e: ExpressionModel) -> Seq<char>
    decreases e,
{
    match e {
        ExpressionModel::Variable(name) => name,
        ExpressionModel::Literal(value) => value,
        ExpressionModel::BinaryOp { left, operator, right } => expression_text(*left) + " "@
            + arithmetic_symbol(operator) + " "@ + expression_text(*right),
        ExpressionModel::FunctionCall { name, args } => name + "("@ + arguments_text(args) + ")"@,
        ExpressionModel::Not(inner) => if is_dense(*inner) {
            "!"@ + expression_text(*inner)
        } else {
            "! "@ + expression_text(*inner)
        },
    }
}

/// Arguments as the formatter writes them: separated by a comma and a space.
pub open spec fn arguments_text(args: Seq<ExpressionModel>) -> Seq<char>
    decreases args,
{
    if args.len() == 0 {
        Seq::empty()
    } else if args.len() == 1 {
        expression_text(args[0])
    } else {
        arguments_text(args.drop_last()) + ", "@ + expression_text(args.last())
    }
}

/// An expression takes one token or more from the front of its input and
/// leaves the rest as it was.
pub proof fn lemma_expression_consumes(ts: Seq<Seq<char>>)
    ensures
        parse_expression(ts) matches Ok((_, rest)) ==> consumed_prefix(ts, rest),
    decreases token_size(ts), 1nat,
{
    if ts.len() == 0 {
    } else if starts_with_bang(ts[0]) {
        let inner_text = ts[0].drop_first();
        lemma_consumed_skip(ts, 1);
        if inner_text.len() == 0 {
            lemma_expression_consumes(ts.skip(1));
            match parse_expression(ts.skip(1)) {
                Ok((_, rest)) => {
                    lemma_consumed_transitive(ts, ts.skip(1), rest);
                },
                Err(_) => {},
            }
        } else {
            match parse_expression(seq![inner_text]) {
                Ok((inner, _)) => {
                    lemma_tail_consumes(ts, ExpressionModel::Not(Box::new(inner)), ts.skip(1));
                },
                Err(_) => {},
            }
        }
    } else if ts[0].contains('(') {
        match call_parts(ts) {
            Some(call) => {
                lemma_call_parts(ts);
                lemma_consumed_skip(ts, call.tokens as int);
                match parse_arguments(call.arguments) {
                    Ok(args) => {
                        lemma_tail_consumes(
                            ts,
                            ExpressionModel::FunctionCall { name: call.name, args },
                            ts.skip(call.tokens as int),
                        );
                    },
                    Err(_) => {},
                }
            },
            None => {},
        }
    } else {
        lemma_consumed_skip(ts, 1);
        lemma_tail_consumes(ts, simple_expression(ts[0]), ts.skip(1));
    }
}

/// What a primary expression and its right operand leave of `ts`, where the
/// primary alone leaves `rest`.
pub proof fn lemma_tail_consumes(ts: Seq<Seq<char>>, primary: ExpressionModel, rest: Seq<Seq<char>>)
    requires
        consumed_prefix(ts, rest),
    ensures
        continue_binary(primary, rest) matches Ok((_, after)) ==> consumed_prefix(ts, after),
    decreases token_size(ts), 0nat,
{
    if rest.len() >= 2 && arithmetic_of(rest[0]) is Some {
        lemma_consumed_skip(rest, 1);
        crate::parsing::lemma_consumed_smaller(ts, rest);
        lemma_expression_consumes(rest.skip(1));
        match parse_expression(rest.skip(1)) {
            Ok((_, after)) => {
                lemma_consumed_transitive(rest, rest.skip(1), after);
                lemma_consumed_transitive(ts, rest, after);
            },
            Err(_) => {},
        }
    }
}

/// The grammar of a call read as an expression.
pub open spec fn call_expression(ts: Seq<Seq<char>>) -> Result<
    (ExpressionModel, Seq<Seq<char>>),
    ParseErrorModel,
> {
    match parse_call(ts) {
        Err(e) => Err(e),
        Ok((name, args, rest)) => Ok((ExpressionModel::FunctionCall { name, args }, rest)),
    }
}

/// The result `r` of reading a call is the result `want` that the grammar
/// gives.
pub open spec fn parsed_call(
    r: Result<(String, Vec<Expression>, &[&str]), ParseError>,
    want: Result<(Seq<char>, Seq<ExpressionModel>, Seq<Seq<char>>), ParseErrorModel>,
) -> bool {
    match r {
        Ok((name, args, rest)) => match want {
            Ok((name_model, arg_models, tokens)) => name@ == name_model && expression_models(args@)
                == arg_models && rest.deep_view() == tokens,
            Err(_) => false,
        },
        Err(e) => match want {
            Ok(_) => false,
            Err(model) => e@ == model,
        },
    }
}

/// The result `r` of reading an argument list is the result `want` that the
/// grammar gives.
pub open spec fn parsed_arguments(
    r: Result<Vec<Expression>, ParseError>,
    want: Result<Seq<ExpressionModel>, ParseErrorModel>,
) -> bool {
    match r {
        Ok(args) => match want {
            Ok(models) => expression_models(args@) == models,
            Err(_) => false,
        },
        Err(e) => match want {
            Ok(_) => false,
            Err(model) => e@ == model,
        },
    }
}

/// The arguments `done` followed by those that are still to come.
pub open spec fn with_arguments(
    done: Seq<ExpressionModel>,
    more: Result<Seq<ExpressionModel>, ParseErrorModel>,
) -> Result<Seq<ExpressionModel>, ParseErrorModel> {
    match more {
        Err(e) => Err(e),
        Ok(others) => Ok(done + others),
    }
}

fn is_word_token(value: &str) -> (b: bool)
    ensures
        b == is_word(value@),
{
    let n = value.unicode_len();
    let mut i: usize = 0;
    while i < n
        invariant
            i <= n,
            n == value@.len(),
            forall|k: int| 0 <= k < i ==> is_alphanumeric(#[trigger] value@[k]) || value@[k] == '_',
        decreases n - i,
    {
        let c = value.get_char(i);
        if !(char_is_alphanumeric(c) || c == '_') {
            return false;
        }
        i += 1;
    }
    true
}

/// How many tokens the call at the front of `parts` spans: up to the first
/// token at whose end as many `)` as `(` were seen.
fn call_extent(parts: &[&str]) -> (r: Option<usize>)
    ensures
        match r {
            Some(k) => call_end(parts.deep_view(), 0, 0) == Some(k as nat),
            None => call_end(parts.deep_view(), 0, 0) is None,
        },
{
    let ghost ts = parts.deep_view();
    let n = parts.len();
    let mut k: usize = 0;
    let mut opens: u128 = 0;
    let mut closes: u128 = 0;
    while k < n
        invariant
            k <= n,
            n == parts@.len(),
            ts == parts.deep_view(),
            call_end(ts, 0, 0) == call_end(ts, k as nat, opens as int - closes as int),
            opens <= k * 0x1_0000_0000_0000_0000,
            closes <= k * 0x1_0000_0000_0000_0000,
        decreases n - k,
    {
        let token = parts[k];
        let opened = count_in(token, '(');
        let closed = count_in(token, ')');
        assert(ts[k as int] == token@);
        opens = opens + opened as u128;
        closes = closes + closed as u128;
        k += 1;
        if opens == closes {
            return Some(k);
        }
    }
    None
}

impl Expression {
    /// Tells whether `value` looks like the start of an expression.
    pub fn matches(value: &str) -> (b: bool)
        ensures
            b == expression_matches(value@),
    {
        let n = value.unicode_len();
        if n == 0 {
            return false;
        }
        if is_word_token(value) || is_number_token(value) || is_quoted_token(value) {
            return true;
        }
        value.get_char(0) == '!' || find_char(value, '(') < n
    }

    /// Reads a lone token as a literal, where it is quoted or a number, and
    /// as a variable otherwise.
    pub fn parse_simple_expression(token: &str) -> (e: Expression)
        ensures
            e@ == simple_expression(token@),
    {
        if is_literal_token(token) {
            Expression::Literal(String::from_str(token))
        } else {
            Expression::Variable(String::from_str(token))
        }
    }

    /// Looks for an arithmetic operator with at least one token behind it at
    /// the front of `rest`, the tokens that follow a primary expression.
    pub fn try_parse_binary_operation<'a>(rest: &'a [&'a str]) -> (r: Option<
        (Box<ArithmeticOperator>, &'a [&'a str]),
    >)
        ensures
            match r {
                Some((operator, remaining)) => rest@.len() >= 2 && arithmetic_of(
                    rest.deep_view()[0],
                ) == Some(*operator) && remaining.deep_view() == rest.deep_view().skip(1),
                None => !(rest@.len() >= 2 && arithmetic_of(rest.deep_view()[0]) is Some),
            },
    {
        if rest.len() >= 2 {
            match ArithmeticOperator::parse(rest) {
                Ok((operator, remaining)) => {
                    return Some((operator, remaining));
                },
                Err(_) => {},
            }
        }
        None
    }

    /// Makes a binary operation of `primary` and of what follows it, where
    /// an operator follows; hands `primary` back where none does.
    fn parse_binary_tail<'a>(primary: Box<Expression>, rest: &'a [&'a str]) -> (r: Result<
        (Box<Self>, &'a [&'a str]),
        ParseError,
    >)
        ensures
            parsed(r, continue_binary(primary@, rest.deep_view())),
        decreases token_size(rest.deep_view()), 0nat,
    {
        match Self::try_parse_binary_operation(rest) {
            Some((operator, remaining)) => {
                proof {
                    lemma_consumed_skip(rest.deep_view(), 1);
                }
                match Self::parse(remaining) {
                    Err(e) => Err(e),
                    Ok((right, after)) => Ok(
                        (Box::new(Expression::BinaryOp { left: primary, operator, right }), after),
                    ),
                }
            },
            None => Ok((primary, rest)),
        }
    }

    /// Reads a negation: the first token begins with `!`.
    fn parse_not_expression<'a>(parts: &'a [&'a str]) -> (r: Result<
        (Box<Self>, &'a [&'a str]),
        ParseError,
    >)
        requires
            parts@.len() > 0,
            starts_with_bang(parts.deep_view()[0]),
        ensures
            parsed(r, parse_expression(parts.deep_view())),
        decreases token_size(parts.deep_view()), 2nat,
    {
        let ghost ts = parts.deep_view();
        let first = parts[0];
        let inner_part = first.substring_char(1, first.unicode_len());
        proof {
            assert(inner_part@ =~= ts[0].drop_first());
            lemma_consumed_skip(ts, 1);
        }
        if inner_part.unicode_len() == 0 {
            match Self::parse(rest_of(parts, 1)) {
                Err(e) => Err(e),
                Ok((inner, remaining)) => Ok((Box::new(Expression::Not(inner)), remaining)),
            }
        } else {
            let inner_parts: Vec<&str> = vec![inner_part];
            let inner_slice = inner_parts.as_slice();
            proof {
                assert(inner_slice.deep_view() =~= seq![inner_part@]);
                lemma_token_size_one(inner_part@);
                lemma_token_size_one(ts[0]);
                lemma_token_size_split(ts, 1);
                assert(ts.take(1) =~= seq![ts[0]]);
            }
            match Self::parse(inner_slice) {
                Err(e) => Err(e),
                Ok((inner, _)) => Self::parse_binary_tail(
                    Box::new(Expression::Not(inner)),
                    rest_of(parts, 1),
                ),
            }
        }
    }

    /// Reads the arguments of a call from the text between its parentheses.
    pub fn parse_function_arguments(args_str: &str) -> (r: Result<Vec<Expression>, ParseError>)
        ensures
            parsed_arguments(r, parse_arguments(args_str@)),
        decreases args_str@.len() + 1, 4nat,
    {
        let mut args: Vec<Expression> = Vec::new();
        let mut rest: &str = args_str;
        assert(expression_models(args@) =~= Seq::<ExpressionModel>::empty());
        assert(parse_arguments(args_str@) == with_arguments(
            expression_models(args@),
            parse_arguments(rest@),
        )) by {
            match parse_arguments(rest@) {
                Err(_) => {},
                Ok(others) => {
                    assert(Seq::<ExpressionModel>::empty() + others =~= others);
                },
            }
        }
        loop
            invariant
                rest@.len() <= args_str@.len(),
                parse_arguments(args_str@) == with_arguments(
                    expression_models(args@),
                    parse_arguments(rest@),
                ),
            decreases rest@.len(),
        {
            let ghost text = rest@;
            let ghost done = expression_models(args@);
            let n = rest.unicode_len();
            let cut = find_char(rest, ',');
            let piece = rest.substring_char(0, cut);
            assert(piece@ =~= text.take(cut as int));
            let tokens = tokenize(piece);
            let token_slice = tokens.as_slice();
            assert(token_slice.deep_view() =~= tokens_of(piece@));
            let ghost mut first: Seq<ExpressionModel> = Seq::empty();
            if tokens.len() > 0 {
                proof {
                    lemma_tokens_size_bound(piece@);
                }
                match Self::parse(token_slice) {
                    Err(e) => {
                        return Err(e);
                    },
                    Ok((argument, _)) => {
                        proof {
                            first = seq![argument@];
                        }
                        args.push(*argument);
                        assert(expression_models(args@) =~= done + first);
                    },
                }
            } else {
                assert(expression_models(args@) =~= done + first);
            }
            if cut < n {
                rest = rest.substring_char(cut + 1, n);
                assert(rest@ =~= text.skip(cut as int + 1));
                proof {
                    match parse_arguments(rest@) {
                        Err(_) => {},
                        Ok(others) => {
                            assert(done + (first + others) =~= (done + first) + others);
                        },
                    }
                }
            } else {
                return Ok(args);
            }
        }
    }

    /// Reads the call at the front of `parts`: its name, its arguments, and
    /// the tokens behind it.
    pub fn parse_call_parts<'a>(parts: &'a [&'a str]) -> (r: Result<
        (String, Vec<Expression>, &'a [&'a str]),
        ParseError,
    >)
        ensures
            parsed_call(r, parse_call(parts.deep_view())),
        decreases token_size(parts.deep_view()), 1nat,
    {
        let ghost ts = parts.deep_view();
        let k = match call_extent(parts) {
            None => {
                return Err(ParseError::MissingTokens);
            },
            Some(k) => k,
        };
        proof {
            lemma_call_end(ts, 0, 0);
        }
        let joined = join_prefix(parts, k);
        let text = joined.as_str();
        let open = find_char(text, '(');
        let close_end = rfind_char_end(text, ')');
        if !(open < close_end) {
            return Err(ParseError::MissingTokens);
        }
        proof {
            lemma_first_index(text@, '(');
            lemma_last_index_end(text@, ')');
            lemma_call_parts(ts);
        }
        let name = String::from_str(text.substring_char(0, open));
        assert(name@ =~= text@.take(open as int));
        let args_text = text.substring_char(open + 1, close_end - 1);
        match Self::parse_function_arguments(args_text) {
            Err(e) => Err(e),
            Ok(args) => Ok((name, args, rest_of(parts, k))),
        }
    }

    /// Reads a call: the first token holds `(`.
    fn parse_function_call<'a>(parts: &'a [&'a str]) -> (r: Result<
        (Box<Self>, &'a [&'a str]),
        ParseError,
    >)
        ensures
            parsed(r, call_expression(parts.deep_view())),
        decreases token_size(parts.deep_view()), 2nat,
    {
        match Self::parse_call_parts(parts) {
            Err(e) => Err(e),
            Ok((name, args, rest)) => {
                proof {
                    lemma_call_model(name, args);
                }
                Ok((Box::new(Expression::FunctionCall { name, args }), rest))
            },
        }
    }

    /// Reads one expression from the front of `parts` and hands back the
    /// tokens behind it.
    pub fn parse<'a>(parts: &'a [&'a str]) -> (r: Result<(Box<Self>, &'a [&'a str]), ParseError>)
        ensures
            parsed(r, parse_expression(parts.deep_view())),
        decreases token_size(parts.deep_view()), 3nat,
    {
        let ghost ts = parts.deep_view();
        if parts.len() == 0 {
            return Err(ParseError::MissingTokens);
        }
        let first = parts[0];
        let n = first.unicode_len();
        if n > 0 && first.get_char(0) == '!' {
            return Self::parse_not_expression(parts);
        }
        if find_char(first, '(') < n {
            return match Self::parse_function_call(parts) {
                Err(e) => Err(e),
                Ok((call, rest)) => {
                    proof {
                        lemma_call_parts(ts);
                    }
                    Self::parse_binary_tail(call, rest)
                },
            };
        }
        proof {
            lemma_consumed_skip(ts, 1);
        }
        Self::parse_binary_tail(Box::new(Self::parse_simple_expression(first)), rest_of(parts, 1))
    }

    /// Tells whether the expression is a lone variable or literal.
    pub fn is_simple(&self) -> (b: bool)
        ensures
            b == (self@ is Variable || self@ is Literal),
    {
        match self {
            Expression::Variable(_) => true,
            Expression::Literal(_) => true,
            _ => false,
        }
    }

    /// Tells whether the expression is written without a space.
    pub fn is_dense(&self) -> (b: bool)
        ensures
            b == is_dense(self@),
        decreases self,
    {
        match self {
            Expression::Variable(_) => true,
            Expression::Literal(_) => true,
            Expression::BinaryOp { .. } => false,
            Expression::FunctionCall { name, args } => {
                proof {
                    lemma_call_model(*name, *args);
                }
                if args.len() > 1 {
                    return false;
                }
                if args.len() == 1 {
                    let single = args[0].is_dense();
                    assert(expression_models(args@)[0] == args@[0]@);
                    return single;
                }
                true
            },
            Expression::Not(inner) => inner.is_dense(),
        }
    }

    /// The expression as text. Operands stand in the order in which they
    /// were read, without parentheses; arguments are separated by a comma and
    /// a space; a negation is written against what is written without a
    /// space and apart from anything else.
    #[verifier::loop_isolation(false)]
    pub fn fmt(&self) -> (text: String)
        ensures
            text@ == expression_text(self@),
        decreases self,
    {
        match self {
            Expression::Variable(name) => name.clone(),
            Expression::Literal(value) => value.clone(),
            Expression::BinaryOp { left, operator, right } => {
                let mut text = left.fmt();
                text.append(" ");
                text.append(operator.fmt().as_str());
                text.append(" ");
                text.append(right.fmt().as_str());
                text
            },
            Expression::FunctionCall { name, args } => {
                let ghost models = expression_models(args@);
                proof {
                    lemma_call_model(*name, *args);
                }
                let mut text = name.clone();
                text.append("(");
                let mut i: usize = 0;
                assert(models.take(0) =~= Seq::<ExpressionModel>::empty());
                assert(text@ =~= name@ + "("@ + arguments_text(models.take(0)));
                while i < args.len()
                    invariant
                        i <= args@.len(),
                        models == expression_models(args@),
                        text@ == name@ + "("@ + arguments_text(models.take(i as int)),
                    decreases args@.len() - i,
                {
                    let ghost before = text@;
                    if i > 0 {
                        text.append(", ");
                    }
                    text.append(args[i].fmt().as_str());
                    proof {
                        let now = models.take(i + 1);
                        assert(now.drop_last() =~= models.take(i as int));
                        assert(now.last() == args@[i as int]@);
                        if i == 0 {
                            assert(now[0] == args@[0]@);
                            assert(text@ =~= name@ + "("@ + arguments_text(now));
                        } else {
                            assert(text@ =~= name@ + "("@ + arguments_text(now));
                        }
                    }
                    i += 1;
                }
                assert(models.take(i as int) =~= models);
                text.append(")");
                text
            },
            Expression::Not(inner) => {
                let mut text = if inner.is_dense() {
                    String::from_str("!")
                } else {
                    String::from_str("! ")
                };
                text.append(inner.fmt().as_str());
                text
            },
        }
    }
}

impl Parsable for Expression {
    open spec fn leading(value: Seq<char>) -> bool {
        expression_matches(value)
    }

    open spec fn grammar(tokens: Seq<Seq<char>>) -> Result<
        (Self::V, Seq<Seq<char>>),
        ParseErrorModel,
    > {
        parse_expression(tokens)
    }

    fn matches(value: &str) -> (b: bool) {
        Expression::matches(value)
    }

    fn parse<'a>(parts: &'a [&'a str]) -> (r: Result<(Box<Self>, &'a [&'a str]), ParseError>) {
        Expression::parse(parts)
    }
}

} // verus!
