//! Statements and the blocks they make.
//!
//! A block is the list of statements that a compound construct (`start`,
//! `if`, `elseif`, `else`, `while`, `for`) owns. It ends at the next `end`,
//! `else` or `elseif`, which it leaves in place: that terminator is read as
//! an ordinary statement of the enclosing block, directly behind the
//! construct it closes.

use crate::condition::{lemma_condition_consumes, parse_condition, Condition, ConditionModel};
use crate::error::{ParseError, ParseErrorModel};
use crate::expression::{
    call_parts, expression_models, lemma_call_parts, lemma_expression_consumes, parse_call,
    parse_expression, Expression, ExpressionModel,
};
use crate::parsing::{
    consumed_prefix, lemma_consumed_skip, lemma_consumed_transitive, parsed, Parsable,
};
use crate::text::{
    find_char, is_keyword, join_prefix, join_tokens, keyword_matches, rest_of, text_eq, tokenize,
    tokens_of,
};
use vstd::prelude::*;
use vstd::slice::*;
use vstd::string::*;

verus! {

/// The root of a program: `start` and the statements below it.
#[derive(Debug, PartialEq, Eq)]
pub struct Start {
    pub body: Vec<Node>,
}

/// `if`, its condition, and the statements below it.
#[derive(Debug, PartialEq, Eq)]
pub struct If {
    pub condition: Condition,
    pub body: Vec<Node>,
}

/// `elseif`, its condition, and the statements below it.
#[derive(Debug, PartialEq, Eq)]
pub struct ElseIf {
    pub condition: Condition,
    pub body: Vec<Node>,
}

/// `else` and the statements below it.
#[derive(Debug, PartialEq, Eq)]
pub struct Else {
    pub body: Vec<Node>,
}

/// `end`: closes the block before it.
#[derive(Debug, PartialEq, Eq)]
pub struct End;

/// What a loop runs on: a condition, or the items of a list.
#[derive(Debug, PartialEq, Eq)]
pub enum LoopType {
    While(Condition),
    For { item: String, list: String },
}

/// `while` or `for`, and the statements below it.
#[derive(Debug, PartialEq, Eq)]
pub struct Loop {
    pub loop_type: LoopType,
    pub body: Vec<Node>,
}

/// The break marker.
#[derive(Debug, PartialEq, Eq)]
pub struct Break;

/// The continue marker.
#[derive(Debug, PartialEq, Eq)]
pub struct Continue;

/// `assign <var> = <value>`.
#[derive(Debug, PartialEq, Eq)]
pub struct Assignment {
    pub var: String,
    pub value: Expression,
}

/// A call that stands as a statement.
#[derive(Debug, PartialEq, Eq)]
pub struct FunctionCall {
    pub name: String,
    pub args: Vec<Expression>,
}

/// `return <value>`.
#[derive(Debug, PartialEq, Eq)]
pub struct Return {
    pub value: Expression,
}

/// A comment: its words, with single spaces between them.
#[derive(Debug, PartialEq, Eq)]
pub struct Comment {
    pub value: String,
}

/// A statement of any kind.
#[derive(Debug, PartialEq, Eq)]
pub enum Node {
    Start(Start),
    Loop(Loop),
    Break(Break),
    Continue(Continue),
    If(If),
    ElseIf(ElseIf),
    Else(Else),
    End(End),
    Assignment(Assignment),
    FunctionCall(FunctionCall),
    Return(Return),
    Comment(Comment),
}

/// A `LoopType` with its texts as sequences of characters.
pub enum LoopTypeModel {
    While(ConditionModel),
    For { item: Seq<char>, list: Seq<char> },
}

/// A `Node` with its texts as sequences of characters and its bodies as
/// sequences of models.
#[allow(inconsistent_fields)]
pub enum NodeModel {
    Start { body: Seq<NodeModel> },
    Loop { loop_type: LoopTypeModel, body: Seq<NodeModel> },
    Break,
    Continue,
    If { condition: ConditionModel, body: Seq<NodeModel> },
    ElseIf { condition: ConditionModel, body: Seq<NodeModel> },
    Else { body: Seq<NodeModel> },
    End,
    Assignment { var: Seq<char>, value: ExpressionModel },
    FunctionCall { name: Seq<char>, args: Seq<ExpressionModel> },
    Return { value: ExpressionModel },
    Comment { value: Seq<char> },
}

impl View for LoopType {
    type V = LoopTypeModel;

    open spec fn view(&self) -> LoopTypeModel {
        match *self {
            LoopType::While(condition) => LoopTypeModel::While(condition@),
            LoopType::For { item, list } => LoopTypeModel::For { item: item@, list: list@ },
        }
    }
}

/// The model of a statement.
pub open spec fn node_model(n: Node) -> NodeModel
    decreases n,
{
    match n {
        Node::Start(s) => NodeModel::Start { body: body_model(s.body) },
        Node::Loop(l) => NodeModel::Loop { loop_type: l.loop_type@, body: body_model(l.body) },
        Node::Break(_) => NodeModel::Break,
        Node::Continue(_) => NodeModel::Continue,
        Node::If(i) => NodeModel::If { condition: i.condition@, body: body_model(i.body) },
        Node::ElseIf(e) => NodeModel::ElseIf { condition: e.condition@, body: body_model(e.body) },
        Node::Else(e) => NodeModel::Else { body: body_model(e.body) },
        Node::End(_) => NodeModel::End,
        Node::Assignment(a) => NodeModel::Assignment { var: a.var@, value: a.value@ },
        Node::FunctionCall(f) => NodeModel::FunctionCall {
            name: f.name@,
            args: expression_models(f.args@),
        },
        Node::Return(r) => NodeModel::Return { value: r.value@ },
        Node::Comment(c) => NodeModel::Comment { value: c.value@ },
    }
}

/// The models of the statements of a body, in order.
pub open spec fn body_model(body: Vec<Node>) -> Seq<NodeModel>
    decreases body,
{
    Seq::new(
        body@.len(),
        |i: int|
            if 0 <= i < body@.len() {
                node_model(body@[i])
            } else {
                NodeModel::End
            },
    )
}

impl View for Node {
    type V = NodeModel;

    open spec fn view(&self) -> NodeModel {
        node_model(*self)
    }
}

impl View for Start {
    type V = NodeModel;

    open spec fn view(&self) -> NodeModel {
        NodeModel::Start { body: body_model(self.body) }
    }
}

impl View for If {
    type V = NodeModel;

    open spec fn view(&self) -> NodeModel {
        NodeModel::If { condition: self.condition@, body: body_model(self.body) }
    }
}

impl View for ElseIf {
    type V = NodeModel;

    open spec fn view(&self) -> NodeModel {
        NodeModel::ElseIf { condition: self.condition@, body: body_model(self.body) }
    }
}

impl View for Else {
    type V = NodeModel;

    open spec fn view(&self) -> NodeModel {
        NodeModel::Else { body: body_model(self.body) }
    }
}

impl View for End {
    type V = NodeModel;

    open spec fn view(&self) -> NodeModel {
        NodeModel::End
    }
}

impl View for Loop {
    type V = NodeModel;

    open spec fn view(&self) -> NodeModel {
        NodeModel::Loop { loop_type: self.loop_type@, body: body_model(self.body) }
    }
}

impl View for Break {
    type V = NodeModel;

    open spec fn view(&self) -> NodeModel {
        NodeModel::Break
    }
}

impl View for Continue {
    type V = NodeModel;

    open spec fn view(&self) -> NodeModel {
        NodeModel::Continue
    }
}

impl View for Assignment {
    type V = NodeModel;

    open spec fn view(&self) -> NodeModel {
        NodeModel::Assignment { var: self.var@, value: self.value@ }
    }
}

impl View for FunctionCall {
    type V = NodeModel;

    open spec fn view(&self) -> NodeModel {
        NodeModel::FunctionCall { name: self.name@, args: expression_models(self.args@) }
    }
}

impl View for Return {
    type V = NodeModel;

    open spec fn view(&self) -> NodeModel {
        NodeModel::Return { value: self.value@ }
    }
}

impl View for Comment {
    type V = NodeModel;

    open spec fn view(&self) -> NodeModel {
        NodeModel::Comment { value: self.value@ }
    }
}

/// What the grammar gives for a statement or a block: a model and the tokens
/// left over, or an error.
pub type Parse<T> = Result<(T, Seq<Seq<char>>), ParseErrorModel>;

/// `UnexpectedToken` naming what was expected and what stood there.
pub open spec fn unexpected(expected: Seq<char>, found: Seq<char>) -> ParseErrorModel {
    ParseErrorModel::UnexpectedToken { expected, found }
}

/// The leading tokens of a loop: `for` and `while`.
pub open spec fn loop_matches(t: Seq<char>) -> bool {
    is_keyword(t, "for"@) || is_keyword(t, "while"@)
}

/// The break marker answers to the tokens that begin a loop.
pub open spec fn break_matches(t: Seq<char>) -> bool {
    loop_matches(t)
}

/// The continue marker answers to the tokens that begin a loop.
pub open spec fn continue_matches(t: Seq<char>) -> bool {
    loop_matches(t)
}

/// `end`, `else` and `elseif` close the block before them.
pub open spec fn is_terminator(t: Seq<char>) -> bool {
    is_keyword(t, "end"@) || is_keyword(t, "else"@) || is_keyword(t, "elseif"@)
}

/// The constructs that own a block.
pub open spec fn is_compound(n: NodeModel) -> bool {
    n is Start || n is Loop || n is If || n is ElseIf || n is Else
}

/// The marks that begin and end a comment.
pub open spec fn is_comment_mark(t: Seq<char>) -> bool {
    t == "--"@ || t == "//"@
}

/// The leading tokens of a call: any token that holds `(`, and the keyword
/// `function`.
pub open spec fn function_call_matches(t: Seq<char>) -> bool {
    t.contains('(') || is_keyword(t, "function"@)
}

/// How many tokens stand before the first comment mark.
pub open spec fn comment_len(ts: Seq<Seq<char>>) -> nat
    decreases ts.len(),
{
    if ts.len() == 0 || is_comment_mark(ts[0]) {
        0
    } else {
        1 + comment_len(ts.drop_first())
    }
}

/// `end`: the one token.
pub open spec fn parse_end(ts: Seq<Seq<char>>) -> Parse<NodeModel> {
    if ts.len() == 0 {
        Err(ParseErrorModel::MissingTokens)
    } else if !is_keyword(ts[0], "end"@) {
        Err(unexpected("end"@, ts[0]))
    } else {
        Ok((NodeModel::End, ts.skip(1)))
    }
}

/// A break marker: one token, which must be one that begins a loop.
pub open spec fn parse_break(ts: Seq<Seq<char>>) -> Parse<NodeModel> {
    if ts.len() == 0 {
        Err(ParseErrorModel::MissingTokens)
    } else if !break_matches(ts[0]) {
        Err(unexpected("for or while"@, ts[0]))
    } else {
        Ok((NodeModel::Break, ts.skip(1)))
    }
}

/// A continue marker: one token, which must be one that begins a loop.
pub open spec fn parse_continue(ts: Seq<Seq<char>>) -> Parse<NodeModel> {
    if ts.len() == 0 {
        Err(ParseErrorModel::MissingTokens)
    } else if !continue_matches(ts[0]) {
        Err(unexpected("for or while"@, ts[0]))
    } else {
        Ok((NodeModel::Continue, ts.skip(1)))
    }
}

/// `assign <var> = <expression>`. Fewer than four tokens, or anything but
/// `=` in third place, is `MissingTokens`.
pub open spec fn parse_assignment(ts: Seq<Seq<char>>) -> Parse<NodeModel> {
    if ts.len() == 0 {
        Err(ParseErrorModel::MissingTokens)
    } else if !is_keyword(ts[0], "assign"@) {
        Err(unexpected("assign"@, ts[0]))
    } else if ts.len() < 4 || ts[2] != "="@ {
        Err(ParseErrorModel::MissingTokens)
    } else {
        match parse_expression(ts.skip(3)) {
            Err(e) => Err(e),
            Ok((value, rest)) => Ok((NodeModel::Assignment { var: ts[1], value }, rest)),
        }
    }
}

/// `return <expression>`.
pub open spec fn parse_return(ts: Seq<Seq<char>>) -> Parse<NodeModel> {
    if ts.len() == 0 {
        Err(ParseErrorModel::MissingTokens)
    } else if !is_keyword(ts[0], "return"@) {
        Err(unexpected("return"@, ts[0]))
    } else {
        match parse_expression(ts.skip(1)) {
            Err(e) => Err(e),
            Ok((value, rest)) => Ok((NodeModel::Return { value }, rest)),
        }
    }
}

/// A comment: a mark, then free text up to the next mark or to the end of
/// the input. The words are kept with one space between them; the closing
/// mark is taken with the comment.
pub open spec fn parse_comment(ts: Seq<Seq<char>>) -> Parse<NodeModel> {
    if ts.len() == 0 {
        Err(ParseErrorModel::MissingTokens)
    } else if !is_comment_mark(ts[0]) {
        Err(unexpected("--"@, ts[0]))
    } else {
        let words = comment_len(ts.skip(1)) as int;
        let value = join_tokens(ts.subrange(1, 1 + words));
        if 1 + words < ts.len() {
            Ok((NodeModel::Comment { value }, ts.skip(2 + words)))
        } else {
            Ok((NodeModel::Comment { value }, ts.skip(1 + words)))
        }
    }
}

/// The expressions at the front of `ts`, one after the other, up to the
/// first that cannot be read or to the end of the input.
pub open spec fn parse_operands(ts: Seq<Seq<char>>) -> (Seq<ExpressionModel>, Seq<Seq<char>>)
    decreases ts.len(),
{
    if ts.len() == 0 {
        (Seq::empty(), ts)
    } else {
        proof {
            lemma_expression_consumes(ts);
        }
        match parse_expression(ts) {
            Err(_) => (Seq::empty(), ts),
            Ok((operand, rest)) => {
                let (more, after) = parse_operands(rest);
                (seq![operand] + more, after)
            },
        }
    }
}

/// A call as a statement. A token that holds `(` begins a call written as
/// in an expression. The keyword `function` is followed by the name and by
/// the arguments as plain expressions, as many as can be read.
pub open spec fn parse_function_call(ts: Seq<Seq<char>>) -> Parse<NodeModel> {
    if ts.len() == 0 {
        Err(ParseErrorModel::MissingTokens)
    } else if !function_call_matches(ts[0]) {
        Err(unexpected("function"@, ts[0]))
    } else if ts[0].contains('(') {
        match parse_call(ts) {
            Err(e) => Err(e),
            Ok((name, args, rest)) => Ok((NodeModel::FunctionCall { name, args }, rest)),
        }
    } else if ts.len() < 2 {
        Err(ParseErrorModel::MissingTokens)
    } else {
        let (args, rest) = parse_operands(ts.skip(2));
        Ok((NodeModel::FunctionCall { name: ts[1], args }, rest))
    }
}

/// `start` and the block below it.
pub open spec fn parse_start(ts: Seq<Seq<char>>) -> Parse<NodeModel>
    decreases ts.len(), 0nat,
{
    if ts.len() == 0 {
        Err(ParseErrorModel::EmptyInput)
    } else if !is_keyword(ts[0], "start"@) {
        Err(unexpected("start"@, ts[0]))
    } else {
        match parse_body(ts.skip(1), false) {
            Err(e) => Err(e),
            Ok((body, rest)) => Ok((NodeModel::Start { body }, rest)),
        }
    }
}

/// `if <condition>` and the block below it.
pub open spec fn parse_if(ts: Seq<Seq<char>>) -> Parse<NodeModel>
    decreases ts.len(), 0nat,
{
    if ts.len() == 0 {
        Err(ParseErrorModel::MissingTokens)
    } else if !is_keyword(ts[0], "if"@) {
        Err(unexpected("if"@, ts[0]))
    } else {
        proof {
            lemma_condition_consumes(ts.skip(1));
        }
        match parse_condition(ts.skip(1)) {
            Err(e) => Err(e),
            Ok((condition, rest)) => match parse_body(rest, false) {
                Err(e) => Err(e),
                Ok((body, after)) => Ok((NodeModel::If { condition, body }, after)),
            },
        }
    }
}

/// `elseif <condition>` and the block below it.
pub open spec fn parse_else_if(ts: Seq<Seq<char>>) -> Parse<NodeModel>
    decreases ts.len(), 0nat,
{
    if ts.len() == 0 {
        Err(ParseErrorModel::MissingTokens)
    } else if !is_keyword(ts[0], "elseif"@) {
        Err(unexpected("elseif"@, ts[0]))
    } else {
        proof {
            lemma_condition_consumes(ts.skip(1));
        }
        match parse_condition(ts.skip(1)) {
            Err(e) => Err(e),
            Ok((condition, rest)) => match parse_body(rest, false) {
                Err(e) => Err(e),
                Ok((body, after)) => Ok((NodeModel::ElseIf { condition, body }, after)),
            },
        }
    }
}

/// `else` and the block below it.
pub open spec fn parse_else(ts: Seq<Seq<char>>) -> Parse<NodeModel>
    decreases ts.len(), 0nat,
{
    if ts.len() == 0 {
        Err(ParseErrorModel::MissingTokens)
    } else if !is_keyword(ts[0], "else"@) {
        Err(unexpected("else"@, ts[0]))
    } else {
        match parse_body(ts.skip(1), false) {
            Err(e) => Err(e),
            Ok((body, rest)) => Ok((NodeModel::Else { body }, rest)),
        }
    }
}

/// `while <condition>` or `for <item> in <list>`, and the block below it.
pub open spec fn parse_loop(ts: Seq<Seq<char>>) -> Parse<NodeModel>
    decreases ts.len(), 0nat,
{
    if ts.len() == 0 {
        Err(ParseErrorModel::MissingTokens)
    } else if is_keyword(ts[0], "for"@) {
        if ts.len() < 4 {
            Err(ParseErrorModel::MissingTokens)
        } else if !is_keyword(ts[2], "in"@) {
            Err(unexpected("in"@, ts[2]))
        } else {
            match parse_body(ts.skip(4), false) {
                Err(e) => Err(e),
                Ok((body, rest)) => Ok(
                    (
                        NodeModel::Loop {
                            loop_type: LoopTypeModel::For { item: ts[1], list: ts[3] },
                            body,
                        },
                        rest,
                    ),
                ),
            }
        }
    } else if is_keyword(ts[0], "while"@) {
        proof {
            lemma_condition_consumes(ts.skip(1));
        }
        match parse_condition(ts.skip(1)) {
            Err(e) => Err(e),
            Ok((condition, rest)) => match parse_body(rest, false) {
                Err(e) => Err(e),
                Ok((body, after)) => Ok(
                    (NodeModel::Loop { loop_type: LoopTypeModel::While(condition), body }, after),
                ),
            },
        }
    } else {
        Err(unexpected("for or while"@, ts[0]))
    }
}

/// One statement: the first construct, in this fixed order, whose leading
/// token this is. A token that begins none is an unknown statement. (The
/// break and continue markers answer to the tokens of a loop and come
/// behind it, so no token reaches them.)
pub open spec fn parse_statement(ts: Seq<Seq<char>>) -> Parse<NodeModel>
    decreases ts.len(), 1nat,
{
    if ts.len() == 0 {
        Err(ParseErrorModel::MissingTokens)
    } else if loop_matches(ts[0]) {
        parse_loop(ts)
    } else if break_matches(ts[0]) {
        parse_break(ts)
    } else if continue_matches(ts[0]) {
        parse_continue(ts)
    } else if is_keyword(ts[0], "if"@) {
        parse_if(ts)
    } else if is_keyword(ts[0], "elseif"@) {
        parse_else_if(ts)
    } else if is_keyword(ts[0], "else"@) {
        parse_else(ts)
    } else if is_keyword(ts[0], "end"@) {
        parse_end(ts)
    } else if is_keyword(ts[0], "assign"@) {
        parse_assignment(ts)
    } else if function_call_matches(ts[0]) {
        parse_function_call(ts)
    } else if is_keyword(ts[0], "return"@) {
        parse_return(ts)
    } else if is_comment_mark(ts[0]) {
        parse_comment(ts)
    } else {
        Err(ParseErrorModel::UnknownStatement(ts[0]))
    }
}

/// A block: statements up to the end of the input or to a terminator, which
/// is left in place. `closing` tells that the statement just read owns a
/// block: a terminator that follows it closes that block and is read as the
/// next statement of this one. `start` may not stand in a block. (The test
/// on the length of what a statement leaves never fails: see
/// `lemma_statement_consumes`.)
pub open spec fn parse_body(ts: Seq<Seq<char>>, closing: bool) -> Parse<Seq<NodeModel>>
    decreases ts.len(), 2nat,
{
    if ts.len() == 0 {
        Ok((Seq::empty(), ts))
    } else if is_keyword(ts[0], "start"@) {
        Err(unexpected("statement"@, ts[0]))
    } else if is_terminator(ts[0]) && !closing {
        Ok((Seq::empty(), ts))
    } else {
        match parse_statement(ts) {
            Err(e) => Err(e),
            Ok((node, rest)) => if rest.len() < ts.len() {
                match parse_body(rest, is_compound(node)) {
                    Err(e) => Err(e),
                    Ok((nodes, after)) => Ok((seq![node] + nodes, after)),
                }
            } else {
                Err(ParseErrorModel::MissingTokens)
            },
        }
    }
}

/// What is wrong with the tokens behind the block of `start`, if anything.
/// Nothing may stand there but the one `end` that closes the block: another
/// terminator is not the `end` that was expected, and a token behind that
/// `end` begins no statement.
pub open spec fn after_program(rest: Seq<Seq<char>>) -> Option<ParseErrorModel> {
    if rest.len() == 0 {
        None
    } else if !is_keyword(rest[0], "end"@) {
        Some(unexpected("end"@, rest[0]))
    } else if rest.len() == 1 {
        None
    } else {
        Some(ParseErrorModel::UnknownStatement(rest[1]))
    }
}

/// A whole program: `start` and its block, and behind the block nothing or
/// the `end` that closes it. No token goes unread.
pub open spec fn parse_program(ts: Seq<Seq<char>>) -> Result<NodeModel, ParseErrorModel> {
    match parse_start(ts) {
        Err(e) => Err(e),
        Ok((start, rest)) => match after_program(rest) {
            Some(e) => Err(e),
            None => Ok(start),
        },
    }
}

/// No more words stand before the first comment mark than there are tokens.
pub proof fn lemma_comment_len(ts: Seq<Seq<char>>)
    ensures
        comment_len(ts) <= ts.len(),
    decreases ts.len(),
{
    if ts.len() == 0 || is_comment_mark(ts[0]) {
    } else {
        lemma_comment_len(ts.drop_first());
    }
}

/// Where `n` tokens that are no comment marks are followed by a mark or by
/// nothing, `n` words stand before the first mark.
pub proof fn lemma_comment_len_is(ts: Seq<Seq<char>>, n: nat)
    requires
        n <= ts.len(),
        forall|i: int| 0 <= i < n ==> !is_comment_mark(#[trigger] ts[i]),
        n < ts.len() ==> is_comment_mark(ts[n as int]),
    ensures
        comment_len(ts) == n,
    decreases n,
{
    if n == 0 {
    } else {
        let r = ts.drop_first();
        assert(!is_comment_mark(ts[0]));
        assert forall|i: int| 0 <= i < n - 1 implies !is_comment_mark(#[trigger] r[i]) by {
            assert(r[i] == ts[i + 1]);
        }
        if n - 1 < r.len() {
            assert(r[n - 1] == ts[n as int]);
        }
        lemma_comment_len_is(r, (n - 1) as nat);
    }
}

/// The operands read from `ts` leave a suffix of it.
pub proof fn lemma_operands_consume(ts: Seq<Seq<char>>)
    ensures
        parse_operands(ts).1 == ts || consumed_prefix(ts, parse_operands(ts).1),
    decreases ts.len(),
{
    if ts.len() > 0 {
        lemma_expression_consumes(ts);
        match parse_expression(ts) {
            Err(_) => {},
            Ok((_, rest)) => {
                lemma_operands_consume(rest);
                if parse_operands(rest).1 != rest {
                    lemma_consumed_transitive(ts, rest, parse_operands(rest).1);
                }
            },
        }
    }
}

/// What a block leaves of `ts`, where the block begins at `head`, one token
/// or more into `ts`.
pub proof fn lemma_block_consumes(ts: Seq<Seq<char>>, head: Seq<Seq<char>>)
    requires
        consumed_prefix(ts, head),
    ensures
        parse_body(head, false) matches Ok((_, rest)) ==> consumed_prefix(ts, rest),
    decreases head.len(), 3nat,
{
    lemma_body_consumes(head, false);
    match parse_body(head, false) {
        Err(_) => {},
        Ok((_, rest)) => {
            if rest != head {
                lemma_consumed_transitive(ts, head, rest);
            }
        },
    }
}

/// A statement takes one token or more from the front of its input and
/// leaves the rest as it was.
pub proof fn lemma_statement_consumes(ts: Seq<Seq<char>>)
    ensures
        parse_statement(ts) matches Ok((_, rest)) ==> consumed_prefix(ts, rest),
    decreases ts.len(), 1nat,
{
    if ts.len() == 0 {
    } else {
        lemma_consumed_skip(ts, 1);
        if loop_matches(ts[0]) {
            if is_keyword(ts[0], "for"@) {
                if ts.len() >= 4 {
                    lemma_consumed_skip(ts, 4);
                    lemma_block_consumes(ts, ts.skip(4));
                }
            } else {
                lemma_condition_block_consumes(ts);
            }
        } else if is_keyword(ts[0], "if"@) {
            lemma_condition_block_consumes(ts);
        } else if is_keyword(ts[0], "elseif"@) {
            lemma_condition_block_consumes(ts);
        } else if is_keyword(ts[0], "else"@) {
            lemma_block_consumes(ts, ts.skip(1));
        } else if is_keyword(ts[0], "end"@) {
        } else if is_keyword(ts[0], "assign"@) {
            if ts.len() >= 4 {
                lemma_consumed_skip(ts, 3);
                lemma_expression_consumes(ts.skip(3));
                match parse_expression(ts.skip(3)) {
                    Err(_) => {},
                    Ok((_, rest)) => {
                        lemma_consumed_transitive(ts, ts.skip(3), rest);
                    },
                }
            }
        } else if function_call_matches(ts[0]) {
            if ts[0].contains('(') {
                if call_parts(ts) is Some {
                    lemma_call_parts(ts);
                    lemma_consumed_skip(ts, call_parts(ts)->0.tokens as int);
                }
            } else if ts.len() >= 2 {
                lemma_consumed_skip(ts, 2);
                lemma_operands_consume(ts.skip(2));
                let rest = parse_operands(ts.skip(2)).1;
                if rest != ts.skip(2) {
                    lemma_consumed_transitive(ts, ts.skip(2), rest);
                }
            }
        } else if is_keyword(ts[0], "return"@) {
            lemma_expression_consumes(ts.skip(1));
            match parse_expression(ts.skip(1)) {
                Err(_) => {},
                Ok((_, rest)) => {
                    lemma_consumed_transitive(ts, ts.skip(1), rest);
                },
            }
        } else if is_comment_mark(ts[0]) {
            lemma_comment_len(ts.skip(1));
            let words = comment_len(ts.skip(1)) as int;
            if 1 + words < ts.len() {
                lemma_consumed_skip(ts, 2 + words);
            } else {
                lemma_consumed_skip(ts, 1 + words);
            }
        }
    }
}

/// What a condition and the block below it leave of `ts`, behind the
/// keyword that `ts` begins with.
pub proof fn lemma_condition_block_consumes(ts: Seq<Seq<char>>)
    requires
        ts.len() > 0,
    ensures
        parse_condition(ts.skip(1)) matches Ok((_, rest)) ==> (parse_body(rest, false) matches Ok(
            (_, after),
        ) ==> consumed_prefix(ts, after)),
    decreases ts.len(), 0nat,
{
    lemma_consumed_skip(ts, 1);
    lemma_condition_consumes(ts.skip(1));
    match parse_condition(ts.skip(1)) {
        Err(_) => {},
        Ok((_, rest)) => {
            lemma_consumed_transitive(ts, ts.skip(1), rest);
            lemma_block_consumes(ts, rest);
        },
    }
}

/// A block leaves its input as it was or takes tokens from its front.
pub proof fn lemma_body_consumes(ts: Seq<Seq<char>>, closing: bool)
    ensures
        parse_body(ts, closing) matches Ok((_, rest)) ==> rest == ts || consumed_prefix(ts, rest),
    decreases ts.len(), 2nat,
{
    if ts.len() == 0 {
    } else if is_keyword(ts[0], "start"@) {
    } else if is_terminator(ts[0]) && !closing {
    } else {
        lemma_statement_consumes(ts);
        match parse_statement(ts) {
            Err(_) => {},
            Ok((node, rest)) => {
                lemma_body_consumes(rest, is_compound(node));
                match parse_body(rest, is_compound(node)) {
                    Err(_) => {},
                    Ok((_, after)) => {
                        if after != rest {
                            lemma_consumed_transitive(ts, rest, after);
                        }
                    },
                }
            },
        }
    }
}

/// The result `r` of reading a block is the result `want` that the grammar
/// gives.
pub open spec fn parsed_body(
    r: Result<(Vec<Node>, &[&str]), ParseError>,
    want: Parse<Seq<NodeModel>>,
) -> bool {
    match r {
        Ok((nodes, rest)) => match want {
            Ok((models, tokens)) => body_model(nodes) == models && rest.deep_view() == tokens,
            Err(_) => false,
        },
        Err(e) => match want {
            Ok(_) => false,
            Err(model) => e@ == model,
        },
    }
}

/// The result `r` of reading a program is the result `want` that the grammar
/// gives.
pub open spec fn parsed_program(
    r: Result<Node, ParseError>,
    want: Result<NodeModel, ParseErrorModel>,
) -> bool {
    match r {
        Ok(node) => match want {
            Ok(model) => node@ == model,
            Err(_) => false,
        },
        Err(e) => match want {
            Ok(_) => false,
            Err(model) => e@ == model,
        },
    }
}

/// The statements `done` followed by those that are still to come.
pub open spec fn with_nodes(done: Seq<NodeModel>, more: Parse<Seq<NodeModel>>) -> Parse<
    Seq<NodeModel>,
> {
    match more {
        Err(e) => Err(e),
        Ok((nodes, rest)) => Ok((done + nodes, rest)),
    }
}

/// The operands `done` followed by those that are still to come.
pub open spec fn with_operands(
    done: Seq<ExpressionModel>,
    more: (Seq<ExpressionModel>, Seq<Seq<char>>),
) -> (Seq<ExpressionModel>, Seq<Seq<char>>) {
    (done + more.0, more.1)
}

fn is_comment_token(value: &str) -> (b: bool)
    ensures
        b == is_comment_mark(value@),
{
    text_eq(value, "--") || text_eq(value, "//")
}

impl End {
    /// Tells whether `value` is the leading token of `end`.
    pub fn matches(value: &str) -> (b: bool)
        ensures
            b == is_keyword(value@, "end"@),
    {
        keyword_matches(value, "end")
    }

    /// Reads `end` from the front of `parts` and hands back the tokens behind
    /// it.
    pub fn parse<'a>(parts: &'a [&'a str]) -> (r: Result<(Box<Self>, &'a [&'a str]), ParseError>)
        ensures
            parsed(r, parse_end(parts.deep_view())),
    {
        if parts.len() == 0 {
            return Err(ParseError::MissingTokens);
        }
        if !Self::matches(parts[0]) {
            return Err(ParseError::unexpected("end", parts[0]));
        }
        Ok((Box::new(End), rest_of(parts, 1)))
    }
}

impl Break {
    /// The break marker answers to the tokens that begin a loop.
    pub fn matches(value: &str) -> (b: bool)
        ensures
            b == break_matches(value@),
    {
        Loop::matches(value)
    }

    /// Reads a break marker from the front of `parts` and hands back the tokens behind
    /// it.
    pub fn parse<'a>(parts: &'a [&'a str]) -> (r: Result<(Box<Self>, &'a [&'a str]), ParseError>)
        ensures
            parsed(r, parse_break(parts.deep_view())),
    {
        if parts.len() == 0 {
            return Err(ParseError::MissingTokens);
        }
        if !Loop::matches(parts[0]) {
            return Err(ParseError::unexpected("for or while", parts[0]));
        }
        Ok((Box::new(Break), rest_of(parts, 1)))
    }
}

impl Continue {
    /// The continue marker answers to the tokens that begin a loop.
    pub fn matches(value: &str) -> (b: bool)
        ensures
            b == continue_matches(value@),
    {
        Loop::matches(value)
    }

    /// Reads a continue marker from the front of `parts` and hands back the tokens behind
    /// it.
    pub fn parse<'a>(parts: &'a [&'a str]) -> (r: Result<(Box<Self>, &'a [&'a str]), ParseError>)
        ensures
            parsed(r, parse_continue(parts.deep_view())),
    {
        if parts.len() == 0 {
            return Err(ParseError::MissingTokens);
        }
        if !Loop::matches(parts[0]) {
            return Err(ParseError::unexpected("for or while", parts[0]));
        }
        Ok((Box::new(Continue), rest_of(parts, 1)))
    }
}

impl Assignment {
    /// Tells whether `value` is the leading token of an assignment.
    pub fn matches(value: &str) -> (b: bool)
        ensures
            b == is_keyword(value@, "assign"@),
    {
        keyword_matches(value, "assign")
    }

    /// Reads an assignment from the front of `parts` and hands back the tokens behind
    /// it.
    pub fn parse<'a>(parts: &'a [&'a str]) -> (r: Result<(Box<Self>, &'a [&'a str]), ParseError>)
        ensures
            parsed(r, parse_assignment(parts.deep_view())),
    {
        if parts.len() == 0 {
            return Err(ParseError::MissingTokens);
        }
        if !Self::matches(parts[0]) {
            return Err(ParseError::unexpected("assign", parts[0]));
        }
        if parts.len() < 4 || !text_eq(parts[2], "=") {
            return Err(ParseError::MissingTokens);
        }
        let var = String::from_str(parts[1]);
        match Expression::parse(rest_of(parts, 3)) {
            Err(e) => Err(e),
            Ok((value, rest)) => Ok((Box::new(Assignment { var, value: *value }), rest)),
        }
    }
}

impl Return {
    /// Tells whether `value` is the leading token of a `return`.
    pub fn matches(value: &str) -> (b: bool)
        ensures
            b == is_keyword(value@, "return"@),
    {
        keyword_matches(value, "return")
    }

    /// Reads a `return` from the front of `parts` and hands back the tokens behind
    /// it.
    pub fn parse<'a>(parts: &'a [&'a str]) -> (r: Result<(Box<Self>, &'a [&'a str]), ParseError>)
        ensures
            parsed(r, parse_return(parts.deep_view())),
    {
        if parts.len() == 0 {
            return Err(ParseError::MissingTokens);
        }
        if !Self::matches(parts[0]) {
            return Err(ParseError::unexpected("return", parts[0]));
        }
        match Expression::parse(rest_of(parts, 1)) {
            Err(e) => Err(e),
            Ok((value, rest)) => Ok((Box::new(Return { value: *value }), rest)),
        }
    }
}

impl Comment {
    /// Tells whether `value` is the leading token of a comment.
    pub fn matches(value: &str) -> (b: bool)
        ensures
            b == is_comment_mark(value@),
    {
        is_comment_token(value)
    }

    /// Reads a comment from the front of `parts` and hands back the tokens behind
    /// it.
    pub fn parse<'a>(parts: &'a [&'a str]) -> (r: Result<(Box<Self>, &'a [&'a str]), ParseError>)
        ensures
            parsed(r, parse_comment(parts.deep_view())),
    {
        let ghost ts = parts.deep_view();
        let n = parts.len();
        if n == 0 {
            return Err(ParseError::MissingTokens);
        }
        if !Self::matches(parts[0]) {
            return Err(ParseError::unexpected("--", parts[0]));
        }
        let mut end: usize = 1;
        while end < n && !is_comment_token(parts[end])
            invariant
                1 <= end <= n,
                n == parts@.len(),
                ts == parts.deep_view(),
                forall|i: int| 1 <= i < end ==> !is_comment_mark(#[trigger] ts[i]),
            decreases n - end,
        {
            end += 1;
        }
        proof {
            let tail = ts.skip(1);
            assert forall|i: int| 0 <= i < end - 1 implies !is_comment_mark(#[trigger] tail[i]) by {
                assert(tail[i] == ts[i + 1]);
            }
            if end - 1 < tail.len() {
                assert(tail[end - 1] == ts[end as int]);
            }
            lemma_comment_len_is(tail, (end - 1) as nat);
        }
        let value = if end == 1 {
            assert(ts.subrange(1, 1) =~= Seq::<Seq<char>>::empty());
            String::new()
        } else {
            let words = slice_subrange(parts, 1, end);
            assert(words.deep_view() =~= ts.subrange(1, end as int));
            assert(words.deep_view().take(end - 1) =~= ts.subrange(1, end as int));
            join_prefix(words, end - 1)
        };
        let rest = if end < n {
            rest_of(parts, end + 1)
        } else {
            rest_of(parts, end)
        };
        Ok((Box::new(Comment { value }), rest))
    }
}

impl FunctionCall {
    /// Tells whether `value` is the leading token of a call.
    pub fn matches(value: &str) -> (b: bool)
        ensures
            b == function_call_matches(value@),
    {
        find_char(value, '(') < value.unicode_len() || keyword_matches(value, "function")
    }

    /// Reads a call from the front of `parts` and hands back the tokens behind
    /// it.
    #[verifier::loop_isolation(false)]
    pub fn parse<'a>(parts: &'a [&'a str]) -> (r: Result<(Box<Self>, &'a [&'a str]), ParseError>)
        ensures
            parsed(r, parse_function_call(parts.deep_view())),
    {
        let ghost ts = parts.deep_view();
        if parts.len() == 0 {
            return Err(ParseError::MissingTokens);
        }
        let first = parts[0];
        if !Self::matches(first) {
            return Err(ParseError::unexpected("function", first));
        }
        if find_char(first, '(') < first.unicode_len() {
            return match Expression::parse_call_parts(parts) {
                Err(e) => Err(e),
                Ok((name, args, rest)) => Ok((Box::new(FunctionCall { name, args }), rest)),
            };
        }
        if parts.len() < 2 {
            return Err(ParseError::MissingTokens);
        }
        let name = String::from_str(parts[1]);
        let mut args: Vec<Expression> = Vec::new();
        let mut rest = rest_of(parts, 2);
        assert(expression_models(args@) =~= Seq::<ExpressionModel>::empty());
        assert(Seq::<ExpressionModel>::empty() + parse_operands(ts.skip(2)).0 =~= parse_operands(
            ts.skip(2),
        ).0);
        loop
            invariant
                ts == parts.deep_view(),
                name@ == ts[1],
                parts@.len() >= 2,
                parse_operands(ts.skip(2)) == with_operands(
                    expression_models(args@),
                    parse_operands(rest.deep_view()),
                ),
            decreases rest@.len(),
        {
            let ghost done = expression_models(args@);
            let ghost here = rest.deep_view();
            if rest.len() == 0 {
                assert(done + Seq::<ExpressionModel>::empty() =~= done);
                return Ok((Box::new(FunctionCall { name, args }), rest));
            }
            proof {
                lemma_expression_consumes(here);
            }
            match Expression::parse(rest) {
                Err(_) => {
                    assert(done + Seq::<ExpressionModel>::empty() =~= done);
                    return Ok((Box::new(FunctionCall { name, args }), rest));
                },
                Ok((operand, remaining)) => {
                    let ghost first = seq![operand@];
                    args.push(*operand);
                    assert(expression_models(args@) =~= done + first);
                    assert(done + (first + parse_operands(remaining.deep_view()).0) =~= (done
                        + first) + parse_operands(remaining.deep_view()).0);
                    rest = remaining;
                },
            }
        }
    }
}

impl Start {
    /// Tells whether `value` is the leading token of `start` and its block.
    pub fn matches(value: &str) -> (b: bool)
        ensures
            b == is_keyword(value@, "start"@),
    {
        keyword_matches(value, "start")
    }

    /// Reads `start` and its block from the front of `parts` and hands back the tokens behind
    /// it.
    pub fn parse<'a>(parts: &'a [&'a str]) -> (r: Result<(Box<Self>, &'a [&'a str]), ParseError>)
        ensures
            parsed(r, parse_start(parts.deep_view())),
        decreases parts@.len(), 0nat,
    {
        if parts.len() == 0 {
            return Err(ParseError::EmptyInput);
        }
        if !Self::matches(parts[0]) {
            return Err(ParseError::unexpected("start", parts[0]));
        }
        match Node::build_body(rest_of(parts, 1), false) {
            Err(e) => Err(e),
            Ok((body, rest)) => Ok((Box::new(Start { body }), rest)),
        }
    }
}

impl If {
    /// Tells whether `value` is the leading token of an `if` and its block.
    pub fn matches(value: &str) -> (b: bool)
        ensures
            b == is_keyword(value@, "if"@),
    {
        keyword_matches(value, "if")
    }

    /// Reads an `if` and its block from the front of `parts` and hands back the tokens behind
    /// it.
    pub fn parse<'a>(parts: &'a [&'a str]) -> (r: Result<(Box<Self>, &'a [&'a str]), ParseError>)
        ensures
            parsed(r, parse_if(parts.deep_view())),
        decreases parts@.len(), 0nat,
    {
        if parts.len() == 0 {
            return Err(ParseError::MissingTokens);
        }
        if !Self::matches(parts[0]) {
            return Err(ParseError::unexpected("if", parts[0]));
        }
        proof {
            lemma_condition_consumes(parts.deep_view().skip(1));
        }
        let (condition, rest) = match Condition::parse(rest_of(parts, 1)) {
            Err(e) => {
                return Err(e);
            },
            Ok(found) => found,
        };
        match Node::build_body(rest, false) {
            Err(e) => Err(e),
            Ok((body, after)) => Ok((Box::new(If { condition: *condition, body }), after)),
        }
    }
}

impl ElseIf {
    /// Tells whether `value` is the leading token of an `elseif` and its block.
    pub fn matches(value: &str) -> (b: bool)
        ensures
            b == is_keyword(value@, "elseif"@),
    {
        keyword_matches(value, "elseif")
    }

    /// Reads an `elseif` and its block from the front of `parts` and hands back the tokens behind
    /// it.
    pub fn parse<'a>(parts: &'a [&'a str]) -> (r: Result<(Box<Self>, &'a [&'a str]), ParseError>)
        ensures
            parsed(r, parse_else_if(parts.deep_view())),
        decreases parts@.len(), 0nat,
    {
        if parts.len() == 0 {
            return Err(ParseError::MissingTokens);
        }
        if !Self::matches(parts[0]) {
            return Err(ParseError::unexpected("elseif", parts[0]));
        }
        proof {
            lemma_condition_consumes(parts.deep_view().skip(1));
        }
        let (condition, rest) = match Condition::parse(rest_of(parts, 1)) {
            Err(e) => {
                return Err(e);
            },
            Ok(found) => found,
        };
        match Node::build_body(rest, false) {
            Err(e) => Err(e),
            Ok((body, after)) => Ok((Box::new(ElseIf { condition: *condition, body }), after)),
        }
    }
}

impl Else {
    /// Tells whether `value` is the leading token of an `else` and its block.
    pub fn matches(value: &str) -> (b: bool)
        ensures
            b == is_keyword(value@, "else"@),
    {
        keyword_matches(value, "else")
    }

    /// Reads an `else` and its block from the front of `parts` and hands back the tokens behind
    /// it.
    pub fn parse<'a>(parts: &'a [&'a str]) -> (r: Result<(Box<Self>, &'a [&'a str]), ParseError>)
        ensures
            parsed(r, parse_else(parts.deep_view())),
        decreases parts@.len(), 0nat,
    {
        if parts.len() == 0 {
            return Err(ParseError::MissingTokens);
        }
        if !Self::matches(parts[0]) {
            return Err(ParseError::unexpected("else", parts[0]));
        }
        match Node::build_body(rest_of(parts, 1), false) {
            Err(e) => Err(e),
            Ok((body, rest)) => Ok((Box::new(Else { body }), rest)),
        }
    }
}

impl Loop {
    /// Tells whether `value` is the leading token of a loop and its block.
    pub fn matches(value: &str) -> (b: bool)
        ensures
            b == loop_matches(value@),
    {
        keyword_matches(value, "for") || keyword_matches(value, "while")
    }

    /// Reads a loop and its block from the front of `parts` and hands back the tokens behind
    /// it.
    pub fn parse<'a>(parts: &'a [&'a str]) -> (r: Result<(Box<Self>, &'a [&'a str]), ParseError>)
        ensures
            parsed(r, parse_loop(parts.deep_view())),
        decreases parts@.len(), 0nat,
    {
        if parts.len() == 0 {
            return Err(ParseError::MissingTokens);
        }
        let first = parts[0];
        if keyword_matches(first, "for") {
            if parts.len() < 4 {
                return Err(ParseError::MissingTokens);
            }
            if !keyword_matches(parts[2], "in") {
                return Err(ParseError::unexpected("in", parts[2]));
            }
            let item = String::from_str(parts[1]);
            let list = String::from_str(parts[3]);
            match Node::build_body(rest_of(parts, 4), false) {
                Err(e) => Err(e),
                Ok((body, rest)) => Ok(
                    (Box::new(Loop { loop_type: LoopType::For { item, list }, body }), rest),
                ),
            }
        } else if keyword_matches(first, "while") {
            proof {
                lemma_condition_consumes(parts.deep_view().skip(1));
            }
            let (condition, rest) = match Condition::parse(rest_of(parts, 1)) {
                Err(e) => {
                    return Err(e);
                },
                Ok(found) => found,
            };
            match Node::build_body(rest, false) {
                Err(e) => Err(e),
                Ok((body, after)) => Ok(
                    (Box::new(Loop { loop_type: LoopType::While(*condition), body }), after),
                ),
            }
        } else {
            Err(ParseError::unexpected("for or while", first))
        }
    }
}

impl Node {
    /// Tells whether the statement owns a block.
    pub fn is_compound(&self) -> (b: bool)
        ensures
            b == is_compound(self@),
    {
        match self {
            Node::Start(_) => true,
            Node::Loop(_) => true,
            Node::If(_) => true,
            Node::ElseIf(_) => true,
            Node::Else(_) => true,
            _ => false,
        }
    }

    /// Reads one statement: the constructs are tried in a fixed order, and
    /// the first whose leading token this is reads it.
    pub fn parse_statement<'a>(parts: &'a [&'a str]) -> (r: Result<
        (Box<Self>, &'a [&'a str]),
        ParseError,
    >)
        ensures
            parsed(r, parse_statement(parts.deep_view())),
        decreases parts@.len(), 1nat,
    {
        if parts.len() == 0 {
            return Err(ParseError::MissingTokens);
        }
        let first = parts[0];
        if Loop::matches(first) {
            match Loop::parse(parts) {
                Err(e) => Err(e),
                Ok((node, rest)) => Ok((Box::new(Node::Loop(*node)), rest)),
            }
        } else if Break::matches(first) {
            match Break::parse(parts) {
                Err(e) => Err(e),
                Ok((node, rest)) => Ok((Box::new(Node::Break(*node)), rest)),
            }
        } else if Continue::matches(first) {
            match Continue::parse(parts) {
                Err(e) => Err(e),
                Ok((node, rest)) => Ok((Box::new(Node::Continue(*node)), rest)),
            }
        } else if If::matches(first) {
            match If::parse(parts) {
                Err(e) => Err(e),
                Ok((node, rest)) => Ok((Box::new(Node::If(*node)), rest)),
            }
        } else if ElseIf::matches(first) {
            match ElseIf::parse(parts) {
                Err(e) => Err(e),
                Ok((node, rest)) => Ok((Box::new(Node::ElseIf(*node)), rest)),
            }
        } else if Else::matches(first) {
            match Else::parse(parts) {
                Err(e) => Err(e),
                Ok((node, rest)) => Ok((Box::new(Node::Else(*node)), rest)),
            }
        } else if End::matches(first) {
            match End::parse(parts) {
                Err(e) => Err(e),
                Ok((node, rest)) => Ok((Box::new(Node::End(*node)), rest)),
            }
        } else if Assignment::matches(first) {
            match Assignment::parse(parts) {
                Err(e) => Err(e),
                Ok((node, rest)) => Ok((Box::new(Node::Assignment(*node)), rest)),
            }
        } else if FunctionCall::matches(first) {
            match FunctionCall::parse(parts) {
                Err(e) => Err(e),
                Ok((node, rest)) => Ok((Box::new(Node::FunctionCall(*node)), rest)),
            }
        } else if Return::matches(first) {
            match Return::parse(parts) {
                Err(e) => Err(e),
                Ok((node, rest)) => Ok((Box::new(Node::Return(*node)), rest)),
            }
        } else if Comment::matches(first) {
            match Comment::parse(parts) {
                Err(e) => Err(e),
                Ok((node, rest)) => Ok((Box::new(Node::Comment(*node)), rest)),
            }
        } else {
            Err(ParseError::unknown_statement(first))
        }
    }

    /// Reads a block. `closing` tells that a construct with a block of its
    /// own was read just before: a terminator at the front then closes that
    /// block and is read as a statement of this one.
    pub fn build_body<'a>(parts: &'a [&'a str], closing: bool) -> (r: Result<
        (Vec<Self>, &'a [&'a str]),
        ParseError,
    >)
        ensures
            parsed_body(r, parse_body(parts.deep_view(), closing)),
        decreases parts@.len(), 2nat,
    {
        let ghost ts = parts.deep_view();
        let mut nodes: Vec<Node> = Vec::new();
        let mut rest = parts;
        let mut after_compound = closing;
        proof {
            assert(body_model(nodes) =~= Seq::<NodeModel>::empty());
            match parse_body(ts, closing) {
                Err(_) => {},
                Ok((found, _)) => {
                    assert(Seq::<NodeModel>::empty() + found =~= found);
                },
            }
        }
        loop
            invariant
                rest@.len() <= parts@.len(),
                parse_body(parts.deep_view(), closing) == with_nodes(
                    body_model(nodes),
                    parse_body(rest.deep_view(), after_compound),
                ),
            decreases rest@.len(),
        {
            let ghost done = body_model(nodes);
            let ghost here = rest.deep_view();
            if rest.len() == 0 {
                assert(done + Seq::<NodeModel>::empty() =~= done);
                return Ok((nodes, rest));
            }
            let first = rest[0];
            if Start::matches(first) {
                return Err(ParseError::unexpected("statement", first));
            }
            if !after_compound && (End::matches(first) || Else::matches(first) || ElseIf::matches(
                first,
            )) {
                assert(done + Seq::<NodeModel>::empty() =~= done);
                return Ok((nodes, rest));
            }
            proof {
                lemma_statement_consumes(here);
            }
            match Self::parse_statement(rest) {
                Err(e) => {
                    return Err(e);
                },
                Ok((node, remaining)) => {
                    let ghost first_model = seq![node@];
                    let ghost flag = is_compound(node@);
                    after_compound = node.is_compound();
                    nodes.push(*node);
                    proof {
                        assert(body_model(nodes) =~= done + first_model);
                        match parse_body(remaining.deep_view(), flag) {
                            Err(_) => {},
                            Ok((found, _)) => {
                                assert(done + (first_model + found) =~= (done + first_model)
                                    + found);
                            },
                        }
                    }
                    rest = remaining;
                },
            }
        }
    }

    /// Reads the statements of a block from the front of `parts`, up to the
    /// end of the input or to the `end`, `else` or `elseif` that closes the
    /// block, and hands back the statements and the tokens from there on.
    pub fn build_from_parts<'a>(parts: &'a [&'a str]) -> (r: Result<
        (Vec<Self>, &'a [&'a str]),
        ParseError,
    >)
        ensures
            parsed_body(r, parse_body(parts.deep_view(), false)),
    {
        Self::build_body(parts, false)
    }

    /// Reads a whole program from its text: the tokens must begin with
    /// `start`, and behind the block of `start` nothing may stand but the
    /// `end` that closes it.
    pub fn new(input: &str) -> (r: Result<Self, ParseError>)
        ensures
            parsed_program(r, parse_program(tokens_of(input@))),
    {
        let parts = tokenize(input);
        let slice = parts.as_slice();
        assert(slice.deep_view() =~= parts.deep_view());
        match Start::parse(slice) {
            Err(e) => Err(e),
            Ok((start, rest)) => {
                if rest.len() == 0 {
                    Ok(Node::Start(*start))
                } else if !End::matches(rest[0]) {
                    Err(ParseError::unexpected("end", rest[0]))
                } else if rest.len() == 1 {
                    Ok(Node::Start(*start))
                } else {
                    Err(ParseError::unknown_statement(rest[1]))
                }
            },
        }
    }
}

impl Parsable for Start {
    open spec fn leading(value: Seq<char>) -> bool {
        is_keyword(value, "start"@)
    }

    open spec fn grammar(tokens: Seq<Seq<char>>) -> Result<
        (Self::V, Seq<Seq<char>>),
        ParseErrorModel,
    > {
        parse_start(tokens)
    }

    fn matches(value: &str) -> (b: bool) {
        Start::matches(value)
    }

    fn parse<'a>(parts: &'a [&'a str]) -> (r: Result<(Box<Self>, &'a [&'a str]), ParseError>) {
        Start::parse(parts)
    }
}

impl Parsable for If {
    open spec fn leading(value: Seq<char>) -> bool {
        is_keyword(value, "if"@)
    }

    open spec fn grammar(tokens: Seq<Seq<char>>) -> Result<
        (Self::V, Seq<Seq<char>>),
        ParseErrorModel,
    > {
        parse_if(tokens)
    }

    fn matches(value: &str) -> (b: bool) {
        If::matches(value)
    }

    fn parse<'a>(parts: &'a [&'a str]) -> (r: Result<(Box<Self>, &'a [&'a str]), ParseError>) {
        If::parse(parts)
    }
}

impl Parsable for ElseIf {
    open spec fn leading(value: Seq<char>) -> bool {
        is_keyword(value, "elseif"@)
    }

    open spec fn grammar(tokens: Seq<Seq<char>>) -> Result<
        (Self::V, Seq<Seq<char>>),
        ParseErrorModel,
    > {
        parse_else_if(tokens)
    }

    fn matches(value: &str) -> (b: bool) {
        ElseIf::matches(value)
    }

    fn parse<'a>(parts: &'a [&'a str]) -> (r: Result<(Box<Self>, &'a [&'a str]), ParseError>) {
        ElseIf::parse(parts)
    }
}

impl Parsable for Else {
    open spec fn leading(value: Seq<char>) -> bool {
        is_keyword(value, "else"@)
    }

    open spec fn grammar(tokens: Seq<Seq<char>>) -> Result<
        (Self::V, Seq<Seq<char>>),
        ParseErrorModel,
    > {
        parse_else(tokens)
    }

    fn matches(value: &str) -> (b: bool) {
        Else::matches(value)
    }

    fn parse<'a>(parts: &'a [&'a str]) -> (r: Result<(Box<Self>, &'a [&'a str]), ParseError>) {
        Else::parse(parts)
    }
}

impl Parsable for End {
    open spec fn leading(value: Seq<char>) -> bool {
        is_keyword(value, "end"@)
    }

    open spec fn grammar(tokens: Seq<Seq<char>>) -> Result<
        (Self::V, Seq<Seq<char>>),
        ParseErrorModel,
    > {
        parse_end(tokens)
    }

    fn matches(value: &str) -> (b: bool) {
        End::matches(value)
    }

    fn parse<'a>(parts: &'a [&'a str]) -> (r: Result<(Box<Self>, &'a [&'a str]), ParseError>) {
        End::parse(parts)
    }
}

impl Parsable for Loop {
    open spec fn leading(value: Seq<char>) -> bool {
        loop_matches(value)
    }

    open spec fn grammar(tokens: Seq<Seq<char>>) -> Result<
        (Self::V, Seq<Seq<char>>),
        ParseErrorModel,
    > {
        parse_loop(tokens)
    }

    fn matches(value: &str) -> (b: bool) {
        Loop::matches(value)
    }

    fn parse<'a>(parts: &'a [&'a str]) -> (r: Result<(Box<Self>, &'a [&'a str]), ParseError>) {
        Loop::parse(parts)
    }
}

impl Parsable for Break {
    open spec fn leading(value: Seq<char>) -> bool {
        break_matches(value)
    }

    open spec fn grammar(tokens: Seq<Seq<char>>) -> Result<
        (Self::V, Seq<Seq<char>>),
        ParseErrorModel,
    > {
        parse_break(tokens)
    }

    fn matches(value: &str) -> (b: bool) {
        Break::matches(value)
    }

    fn parse<'a>(parts: &'a [&'a str]) -> (r: Result<(Box<Self>, &'a [&'a str]), ParseError>) {
        Break::parse(parts)
    }
}

impl Parsable for Continue {
    open spec fn leading(value: Seq<char>) -> bool {
        continue_matches(value)
    }

    open spec fn grammar(tokens: Seq<Seq<char>>) -> Result<
        (Self::V, Seq<Seq<char>>),
        ParseErrorModel,
    > {
        parse_continue(tokens)
    }

    fn matches(value: &str) -> (b: bool) {
        Continue::matches(value)
    }

    fn parse<'a>(parts: &'a [&'a str]) -> (r: Result<(Box<Self>, &'a [&'a str]), ParseError>) {
        Continue::parse(parts)
    }
}

impl Parsable for Assignment {
    open spec fn leading(value: Seq<char>) -> bool {
        is_keyword(value, "assign"@)
    }

    open spec fn grammar(tokens: Seq<Seq<char>>) -> Result<
        (Self::V, Seq<Seq<char>>),
        ParseErrorModel,
    > {
        parse_assignment(tokens)
    }

    fn matches(value: &str) -> (b: bool) {
        Assignment::matches(value)
    }

    fn parse<'a>(parts: &'a [&'a str]) -> (r: Result<(Box<Self>, &'a [&'a str]), ParseError>) {
        Assignment::parse(parts)
    }
}

impl Parsable for FunctionCall {
    open spec fn leading(value: Seq<char>) -> bool {
        function_call_matches(value)
    }

    open spec fn grammar(tokens: Seq<Seq<char>>) -> Result<
        (Self::V, Seq<Seq<char>>),
        ParseErrorModel,
    > {
        parse_function_call(tokens)
    }

    fn matches(value: &str) -> (b: bool) {
        FunctionCall::matches(value)
    }

    fn parse<'a>(parts: &'a [&'a str]) -> (r: Result<(Box<Self>, &'a [&'a str]), ParseError>) {
        FunctionCall::parse(parts)
    }
}

impl Parsable for Return {
    open spec fn leading(value: Seq<char>) -> bool {
        is_keyword(value, "return"@)
    }

    open spec fn grammar(tokens: Seq<Seq<char>>) -> Result<
        (Self::V, Seq<Seq<char>>),
        ParseErrorModel,
    > {
        parse_return(tokens)
    }

    fn matches(value: &str) -> (b: bool) {
        Return::matches(value)
    }

    fn parse<'a>(parts: &'a [&'a str]) -> (r: Result<(Box<Self>, &'a [&'a str]), ParseError>) {
        Return::parse(parts)
    }
}

impl Parsable for Comment {
    open spec fn leading(value: Seq<char>) -> bool {
        is_comment_mark(value)
    }

    open spec fn grammar(tokens: Seq<Seq<char>>) -> Result<
        (Self::V, Seq<Seq<char>>),
        ParseErrorModel,
    > {
        parse_comment(tokens)
    }

    fn matches(value: &str) -> (b: bool) {
        Comment::matches(value)
    }

    fn parse<'a>(parts: &'a [&'a str]) -> (r: Result<(Box<Self>, &'a [&'a str]), ParseError>) {
        Comment::parse(parts)
    }
}

} // verus!
