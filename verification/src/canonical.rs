//! The trees that the formatter writes so that the parser reads them back.
//!
//! A tree is canonical when its variables and literals are tokens that are
//! read as such, its operands stand where the grammar puts them, the
//! arguments of its calls can be told apart by their commas, and its blocks
//! are closed the way the parser closes them.

use crate::condition::{Condition, ConditionModel};
use crate::expression::{
    expression_models, is_dense, lemma_call_model, paren_depth, Expression, ExpressionModel,
};
use crate::node::{body_model, is_comment_mark, Comment, LoopType, LoopTypeModel, Node, NodeModel};
use crate::number::{is_literal, is_literal_token};
use crate::text::{
    char_is_whitespace, find_char, is_token, is_whitespace, join_prefix, text_eq, tokenize,
    tokens_of,
};
use crate::text_lemmas::{is_normalized, is_solid, lemma_join_normalized, lemma_normalized_join};
use vstd::prelude::*;
use vstd::string::*;

verus! {

/// No whitespace, no parenthesis, no comma.
pub open spec fn is_plain(s: Seq<char>) -> bool {
    forall|i: int|
        0 <= i < s.len() ==> !is_whitespace(#[trigger] s[i]) && s[i] != '(' && s[i] != ')' && s[i]
            != ','
}

/// A token that is read as a variable or a literal: it does not begin with
/// `!` and holds no `(`.
pub open spec fn is_operand(s: Seq<char>) -> bool {
    is_token(s) && s[0] != '!' && !s.contains('(')
}

/// What can stand before the `(` of a call: no whitespace and no
/// parenthesis. It may be empty.
pub open spec fn is_call_name(s: Seq<char>) -> bool {
    forall|i: int|
        0 <= i < s.len() ==> !is_whitespace(#[trigger] s[i]) && s[i] != '(' && s[i] != ')'
}

/// The name of a call that stands in an expression: it does not begin with
/// `!`, which would negate the call.
pub open spec fn is_plain_name(s: Seq<char>) -> bool {
    is_call_name(s) && (s.len() > 0 ==> s[0] != '!')
}

/// A canonical call: its name can stand before `(`, and each of its
/// arguments is canonical and can stand as an argument.
pub open spec fn is_canonical_call(name: Seq<char>, args: Seq<ExpressionModel>) -> bool {
    is_call_name(name) && forall|i: int|
        0 <= i < args.len() ==> is_canonical_expression(#[trigger] args[i]) && is_argument(
            args[i],
        )
}

/// As many `)` as `(`, and never more `)` than `(` up to any point.
pub open spec fn is_balanced(s: Seq<char>) -> bool {
    &&& paren_depth(s) == 0
    &&& forall|j: int| 0 <= j <= s.len() ==> paren_depth(#[trigger] s.take(j)) >= 0
}

/// What can stand to the left of an arithmetic operator: a variable, a
/// literal, a call, or a negation that is written without a space.
pub open spec fn is_primary(e: ExpressionModel) -> bool {
    match e {
        ExpressionModel::Variable(_) => true,
        ExpressionModel::Literal(_) => true,
        ExpressionModel::FunctionCall { .. } => true,
        ExpressionModel::Not(inner) => is_dense(*inner),
        ExpressionModel::BinaryOp { .. } => false,
    }
}

/// The expression can stand as an argument of a call: its variables,
/// literals and names hold no comma and no parenthesis, and no call in it
/// has two arguments. Its text then holds no comma, and its parentheses
/// balance.
pub open spec fn is_argument(e: ExpressionModel) -> bool
    decreases e,
{
    match e {
        ExpressionModel::Variable(name) => is_plain(name),
        ExpressionModel::Literal(value) => is_plain(value),
        ExpressionModel::BinaryOp { left, right, .. } => is_argument(*left) && is_argument(
            *right,
        ),
        ExpressionModel::FunctionCall { name, args } => is_plain(name) && args.len() <= 1
            && forall|i: int| 0 <= i < args.len() ==> is_argument(#[trigger] args[i]),
        ExpressionModel::Not(inner) => is_argument(*inner),
    }
}

/// The text of the expression begins with `!`.
pub open spec fn begins_with_not(e: ExpressionModel) -> bool
    decreases e,
{
    match e {
        ExpressionModel::BinaryOp { left, .. } => begins_with_not(*left),
        ExpressionModel::Not(_) => true,
        _ => false,
    }
}

/// The canonical expressions. Variables and literals are tokens that are
/// read as such, told apart as the parser tells them apart. The left
/// operand of a binary operation is a primary expression. The name of a
/// call is plain, and each of its arguments can stand as an argument.
pub open spec fn is_canonical_expression(e: ExpressionModel) -> bool
    decreases e,
{
    match e {
        ExpressionModel::Variable(name) => is_operand(name) && !is_literal(name),
        ExpressionModel::Literal(value) => is_operand(value) && is_literal(value),
        ExpressionModel::BinaryOp { left, right, .. } => is_primary(*left)
            && is_canonical_expression(*left) && is_canonical_expression(*right),
        ExpressionModel::FunctionCall { name, args } => is_plain_name(name) && forall|i: int|
            0 <= i < args.len() ==> is_canonical_expression(#[trigger] args[i]) && is_argument(
                args[i],
            ),
        ExpressionModel::Not(inner) => is_canonical_expression(*inner),
    }
}

/// The canonical conditions. The left side of a comparison does not begin
/// with `!`; the left side of a logical operation is a comparison or a
/// name; a negated name has no whitespace.
pub open spec fn is_canonical_condition(c: ConditionModel) -> bool
    decreases c,
{
    match c {
        ConditionModel::ComparisonOperator { left, right, .. } => is_canonical_expression(left)
            && !begins_with_not(left) && is_canonical_expression(right),
        ConditionModel::LogicalOperator { left, right, .. } => (*left is ComparisonOperator
            || *left is Value) && is_canonical_condition(*left) && is_canonical_condition(*right),
        ConditionModel::Value(name) => is_operand(name) && !is_literal(name),
        ConditionModel::NotValue(name) => is_solid(name),
    }
}

/// The text of a comment as the parser keeps it: words that are no comment
/// marks, with single spaces between them.
pub open spec fn is_canonical_comment(value: Seq<char>) -> bool {
    &&& is_normalized(value)
    &&& forall|i: int|
        0 <= i < tokens_of(value).len() ==> !is_comment_mark(#[trigger] tokens_of(value)[i])
}

/// `end`, `else` and `elseif` as statements.
pub open spec fn is_closer(n: NodeModel) -> bool {
    n is End || n is Else || n is ElseIf
}

/// The constructs that own a block and stand in one.
pub open spec fn is_opener(n: NodeModel) -> bool {
    n is Loop || n is If || n is ElseIf || n is Else
}

/// A canonical statement, its block apart.
pub open spec fn is_canonical_header(n: NodeModel) -> bool {
    match n {
        NodeModel::Start { .. } => false,
        NodeModel::Break => false,
        NodeModel::Continue => false,
        NodeModel::Loop { loop_type, .. } => match loop_type {
            LoopTypeModel::While(condition) => is_canonical_condition(condition),
            LoopTypeModel::For { item, list } => is_token(item) && is_token(list),
        },
        NodeModel::If { condition, .. } => is_canonical_condition(condition),
        NodeModel::ElseIf { condition, .. } => is_canonical_condition(condition),
        NodeModel::Else { .. } => true,
        NodeModel::End => true,
        NodeModel::Assignment { var, value } => is_token(var) && is_canonical_expression(value),
        NodeModel::FunctionCall { name, args } => is_canonical_call(name, args),
        NodeModel::Return { value } => is_canonical_expression(value),
        NodeModel::Comment { value } => is_canonical_comment(value),
    }
}

/// A canonical statement: its own line and everything below it. `open`
/// tells that the text may end within the block of the statement.
pub open spec fn is_canonical_node(n: NodeModel, open: bool) -> bool
    decreases n, 1nat,
{
    &&& is_canonical_header(n)
    &&& match n {
        NodeModel::Loop { body, .. } => is_canonical_body(body, open),
        NodeModel::If { body, .. } => is_canonical_body(body, open),
        NodeModel::ElseIf { body, .. } => is_canonical_body(body, open),
        NodeModel::Else { body } => is_canonical_body(body, open),
        _ => true,
    }
}

/// A canonical block: canonical statements, in which `end`, `else` and
/// `elseif` stand directly behind a construct that owns a block, and only
/// there. Every such construct is followed by one of them; where `open` says
/// that the text may end within the block, the last statement may be left
/// without, and the text may end within its block in turn.
pub open spec fn is_canonical_body(nodes: Seq<NodeModel>, open: bool) -> bool
    decreases nodes, 0nat,
{
    &&& forall|i: int|
        0 <= i < nodes.len() ==> is_canonical_node(
            #[trigger] nodes[i],
            open && i == nodes.len() - 1,
        )
    &&& forall|i: int|
        0 <= i < nodes.len() && is_opener(#[trigger] nodes[i]) ==> (i + 1 < nodes.len()
            && is_closer(nodes[i + 1])) || (open && i == nodes.len() - 1)
    &&& forall|i: int|
        0 <= i < nodes.len() && is_closer(#[trigger] nodes[i]) ==> i > 0 && is_opener(
            nodes[i - 1],
        )
}

/// What is left of a canonical block behind some of its statements.
/// `closing` tells that the last of those owns a block: what is left then
/// begins with the `end`, `else` or `elseif` that closes it, or is empty
/// where the text ends there; otherwise it begins with none of them.
pub open spec fn is_canonical_tail(nodes: Seq<NodeModel>, closing: bool, open: bool) -> bool {
    &&& forall|i: int|
        0 <= i < nodes.len() ==> is_canonical_node(
            #[trigger] nodes[i],
            open && i == nodes.len() - 1,
        )
    &&& forall|i: int|
        0 <= i < nodes.len() && is_opener(#[trigger] nodes[i]) ==> (i + 1 < nodes.len()
            && is_closer(nodes[i + 1])) || (open && i == nodes.len() - 1)
    &&& forall|i: int|
        1 <= i < nodes.len() && is_closer(#[trigger] nodes[i]) ==> is_opener(nodes[i - 1])
    &&& if nodes.len() == 0 {
        !closing || open
    } else {
        is_closer(nodes[0]) == closing
    }
}

/// A canonical program: `start` over a canonical block, within which the
/// text may end.
pub open spec fn is_canonical_program(n: NodeModel) -> bool {
    match n {
        NodeModel::Start { body } => is_canonical_body(body, true),
        _ => false,
    }
}

/// Tells whether `s` is free of whitespace, parentheses and commas.
pub fn is_plain_text(s: &str) -> (b: bool)
    ensures
        b == is_plain(s@),
{
    let n = s.unicode_len();
    let mut i: usize = 0;
    while i < n
        invariant
            i <= n,
            n == s@.len(),
            forall|k: int|
                0 <= k < i ==> !is_whitespace(#[trigger] s@[k]) && s@[k] != '(' && s@[k] != ')'
                    && s@[k] != ',',
        decreases n - i,
    {
        let c = s.get_char(i);
        if char_is_whitespace(c) || c == '(' || c == ')' || c == ',' {
            return false;
        }
        i += 1;
    }
    true
}

/// Tells whether `s` is a token that is read as a variable or a literal.
pub fn is_operand_text(s: &str) -> (b: bool)
    ensures
        b == is_operand(s@),
{
    is_token_text(s) && s.get_char(0) != '!' && find_char(s, '(') == s.unicode_len()
}

/// Tells whether `s` can stand before the `(` of a call.
pub fn is_call_name_text(s: &str) -> (b: bool)
    ensures
        b == is_call_name(s@),
{
    let n = s.unicode_len();
    let mut i: usize = 0;
    while i < n
        invariant
            i <= n,
            n == s@.len(),
            forall|k: int|
                0 <= k < i ==> !is_whitespace(#[trigger] s@[k]) && s@[k] != '(' && s@[k] != ')',
        decreases n - i,
    {
        let c = s.get_char(i);
        if char_is_whitespace(c) || c == '(' || c == ')' {
            return false;
        }
        i += 1;
    }
    true
}

/// Tells whether `s` can be the name of a call in an expression.
pub fn is_plain_name_text(s: &str) -> (b: bool)
    ensures
        b == is_plain_name(s@),
{
    is_call_name_text(s) && (s.unicode_len() == 0 || s.get_char(0) != '!')
}

/// Tells whether `s` is a token: not empty, and free of whitespace.
pub fn is_token_text(s: &str) -> (b: bool)
    ensures
        b == is_token(s@),
{
    let n = s.unicode_len();
    if n == 0 {
        return false;
    }
    let mut i: usize = 0;
    while i < n
        invariant
            i <= n,
            n == s@.len(),
            forall|k: int| 0 <= k < i ==> !is_whitespace(#[trigger] s@[k]),
        decreases n - i,
    {
        if char_is_whitespace(s.get_char(i)) {
            return false;
        }
        i += 1;
    }
    true
}

/// Tells whether `name` can stand behind `!` in a condition: it holds no
/// whitespace.
fn is_negated_name(name: &str) -> (b: bool)
    ensures
        b == is_canonical_condition(ConditionModel::NotValue(name@)),
{
    let n = name.unicode_len();
    let mut i: usize = 0;
    while i < n
        invariant
            i <= n,
            n == name@.len(),
            forall|k: int| 0 <= k < i ==> !is_whitespace(#[trigger] name@[k]),
        decreases n - i,
    {
        if char_is_whitespace(name.get_char(i)) {
            assert(is_whitespace(name@[i as int]));
            return false;
        }
        i += 1;
    }
    true
}

impl Expression {
    /// Tells whether the expression can stand to the left of an arithmetic
    /// operator.
    pub fn is_primary(&self) -> (b: bool)
        ensures
            b == is_primary(self@),
    {
        match self {
            Expression::Variable(_) => true,
            Expression::Literal(_) => true,
            Expression::FunctionCall { .. } => true,
            Expression::Not(inner) => inner.is_dense(),
            Expression::BinaryOp { .. } => false,
        }
    }

    /// Tells whether the expression can stand as an argument of a call.
    #[verifier::loop_isolation(false)]
    pub fn is_argument(&self) -> (b: bool)
        ensures
            b == is_argument(self@),
        decreases self,
    {
        match self {
            Expression::Variable(name) => is_plain_text(name.as_str()),
            Expression::Literal(value) => is_plain_text(value.as_str()),
            Expression::BinaryOp { left, right, .. } => left.is_argument() && right.is_argument(),
            Expression::FunctionCall { name, args } => {
                proof {
                    lemma_call_model(*name, *args);
                }
                if !is_plain_text(name.as_str()) || args.len() > 1 {
                    return false;
                }
                if args.len() == 1 {
                    let single = args[0].is_argument();
                    assert(expression_models(args@)[0] == args@[0]@);
                    return single;
                }
                true
            },
            Expression::Not(inner) => inner.is_argument(),
        }
    }

    /// Tells whether the text of the expression begins with `!`.
    pub fn begins_with_not(&self) -> (b: bool)
        ensures
            b == begins_with_not(self@),
        decreases self,
    {
        match self {
            Expression::BinaryOp { left, .. } => left.begins_with_not(),
            Expression::Not(_) => true,
            _ => false,
        }
    }

    /// Tells whether the expression is canonical: written out and read
    /// back, it is the same expression.
    #[verifier::loop_isolation(false)]
    pub fn is_canonical(&self) -> (b: bool)
        ensures
            b == is_canonical_expression(self@),
        decreases self,
    {
        match self {
            Expression::Variable(name) => is_operand_text(name.as_str()) && !is_literal_token(
                name.as_str(),
            ),
            Expression::Literal(value) => is_operand_text(value.as_str()) && is_literal_token(
                value.as_str(),
            ),
            Expression::BinaryOp { left, right, .. } => left.is_primary() && left.is_canonical()
                && right.is_canonical(),
            Expression::FunctionCall { name, args } => {
                proof {
                    lemma_call_model(*name, *args);
                    assert(self@->FunctionCall_args == expression_models(args@));
                    assert(self@->FunctionCall_name == name@);
                }
                let plain = is_plain_name_text(name.as_str());
                let call = Self::is_canonical_call(name, args);
                plain && call
            },
            Expression::Not(inner) => inner.is_canonical(),
        }
    }

    /// Tells whether a call of this name with these arguments is canonical.
    pub fn is_canonical_call(name: &String, args: &Vec<Expression>) -> (b: bool)
        ensures
            b == is_canonical_call(name@, expression_models(args@)),
        decreases args,
    {
        let ghost models = expression_models(args@);
        if !is_call_name_text(name.as_str()) {
            return false;
        }
        let mut i: usize = 0;
        while i < args.len()
            invariant
                i <= args@.len(),
                models == expression_models(args@),
                is_call_name(name@),
                forall|k: int|
                    0 <= k < i ==> is_canonical_expression(#[trigger] models[k]) && is_argument(
                        models[k],
                    ),
            decreases args@.len() - i,
        {
            assert(models[i as int] == args@[i as int]@);
            if !(args[i].is_canonical() && args[i].is_argument()) {
                return false;
            }
            i += 1;
        }
        true
    }
}

impl Condition {
    /// Tells whether the condition is canonical: written out and read back,
    /// it is the same condition.
    pub fn is_canonical(&self) -> (b: bool)
        ensures
            b == is_canonical_condition(self@),
        decreases self,
    {
        match self {
            Condition::ComparisonOperator { left, right, .. } => left.is_canonical()
                && !left.begins_with_not() && right.is_canonical(),
            Condition::LogicalOperator { left, right, .. } => {
                let shape = match **left {
                    Condition::ComparisonOperator { .. } => true,
                    Condition::Value(_) => true,
                    _ => false,
                };
                shape && left.is_canonical() && right.is_canonical()
            },
            Condition::Value(name) => is_operand_text(name.as_str()) && !is_literal_token(
                name.as_str(),
            ),
            Condition::NotValue(name) => is_negated_name(name.as_str()),
        }
    }
}

impl Comment {
    /// Tells whether the comment is canonical: its words are no comment
    /// marks and have single spaces between them.
    #[verifier::loop_isolation(false)]
    pub fn is_canonical(&self) -> (b: bool)
        ensures
            b == is_canonical_comment(self.value@),
    {
        let value = self.value.as_str();
        let words = tokenize(value);
        let n = words.len();
        if n == 0 {
            proof {
                if value@.len() > 0 {
                    if is_normalized(value@) {
                        lemma_normalized_join(value@);
                    }
                }
            }
            return value.unicode_len() == 0;
        }
        let slice = words.as_slice();
        assert(slice.deep_view() =~= tokens_of(value@));
        assert(slice.deep_view().take(n as int) =~= tokens_of(value@));
        let joined = join_prefix(slice, n);
        proof {
            if is_normalized(value@) {
                lemma_normalized_join(value@);
            }
            lemma_join_normalized(tokens_of(value@));
        }
        if !text_eq(joined.as_str(), value) {
            return false;
        }
        let mut i: usize = 0;
        while i < n
            invariant
                i <= n,
                n == words@.len(),
                words.deep_view() == tokens_of(value@),
                forall|k: int| 0 <= k < i ==> !is_comment_mark(#[trigger] tokens_of(value@)[k]),
            decreases n - i,
        {
            assert(words.deep_view()[i as int] == words@[i as int]@);
            if Comment::matches(words[i]) {
                assert(is_comment_mark(tokens_of(value@)[i as int]));
                return false;
            }
            i += 1;
        }
        true
    }
}

impl Node {
    /// Tells whether the statement is `end`, `else` or `elseif`.
    pub fn is_closer(&self) -> (b: bool)
        ensures
            b == is_closer(self@),
    {
        match self {
            Node::End(_) => true,
            Node::Else(_) => true,
            Node::ElseIf(_) => true,
            _ => false,
        }
    }

    /// Tells whether the statement owns a block and can stand in one.
    pub fn is_opener(&self) -> (b: bool)
        ensures
            b == is_opener(self@),
    {
        match self {
            Node::Loop(_) => true,
            Node::If(_) => true,
            Node::ElseIf(_) => true,
            Node::Else(_) => true,
            _ => false,
        }
    }

    /// Tells whether the line of the statement is canonical.
    #[verifier::loop_isolation(false)]
    fn has_canonical_header(&self) -> (b: bool)
        ensures
            b == is_canonical_header(self@),
    {
        match self {
            Node::Start(_) => false,
            Node::Break(_) => false,
            Node::Continue(_) => false,
            Node::Loop(node) => match &node.loop_type {
                LoopType::While(condition) => condition.is_canonical(),
                LoopType::For { item, list } => is_token_text(item.as_str()) && is_token_text(
                    list.as_str(),
                ),
            },
            Node::If(node) => node.condition.is_canonical(),
            Node::ElseIf(node) => node.condition.is_canonical(),
            Node::Else(_) => true,
            Node::End(_) => true,
            Node::Assignment(node) => is_token_text(node.var.as_str()) && node.value.is_canonical(),
            Node::FunctionCall(node) => Expression::is_canonical_call(&node.name, &node.args),
            Node::Return(node) => node.value.is_canonical(),
            Node::Comment(node) => node.is_canonical(),
        }
    }

    /// Tells whether the statement and everything below it is canonical.
    /// `open` tells that the text may end within the block of the statement.
    pub fn is_canonical_statement(&self, open: bool) -> (b: bool)
        ensures
            b == is_canonical_node(self@, open),
        decreases self, 1nat,
    {
        if !self.has_canonical_header() {
            return false;
        }
        match self {
            Node::Loop(node) => Self::is_canonical_block(&node.body, open),
            Node::If(node) => Self::is_canonical_block(&node.body, open),
            Node::ElseIf(node) => Self::is_canonical_block(&node.body, open),
            Node::Else(node) => Self::is_canonical_block(&node.body, open),
            _ => true,
        }
    }

    /// Tells whether the block is canonical: its statements are, and `end`,
    /// `else` and `elseif` stand exactly behind the constructs that own a
    /// block. `open` tells that the text may end within the block: its last
    /// statement may then be left without the `end` that closes it.
    pub fn is_canonical_block(body: &Vec<Node>, open: bool) -> (b: bool)
        ensures
            b == is_canonical_body(body_model(*body), open),
        decreases body, 0nat,
    {
        let ghost models = body_model(*body);
        let n = body.len();
        let mut i: usize = 0;
        while i < n
            invariant
                i <= n,
                n == body@.len(),
                models == body_model(*body),
                forall|k: int|
                    0 <= k < i ==> is_canonical_node(
                        #[trigger] models[k],
                        open && k == models.len() - 1,
                    ),
                forall|k: int|
                    0 <= k < i && is_opener(#[trigger] models[k]) ==> (k + 1 < models.len()
                        && is_closer(models[k + 1])) || (open && k == models.len() - 1),
                forall|k: int|
                    0 <= k < i && is_closer(#[trigger] models[k]) ==> k > 0 && is_opener(
                        models[k - 1],
                    ),
            decreases n - i,
        {
            assert(models[i as int] == body@[i as int]@);
            let last = i + 1 == n;
            if !body[i].is_canonical_statement(open && last) {
                return false;
            }
            if body[i].is_opener() {
                if last {
                    if !open {
                        return false;
                    }
                } else {
                    assert(models[i + 1] == body@[i + 1]@);
                    if !body[i + 1].is_closer() {
                        return false;
                    }
                }
            }
            if body[i].is_closer() {
                if i == 0 {
                    return false;
                }
                assert(models[i - 1] == body@[i - 1]@);
                if !body[i - 1].is_opener() {
                    return false;
                }
            }
            i += 1;
        }
        true
    }

    /// Tells whether the program is canonical. The text of a canonical
    /// program parses to that program again.
    pub fn is_canonical(&self) -> (b: bool)
        ensures
            b == is_canonical_program(self@),
    {
        match self {
            Node::Start(start) => Self::is_canonical_block(&start.body, true),
            _ => false,
        }
    }
}

} // verus!
