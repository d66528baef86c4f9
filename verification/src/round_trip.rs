//! Formatting and parsing undo each other on canonical trees.
//!
//! The text of a canonical program, cut into tokens and parsed, is the
//! program again; so formatting what was parsed from a formatted text gives
//! that text again.

use crate::canonical::{
    is_argument, is_call_name, is_canonical_body, is_canonical_call, is_canonical_comment,
    is_canonical_expression, is_canonical_header, is_canonical_node, is_canonical_program,
    is_canonical_tail, is_closer, is_opener,
};
use crate::condition::condition_text;
use crate::condition_lemmas::lemma_condition_round_trip;
use crate::error::ParseErrorModel;
use crate::expression::{arguments_text, expression_text, ExpressionModel};
use crate::expression_lemmas::{
    lemma_arguments_round_trip, lemma_arguments_text, lemma_call_parts_round_trip,
    lemma_expression_round_trip, lemma_expression_text,
};
use crate::formatter::{
    body_text, format_program, header_text, indent_text, indent_unit, line_text, node_text,
};
use crate::keyword_lemmas::{
    is_operator, lemma_call_token, lemma_keyword_self, lemma_keyword_token,
    lemma_keywords_are_words, lemma_keywords_differ, lemma_terminator_token, reveal_keywords,
};
use crate::nesting::{has_canonical_terms, lemma_parsed_text_is_canonical};
use crate::node::{
    is_comment_mark, is_compound, is_terminator, lemma_comment_len_is, parse_body, parse_program,
    parse_statement, LoopTypeModel, NodeModel,
};
use crate::text::{is_keyword, is_token, is_whitespace, tokens_of};
use crate::text_lemmas::{
    is_blank, lemma_normalized_join, lemma_tokens_concat, lemma_tokens_padded, lemma_tokens_single,
    lemma_tokens_spaced,
};
use vstd::prelude::*;

verus! {

/// The texts of the formatter that end or begin with a space, as a keyword
/// or a mark and the spaces around it.
pub proof fn reveal_format_literals()
    ensures
        "if "@ =~= "if"@ + seq![' '],
        "elseif "@ =~= "elseif"@ + seq![' '],
        "while "@ =~= "while"@ + seq![' '],
        "for "@ =~= "for"@ + seq![' '],
        " in "@ =~= seq![' '] + "in"@ + seq![' '],
        "assign "@ =~= "assign"@ + seq![' '],
        " = "@ =~= seq![' '] + "="@ + seq![' '],
        "return "@ =~= "return"@ + seq![' '],
        "// "@ =~= "//"@ + seq![' '],
        " //"@ =~= seq![' '] + "//"@,
        "// //"@ =~= "//"@ + seq![' '] + "//"@,
        "\n"@ =~= seq!['\n'],
        is_blank("\n"@),
        is_blank(seq![' ']),
        is_blank(indent_unit()),
{
    reveal_keywords();
    reveal_strlit("if ");
    reveal_strlit("elseif ");
    reveal_strlit("while ");
    reveal_strlit("for ");
    reveal_strlit(" in ");
    reveal_strlit("assign ");
    reveal_strlit(" = ");
    reveal_strlit("return ");
    reveal_strlit("// ");
    reveal_strlit(" //");
    reveal_strlit("// //");
    reveal_strlit("\n");
    reveal_strlit("        ");
    assert(is_whitespace(' '));
    assert(is_whitespace('\n'));
    assert(indent_unit().len() == 8);
    assert forall|i: int| 0 <= i < indent_unit().len() implies is_whitespace(
        #[trigger] indent_unit()[i],
    ) by {
        assert(indent_unit()[i] == ' ');
    }
}

/// Indentation is blank.
pub proof fn lemma_indent_blank(level: nat)
    ensures
        is_blank(indent_text(level)),
    decreases level,
{
    reveal_format_literals();
    if level > 0 {
        lemma_indent_blank((level - 1) as nat);
        let a = indent_text((level - 1) as nat);
        let s = indent_text(level);
        assert forall|i: int| 0 <= i < s.len() implies is_whitespace(#[trigger] s[i]) by {
            if i < a.len() {
                assert(s[i] == a[i]);
            } else {
                assert(s[i] == indent_unit()[i - a.len()]);
            }
        }
    }
}

/// A line, with more text behind it, gives the tokens of its content and
/// then the tokens of that text.
pub proof fn lemma_line_tokens(level: nat, content: Seq<char>, after: Seq<char>)
    ensures
        tokens_of(line_text(level, content) + after) == tokens_of(content) + tokens_of(after),
        line_text(level, content).len() > 0,
        is_whitespace(line_text(level, content).last()),
{
    reveal_format_literals();
    lemma_indent_blank(level);
    let indent = indent_text(level);
    let line = line_text(level, content);
    assert(line + after =~= (indent + content) + "\n"@ + after);
    lemma_tokens_spaced(indent + content, "\n"@, after);
    assert(indent + content =~= indent + content + Seq::<char>::empty());
    lemma_tokens_padded(indent, content, Seq::empty());
    assert(line.last() == '\n');
}

/// A block is written statement by statement: the first, then the others.
pub proof fn lemma_body_text_front(nodes: Seq<NodeModel>, level: nat)
    requires
        nodes.len() > 0,
    ensures
        body_text(nodes, level) == node_text(nodes[0], level) + body_text(
            nodes.drop_first(),
            level,
        ),
    decreases nodes.len(),
{
    let front = nodes.drop_last();
    let others = nodes.drop_first();
    if nodes.len() == 1 {
        assert(body_text(front, level) =~= Seq::<char>::empty());
        assert(body_text(others, level) =~= Seq::<char>::empty());
        assert(nodes.last() == nodes[0]);
        assert(body_text(nodes, level) =~= node_text(nodes[0], level) + body_text(others, level));
    } else {
        lemma_body_text_front(front, level);
        assert(front[0] == nodes[0]);
        assert(others.drop_last() =~= front.drop_first());
        assert(others.last() == nodes.last());
        assert(body_text(nodes, level) =~= node_text(nodes[0], level) + body_text(others, level));
    }
}

/// The text of a statement ends with a line feed; the text of a block is
/// empty or ends with one.
pub proof fn lemma_text_ends(n: NodeModel, level: nat)
    ensures
        node_text(n, level).len() > 0,
        is_whitespace(node_text(n, level).last()),
    decreases n, 1nat,
{
    lemma_line_tokens(level, header_text(n), Seq::empty());
    let line = line_text(level, header_text(n));
    match n {
        NodeModel::Start { body } => {
            lemma_body_ends(body, level + 1);
        },
        NodeModel::Loop { body, .. } => {
            lemma_body_ends(body, level + 1);
        },
        NodeModel::If { body, .. } => {
            lemma_body_ends(body, level + 1);
        },
        NodeModel::ElseIf { body, .. } => {
            lemma_body_ends(body, level + 1);
        },
        NodeModel::Else { body } => {
            lemma_body_ends(body, level + 1);
        },
        _ => {
            assert(node_text(n, level) =~= line);
        },
    }
}

/// The text of a block is empty or ends with a line feed.
pub proof fn lemma_body_ends(nodes: Seq<NodeModel>, level: nat)
    ensures
        body_text(nodes, level).len() == 0 || is_whitespace(body_text(nodes, level).last()),
    decreases nodes, 0nat,
{
    if nodes.len() > 0 {
        lemma_text_ends(nodes.last(), level);
    }
}

/// The block that a statement owns; empty where it owns none.
pub open spec fn block_of(n: NodeModel) -> Seq<NodeModel> {
    match n {
        NodeModel::Start { body } => body,
        NodeModel::Loop { body, .. } => body,
        NodeModel::If { body, .. } => body,
        NodeModel::ElseIf { body, .. } => body,
        NodeModel::Else { body } => body,
        _ => Seq::empty(),
    }
}

/// The tokens of a statement are those of its own line, then those of its
/// block.
pub proof fn lemma_node_tokens(n: NodeModel, level: nat)
    ensures
        tokens_of(node_text(n, level)) == tokens_of(header_text(n)) + tokens_of(
            body_text(block_of(n), level + 1),
        ),
{
    let below = body_text(block_of(n), level + 1);
    assert(body_text(Seq::<NodeModel>::empty(), level + 1) =~= Seq::<char>::empty());
    assert(node_text(n, level) =~= line_text(level, header_text(n)) + below);
    lemma_line_tokens(level, header_text(n), below);
}

/// The tokens of a block are those of its first statement, then those of
/// the others.
pub proof fn lemma_body_tokens(nodes: Seq<NodeModel>, level: nat)
    requires
        nodes.len() > 0,
    ensures
        tokens_of(body_text(nodes, level)) == tokens_of(node_text(nodes[0], level)) + tokens_of(
            body_text(nodes.drop_first(), level),
        ),
{
    lemma_body_text_front(nodes, level);
    lemma_text_ends(nodes[0], level);
    lemma_tokens_concat(node_text(nodes[0], level), body_text(nodes.drop_first(), level));
}

/// The tokens of the line of a canonical statement.
pub open spec fn header_tokens(n: NodeModel) -> Seq<Seq<char>> {
    match n {
        NodeModel::Start { .. } => seq!["start"@],
        NodeModel::Loop { loop_type, .. } => match loop_type {
            LoopTypeModel::While(condition) => seq!["while"@] + tokens_of(
                condition_text(condition),
            ),
            LoopTypeModel::For { item, list } => seq!["for"@, item, "in"@, list],
        },
        NodeModel::Break => seq!["break"@],
        NodeModel::Continue => seq!["continue"@],
        NodeModel::If { condition, .. } => seq!["if"@] + tokens_of(condition_text(condition)),
        NodeModel::ElseIf { condition, .. } => seq!["elseif"@] + tokens_of(
            condition_text(condition),
        ),
        NodeModel::Else { .. } => seq!["else"@],
        NodeModel::End => seq!["end"@],
        NodeModel::Assignment { var, value } => seq!["assign"@, var, "="@] + tokens_of(
            expression_text(value),
        ),
        NodeModel::FunctionCall { name, args } => tokens_of(
            name + "("@ + arguments_text(args) + ")"@,
        ),
        NodeModel::Return { value } => seq!["return"@] + tokens_of(expression_text(value)),
        NodeModel::Comment { value } => seq!["//"@] + tokens_of(value) + seq!["//"@],
    }
}

/// A keyword, a space and more text give the keyword and the tokens of that
/// text.
pub proof fn lemma_keyword_then(keyword: Seq<char>, more: Seq<char>)
    requires
        is_token(keyword),
    ensures
        tokens_of(keyword + seq![' '] + more) == seq![keyword] + tokens_of(more),
{
    reveal_format_literals();
    lemma_tokens_spaced(keyword, seq![' '], more);
    lemma_tokens_single(keyword);
}

/// The keywords and marks that the formatter writes are tokens.
pub proof fn lemma_keywords_are_tokens()
    ensures
        is_token("start"@),
        is_token("if"@),
        is_token("elseif"@),
        is_token("else"@),
        is_token("end"@),
        is_token("assign"@),
        is_token("return"@),
        is_token("for"@),
        is_token("while"@),
        is_token("in"@),
        is_token("//"@),
        is_token("="@),
{
    lemma_keywords_are_words();
    lemma_keywords_differ();
    lemma_keyword_token("start"@, "start"@);
    lemma_keyword_token("if"@, "if"@);
    lemma_keyword_token("elseif"@, "elseif"@);
    lemma_keyword_token("else"@, "else"@);
    lemma_keyword_token("end"@, "end"@);
    lemma_keyword_token("assign"@, "assign"@);
    lemma_keyword_token("return"@, "return"@);
    lemma_keyword_token("for"@, "for"@);
    lemma_keyword_token("while"@, "while"@);
    lemma_keyword_token("in"@, "in"@);
}

/// What a canonical call says of its name and of its arguments.
pub proof fn lemma_canonical_call(name: Seq<char>, args: Seq<ExpressionModel>)
    requires
        is_canonical_call(name, args),
    ensures
        is_call_name(name),
        forall|i: int|
            0 <= i < args.len() ==> is_canonical_expression(#[trigger] args[i]) && is_argument(
                args[i],
            ),
{
}

/// The line of a canonical statement is cut into the tokens it was put
/// together from.
pub proof fn lemma_header_tokens(n: NodeModel)
    requires
        is_canonical_header(n),
    ensures
        tokens_of(header_text(n)) == header_tokens(n),
        header_tokens(n).len() > 0,
{
    reveal_format_literals();
    lemma_keywords_are_tokens();
    let space = seq![' '];
    match n {
        NodeModel::Loop { loop_type, .. } => match loop_type {
            LoopTypeModel::While(condition) => {
                let c = condition_text(condition);
                assert(header_text(n) =~= "while"@ + space + c);
                lemma_keyword_then("while"@, c);
            },
            LoopTypeModel::For { item, list } => {
                assert(header_text(n) =~= "for"@ + space + (item + space + ("in"@ + space
                    + list)));
                lemma_keyword_then("for"@, item + space + ("in"@ + space + list));
                lemma_keyword_then(item, "in"@ + space + list);
                lemma_keyword_then("in"@, list);
                lemma_tokens_single(list);
                assert(seq!["for"@] + (seq![item] + (seq!["in"@] + seq![list])) =~= seq![
                    "for"@,
                    item,
                    "in"@,
                    list,
                ]);
            },
        },
        NodeModel::If { condition, .. } => {
            let c = condition_text(condition);
            assert(header_text(n) =~= "if"@ + space + c);
            lemma_keyword_then("if"@, c);
        },
        NodeModel::ElseIf { condition, .. } => {
            let c = condition_text(condition);
            assert(header_text(n) =~= "elseif"@ + space + c);
            lemma_keyword_then("elseif"@, c);
        },
        NodeModel::Else { .. } => {
            lemma_tokens_single("else"@);
        },
        NodeModel::End => {
            lemma_tokens_single("end"@);
        },
        NodeModel::Assignment { var, value } => {
            let e = expression_text(value);
            assert(header_text(n) =~= "assign"@ + space + (var + space + ("="@ + space + e)));
            lemma_keyword_then("assign"@, var + space + ("="@ + space + e));
            lemma_keyword_then(var, "="@ + space + e);
            lemma_keyword_then("="@, e);
            assert(seq!["assign"@] + (seq![var] + (seq!["="@] + tokens_of(e))) =~= seq![
                "assign"@,
                var,
                "="@,
            ] + tokens_of(e));
        },
        NodeModel::FunctionCall { name, args } => {
            lemma_canonical_call(name, args);
            lemma_arguments_text(args);
            lemma_call_parts_round_trip(name, arguments_text(args), Seq::empty());
        },
        NodeModel::Return { value } => {
            let e = expression_text(value);
            assert(header_text(n) =~= "return"@ + space + e);
            lemma_keyword_then("return"@, e);
        },
        NodeModel::Comment { value } => {
            if value.len() == 0 {
                assert(header_text(n) =~= "//"@ + space + "//"@);
                lemma_keyword_then("//"@, "//"@);
                lemma_tokens_single("//"@);
                assert(tokens_of(value) =~= Seq::<Seq<char>>::empty());
                assert(seq!["//"@] + seq!["//"@] =~= seq!["//"@] + tokens_of(value) + seq![
                    "//"@,
                ]);
            } else {
                assert(header_text(n) =~= "//"@ + space + (value + space + "//"@));
                lemma_keyword_then("//"@, value + space + "//"@);
                lemma_tokens_spaced(value, space, "//"@);
                lemma_tokens_single("//"@);
                assert(seq!["//"@] + (tokens_of(value) + seq!["//"@]) =~= seq!["//"@] + tokens_of(
                    value,
                ) + seq!["//"@]);
            }
        },
        _ => {},
    }
}

/// How a statement begins: with a token that is no operator and does not
/// spell `start`, and that is a terminator exactly where `closer` says so.
pub open spec fn opens_statement(t: Seq<char>, closer: bool) -> bool {
    !is_operator(t) && !is_keyword(t, "start"@) && is_terminator(t) == closer
}

/// The first token of a canonical statement.
pub proof fn lemma_header_first_token(n: NodeModel)
    requires
        is_canonical_header(n),
    ensures
        header_tokens(n).len() > 0,
        opens_statement(header_tokens(n)[0], is_closer(n)),
{
    lemma_keywords_are_words();
    lemma_keywords_differ();
    lemma_keywords_are_tokens();
    match n {
        NodeModel::Loop { loop_type, .. } => match loop_type {
            LoopTypeModel::While(_) => {
                lemma_keyword_token("while"@, "while"@);
            },
            LoopTypeModel::For { .. } => {
                lemma_keyword_token("for"@, "for"@);
            },
        },
        NodeModel::If { .. } => {
            lemma_keyword_token("if"@, "if"@);
        },
        NodeModel::ElseIf { .. } => {
            lemma_keyword_token("elseif"@, "elseif"@);
        },
        NodeModel::Else { .. } => {
            lemma_keyword_token("else"@, "else"@);
        },
        NodeModel::End => {
            lemma_keyword_token("end"@, "end"@);
        },
        NodeModel::Assignment { .. } => {
            lemma_keyword_token("assign"@, "assign"@);
        },
        NodeModel::FunctionCall { name, args } => {
            lemma_canonical_call(name, args);
            lemma_arguments_text(args);
            lemma_call_parts_round_trip(name, arguments_text(args), Seq::empty());
            lemma_call_token(header_tokens(n)[0]);
        },
        NodeModel::Return { .. } => {
            lemma_keyword_token("return"@, "return"@);
        },
        NodeModel::Comment { .. } => {},
        _ => {},
    }
}

/// What may stand behind a statement: nothing, or a token that is no
/// operator.
pub open spec fn ends_statement(behind: Seq<Seq<char>>) -> bool {
    behind.len() == 0 || !is_operator(behind[0])
}

/// What may stand behind a block: nothing, or a terminator.
pub open spec fn ends_block(rest: Seq<Seq<char>>) -> bool {
    rest.len() == 0 || is_terminator(rest[0])
}

/// The tokens of a canonical block, with what follows it, begin like a
/// statement or like what follows.
pub proof fn lemma_block_begins(
    nodes: Seq<NodeModel>,
    level: nat,
    closing: bool,
    open: bool,
    rest: Seq<Seq<char>>,
)
    requires
        is_canonical_tail(nodes, closing, open),
        ends_block(rest),
        open ==> rest.len() == 0,
    ensures
        ends_statement(tokens_of(body_text(nodes, level)) + rest),
        closing ==> ends_block(tokens_of(body_text(nodes, level)) + rest),
        nodes.len() > 0 ==> tokens_of(body_text(nodes, level)).len() > 0 && opens_statement(
            tokens_of(body_text(nodes, level))[0],
            closing,
        ),
{
    let ts = tokens_of(body_text(nodes, level)) + rest;
    if nodes.len() == 0 {
        assert(body_text(nodes, level) =~= Seq::<char>::empty());
        assert(ts =~= rest);
        if rest.len() > 0 {
            lemma_terminator_token(rest[0]);
        }
    } else {
        let first = nodes[0];
        assert(is_canonical_node(first, open && 0 == nodes.len() - 1));
        lemma_body_tokens(nodes, level);
        lemma_node_tokens(first, level);
        lemma_header_tokens(first);
        lemma_header_first_token(first);
        assert(ts[0] == header_tokens(first)[0]);
        assert(tokens_of(body_text(nodes, level))[0] == header_tokens(first)[0]);
    }
}

/// The tokens of a statement with `behind` behind them: its line, its
/// block, and `behind`.
pub proof fn lemma_statement_tokens(n: NodeModel, level: nat, behind: Seq<Seq<char>>)
    requires
        is_canonical_header(n),
    ensures
        tokens_of(node_text(n, level)) + behind == header_tokens(n) + (tokens_of(
            body_text(block_of(n), level + 1),
        ) + behind),
        header_tokens(n).len() > 0,
        (tokens_of(node_text(n, level)) + behind)[0] == header_tokens(n)[0],
        tokens_of(node_text(n, level)).len() > 0,
{
    lemma_node_tokens(n, level);
    lemma_header_tokens(n);
    let head = header_tokens(n);
    let below = tokens_of(body_text(block_of(n), level + 1));
    assert(tokens_of(node_text(n, level)) + behind =~= head + (below + behind));
}

/// The tokens of a statement without a block, with `behind` behind them.
pub proof fn lemma_leaf_tokens(n: NodeModel, level: nat, behind: Seq<Seq<char>>)
    requires
        is_canonical_header(n),
        block_of(n) == Seq::<NodeModel>::empty(),
    ensures
        tokens_of(node_text(n, level)) + behind == header_tokens(n) + behind,
        header_tokens(n).len() > 0,
        (tokens_of(node_text(n, level)) + behind)[0] == header_tokens(n)[0],
{
    lemma_statement_tokens(n, level, behind);
    assert(body_text(block_of(n), level + 1) =~= Seq::<char>::empty());
    assert(tokens_of(body_text(block_of(n), level + 1)) + behind =~= behind);
}

/// `end` is read back.
pub proof fn lemma_end_round_trip(level: nat, behind: Seq<Seq<char>>)
    ensures
        parse_statement(tokens_of(node_text(NodeModel::End, level)) + behind) == Ok::<
            (NodeModel, Seq<Seq<char>>),
            ParseErrorModel,
        >((NodeModel::End, behind)),
{
    let n = NodeModel::End;
    lemma_keywords_differ();
    lemma_leaf_tokens(n, level, behind);
    lemma_keyword_self("end"@);
    let ts = tokens_of(node_text(n, level)) + behind;
    assert(ts.skip(1) =~= behind);
}

/// A canonical `return` is read back.
pub proof fn lemma_return_round_trip(value: ExpressionModel, level: nat, behind: Seq<Seq<char>>)
    requires
        is_canonical_expression(value),
        ends_statement(behind),
    ensures
        parse_statement(tokens_of(node_text(NodeModel::Return { value }, level)) + behind) == Ok::<
            (NodeModel, Seq<Seq<char>>),
            ParseErrorModel,
        >((NodeModel::Return { value }, behind)),
{
    let n = NodeModel::Return { value };
    lemma_keywords_differ();
    lemma_leaf_tokens(n, level, behind);
    lemma_keyword_self("return"@);
    lemma_expression_round_trip(value, behind);
    let ts = tokens_of(node_text(n, level)) + behind;
    assert(ts.skip(1) =~= tokens_of(expression_text(value)) + behind);
}

/// A canonical assignment is read back.
pub proof fn lemma_assignment_round_trip(
    var: Seq<char>,
    value: ExpressionModel,
    level: nat,
    behind: Seq<Seq<char>>,
)
    requires
        is_token(var),
        is_canonical_expression(value),
        ends_statement(behind),
    ensures
        parse_statement(tokens_of(node_text(NodeModel::Assignment { var, value }, level)) + behind)
            == Ok::<(NodeModel, Seq<Seq<char>>), ParseErrorModel>(
            (NodeModel::Assignment { var, value }, behind),
        ),
{
    let n = NodeModel::Assignment { var, value };
    lemma_keywords_differ();
    lemma_leaf_tokens(n, level, behind);
    lemma_keyword_self("assign"@);
    lemma_expression_text(value);
    lemma_normalized_join(expression_text(value));
    lemma_expression_round_trip(value, behind);
    let ts = tokens_of(node_text(n, level)) + behind;
    assert(ts[1] == var);
    assert(ts[2] == "="@);
    assert(ts.skip(3) =~= tokens_of(expression_text(value)) + behind);
}

/// A canonical call that stands as a statement is read back.
pub proof fn lemma_call_round_trip(
    name: Seq<char>,
    args: Seq<ExpressionModel>,
    level: nat,
    behind: Seq<Seq<char>>,
)
    requires
        is_canonical_call(name, args),
    ensures
        parse_statement(
            tokens_of(node_text(NodeModel::FunctionCall { name, args }, level)) + behind,
        ) == Ok::<(NodeModel, Seq<Seq<char>>), ParseErrorModel>(
            (NodeModel::FunctionCall { name, args }, behind),
        ),
{
    let n = NodeModel::FunctionCall { name, args };
    lemma_leaf_tokens(n, level, behind);
    lemma_canonical_call(name, args);
    lemma_arguments_text(args);
    let inner = arguments_text(args);
    let head = header_tokens(n);
    lemma_call_parts_round_trip(name, inner, behind);
    lemma_call_token(head[0]);
    lemma_arguments_round_trip(args, Seq::empty());
    assert(Seq::<char>::empty() + inner =~= inner);
    let ts = tokens_of(node_text(n, level)) + behind;
    assert(ts.skip(head.len() as int) =~= behind);
}

/// A canonical comment is read back.
pub proof fn lemma_comment_round_trip(value: Seq<char>, level: nat, behind: Seq<Seq<char>>)
    requires
        is_canonical_comment(value),
    ensures
        parse_statement(tokens_of(node_text(NodeModel::Comment { value }, level)) + behind) == Ok::<
            (NodeModel, Seq<Seq<char>>),
            ParseErrorModel,
        >((NodeModel::Comment { value }, behind)),
{
    let n = NodeModel::Comment { value };
    lemma_keywords_differ();
    lemma_leaf_tokens(n, level, behind);
    let ts = tokens_of(node_text(n, level)) + behind;
    let words = tokens_of(value);
    let tail = ts.skip(1);
    assert(ts =~= seq!["//"@] + words + seq!["//"@] + behind);
    assert forall|i: int| 0 <= i < words.len() implies !is_comment_mark(#[trigger] tail[i]) by {
        assert(tail[i] == words[i]);
    }
    assert(tail[words.len() as int] == "//"@);
    lemma_comment_len_is(tail, words.len());
    assert(ts.subrange(1, 1 + words.len() as int) =~= words);
    lemma_normalized_join(value);
    assert(ts.skip(2 + words.len() as int) =~= behind);
}

/// A construct with a condition, given that its block is read back.
pub proof fn lemma_conditional_round_trip(n: NodeModel, level: nat, behind: Seq<Seq<char>>)
    requires
        is_canonical_header(n),
        n is If || n is ElseIf || (n matches NodeModel::Loop { loop_type, .. }
            && loop_type is While),
        ends_statement(tokens_of(body_text(block_of(n), level + 1)) + behind),
        parse_body(tokens_of(body_text(block_of(n), level + 1)) + behind, false) == Ok::<
            (Seq<NodeModel>, Seq<Seq<char>>),
            ParseErrorModel,
        >((block_of(n), behind)),
    ensures
        parse_statement(tokens_of(node_text(n, level)) + behind) == Ok::<
            (NodeModel, Seq<Seq<char>>),
            ParseErrorModel,
        >((n, behind)),
{
    lemma_keywords_differ();
    lemma_statement_tokens(n, level, behind);
    let below = tokens_of(body_text(block_of(n), level + 1));
    let ts = tokens_of(node_text(n, level)) + behind;
    match n {
        NodeModel::If { condition, .. } => {
            lemma_keyword_self("if"@);
            lemma_condition_round_trip(condition, below + behind);
            assert(ts.skip(1) =~= tokens_of(condition_text(condition)) + (below + behind));
        },
        NodeModel::ElseIf { condition, .. } => {
            lemma_keyword_self("elseif"@);
            lemma_condition_round_trip(condition, below + behind);
            assert(ts.skip(1) =~= tokens_of(condition_text(condition)) + (below + behind));
        },
        NodeModel::Loop { loop_type, .. } => {
            match loop_type {
                LoopTypeModel::While(condition) => {
                    lemma_keyword_self("while"@);
                    lemma_condition_round_trip(condition, below + behind);
                    assert(ts.skip(1) =~= tokens_of(condition_text(condition)) + (below
                        + behind));
                },
                _ => {},
            }
        },
        _ => {},
    }
}

/// `else` and `for`, given that their block is read back.
pub proof fn lemma_plain_block_round_trip(n: NodeModel, level: nat, behind: Seq<Seq<char>>)
    requires
        is_canonical_header(n),
        n is Else || (n matches NodeModel::Loop { loop_type, .. } && loop_type is For),
        parse_body(tokens_of(body_text(block_of(n), level + 1)) + behind, false) == Ok::<
            (Seq<NodeModel>, Seq<Seq<char>>),
            ParseErrorModel,
        >((block_of(n), behind)),
    ensures
        parse_statement(tokens_of(node_text(n, level)) + behind) == Ok::<
            (NodeModel, Seq<Seq<char>>),
            ParseErrorModel,
        >((n, behind)),
{
    lemma_keywords_differ();
    lemma_statement_tokens(n, level, behind);
    let below = tokens_of(body_text(block_of(n), level + 1));
    let ts = tokens_of(node_text(n, level)) + behind;
    match n {
        NodeModel::Else { .. } => {
            lemma_keyword_self("else"@);
            assert(ts.skip(1) =~= below + behind);
        },
        NodeModel::Loop { loop_type, .. } => {
            match loop_type {
                LoopTypeModel::For { item, list } => {
                    lemma_keyword_self("for"@);
                    lemma_keyword_self("in"@);
                    assert(ts[1] == item);
                    assert(ts[2] == "in"@);
                    assert(ts[3] == list);
                    assert(ts.skip(4) =~= below + behind);
                },
                _ => {},
            }
        },
        _ => {},
    }
}

/// The tokens of the text of a canonical statement, followed by tokens that
/// do not go on with it, are read back as that statement, and those tokens
/// are left.
pub proof fn lemma_statement_round_trip(
    n: NodeModel,
    level: nat,
    open: bool,
    behind: Seq<Seq<char>>,
)
    requires
        is_canonical_node(n, open),
        ends_statement(behind),
        is_opener(n) ==> ends_block(behind),
        open ==> behind.len() == 0,
    ensures
        parse_statement(tokens_of(node_text(n, level)) + behind) == Ok::<
            (NodeModel, Seq<Seq<char>>),
            ParseErrorModel,
        >((n, behind)),
    decreases n, 1nat,
{
    match n {
        NodeModel::Loop { loop_type, body } => {
            assert(is_canonical_body(body, open));
            lemma_canonical_body_is_tail(body, open);
            lemma_block_begins(body, level + 1, false, open, behind);
            lemma_body_round_trip(body, level + 1, false, open, behind);
            match loop_type {
                LoopTypeModel::While(_) => {
                    lemma_conditional_round_trip(n, level, behind);
                },
                LoopTypeModel::For { .. } => {
                    lemma_plain_block_round_trip(n, level, behind);
                },
            }
        },
        NodeModel::If { body, .. } => {
            assert(is_canonical_body(body, open));
            lemma_canonical_body_is_tail(body, open);
            lemma_block_begins(body, level + 1, false, open, behind);
            lemma_body_round_trip(body, level + 1, false, open, behind);
            lemma_conditional_round_trip(n, level, behind);
        },
        NodeModel::ElseIf { body, .. } => {
            assert(is_canonical_body(body, open));
            lemma_canonical_body_is_tail(body, open);
            lemma_block_begins(body, level + 1, false, open, behind);
            lemma_body_round_trip(body, level + 1, false, open, behind);
            lemma_conditional_round_trip(n, level, behind);
        },
        NodeModel::Else { body } => {
            assert(is_canonical_body(body, open));
            lemma_canonical_body_is_tail(body, open);
            lemma_body_round_trip(body, level + 1, false, open, behind);
            lemma_plain_block_round_trip(n, level, behind);
        },
        NodeModel::End => {
            lemma_end_round_trip(level, behind);
        },
        NodeModel::Assignment { var, value } => {
            lemma_assignment_round_trip(var, value, level, behind);
        },
        NodeModel::FunctionCall { name, args } => {
            lemma_call_round_trip(name, args, level, behind);
        },
        NodeModel::Return { value } => {
            lemma_return_round_trip(value, level, behind);
        },
        NodeModel::Comment { value } => {
            lemma_comment_round_trip(value, level, behind);
        },
        _ => {},
    }
}

/// A canonical block is what is left of itself behind nothing.
pub proof fn lemma_canonical_body_is_tail(nodes: Seq<NodeModel>, open: bool)
    requires
        is_canonical_body(nodes, open),
    ensures
        is_canonical_tail(nodes, false, open),
{
    if nodes.len() > 0 {
        if is_closer(nodes[0]) {
            assert(false);
        }
    }
}

/// The tokens of the text of a canonical block, followed by nothing or by a
/// terminator, are read back as that block, and what follows is left.
/// Nothing follows a block within which the text may end.
pub proof fn lemma_body_round_trip(
    nodes: Seq<NodeModel>,
    level: nat,
    closing: bool,
    open: bool,
    rest: Seq<Seq<char>>,
)
    requires
        is_canonical_tail(nodes, closing, open),
        ends_block(rest),
        open ==> rest.len() == 0,
    ensures
        parse_body(tokens_of(body_text(nodes, level)) + rest, closing) == Ok::<
            (Seq<NodeModel>, Seq<Seq<char>>),
            ParseErrorModel,
        >((nodes, rest)),
    decreases nodes, 0nat,
{
    let ts = tokens_of(body_text(nodes, level)) + rest;
    if nodes.len() == 0 {
        assert(body_text(nodes, level) =~= Seq::<char>::empty());
        assert(ts =~= rest);
        if rest.len() > 0 {
            lemma_terminator_token(rest[0]);
        }
        assert(nodes =~= Seq::<NodeModel>::empty());
    } else {
        let first = nodes[0];
        let others = nodes.drop_first();
        let next = is_opener(first);
        let first_open = open && others.len() == 0;
        assert(is_canonical_node(first, open && 0 == nodes.len() - 1));
        assert(is_canonical_tail(others, next, open)) by {
            assert forall|i: int| 0 <= i < others.len() implies is_canonical_node(
                #[trigger] others[i],
                open && i == others.len() - 1,
            ) by {
                assert(others[i] == nodes[i + 1]);
                assert(is_canonical_node(nodes[i + 1], open && i + 1 == nodes.len() - 1));
            }
            assert forall|i: int|
                0 <= i < others.len() && is_opener(#[trigger] others[i]) implies (i + 1
                < others.len() && is_closer(others[i + 1])) || (open && i == others.len() - 1) by {
                assert(others[i] == nodes[i + 1]);
                assert(is_opener(nodes[i + 1]));
                if i + 1 < others.len() {
                    assert(others[i + 1] == nodes[i + 2]);
                }
            }
            assert forall|i: int|
                1 <= i < others.len() && is_closer(#[trigger] others[i]) implies is_opener(
                others[i - 1],
            ) by {
                assert(others[i] == nodes[i + 1]);
                assert(is_closer(nodes[i + 1]));
                assert(others[i - 1] == nodes[i]);
            }
            if others.len() == 0 {
                if is_opener(first) {
                    assert(is_opener(nodes[0]));
                }
            } else {
                assert(others[0] == nodes[1]);
                if is_closer(nodes[1]) {
                    assert(is_opener(nodes[0]));
                }
                if is_opener(nodes[0]) {
                    assert(is_closer(nodes[1]));
                }
            }
        }
        let more = tokens_of(body_text(others, level));
        let behind = more + rest;
        lemma_body_tokens(nodes, level);
        assert(ts =~= tokens_of(node_text(first, level)) + behind);
        lemma_block_begins(nodes, level, closing, open, rest);
        lemma_block_begins(others, level, next, open, rest);
        if first_open {
            assert(body_text(others, level) =~= Seq::<char>::empty());
        }
        lemma_statement_round_trip(first, level, first_open, behind);
        lemma_statement_tokens(first, level, behind);
        assert(ts[0] == tokens_of(body_text(nodes, level))[0]);
        assert(behind.len() < ts.len());
        assert(is_compound(first) == next);
        lemma_body_round_trip(others, level, next, open, rest);
        assert(seq![first] + others =~= nodes);
    }
}

/// The text of a canonical program, cut into tokens and parsed, is the
/// program again.
pub proof fn lemma_program_round_trip(program: NodeModel)
    requires
        is_canonical_program(program),
    ensures
        parse_program(tokens_of(node_text(program, 0))) == Ok::<NodeModel, ParseErrorModel>(
            program,
        ),
{
    lemma_keywords_are_tokens();
    lemma_keyword_self("start"@);
    let body = block_of(program);
    lemma_node_tokens(program, 0);
    lemma_tokens_single("start"@);
    lemma_canonical_body_is_tail(body, true);
    lemma_body_round_trip(body, 1, false, true, Seq::empty());
    let below = tokens_of(body_text(body, 1));
    let ts = tokens_of(node_text(program, 0));
    assert(header_text(program) == "start"@);
    assert(ts =~= seq!["start"@] + below);
    assert(ts[0] == "start"@);
    assert(ts.skip(1) =~= below + Seq::<Seq<char>>::empty());
}

/// Formatting and parsing undo each other: where a text parses to a program
/// whose expressions, conditions and calls are canonical, the formatted text
/// of that program parses again, to the same program, and so formatting it
/// once more gives the same text.
pub proof fn lemma_round_trip(text: Seq<char>)
    requires
        parse_program(tokens_of(text)) is Ok,
        has_canonical_terms(parse_program(tokens_of(text))->Ok_0),
    ensures
        format_program(tokens_of(text)) is Ok,
        parse_program(tokens_of(format_program(tokens_of(text))->Ok_0)) == parse_program(
            tokens_of(text),
        ),
        format_program(tokens_of(format_program(tokens_of(text))->Ok_0)) == format_program(
            tokens_of(text),
        ),
{
    lemma_parsed_text_is_canonical(text);
    lemma_program_round_trip(parse_program(tokens_of(text))->Ok_0);
}

} // verus!
