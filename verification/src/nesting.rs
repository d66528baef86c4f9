//! How the parser nests what it reads.
//!
//! Whatever the tokens, the blocks of a parsed program are well nested: no
//! `start` and no marker stands in a block, `end`, `else` and `elseif` stand
//! directly behind a construct that owns a block and nowhere else, and a
//! construct is left without one only where the tokens ran out within its
//! block. Its names are tokens and its comments are words with single
//! spaces. So a parsed program is canonical as soon as its expressions,
//! conditions and calls are.

use crate::canonical::{
    is_canonical_body, is_canonical_call, is_canonical_comment, is_canonical_condition,
    is_canonical_expression,
    is_canonical_header, is_canonical_node, is_canonical_program, is_closer, is_opener,
};
use crate::condition::lemma_condition_consumes;
use crate::keyword_lemmas::{is_lower_word, lemma_keywords_are_words, reveal_keywords};
use crate::node::{
    comment_len, is_comment_mark, is_compound, is_terminator, lemma_comment_len,
    lemma_statement_consumes, loop_matches, parse_body, parse_program, parse_statement,
    LoopTypeModel, NodeModel,
};
use crate::parsing::consumed_prefix;
use crate::text::{all_tokens, is_keyword, is_token, join_tokens, same_letter, tokens_of};
use crate::text_lemmas::lemma_join_normalized;
use vstd::prelude::*;

verus! {

/// What can stand in a block: anything but `start` and the markers.
pub open spec fn is_statement(n: NodeModel) -> bool {
    !(n is Start) && !(n is Break) && !(n is Continue)
}

/// A well-nested statement. `open` tells that the tokens may have run out
/// within its block.
pub open spec fn is_nested_node(n: NodeModel, open: bool) -> bool
    decreases n, 1nat,
{
    &&& is_statement(n)
    &&& match n {
        NodeModel::Loop { body, .. } => is_nested_body(body, open),
        NodeModel::If { body, .. } => is_nested_body(body, open),
        NodeModel::ElseIf { body, .. } => is_nested_body(body, open),
        NodeModel::Else { body } => is_nested_body(body, open),
        _ => true,
    }
}

/// A well-nested block: `end`, `else` and `elseif` stand directly behind a
/// construct that owns a block, and only there, and every such construct is
/// followed by one of them, but for the last where the tokens may have run
/// out.
pub open spec fn is_nested_body(nodes: Seq<NodeModel>, open: bool) -> bool
    decreases nodes, 0nat,
{
    &&& forall|i: int|
        0 <= i < nodes.len() ==> is_nested_node(#[trigger] nodes[i], open && i == nodes.len() - 1)
    &&& forall|i: int|
        0 <= i < nodes.len() && is_opener(#[trigger] nodes[i]) ==> (i + 1 < nodes.len()
            && is_closer(nodes[i + 1])) || (open && i == nodes.len() - 1)
    &&& forall|i: int|
        0 <= i < nodes.len() && is_closer(#[trigger] nodes[i]) ==> i > 0 && is_opener(
            nodes[i - 1],
        )
}

/// What is left of a well-nested block behind some of its statements, the
/// last of which owns a block where `closing` says so.
pub open spec fn is_nested_tail(nodes: Seq<NodeModel>, closing: bool, open: bool) -> bool {
    &&& forall|i: int|
        0 <= i < nodes.len() ==> is_nested_node(#[trigger] nodes[i], open && i == nodes.len() - 1)
    &&& forall|i: int|
        0 <= i < nodes.len() && is_opener(#[trigger] nodes[i]) ==> (i + 1 < nodes.len()
            && is_closer(nodes[i + 1])) || (open && i == nodes.len() - 1)
    &&& forall|i: int|
        1 <= i < nodes.len() && is_closer(#[trigger] nodes[i]) ==> is_opener(nodes[i - 1])
    &&& if nodes.len() == 0 {
        !closing || open
    } else {
        is_closer(nodes[0]) == closing
    }
}

/// A well-nested program: `start` over a well-nested block.
pub open spec fn is_nested_program(n: NodeModel) -> bool {
    match n {
        NodeModel::Start { body } => is_nested_body(body, true),
        _ => false,
    }
}

/// Every statement of the tree, at any depth, has a canonical line: its
/// expressions and conditions are canonical, its names are tokens, its
/// comment is made of words with single spaces.
pub open spec fn has_canonical_lines(n: NodeModel) -> bool
    decreases n, 1nat,
{
    &&& n is Start || is_canonical_header(n)
    &&& match n {
        NodeModel::Start { body } => all_have_canonical_lines(body),
        NodeModel::Loop { body, .. } => all_have_canonical_lines(body),
        NodeModel::If { body, .. } => all_have_canonical_lines(body),
        NodeModel::ElseIf { body, .. } => all_have_canonical_lines(body),
        NodeModel::Else { body } => all_have_canonical_lines(body),
        _ => true,
    }
}

/// Every statement of the block, at any depth, has a canonical line.
pub open spec fn all_have_canonical_lines(nodes: Seq<NodeModel>) -> bool
    decreases nodes, 0nat,
{
    forall|i: int| 0 <= i < nodes.len() ==> has_canonical_lines(#[trigger] nodes[i])
}

/// A token spells one keyword at most.
pub proof fn lemma_keyword_unique(t: Seq<char>, a: Seq<char>, b: Seq<char>)
    requires
        is_lower_word(a),
        is_lower_word(b),
        is_keyword(t, a),
        is_keyword(t, b),
    ensures
        a == b,
{
    assert forall|i: int| 0 <= i < a.len() implies a[i] == b[i] by {
        let x = a[i];
        let y = b[i];
        assert(same_letter(t[i], x));
        assert(same_letter(t[i], y));
        assert(0x61 <= x as u32 <= 0x7A);
        assert(0x61 <= y as u32 <= 0x7A);
        let code = x as u32;
        assert(code == y as u32);
        vstd::utf8::char_u32_cast(x, code);
        vstd::utf8::char_u32_cast(y, code);
    }
    assert(a =~= b);
}

/// A terminator begins no loop and no `if`, and spells one of `end`, `else`
/// and `elseif` only.
pub proof fn lemma_terminator_only(t: Seq<char>)
    requires
        is_terminator(t),
    ensures
        !loop_matches(t),
        !is_keyword(t, "if"@),
        is_keyword(t, "elseif"@) ==> !is_keyword(t, "else"@) && !is_keyword(t, "end"@),
        is_keyword(t, "else"@) ==> !is_keyword(t, "end"@),
{
    lemma_keywords_are_words();
    reveal_keywords();
    let end = "end"@;
    let other = "else"@;
    let elseif = "elseif"@;
    assert(end.len() == 3 && other.len() == 4 && elseif.len() == 6);
    assert("for"@[0] == 'f' && "while"@.len() == 5 && "if"@.len() == 2);
    if is_keyword(t, "for"@) {
        if is_keyword(t, end) {
            lemma_keyword_unique(t, "for"@, end);
            assert(end[0] == 'e');
        }
    }
}

/// What a statement is, by the token it begins with: `end`, `else` or
/// `elseif` exactly where the token is a terminator; never `start` or a
/// marker.
pub proof fn lemma_statement_kind(ts: Seq<Seq<char>>)
    ensures
        parse_statement(ts) matches Ok((n, _)) ==> is_statement(n) && is_closer(n)
            == is_terminator(ts[0]) && is_opener(n) == is_compound(n),
{
    if ts.len() > 0 {
        if is_terminator(ts[0]) {
            lemma_terminator_only(ts[0]);
        }
    }
}

/// A block ends where the tokens end or before a terminator.
pub proof fn lemma_body_stops(ts: Seq<Seq<char>>, closing: bool)
    ensures
        parse_body(ts, closing) matches Ok((_, rest)) ==> rest.len() == 0 || is_terminator(
            rest[0],
        ),
    decreases ts.len(),
{
    if ts.len() == 0 {
    } else if is_keyword(ts[0], "start"@) {
    } else if is_terminator(ts[0]) && !closing {
    } else {
        match parse_statement(ts) {
            Err(_) => {},
            Ok((node, rest)) => {
                if rest.len() < ts.len() {
                    lemma_body_stops(rest, is_compound(node));
                }
            },
        }
    }
}

/// A statement that owns a block leaves what its block leaves: nothing, or
/// a terminator and what follows it.
pub proof fn lemma_block_stops(ts: Seq<Seq<char>>)
    ensures
        parse_statement(ts) matches Ok((n, rest)) ==> (is_compound(n) ==> rest.len() == 0
            || is_terminator(rest[0])),
{
    if ts.len() > 0 {
        if loop_matches(ts[0]) {
            if is_keyword(ts[0], "for"@) {
                if ts.len() >= 4 {
                    lemma_body_stops(ts.skip(4), false);
                }
            } else {
                match crate::condition::parse_condition(ts.skip(1)) {
                    Ok((_, rest)) => {
                        lemma_body_stops(rest, false);
                    },
                    Err(_) => {},
                }
            }
        } else if is_keyword(ts[0], "if"@) || is_keyword(ts[0], "elseif"@) {
            match crate::condition::parse_condition(ts.skip(1)) {
                Ok((_, rest)) => {
                    lemma_body_stops(rest, false);
                },
                Err(_) => {},
            }
        } else if is_keyword(ts[0], "else"@) {
            lemma_body_stops(ts.skip(1), false);
        }
    }
}

/// A block is well nested where it is what is left of one behind nothing.
pub proof fn lemma_nested_tail_is_body(nodes: Seq<NodeModel>, open: bool)
    requires
        is_nested_tail(nodes, false, open),
    ensures
        is_nested_body(nodes, open),
{
    assert forall|i: int| 0 <= i < nodes.len() && is_closer(#[trigger] nodes[i]) implies i > 0
        && is_opener(nodes[i - 1]) by {
        if i == 0 {
            assert(is_closer(nodes[0]) == false);
        }
    }
}

/// What the parser reads as a statement is well nested; the tokens ran out
/// within its block exactly where it leaves none.
pub proof fn lemma_statement_nested(ts: Seq<Seq<char>>)
    ensures
        parse_statement(ts) matches Ok((n, rest)) ==> is_nested_node(n, rest.len() == 0),
    decreases ts.len(), 1nat,
{
    lemma_statement_kind(ts);
    if ts.len() > 0 {
        if loop_matches(ts[0]) {
            if is_keyword(ts[0], "for"@) {
                if ts.len() >= 4 {
                    lemma_block_nested(ts.skip(4));
                }
            } else {
                lemma_condition_consumes(ts.skip(1));
                match crate::condition::parse_condition(ts.skip(1)) {
                    Ok((_, rest)) => {
                        lemma_block_nested(rest);
                    },
                    Err(_) => {},
                }
            }
        } else if is_keyword(ts[0], "if"@) || is_keyword(ts[0], "elseif"@) {
            lemma_condition_consumes(ts.skip(1));
            match crate::condition::parse_condition(ts.skip(1)) {
                Ok((_, rest)) => {
                    lemma_block_nested(rest);
                },
                Err(_) => {},
            }
        } else if is_keyword(ts[0], "else"@) {
            lemma_block_nested(ts.skip(1));
        }
    }
}

/// What the parser reads as the block of a construct is well nested.
pub proof fn lemma_block_nested(ts: Seq<Seq<char>>)
    ensures
        parse_body(ts, false) matches Ok((nodes, rest)) ==> is_nested_body(nodes, rest.len() == 0),
    decreases ts.len(), 3nat,
{
    lemma_body_nested(ts, false);
    match parse_body(ts, false) {
        Ok((nodes, rest)) => {
            lemma_nested_tail_is_body(nodes, rest.len() == 0);
        },
        Err(_) => {},
    }
}

/// What the parser reads as a block is well nested; the tokens ran out
/// within it exactly where it leaves none.
pub proof fn lemma_body_nested(ts: Seq<Seq<char>>, closing: bool)
    requires
        closing ==> ts.len() == 0 || is_terminator(ts[0]),
    ensures
        parse_body(ts, closing) matches Ok((nodes, rest)) ==> is_nested_tail(
            nodes,
            closing,
            rest.len() == 0,
        ),
    decreases ts.len(), 2nat,
{
    if ts.len() == 0 {
    } else if is_keyword(ts[0], "start"@) {
    } else if is_terminator(ts[0]) && !closing {
    } else {
        lemma_statement_consumes(ts);
        lemma_statement_kind(ts);
        lemma_block_stops(ts);
        lemma_statement_nested(ts);
        match parse_statement(ts) {
            Err(_) => {},
            Ok((first, behind)) => {
                let next = is_compound(first);
                lemma_body_nested(behind, next);
                match parse_body(behind, next) {
                    Err(_) => {},
                    Ok((others, rest)) => {
                        let nodes = seq![first] + others;
                        let open = rest.len() == 0;
                        crate::node::lemma_body_consumes(behind, next);
                        if others.len() == 0 {
                            // nothing was read behind the statement
                            assert(rest.len() <= behind.len());
                            if behind.len() > 0 && rest.len() == 0 {
                                assert(false) by {
                                    lemma_empty_body(behind, next);
                                }
                            }
                        } else {
                            assert(behind.len() > 0);
                        }
                        assert forall|i: int| 0 <= i < nodes.len() implies is_nested_node(
                            #[trigger] nodes[i],
                            open && i == nodes.len() - 1,
                        ) by {
                            if i > 0 {
                                assert(nodes[i] == others[i - 1]);
                                assert(is_nested_node(
                                    others[i - 1],
                                    open && i - 1 == others.len() - 1,
                                ));
                            }
                        }
                        assert forall|i: int|
                            0 <= i < nodes.len() && is_opener(#[trigger] nodes[i]) implies (i + 1
                            < nodes.len() && is_closer(nodes[i + 1])) || (open && i == nodes.len()
                            - 1) by {
                            if i > 0 {
                                assert(nodes[i] == others[i - 1]);
                                assert(is_opener(others[i - 1]));
                                if i < others.len() {
                                    assert(nodes[i + 1] == others[i]);
                                }
                            } else if others.len() > 0 {
                                assert(nodes[1] == others[0]);
                            }
                        }
                        assert forall|i: int|
                            1 <= i < nodes.len() && is_closer(
                                #[trigger] nodes[i],
                            ) implies is_opener(nodes[i - 1]) by {
                            assert(nodes[i] == others[i - 1]);
                            if i > 1 {
                                assert(is_closer(others[i - 1]));
                                assert(nodes[i - 1] == others[i - 2]);
                            }
                        }
                        assert(nodes[0] == first);
                    },
                }
            },
        }
    }
}

/// A block in which nothing is read leaves its tokens as they were.
pub proof fn lemma_empty_body(ts: Seq<Seq<char>>, closing: bool)
    ensures
        parse_body(ts, closing) matches Ok((nodes, rest)) ==> (nodes.len() == 0 ==> rest == ts),
{
}

/// What the parser reads as a program is well nested.
pub proof fn lemma_program_nested(ts: Seq<Seq<char>>)
    ensures
        parse_program(ts) matches Ok(program) ==> is_nested_program(program),
{
    if ts.len() > 0 && is_keyword(ts[0], "start"@) {
        lemma_block_nested(ts.skip(1));
        match parse_body(ts.skip(1), false) {
            Ok((body, rest)) => {
                lemma_nested_opens(body, rest.len() == 0);
            },
            Err(_) => {},
        }
    }
}

/// A block that is well nested as it stands is well nested also where the
/// tokens may have run out within it.
pub proof fn lemma_nested_opens(nodes: Seq<NodeModel>, open: bool)
    requires
        is_nested_body(nodes, open),
    ensures
        is_nested_body(nodes, true),
    decreases nodes, 0nat,
{
    assert forall|i: int| 0 <= i < nodes.len() implies is_nested_node(
        #[trigger] nodes[i],
        true && i == nodes.len() - 1,
    ) by {
        assert(is_nested_node(nodes[i], open && i == nodes.len() - 1));
        if i == nodes.len() - 1 {
            lemma_nested_node_opens(nodes[i], open);
        }
    }
}

/// A statement that is well nested as it stands is well nested also where
/// the tokens may have run out within its block.
pub proof fn lemma_nested_node_opens(n: NodeModel, open: bool)
    requires
        is_nested_node(n, open),
    ensures
        is_nested_node(n, true),
    decreases n, 1nat,
{
    match n {
        NodeModel::Loop { body, .. } => {
            lemma_nested_opens(body, open);
        },
        NodeModel::If { body, .. } => {
            lemma_nested_opens(body, open);
        },
        NodeModel::ElseIf { body, .. } => {
            lemma_nested_opens(body, open);
        },
        NodeModel::Else { body } => {
            lemma_nested_opens(body, open);
        },
        _ => {},
    }
}

/// A well-nested statement with canonical lines all through is canonical.
pub proof fn lemma_nested_node_is_canonical(n: NodeModel, open: bool)
    requires
        is_nested_node(n, open),
        has_canonical_lines(n),
    ensures
        is_canonical_node(n, open),
    decreases n, 1nat,
{
    match n {
        NodeModel::Loop { body, .. } => {
            lemma_nested_body_is_canonical(body, open);
        },
        NodeModel::If { body, .. } => {
            lemma_nested_body_is_canonical(body, open);
        },
        NodeModel::ElseIf { body, .. } => {
            lemma_nested_body_is_canonical(body, open);
        },
        NodeModel::Else { body } => {
            lemma_nested_body_is_canonical(body, open);
        },
        _ => {},
    }
}

/// A well-nested block with canonical lines all through is canonical.
pub proof fn lemma_nested_body_is_canonical(nodes: Seq<NodeModel>, open: bool)
    requires
        is_nested_body(nodes, open),
        all_have_canonical_lines(nodes),
    ensures
        is_canonical_body(nodes, open),
    decreases nodes, 0nat,
{
    assert forall|i: int| 0 <= i < nodes.len() implies is_canonical_node(
        #[trigger] nodes[i],
        open && i == nodes.len() - 1,
    ) by {
        assert(is_nested_node(nodes[i], open && i == nodes.len() - 1));
        assert(has_canonical_lines(nodes[i]));
        lemma_nested_node_is_canonical(nodes[i], open && i == nodes.len() - 1);
    }
}

/// A parsed program whose lines are canonical all through is canonical.
pub proof fn lemma_parsed_is_canonical(ts: Seq<Seq<char>>)
    requires
        parse_program(ts) is Ok,
        has_canonical_lines(parse_program(ts)->Ok_0),
    ensures
        is_canonical_program(parse_program(ts)->Ok_0),
{
    lemma_program_nested(ts);
    match parse_program(ts)->Ok_0 {
        NodeModel::Start { body } => {
            lemma_nested_body_is_canonical(body, true);
        },
        _ => {},
    }
}

/// Every expression, condition and call of the tree, at any depth, is
/// canonical.
pub open spec fn has_canonical_terms(n: NodeModel) -> bool
    decreases n, 1nat,
{
    match n {
        NodeModel::Start { body } => all_have_canonical_terms(body),
        NodeModel::Loop { loop_type, body } => (match loop_type {
            LoopTypeModel::While(condition) => is_canonical_condition(condition),
            LoopTypeModel::For { .. } => true,
        }) && all_have_canonical_terms(body),
        NodeModel::If { condition, body } => is_canonical_condition(condition)
            && all_have_canonical_terms(body),
        NodeModel::ElseIf { condition, body } => is_canonical_condition(condition)
            && all_have_canonical_terms(body),
        NodeModel::Else { body } => all_have_canonical_terms(body),
        NodeModel::Assignment { value, .. } => is_canonical_expression(value),
        NodeModel::FunctionCall { name, args } => is_canonical_call(name, args),
        NodeModel::Return { value } => is_canonical_expression(value),
        _ => true,
    }
}

/// Every expression, condition and call of the block, at any depth, is
/// canonical.
pub open spec fn all_have_canonical_terms(nodes: Seq<NodeModel>) -> bool
    decreases nodes, 0nat,
{
    forall|i: int| 0 <= i < nodes.len() ==> has_canonical_terms(#[trigger] nodes[i])
}

/// The tokens before the first comment mark are no comment marks.
pub proof fn lemma_comment_words(ts: Seq<Seq<char>>)
    ensures
        comment_len(ts) <= ts.len(),
        forall|i: int| 0 <= i < comment_len(ts) ==> !is_comment_mark(#[trigger] ts[i]),
    decreases ts.len(),
{
    lemma_comment_len(ts);
    if ts.len() == 0 || is_comment_mark(ts[0]) {
    } else {
        let r = ts.drop_first();
        lemma_comment_words(r);
        assert forall|i: int| 0 <= i < comment_len(ts) implies !is_comment_mark(
            #[trigger] ts[i],
        ) by {
            if i > 0 {
                assert(ts[i] == r[i - 1]);
            }
        }
    }
}

/// The words of a comment, read from tokens, make a canonical comment.
pub proof fn lemma_parsed_comment(ts: Seq<Seq<char>>)
    requires
        all_tokens(ts),
        ts.len() > 0,
    ensures
        is_canonical_comment(
            join_tokens(ts.subrange(1, 1 + comment_len(ts.skip(1)) as int)),
        ),
{
    let tail = ts.skip(1);
    let n = comment_len(tail) as int;
    lemma_comment_len(tail);
    lemma_comment_words(tail);
    let words = ts.subrange(1, 1 + n);
    assert forall|i: int| 0 <= i < words.len() implies is_token(#[trigger] words[i])
        && !is_comment_mark(words[i]) by {
        assert(words[i] == ts[i + 1]);
        assert(words[i] == tail[i]);
    }
    lemma_join_normalized(words);
}

/// What is left after tokens were taken from the front of a list of tokens
/// is a list of tokens.
pub proof fn lemma_tokens_left(ts: Seq<Seq<char>>, rest: Seq<Seq<char>>)
    requires
        all_tokens(ts),
        rest == ts || consumed_prefix(ts, rest),
    ensures
        all_tokens(rest),
{
    if rest != ts {
        let k = ts.len() - rest.len();
        assert forall|i: int| 0 <= i < rest.len() implies is_token(#[trigger] rest[i]) by {
            assert(rest[i] == ts[i + k]);
        }
    }
}

/// Every name of the tree, at any depth, is a token, and every comment is
/// made of words with single spaces between them.
pub open spec fn has_canonical_names(n: NodeModel) -> bool
    decreases n, 1nat,
{
    match n {
        NodeModel::Start { body } => all_have_canonical_names(body),
        NodeModel::Loop { loop_type, body } => (match loop_type {
            LoopTypeModel::While(_) => true,
            LoopTypeModel::For { item, list } => is_token(item) && is_token(list),
        }) && all_have_canonical_names(body),
        NodeModel::If { body, .. } => all_have_canonical_names(body),
        NodeModel::ElseIf { body, .. } => all_have_canonical_names(body),
        NodeModel::Else { body } => all_have_canonical_names(body),
        NodeModel::Assignment { var, .. } => is_token(var),
        NodeModel::Comment { value } => is_canonical_comment(value),
        _ => true,
    }
}

/// Every name of the block, at any depth, is a token, and every comment is
/// made of words with single spaces between them.
pub open spec fn all_have_canonical_names(nodes: Seq<NodeModel>) -> bool
    decreases nodes, 0nat,
{
    forall|i: int| 0 <= i < nodes.len() ==> has_canonical_names(#[trigger] nodes[i])
}

/// A statement read from tokens has tokens for names and words for
/// comments, and so all through its block.
pub proof fn lemma_statement_names(ts: Seq<Seq<char>>)
    requires
        all_tokens(ts),
    ensures
        parse_statement(ts) matches Ok((n, _)) ==> has_canonical_names(n),
    decreases ts.len(), 1nat,
{
    lemma_statement_kind(ts);
    if ts.len() > 0 {
        crate::parsing::lemma_consumed_skip(ts, 1);
        lemma_tokens_left(ts, ts.skip(1));
        if loop_matches(ts[0]) {
            if is_keyword(ts[0], "for"@) {
                if ts.len() >= 4 {
                    crate::parsing::lemma_consumed_skip(ts, 4);
                    lemma_tokens_left(ts, ts.skip(4));
                    lemma_body_names(ts.skip(4), false);
                }
            } else {
                lemma_condition_block_names(ts.skip(1));
            }
        } else if is_keyword(ts[0], "if"@) || is_keyword(ts[0], "elseif"@) {
            lemma_condition_block_names(ts.skip(1));
        } else if is_keyword(ts[0], "else"@) {
            lemma_body_names(ts.skip(1), false);
        } else if is_keyword(ts[0], "end"@) {
        } else if is_keyword(ts[0], "assign"@) {
        } else if crate::node::function_call_matches(ts[0]) {
        } else if is_keyword(ts[0], "return"@) {
        } else if is_comment_mark(ts[0]) {
            lemma_parsed_comment(ts);
        }
    }
}

/// The block behind a condition, read from tokens, has tokens for names
/// and words for comments.
pub proof fn lemma_condition_block_names(ts: Seq<Seq<char>>)
    requires
        all_tokens(ts),
    ensures
        crate::condition::parse_condition(ts) matches Ok((_, rest)) ==> (parse_body(
            rest,
            false,
        ) matches Ok((nodes, _)) ==> all_have_canonical_names(nodes)),
    decreases ts.len(), 3nat,
{
    lemma_condition_consumes(ts);
    match crate::condition::parse_condition(ts) {
        Ok((_, rest)) => {
            lemma_tokens_left(ts, rest);
            lemma_body_names(rest, false);
        },
        Err(_) => {},
    }
}

/// A block read from tokens has tokens for names and words for comments.
pub proof fn lemma_body_names(ts: Seq<Seq<char>>, closing: bool)
    requires
        all_tokens(ts),
    ensures
        parse_body(ts, closing) matches Ok((nodes, _)) ==> all_have_canonical_names(nodes),
    decreases ts.len(), 2nat,
{
    if ts.len() == 0 {
    } else if is_keyword(ts[0], "start"@) {
    } else if is_terminator(ts[0]) && !closing {
    } else {
        lemma_statement_consumes(ts);
        lemma_statement_names(ts);
        match parse_statement(ts) {
            Err(_) => {},
            Ok((first, behind)) => {
                lemma_tokens_left(ts, behind);
                lemma_body_names(behind, is_compound(first));
                match parse_body(behind, is_compound(first)) {
                    Err(_) => {},
                    Ok((others, _)) => {
                        let nodes = seq![first] + others;
                        assert forall|i: int| 0 <= i < nodes.len() implies has_canonical_names(
                            #[trigger] nodes[i],
                        ) by {
                            if i > 0 {
                                assert(nodes[i] == others[i - 1]);
                            }
                        }
                    },
                }
            },
        }
    }
}

/// The names and comments of a program parsed from the tokens of a text
/// are canonical.
pub proof fn lemma_program_names(text: Seq<char>)
    ensures
        parse_program(tokens_of(text)) matches Ok(program) ==> has_canonical_names(program),
{
    let ts = tokens_of(text);
    crate::text::lemma_tokens_are_tokens(text);
    if ts.len() > 0 {
        crate::parsing::lemma_consumed_skip(ts, 1);
        lemma_tokens_left(ts, ts.skip(1));
        lemma_body_names(ts.skip(1), false);
    }
}

/// A well-nested statement with canonical names and canonical expressions,
/// conditions and calls has canonical lines.
pub proof fn lemma_node_lines(n: NodeModel, open: bool)
    requires
        is_nested_node(n, open),
        has_canonical_names(n),
        has_canonical_terms(n),
    ensures
        has_canonical_lines(n),
    decreases n, 1nat,
{
    match n {
        NodeModel::Loop { body, .. } => {
            lemma_body_lines(body, open);
        },
        NodeModel::If { body, .. } => {
            lemma_body_lines(body, open);
        },
        NodeModel::ElseIf { body, .. } => {
            lemma_body_lines(body, open);
        },
        NodeModel::Else { body } => {
            lemma_body_lines(body, open);
        },
        _ => {},
    }
}

/// A well-nested block with canonical names and canonical expressions,
/// conditions and calls has canonical lines.
pub proof fn lemma_body_lines(nodes: Seq<NodeModel>, open: bool)
    requires
        is_nested_body(nodes, open),
        all_have_canonical_names(nodes),
        all_have_canonical_terms(nodes),
    ensures
        all_have_canonical_lines(nodes),
    decreases nodes, 0nat,
{
    assert forall|i: int| 0 <= i < nodes.len() implies has_canonical_lines(#[trigger] nodes[i]) by {
        assert(is_nested_node(nodes[i], open && i == nodes.len() - 1));
        assert(has_canonical_names(nodes[i]));
        assert(has_canonical_terms(nodes[i]));
        lemma_node_lines(nodes[i], open && i == nodes.len() - 1);
    }
}

/// A program parsed from the tokens of a text is canonical as soon as its
/// expressions, conditions and calls are canonical.
pub proof fn lemma_parsed_text_is_canonical(text: Seq<char>)
    requires
        parse_program(tokens_of(text)) is Ok,
        has_canonical_terms(parse_program(tokens_of(text))->Ok_0),
    ensures
        has_canonical_lines(parse_program(tokens_of(text))->Ok_0),
        is_canonical_program(parse_program(tokens_of(text))->Ok_0),
{
    let ts = tokens_of(text);
    lemma_program_names(text);
    lemma_program_nested(ts);
    match parse_program(ts)->Ok_0 {
        NodeModel::Start { body } => {
            lemma_body_lines(body, true);
        },
        _ => {},
    }
    lemma_parsed_is_canonical(ts);
}

} // verus!
