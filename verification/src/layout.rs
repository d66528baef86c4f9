//! The lines of a formatted program and their indentation.
//!
//! The text of a statement is one line for the statement itself and then
//! the lines of its block, each block one level deeper than the construct
//! that owns it, eight spaces a level. A terminator stands in the block
//! that encloses the construct it closes, so its line is indented as the
//! line of that construct: one level less than the block it closes.

use crate::canonical::{is_closer, is_opener};
use crate::formatter::{body_text, header_text, indent_text, indent_unit, line_text, node_text};
use crate::nesting::is_nested_body;
use crate::node::NodeModel;
use crate::round_trip::block_of;
use vstd::prelude::*;

verus! {

/// One line of output: its level of indentation and what stands on it.
pub struct Line {
    pub level: nat,
    pub content: Seq<char>,
}

/// The lines of a statement at `level`: its own, then those of its block.
pub open spec fn node_lines(n: NodeModel, level: nat) -> Seq<Line>
    decreases n, 1nat,
{
    seq![Line { level, content: header_text(n) }] + match n {
        NodeModel::Start { body } => body_lines(body, level + 1),
        NodeModel::Loop { body, .. } => body_lines(body, level + 1),
        NodeModel::If { body, .. } => body_lines(body, level + 1),
        NodeModel::ElseIf { body, .. } => body_lines(body, level + 1),
        NodeModel::Else { body } => body_lines(body, level + 1),
        _ => Seq::empty(),
    }
}

/// The lines of the statements of a block, all at `level`.
pub open spec fn body_lines(nodes: Seq<NodeModel>, level: nat) -> Seq<Line>
    decreases nodes, 0nat,
{
    if nodes.len() == 0 {
        Seq::empty()
    } else {
        body_lines(nodes.drop_last(), level) + node_lines(nodes.last(), level)
    }
}

/// The text that lines make: each indented by its level and ended by a
/// line feed.
pub open spec fn lines_text(lines: Seq<Line>) -> Seq<char>
    decreases lines.len(),
{
    if lines.len() == 0 {
        Seq::empty()
    } else {
        lines_text(lines.drop_last()) + line_text(lines.last().level, lines.last().content)
    }
}

/// How many lines stand before the line of the `i`-th statement of a
/// block.
pub open spec fn lines_before(nodes: Seq<NodeModel>, level: nat, i: int) -> int {
    body_lines(nodes.take(i), level).len() as int
}

/// A level of indentation is eight spaces wide.
pub proof fn lemma_indent_width(level: nat)
    ensures
        indent_text(level).len() == 8 * level,
    decreases level,
{
    reveal_strlit("        ");
    assert(indent_unit().len() == 8);
    if level > 0 {
        lemma_indent_width((level - 1) as nat);
    }
}

/// The text of lines put one after the other.
pub proof fn lemma_lines_text_concat(a: Seq<Line>, b: Seq<Line>)
    ensures
        lines_text(a + b) == lines_text(a) + lines_text(b),
    decreases b.len(),
{
    if b.len() == 0 {
        assert(a + b =~= a);
        assert(lines_text(a) + lines_text(b) =~= lines_text(a));
    } else {
        assert((a + b).drop_last() =~= a + b.drop_last());
        assert((a + b).last() == b.last());
        lemma_lines_text_concat(a, b.drop_last());
        assert(lines_text(a + b) =~= lines_text(a) + lines_text(b));
    }
}

/// The formatted text of a statement is the text of its lines.
pub proof fn lemma_node_lines_text(n: NodeModel, level: nat)
    ensures
        node_text(n, level) == lines_text(node_lines(n, level)),
    decreases n, 1nat,
{
    let own = seq![Line { level, content: header_text(n) }];
    assert(own.drop_last() =~= Seq::<Line>::empty());
    assert(lines_text(own.drop_last()) =~= Seq::<char>::empty());
    assert(own.last() == (Line { level, content: header_text(n) }));
    assert(lines_text(own) =~= line_text(level, header_text(n)));
    let below = block_of(n);
    match n {
        NodeModel::Start { body } => {
            lemma_body_lines_text(body, level + 1);
        },
        NodeModel::Loop { body, .. } => {
            lemma_body_lines_text(body, level + 1);
        },
        NodeModel::If { body, .. } => {
            lemma_body_lines_text(body, level + 1);
        },
        NodeModel::ElseIf { body, .. } => {
            lemma_body_lines_text(body, level + 1);
        },
        NodeModel::Else { body } => {
            lemma_body_lines_text(body, level + 1);
        },
        _ => {
            assert(body_lines(below, level + 1) =~= Seq::<Line>::empty());
        },
    }
    lemma_lines_text_concat(own, body_lines(below, level + 1));
    assert(node_lines(n, level) =~= own + body_lines(below, level + 1));
    assert(node_text(n, level) =~= line_text(level, header_text(n)) + lines_text(
        body_lines(below, level + 1),
    ));
}

/// The formatted text of a block is the text of its lines.
pub proof fn lemma_body_lines_text(nodes: Seq<NodeModel>, level: nat)
    ensures
        body_text(nodes, level) == lines_text(body_lines(nodes, level)),
    decreases nodes, 0nat,
{
    if nodes.len() > 0 {
        lemma_body_lines_text(nodes.drop_last(), level);
        lemma_node_lines_text(nodes.last(), level);
        lemma_lines_text_concat(
            body_lines(nodes.drop_last(), level),
            node_lines(nodes.last(), level),
        );
    }
}

/// The first line of a statement is its own, at its level; every line of
/// its block is deeper.
pub proof fn lemma_node_levels(n: NodeModel, level: nat)
    ensures
        node_lines(n, level).len() >= 1,
        node_lines(n, level)[0] == (Line { level, content: header_text(n) }),
        forall|j: int|
            1 <= j < node_lines(n, level).len() ==> node_lines(n, level)[j].level > level,
    decreases n, 1nat,
{
    let below = body_lines(block_of(n), level + 1);
    match n {
        NodeModel::Start { body } => {
            lemma_body_levels(body, level + 1);
        },
        NodeModel::Loop { body, .. } => {
            lemma_body_levels(body, level + 1);
        },
        NodeModel::If { body, .. } => {
            lemma_body_levels(body, level + 1);
        },
        NodeModel::ElseIf { body, .. } => {
            lemma_body_levels(body, level + 1);
        },
        NodeModel::Else { body } => {
            lemma_body_levels(body, level + 1);
        },
        _ => {
            assert(below =~= Seq::<Line>::empty());
        },
    }
    let lines = node_lines(n, level);
    assert(lines =~= seq![Line { level, content: header_text(n) }] + below);
    assert forall|j: int| 1 <= j < lines.len() implies lines[j].level > level by {
        assert(lines[j] == below[j - 1]);
    }
}

/// No line of a block is less deep than the block.
pub proof fn lemma_body_levels(nodes: Seq<NodeModel>, level: nat)
    ensures
        forall|j: int|
            0 <= j < body_lines(nodes, level).len() ==> body_lines(nodes, level)[j].level >= level,
    decreases nodes, 0nat,
{
    if nodes.len() > 0 {
        let front = body_lines(nodes.drop_last(), level);
        let last = node_lines(nodes.last(), level);
        lemma_body_levels(nodes.drop_last(), level);
        lemma_node_levels(nodes.last(), level);
        let lines = body_lines(nodes, level);
        assert forall|j: int| 0 <= j < lines.len() implies lines[j].level >= level by {
            if j < front.len() {
                assert(lines[j] == front[j]);
            } else {
                assert(lines[j] == last[j - front.len()]);
            }
        }
    }
}

/// The lines of two blocks put one after the other.
pub proof fn lemma_body_lines_concat(a: Seq<NodeModel>, b: Seq<NodeModel>, level: nat)
    ensures
        body_lines(a + b, level) == body_lines(a, level) + body_lines(b, level),
    decreases b.len(),
{
    if b.len() == 0 {
        assert(a + b =~= a);
        assert(body_lines(a, level) + body_lines(b, level) =~= body_lines(a, level));
    } else {
        assert((a + b).drop_last() =~= a + b.drop_last());
        assert((a + b).last() == b.last());
        lemma_body_lines_concat(a, b.drop_last(), level);
        assert(body_lines(a + b, level) =~= body_lines(a, level) + body_lines(b, level));
    }
}

/// Every statement of a block has its own line in the output, at the level
/// of the block.
pub proof fn lemma_statement_line(nodes: Seq<NodeModel>, level: nat, i: int)
    requires
        0 <= i < nodes.len(),
    ensures
        0 <= lines_before(nodes, level, i) < body_lines(nodes, level).len(),
        body_lines(nodes, level)[lines_before(nodes, level, i)] == (Line {
            level,
            content: header_text(nodes[i]),
        }),
{
    let before = nodes.take(i);
    let from = nodes.skip(i);
    let first = seq![nodes[i]];
    let after = nodes.skip(i + 1);
    assert(nodes =~= before + from);
    assert(from =~= first + after);
    lemma_body_lines_concat(before, from, level);
    lemma_body_lines_concat(first, after, level);
    assert(first.drop_last() =~= Seq::<NodeModel>::empty());
    assert(body_lines(first.drop_last(), level) =~= Seq::<Line>::empty());
    assert(first.last() == nodes[i]);
    assert(body_lines(first, level) =~= node_lines(nodes[i], level));
    lemma_node_levels(nodes[i], level);
    let lines = body_lines(nodes, level);
    let at = lines_before(nodes, level, i);
    assert(lines[at] == body_lines(from, level)[0]);
    assert(body_lines(from, level)[0] == node_lines(nodes[i], level)[0]);
}

/// Indentation grows by one level, eight spaces, with each level of
/// nesting: every statement of the block of a construct has its line one
/// level deeper than the line of the construct.
pub proof fn lemma_block_is_one_level_deeper(n: NodeModel, level: nat, k: int)
    requires
        0 <= k < block_of(n).len(),
    ensures
        node_lines(n, level)[0].level == level,
        1 + lines_before(block_of(n), level + 1, k) < node_lines(n, level).len(),
        node_lines(n, level)[1 + lines_before(block_of(n), level + 1, k)] == (Line {
            level: level + 1,
            content: header_text(block_of(n)[k]),
        }),
        indent_text(level + 1).len() == indent_text(level).len() + 8,
{
    let block = block_of(n);
    lemma_node_levels(n, level);
    lemma_statement_line(block, level + 1, k);
    lemma_indent_width(level);
    lemma_indent_width(level + 1);
    let below = body_lines(block, level + 1);
    assert(node_lines(n, level) =~= seq![Line { level, content: header_text(n) }] + below);
    let at = lines_before(block, level + 1, k);
    assert(node_lines(n, level)[1 + at] == below[at]);
}

/// The line of `end`, `else` or `elseif` in a well-nested block is indented
/// as the line of the construct directly before it, which it closes: one
/// level less than the statements of the block it closes.
pub proof fn lemma_closer_line(nodes: Seq<NodeModel>, level: nat, open: bool, i: int)
    requires
        is_nested_body(nodes, open),
        0 <= i < nodes.len(),
        is_closer(nodes[i]),
    ensures
        i > 0,
        is_opener(nodes[i - 1]),
        body_lines(nodes, level)[lines_before(nodes, level, i)].level == level,
        body_lines(nodes, level)[lines_before(nodes, level, i - 1)].level == level,
        forall|k: int|
            0 <= k < block_of(nodes[i - 1]).len() ==> (#[trigger] body_lines(
                block_of(nodes[i - 1]),
                level + 1,
            )[lines_before(block_of(nodes[i - 1]), level + 1, k)]).level == level + 1,
{
    lemma_statement_line(nodes, level, i);
    lemma_statement_line(nodes, level, i - 1);
    let block = block_of(nodes[i - 1]);
    assert forall|k: int| 0 <= k < block.len() implies (#[trigger] body_lines(
        block,
        level + 1,
    )[lines_before(block, level + 1, k)]).level == level + 1 by {
        lemma_statement_line(block, level + 1, k);
    }
}

} // verus!
