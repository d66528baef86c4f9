//! The formatter: the tree written out again, one statement to a line, each
//! block indented one level below the construct that owns it.
//!
//! A terminator stands in the block that encloses the construct it closes, so
//! its line comes out one level above the block it closes.

use crate::canonical::is_canonical_program;
use crate::condition::condition_text;
use crate::error::{ParseError, ParseErrorModel};
use crate::expression::{arguments_text, expression_models, expression_text, ExpressionModel};
use crate::node::{
    body_model, Assignment, Break, Comment, Continue, Else, ElseIf, End, FunctionCall, If, Loop,
    LoopType, LoopTypeModel, Node, NodeModel, Return, Start,
};
use crate::node::parse_program;
use crate::layout::{lemma_node_lines_text, lines_text, node_lines};
use crate::round_trip::lemma_program_round_trip;
use crate::settle::{has_stable_terms, lemma_text_stable};
use crate::text::tokens_of;
use vstd::prelude::*;
use vstd::string::*;

verus! {

/// The indentation of one level: eight spaces.
pub open spec fn indent_unit() -> Seq<char> {
    "        "@
}

/// The indentation of `level` levels.
pub open spec fn indent_text(level: nat) -> Seq<char>
    decreases level,
{
    if level == 0 {
        Seq::empty()
    } else {
        indent_text((level - 1) as nat) + indent_unit()
    }
}

/// One line at `level`: indentation, content, line feed.
pub open spec fn line_text(level: nat, content: Seq<char>) -> Seq<char> {
    indent_text(level) + content + "\n"@
}

/// The line of a loop.
pub open spec fn loop_header(loop_type: LoopTypeModel) -> Seq<char> {
    match loop_type {
        LoopTypeModel::While(condition) => "while "@ + condition_text(condition),
        LoopTypeModel::For { item, list } => "for "@ + item + " in "@ + list,
    }
}

/// The line of a statement itself, without indentation and without what it
/// owns. A comment is closed by a mark of its own, so that it ends where it
/// ended when it was read.
pub open spec fn header_text(n: NodeModel) -> Seq<char> {
    match n {
        NodeModel::Start { .. } => "start"@,
        NodeModel::Loop { loop_type, .. } => loop_header(loop_type),
        NodeModel::Break => "break"@,
        NodeModel::Continue => "continue"@,
        NodeModel::If { condition, .. } => "if "@ + condition_text(condition),
        NodeModel::ElseIf { condition, .. } => "elseif "@ + condition_text(condition),
        NodeModel::Else { .. } => "else"@,
        NodeModel::End => "end"@,
        NodeModel::Assignment { var, value } => "assign "@ + var + " = "@ + expression_text(value),
        NodeModel::FunctionCall { name, args } => name + "("@ + arguments_text(args) + ")"@,
        NodeModel::Return { value } => "return "@ + expression_text(value),
        NodeModel::Comment { value } => if value.len() == 0 {
            "// //"@
        } else {
            "// "@ + value + " //"@
        },
    }
}

/// A statement at `level`: its own line, then its block one level deeper.
pub open spec fn node_text(n: NodeModel, level: nat) -> Seq<char>
    decreases n, 1nat,
{
    line_text(level, header_text(n)) + match n {
        NodeModel::Start { body } => body_text(body, level + 1),
        NodeModel::Loop { body, .. } => body_text(body, level + 1),
        NodeModel::If { body, .. } => body_text(body, level + 1),
        NodeModel::ElseIf { body, .. } => body_text(body, level + 1),
        NodeModel::Else { body } => body_text(body, level + 1),
        _ => Seq::empty(),
    }
}

/// The statements of a block, all at `level`, one after the other.
pub open spec fn body_text(nodes: Seq<NodeModel>, level: nat) -> Seq<char>
    decreases nodes, 0nat,
{
    if nodes.len() == 0 {
        Seq::empty()
    } else {
        body_text(nodes.drop_last(), level) + node_text(nodes.last(), level)
    }
}

/// A statement that can be written out at a level of indentation.
pub trait IndentFormatter: View<V = NodeModel> {
    /// The statement and what it owns as text, the statement at
    /// `indent_count`.
    fn fmt_indent(&self, indent_count: usize) -> (text: String)
        ensures
            text@ == node_text(self@, indent_count as nat),
    ;
}

/// What formatting makes of a token list: the text of the program that the
/// tokens parse to, or the error that the parse ends in.
pub open spec fn format_program(tokens: Seq<Seq<char>>) -> Result<Seq<char>, ParseErrorModel> {
    match parse_program(tokens) {
        Ok(program) => Ok(node_text(program, 0)),
        Err(e) => Err(e),
    }
}

/// The result `r` of formatting is the result `want` that parsing and
/// writing out give.
pub open spec fn formatted(
    r: Result<String, ParseError>,
    want: Result<Seq<char>, ParseErrorModel>,
) -> bool {
    match r {
        Ok(text) => match want {
            Ok(model) => text@ == model,
            Err(_) => false,
        },
        Err(e) => match want {
            Ok(_) => false,
            Err(model) => e@ == model,
        },
    }
}

/// Parses `text` as a program and writes the program out again, one
/// statement to a line and each block indented below its construct; or says
/// why `text` is no program. Where the expressions, conditions and calls of
/// the program are stable, formatting the result once more gives the same
/// result.
pub fn format_text(text: &str) -> (r: Result<String, ParseError>)
    ensures
        formatted(r, format_program(tokens_of(text@))),
        r matches Ok(once) ==> (has_stable_terms(parse_program(tokens_of(text@))->Ok_0)
            ==> format_program(tokens_of(once@)) == Ok::<Seq<char>, ParseErrorModel>(once@)),
{
    proof {
        if parse_program(tokens_of(text@)) is Ok && has_stable_terms(
            parse_program(tokens_of(text@))->Ok_0,
        ) {
            lemma_text_stable(text@);
        }
    }
    match Node::new(text) {
        Ok(program) => Ok(program.fmt()),
        Err(e) => Err(e),
    }
}

/// The indentation of `indent_count` levels.
pub fn indent_string(indent_count: usize) -> (text: String)
    ensures
        text@ == indent_text(indent_count as nat),
{
    let mut text = String::new();
    let mut i: usize = 0;
    while i < indent_count
        invariant
            i <= indent_count,
            text@ == indent_text(i as nat),
        decreases indent_count - i,
    {
        text.append("        ");
        i += 1;
    }
    text
}

/// Appends one line to `out`.
fn write_line(out: &mut String, prefix: &str, content: &str, Ghost(level): Ghost<nat>)
    requires
        prefix@ == indent_text(level),
    ensures
        final(out)@ == old(out)@ + line_text(level, content@),
{
    let ghost before = out@;
    out.append(prefix);
    out.append(content);
    out.append("\n");
    assert(out@ =~= before + line_text(level, content@));
}

/// Appends a construct with its block to `out`.
fn write_block(
    header: &str,
    body: &Vec<Node>,
    prefix: &str,
    out: &mut String,
    Ghost(level): Ghost<nat>,
)
    requires
        prefix@ == indent_text(level),
    ensures
        final(out)@ == old(out)@ + (line_text(level, header@) + body_text(
            body_model(*body),
            level + 1,
        )),
    decreases body, 1nat,
{
    let ghost before = out@;
    write_line(out, prefix, header, Ghost(level));
    let mut deeper = String::from_str(prefix);
    deeper.append("        ");
    write_body(body, deeper.as_str(), out, Ghost(level + 1));
    assert(out@ =~= before + (line_text(level, header@) + body_text(body_model(*body), level + 1)));
}

/// Appends the statements of a block to `out`.
fn write_body(body: &Vec<Node>, prefix: &str, out: &mut String, Ghost(level): Ghost<nat>)
    requires
        prefix@ == indent_text(level),
    ensures
        final(out)@ == old(out)@ + body_text(body_model(*body), level),
    decreases body, 0nat,
{
    let ghost before = out@;
    let ghost models = body_model(*body);
    let mut i: usize = 0;
    assert(models.take(0) =~= Seq::<NodeModel>::empty());
    assert(out@ =~= before + body_text(models.take(0), level));
    while i < body.len()
        invariant
            i <= body@.len(),
            models == body_model(*body),
            prefix@ == indent_text(level),
            out@ == before + body_text(models.take(i as int), level),
        decreases body@.len() - i,
    {
        let ghost so_far = out@;
        body[i].write(prefix, out, Ghost(level));
        proof {
            let now = models.take(i + 1);
            assert(now.drop_last() =~= models.take(i as int));
            assert(now.last() == body@[i as int]@);
            assert(out@ =~= before + body_text(now, level));
        }
        i += 1;
    }
    assert(models.take(i as int) =~= models);
}

/// The text of a construct with its block, from an empty page.
fn block_text(header: &str, body: &Vec<Node>, indent_count: usize) -> (text: String)
    ensures
        text@ == line_text(indent_count as nat, header@) + body_text(
            body_model(*body),
            indent_count as nat + 1,
        ),
{
    let prefix = indent_string(indent_count);
    let mut text = String::new();
    write_block(header, body, prefix.as_str(), &mut text, Ghost(indent_count as nat));
    assert(text@ =~= line_text(indent_count as nat, header@) + body_text(
        body_model(*body),
        indent_count as nat + 1,
    ));
    text
}

/// The text of a statement without a block, from an empty page.
fn single_line(header: &str, indent_count: usize) -> (text: String)
    ensures
        text@ == line_text(indent_count as nat, header@) + Seq::<char>::empty(),
{
    let prefix = indent_string(indent_count);
    let mut text = String::new();
    write_line(&mut text, prefix.as_str(), header, Ghost(indent_count as nat));
    assert(text@ =~= line_text(indent_count as nat, header@) + Seq::<char>::empty());
    text
}

impl Start {
    /// The line of the statement itself, without indentation.
    pub fn header(&self) -> (text: String)
        ensures
            text@ == header_text(self@),
    {
        String::from_str("start")
    }

    /// The construct and its block as text, the construct at `indent_count`.
    pub fn fmt_indent(&self, indent_count: usize) -> (text: String)
        ensures
            text@ == node_text(self@, indent_count as nat),
    {
        block_text(self.header().as_str(), &self.body, indent_count)
    }
}

impl If {
    /// The line of the statement itself, without indentation.
    pub fn header(&self) -> (text: String)
        ensures
            text@ == header_text(self@),
    {
        let mut text = String::from_str("if ");
        text.append(self.condition.fmt().as_str());
        text
    }

    /// The construct and its block as text, the construct at `indent_count`.
    pub fn fmt_indent(&self, indent_count: usize) -> (text: String)
        ensures
            text@ == node_text(self@, indent_count as nat),
    {
        block_text(self.header().as_str(), &self.body, indent_count)
    }
}

impl ElseIf {
    /// The line of the statement itself, without indentation.
    pub fn header(&self) -> (text: String)
        ensures
            text@ == header_text(self@),
    {
        let mut text = String::from_str("elseif ");
        text.append(self.condition.fmt().as_str());
        text
    }

    /// The construct and its block as text, the construct at `indent_count`.
    pub fn fmt_indent(&self, indent_count: usize) -> (text: String)
        ensures
            text@ == node_text(self@, indent_count as nat),
    {
        block_text(self.header().as_str(), &self.body, indent_count)
    }
}

impl Else {
    /// The line of the statement itself, without indentation.
    pub fn header(&self) -> (text: String)
        ensures
            text@ == header_text(self@),
    {
        String::from_str("else")
    }

    /// The construct and its block as text, the construct at `indent_count`.
    pub fn fmt_indent(&self, indent_count: usize) -> (text: String)
        ensures
            text@ == node_text(self@, indent_count as nat),
    {
        block_text(self.header().as_str(), &self.body, indent_count)
    }
}

impl Loop {
    /// The line of the statement itself, without indentation.
    pub fn header(&self) -> (text: String)
        ensures
            text@ == header_text(self@),
    {
        match &self.loop_type {
            LoopType::While(condition) => {
                let mut text = String::from_str("while ");
                text.append(condition.fmt().as_str());
                text
            },
            LoopType::For { item, list } => {
                let mut text = String::from_str("for ");
                text.append(item.as_str());
                text.append(" in ");
                text.append(list.as_str());
                text
            },
        }
    }

    /// The construct and its block as text, the construct at `indent_count`.
    pub fn fmt_indent(&self, indent_count: usize) -> (text: String)
        ensures
            text@ == node_text(self@, indent_count as nat),
    {
        block_text(self.header().as_str(), &self.body, indent_count)
    }
}

impl End {
    /// The line of the statement itself, without indentation.
    pub fn header(&self) -> (text: String)
        ensures
            text@ == header_text(self@),
    {
        String::from_str("end")
    }

    /// The statement as one line at `indent_count`.
    pub fn fmt_indent(&self, indent_count: usize) -> (text: String)
        ensures
            text@ == node_text(self@, indent_count as nat),
    {
        single_line(self.header().as_str(), indent_count)
    }
}

impl Break {
    /// The line of the statement itself, without indentation.
    pub fn header(&self) -> (text: String)
        ensures
            text@ == header_text(self@),
    {
        String::from_str("break")
    }

    /// The statement as one line at `indent_count`.
    pub fn fmt_indent(&self, indent_count: usize) -> (text: String)
        ensures
            text@ == node_text(self@, indent_count as nat),
    {
        single_line(self.header().as_str(), indent_count)
    }
}

impl Continue {
    /// The line of the statement itself, without indentation.
    pub fn header(&self) -> (text: String)
        ensures
            text@ == header_text(self@),
    {
        String::from_str("continue")
    }

    /// The statement as one line at `indent_count`.
    pub fn fmt_indent(&self, indent_count: usize) -> (text: String)
        ensures
            text@ == node_text(self@, indent_count as nat),
    {
        single_line(self.header().as_str(), indent_count)
    }
}

impl Assignment {
    /// The line of the statement itself, without indentation.
    pub fn header(&self) -> (text: String)
        ensures
            text@ == header_text(self@),
    {
        let mut text = String::from_str("assign ");
        text.append(self.var.as_str());
        text.append(" = ");
        text.append(self.value.fmt().as_str());
        text
    }

    /// The statement as one line at `indent_count`.
    pub fn fmt_indent(&self, indent_count: usize) -> (text: String)
        ensures
            text@ == node_text(self@, indent_count as nat),
    {
        single_line(self.header().as_str(), indent_count)
    }
}

impl FunctionCall {
    /// The line of the statement itself, without indentation.
    pub fn header(&self) -> (text: String)
        ensures
            text@ == header_text(self@),
    {
        let ghost models = expression_models(self.args@);
        let mut text = self.name.clone();
        text.append("(");
        let mut i: usize = 0;
        assert(models.take(0) =~= Seq::<ExpressionModel>::empty());
        assert(text@ =~= self.name@ + "("@ + arguments_text(models.take(0)));
        while i < self.args.len()
            invariant
                i <= self.args@.len(),
                models == expression_models(self.args@),
                text@ == self.name@ + "("@ + arguments_text(models.take(i as int)),
            decreases self.args@.len() - i,
        {
            if i > 0 {
                text.append(", ");
            }
            text.append(self.args[i].fmt().as_str());
            proof {
                let now = models.take(i + 1);
                assert(now.drop_last() =~= models.take(i as int));
                assert(now.last() == self.args@[i as int]@);
                if i == 0 {
                    assert(now[0] == self.args@[0]@);
                }
                assert(text@ =~= self.name@ + "("@ + arguments_text(now));
            }
            i += 1;
        }
        assert(models.take(i as int) =~= models);
        text.append(")");
        text
    }

    /// The statement as one line at `indent_count`.
    pub fn fmt_indent(&self, indent_count: usize) -> (text: String)
        ensures
            text@ == node_text(self@, indent_count as nat),
    {
        single_line(self.header().as_str(), indent_count)
    }
}

impl Return {
    /// The line of the statement itself, without indentation.
    pub fn header(&self) -> (text: String)
        ensures
            text@ == header_text(self@),
    {
        let mut text = String::from_str("return ");
        text.append(self.value.fmt().as_str());
        text
    }

    /// The statement as one line at `indent_count`.
    pub fn fmt_indent(&self, indent_count: usize) -> (text: String)
        ensures
            text@ == node_text(self@, indent_count as nat),
    {
        single_line(self.header().as_str(), indent_count)
    }
}

impl Comment {
    /// The line of the statement itself, without indentation.
    pub fn header(&self) -> (text: String)
        ensures
            text@ == header_text(self@),
    {
        if self.value.as_str().unicode_len() == 0 {
            String::from_str("// //")
        } else {
            let mut text = String::from_str("// ");
            text.append(self.value.as_str());
            text.append(" //");
            text
        }
    }

    /// The statement as one line at `indent_count`.
    pub fn fmt_indent(&self, indent_count: usize) -> (text: String)
        ensures
            text@ == node_text(self@, indent_count as nat),
    {
        single_line(self.header().as_str(), indent_count)
    }
}

impl Node {
    /// The line of the statement itself, without indentation.
    pub fn header(&self) -> (text: String)
        ensures
            text@ == header_text(self@),
    {
        match self {
            Node::Start(node) => node.header(),
            Node::Loop(node) => node.header(),
            Node::Break(node) => node.header(),
            Node::Continue(node) => node.header(),
            Node::If(node) => node.header(),
            Node::ElseIf(node) => node.header(),
            Node::Else(node) => node.header(),
            Node::End(node) => node.header(),
            Node::Assignment(node) => node.header(),
            Node::FunctionCall(node) => node.header(),
            Node::Return(node) => node.header(),
            Node::Comment(node) => node.header(),
        }
    }

    /// Appends the statement and what it owns to `out`.
    fn write(&self, prefix: &str, out: &mut String, Ghost(level): Ghost<nat>)
        requires
            prefix@ == indent_text(level),
        ensures
            final(out)@ == old(out)@ + node_text(self@, level),
        decreases self, 0nat,
    {
        let header = self.header();
        match self {
            Node::Start(node) => write_block(
                header.as_str(),
                &node.body,
                prefix,
                out,
                Ghost(level),
            ),
            Node::Loop(node) => write_block(header.as_str(), &node.body, prefix, out, Ghost(level)),
            Node::If(node) => write_block(header.as_str(), &node.body, prefix, out, Ghost(level)),
            Node::ElseIf(node) => write_block(
                header.as_str(),
                &node.body,
                prefix,
                out,
                Ghost(level),
            ),
            Node::Else(node) => write_block(header.as_str(), &node.body, prefix, out, Ghost(level)),
            _ => {
                let ghost before = out@;
                write_line(out, prefix, header.as_str(), Ghost(level));
                assert(out@ =~= before + node_text(self@, level));
            },
        }
    }

    /// The statement and what it owns as text, the statement at
    /// `indent_count`.
    pub fn fmt_indent(&self, indent_count: usize) -> (text: String)
        ensures
            text@ == node_text(self@, indent_count as nat),
    {
        let prefix = indent_string(indent_count);
        let mut text = String::new();
        self.write(prefix.as_str(), &mut text, Ghost(indent_count as nat));
        assert(text@ =~= node_text(self@, indent_count as nat));
        text
    }

    /// The statement and what it owns as text, from the left margin: one
    /// line for each statement, indented by its depth. The text of a
    /// canonical program parses to that program again.
    pub fn fmt(&self) -> (text: String)
        ensures
            text@ == node_text(self@, 0),
            text@ == lines_text(node_lines(self@, 0)),
            is_canonical_program(self@) ==> parse_program(tokens_of(text@)) == Ok::<
                NodeModel,
                ParseErrorModel,
            >(self@),
    {
        proof {
            if is_canonical_program(self@) {
                lemma_program_round_trip(self@);
            }
            lemma_node_lines_text(self@, 0);
        }
        self.fmt_indent(0)
    }
}

impl IndentFormatter for Start {
    fn fmt_indent(&self, indent_count: usize) -> (text: String) {
        Start::fmt_indent(self, indent_count)
    }
}

impl IndentFormatter for If {
    fn fmt_indent(&self, indent_count: usize) -> (text: String) {
        If::fmt_indent(self, indent_count)
    }
}

impl IndentFormatter for ElseIf {
    fn fmt_indent(&self, indent_count: usize) -> (text: String) {
        ElseIf::fmt_indent(self, indent_count)
    }
}

impl IndentFormatter for Else {
    fn fmt_indent(&self, indent_count: usize) -> (text: String) {
        Else::fmt_indent(self, indent_count)
    }
}

impl IndentFormatter for End {
    fn fmt_indent(&self, indent_count: usize) -> (text: String) {
        End::fmt_indent(self, indent_count)
    }
}

impl IndentFormatter for Loop {
    fn fmt_indent(&self, indent_count: usize) -> (text: String) {
        Loop::fmt_indent(self, indent_count)
    }
}

impl IndentFormatter for Break {
    fn fmt_indent(&self, indent_count: usize) -> (text: String) {
        Break::fmt_indent(self, indent_count)
    }
}

impl IndentFormatter for Continue {
    fn fmt_indent(&self, indent_count: usize) -> (text: String) {
        Continue::fmt_indent(self, indent_count)
    }
}

impl IndentFormatter for Assignment {
    fn fmt_indent(&self, indent_count: usize) -> (text: String) {
        Assignment::fmt_indent(self, indent_count)
    }
}

impl IndentFormatter for FunctionCall {
    fn fmt_indent(&self, indent_count: usize) -> (text: String) {
        FunctionCall::fmt_indent(self, indent_count)
    }
}

impl IndentFormatter for Return {
    fn fmt_indent(&self, indent_count: usize) -> (text: String) {
        Return::fmt_indent(self, indent_count)
    }
}

impl IndentFormatter for Comment {
    fn fmt_indent(&self, indent_count: usize) -> (text: String) {
        Comment::fmt_indent(self, indent_count)
    }
}

impl IndentFormatter for Node {
    fn fmt_indent(&self, indent_count: usize) -> (text: String) {
        Node::fmt_indent(self, indent_count)
    }
}

} // verus!
