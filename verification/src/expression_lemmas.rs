//! What the text of a canonical expression looks like, and that the parser
//! reads it back as the expression it was written for.

use crate::canonical::{
    begins_with_not, is_argument, is_balanced, is_call_name, is_canonical_expression, is_plain,
    is_operand, is_primary,
};
use crate::error::ParseErrorModel;
use crate::expression::{
    arguments_text, call_end, call_parts, continue_binary, expression_text, is_dense, paren_depth,
    parse_arguments, parse_expression, starts_with_bang, CallParts, ExpressionModel,
};
use crate::operator::{
    arithmetic_of, arithmetic_symbol, lemma_arithmetic_symbol, reveal_operator_literals,
    ArithmeticOperator,
};
use crate::text::{
    is_token, is_whitespace, join_tokens, lemma_word_len, tokens_of,
    word_len,
};
use crate::text_lemmas::{
    is_blank, is_normalized, is_solid, lemma_count_concat, lemma_count_none, lemma_count_one,
    lemma_first_index_at, lemma_join_concat, lemma_last_index_at, lemma_normalized_join,
    lemma_normalized_spaced, lemma_normalized_wrapped, lemma_tokens_padded, lemma_tokens_single,
};
use vstd::prelude::*;

verus! {

/// What the short texts of the formatter hold, character by character.
pub proof fn reveal_text_literals()
    ensures
        " "@ =~= seq![' '],
        "("@ =~= seq!['('],
        ")"@ =~= seq![')'],
        ", "@ =~= seq![',', ' '],
        "!"@ =~= seq!['!'],
        "! "@ =~= seq!['!', ' '],
        is_whitespace(' '),
        !is_whitespace('('),
        !is_whitespace(')'),
        !is_whitespace(','),
        !is_whitespace('!'),
{
    reveal_strlit(" ");
    reveal_strlit("(");
    reveal_strlit(")");
    reveal_strlit(", ");
    reveal_strlit("!");
    reveal_strlit("! ");
}

/// A text without parentheses.
pub open spec fn has_no_paren(s: Seq<char>) -> bool {
    forall|i: int| 0 <= i < s.len() ==> #[trigger] s[i] != '(' && s[i] != ')'
}

/// Parentheses are counted part by part.
pub proof fn lemma_depth_concat(a: Seq<char>, b: Seq<char>)
    ensures
        paren_depth(a + b) == paren_depth(a) + paren_depth(b),
{
    lemma_count_concat(a, b, '(');
    lemma_count_concat(a, b, ')');
}

/// A text without parentheses has none open.
pub proof fn lemma_depth_none(s: Seq<char>)
    requires
        has_no_paren(s),
    ensures
        paren_depth(s) == 0,
{
    assert(!s.contains('(')) by {
        if s.contains('(') {
            let i = choose|i: int| 0 <= i < s.len() && s[i] == '(';
            assert(s[i] != '(');
        }
    }
    assert(!s.contains(')')) by {
        if s.contains(')') {
            let i = choose|i: int| 0 <= i < s.len() && s[i] == ')';
            assert(s[i] != ')');
        }
    }
    lemma_count_none(s, '(');
    lemma_count_none(s, ')');
}

/// A text without parentheses is balanced.
pub proof fn lemma_balanced_plain(s: Seq<char>)
    requires
        has_no_paren(s),
    ensures
        is_balanced(s),
{
    lemma_depth_none(s);
    assert forall|j: int| 0 <= j <= s.len() implies paren_depth(#[trigger] s.take(j)) >= 0 by {
        let p = s.take(j);
        assert forall|i: int| 0 <= i < p.len() implies #[trigger] p[i] != '(' && p[i] != ')' by {
            assert(p[i] == s[i]);
        }
        lemma_depth_none(p);
    }
}

/// Two balanced texts, one after the other, are balanced.
pub proof fn lemma_balanced_concat(a: Seq<char>, b: Seq<char>)
    requires
        is_balanced(a),
        is_balanced(b),
    ensures
        is_balanced(a + b),
{
    lemma_depth_concat(a, b);
    let ab = a + b;
    assert forall|j: int| 0 <= j <= ab.len() implies paren_depth(#[trigger] ab.take(j)) >= 0 by {
        if j <= a.len() {
            assert(ab.take(j) =~= a.take(j));
        } else {
            assert(ab.take(j) =~= a + b.take(j - a.len()));
            lemma_depth_concat(a, b.take(j - a.len()));
        }
    }
}

/// A call text: a name without parentheses, then balanced text within
/// parentheses. It is balanced, and from its `(` to before its last `)` at
/// least one parenthesis is open.
pub proof fn lemma_balanced_call(name: Seq<char>, inner: Seq<char>)
    requires
        has_no_paren(name),
        is_balanced(inner),
    ensures
        is_balanced(name + seq!['('] + inner + seq![')']),
        forall|j: int|
            name.len() < j < name.len() + inner.len() + 2 ==> paren_depth(
                #[trigger] (name + seq!['('] + inner + seq![')']).take(j),
            ) >= 1,
{
    let text = name + seq!['('] + inner + seq![')'];
    lemma_depth_none(name);
    lemma_count_one('(', '(');
    lemma_count_one(')', '(');
    lemma_count_one('(', ')');
    lemma_count_one(')', ')');
    lemma_balanced_plain(name);
    assert forall|j: int| 0 <= j <= text.len() implies paren_depth(#[trigger] text.take(j)) >= 0
        && (name.len() < j < name.len() + inner.len() + 2 ==> paren_depth(text.take(j)) >= 1) by {
        if j <= name.len() {
            assert(text.take(j) =~= name.take(j));
        } else if j <= name.len() + 1 + inner.len() {
            let k = j - name.len() - 1;
            assert(text.take(j) =~= name + seq!['('] + inner.take(k));
            lemma_depth_concat(name, seq!['(']);
            lemma_depth_concat(name + seq!['('], inner.take(k));
        } else {
            assert(text.take(j) =~= text);
            lemma_depth_concat(name, seq!['(']);
            lemma_depth_concat(name + seq!['('], inner);
            lemma_depth_concat(name + seq!['('] + inner, seq![')']);
        }
    }
    assert(text.take(text.len() as int) =~= text);
    lemma_depth_concat(name, seq!['(']);
    lemma_depth_concat(name + seq!['('], inner);
    lemma_depth_concat(name + seq!['('] + inner, seq![')']);
}

/// Text that is not empty, normalized and balanced.
pub open spec fn is_tidy(t: Seq<char>) -> bool {
    t.len() > 0 && is_normalized(t) && is_balanced(t)
}

/// The symbol of an arithmetic operator is a token without parenthesis or
/// comma, and not `!`.
pub proof fn lemma_symbol_is_token(op: ArithmeticOperator)
    ensures
        is_token(arithmetic_symbol(op)),
        has_no_paren(arithmetic_symbol(op)),
        !arithmetic_symbol(op).contains(','),
        arithmetic_symbol(op)[0] != '!',
{
    reveal_operator_literals();
    let s = arithmetic_symbol(op);
    assert(s.len() == 1);
    assert(!s.contains(',')) by {
        if s.contains(',') {
            let i = choose|i: int| 0 <= i < s.len() && s[i] == ',';
            assert(i == 0);
        }
    }
}

/// Two tidy texts with a token between them, single spaces around it.
pub proof fn lemma_tidy_infix(a: Seq<char>, symbol: Seq<char>, b: Seq<char>)
    requires
        is_tidy(a),
        is_tidy(b),
        is_token(symbol),
        has_no_paren(symbol),
    ensures
        is_tidy(a + " "@ + symbol + " "@ + b),
        tokens_of(a + " "@ + symbol + " "@ + b) == tokens_of(a) + seq![symbol] + tokens_of(b),
        (a + " "@ + symbol + " "@ + b)[0] == a[0],
{
    reveal_text_literals();
    let space = seq![' '];
    lemma_normalized_spaced(a, symbol);
    lemma_normalized_spaced(a + space + symbol, b);
    lemma_tokens_single(symbol);
    lemma_balanced_plain(space);
    lemma_balanced_plain(symbol);
    lemma_balanced_concat(a, space);
    lemma_balanced_concat(a + space, symbol);
    lemma_balanced_concat(a + space + symbol, space);
    lemma_balanced_concat(a + space + symbol + space, b);
    assert((a + " "@ + symbol + " "@ + b)[0] == a[0]);
}

/// Two texts without a comma, one after the other, hold no comma.
pub proof fn lemma_no_comma_concat(a: Seq<char>, b: Seq<char>)
    requires
        !a.contains(','),
        !b.contains(','),
    ensures
        !(a + b).contains(','),
{
    let ab = a + b;
    if ab.contains(',') {
        let i = choose|i: int| 0 <= i < ab.len() && ab[i] == ',';
        if i < a.len() {
            assert(a[i] == ',');
        } else {
            assert(b[i - a.len()] == ',');
        }
    }
}

/// What follows from a text being plain.
pub proof fn lemma_plain_facts(s: Seq<char>)
    requires
        is_plain(s),
    ensures
        has_no_paren(s),
        !s.contains(','),
        !s.contains('('),
        is_solid(s),
        s.len() > 0 ==> is_token(s) && is_tidy(s),
{
    if s.contains(',') {
        let i = choose|i: int| 0 <= i < s.len() && s[i] == ',';
        assert(s[i] != ',');
    }
    if s.contains('(') {
        let i = choose|i: int| 0 <= i < s.len() && s[i] == '(';
        assert(s[i] != '(');
    }
    assert(has_no_paren(s));
    lemma_balanced_plain(s);
}

/// What follows from a token being read as a variable or a literal.
pub proof fn lemma_operand_facts(s: Seq<char>)
    requires
        is_operand(s),
    ensures
        is_token(s),
        is_normalized(s),
        is_solid(s),
        tokens_of(s) == seq![s],
{
    lemma_tokens_single(s);
}

/// Two texts without whitespace, one after the other, hold no whitespace.
pub proof fn lemma_solid_concat(a: Seq<char>, b: Seq<char>)
    requires
        is_solid(a),
        is_solid(b),
    ensures
        is_solid(a + b),
{
    let ab = a + b;
    assert forall|i: int| 0 <= i < ab.len() implies !is_whitespace(#[trigger] ab[i]) by {
        if i < a.len() {
            assert(ab[i] == a[i]);
        } else {
            assert(ab[i] == b[i - a.len()]);
        }
    }
}

/// Two normalized texts with a token between them, single spaces around it.
pub proof fn lemma_spaced_infix(a: Seq<char>, symbol: Seq<char>, b: Seq<char>)
    requires
        is_normalized(a),
        is_normalized(b),
        a.len() > 0,
        b.len() > 0,
        is_token(symbol),
    ensures
        is_normalized(a + " "@ + symbol + " "@ + b),
        tokens_of(a + " "@ + symbol + " "@ + b) == tokens_of(a) + seq![symbol] + tokens_of(b),
        (a + " "@ + symbol + " "@ + b)[0] == a[0],
        (a + " "@ + symbol + " "@ + b).len() > 0,
{
    reveal_text_literals();
    let space = seq![' '];
    lemma_normalized_spaced(a, symbol);
    lemma_normalized_spaced(a + space + symbol, b);
    lemma_tokens_single(symbol);
    assert((a + " "@ + symbol + " "@ + b)[0] == a[0]);
}

/// The text of a canonical expression is normalized and not empty, and it
/// begins with `!` only where the expression begins with a negation. Where
/// the expression can stand as an argument, its text holds no comma and its
/// parentheses balance. Where the expression is written without a space,
/// its text holds none.
pub proof fn lemma_expression_text(e: ExpressionModel)
    requires
        is_canonical_expression(e),
    ensures
        expression_text(e).len() > 0,
        is_normalized(expression_text(e)),
        (expression_text(e)[0] == '!') == begins_with_not(e),
        is_argument(e) ==> is_balanced(expression_text(e)) && !expression_text(e).contains(','),
        is_dense(e) ==> is_solid(expression_text(e)),
    decreases e, 1nat,
{
    reveal_text_literals();
    match e {
        ExpressionModel::Variable(name) => {
            lemma_operand_facts(name);
            if is_argument(e) {
                lemma_plain_facts(name);
            }
        },
        ExpressionModel::Literal(value) => {
            lemma_operand_facts(value);
            if is_argument(e) {
                lemma_plain_facts(value);
            }
        },
        ExpressionModel::BinaryOp { left, operator, right } => {
            lemma_expression_text(*left);
            lemma_expression_text(*right);
            lemma_symbol_is_token(operator);
            let a = expression_text(*left);
            let b = expression_text(*right);
            let symbol = arithmetic_symbol(operator);
            lemma_spaced_infix(a, symbol, b);
            if is_argument(e) {
                lemma_tidy_infix(a, symbol, b);
                assert(!" "@.contains(',')) by {
                    if " "@.contains(',') {
                        let i = choose|i: int| 0 <= i < " "@.len() && " "@[i] == ',';
                    }
                }
                lemma_no_comma_concat(a, " "@);
                lemma_no_comma_concat(a + " "@, symbol);
                lemma_no_comma_concat(a + " "@ + symbol, " "@);
                lemma_no_comma_concat(a + " "@ + symbol + " "@, b);
            }
        },
        ExpressionModel::FunctionCall { name, args } => {
            lemma_arguments_text(args);
            lemma_call_text(name, args);
            if is_argument(e) {
                lemma_plain_facts(name);
            }
        },
        ExpressionModel::Not(inner) => {
            lemma_expression_text(*inner);
            let t = expression_text(*inner);
            let bang = seq!['!'];
            lemma_balanced_plain(bang);
            assert(!bang.contains(',')) by {
                if bang.contains(',') {
                    let i = choose|i: int| 0 <= i < bang.len() && bang[i] == ',';
                }
            }
            if is_dense(*inner) {
                assert(expression_text(e) == "!"@ + t);
                assert("!"@ + t =~= bang + t + Seq::<char>::empty());
                lemma_normalized_wrapped(bang, t, Seq::empty());
                lemma_solid_concat(bang, t);
                if is_argument(e) {
                    lemma_balanced_concat(bang, t);
                    lemma_no_comma_concat(bang, t);
                }
            } else {
                assert(expression_text(e) == "! "@ + t);
                assert("! "@ + t =~= bang + seq![' '] + t);
                lemma_normalized_spaced(bang, t);
                if is_argument(e) {
                    lemma_balanced_plain(seq![' ']);
                    lemma_balanced_concat(bang, seq![' ']);
                    lemma_balanced_concat(bang + seq![' '], t);
                    assert(!"! "@.contains(',')) by {
                        if "! "@.contains(',') {
                            let i = choose|i: int| 0 <= i < "! "@.len() && "! "@[i] == ',';
                        }
                    }
                    lemma_no_comma_concat("! "@, t);
                }
            }
        },
    }
}

/// What follows from a text being fit to stand before the `(` of a call.
pub proof fn lemma_call_name_facts(s: Seq<char>)
    requires
        is_call_name(s),
    ensures
        has_no_paren(s),
        is_solid(s),
{
}

/// The text of a call with canonical arguments.
pub proof fn lemma_call_text(name: Seq<char>, args: Seq<ExpressionModel>)
    requires
        is_call_name(name),
        is_normalized(arguments_text(args)),
        is_balanced(arguments_text(args)),
        args.len() <= 1 ==> !arguments_text(args).contains(','),
    ensures
        is_tidy(name + "("@ + arguments_text(args) + ")"@),
        args.len() <= 1 && !name.contains(',') ==> !(name + "("@ + arguments_text(args)
            + ")"@).contains(','),
        (name.len() > 0 ==> name[0] != '!') ==> (name + "("@ + arguments_text(args) + ")"@)[0]
            != '!',
        is_solid(arguments_text(args)) ==> is_solid(name + "("@ + arguments_text(args) + ")"@),
{
    reveal_text_literals();
    let inner = arguments_text(args);
    let text = name + "("@ + inner + ")"@;
    let front = name + seq!['('];
    lemma_call_name_facts(name);
    assert(text =~= front + inner + seq![')']);
    if is_solid(inner) {
        lemma_solid_concat(name, seq!['(']);
        lemma_solid_concat(front, inner);
        lemma_solid_concat(front + inner, seq![')']);
    }
    assert(is_solid(front)) by {
        assert forall|i: int| 0 <= i < front.len() implies !is_whitespace(#[trigger] front[i]) by {
            if i < name.len() {
                assert(front[i] == name[i]);
            }
        }
    }
    lemma_normalized_wrapped(front, inner, seq![')']);
    lemma_balanced_call(name, inner);
    if name.len() > 0 {
        assert(text[0] == name[0]);
    } else {
        assert(text[0] == '(');
    }
    if args.len() <= 1 && !name.contains(',') {
        assert(!seq!['('].contains(',')) by {
            if seq!['('].contains(',') {
                let i = choose|i: int| 0 <= i < seq!['('].len() && seq!['('][i] == ',';
            }
        }
        assert(!seq![')'].contains(',')) by {
            if seq![')'].contains(',') {
                let i = choose|i: int| 0 <= i < seq![')'].len() && seq![')'][i] == ',';
            }
        }
        lemma_no_comma_concat(name, seq!['(']);
        lemma_no_comma_concat(front, inner);
        lemma_no_comma_concat(front + inner, seq![')']);
    }
}

/// The text of canonical arguments is normalized and balanced, and holds a
/// comma only between two arguments.
pub proof fn lemma_arguments_text(args: Seq<ExpressionModel>)
    requires
        forall|i: int|
            0 <= i < args.len() ==> is_canonical_expression(#[trigger] args[i]) && is_argument(
                args[i],
            ),
    ensures
        is_normalized(arguments_text(args)),
        is_balanced(arguments_text(args)),
        args.len() > 0 ==> arguments_text(args).len() > 0,
        args.len() <= 1 ==> !arguments_text(args).contains(','),
        args.len() <= 1 && (forall|i: int| 0 <= i < args.len() ==> is_dense(#[trigger] args[i]))
            ==> is_solid(arguments_text(args)),
    decreases args, 0nat,
{
    reveal_text_literals();
    if args.len() == 0 {
        lemma_balanced_plain(Seq::<char>::empty());
        assert(arguments_text(args) =~= Seq::<char>::empty());
    } else if args.len() == 1 {
        lemma_expression_text(args[0]);
    } else {
        let front = args.drop_last();
        assert forall|i: int| 0 <= i < front.len() implies is_canonical_expression(
            #[trigger] front[i],
        ) && is_argument(front[i]) by {
            assert(front[i] == args[i]);
        }
        lemma_arguments_text(front);
        lemma_expression_text(args.last());
        let a = arguments_text(front);
        let b = expression_text(args.last());
        let comma = seq![','];
        assert(arguments_text(args) =~= (a + comma) + seq![' '] + b);
        assert(a + comma =~= Seq::<char>::empty() + a + comma);
        lemma_normalized_wrapped(Seq::empty(), a, comma);
        lemma_normalized_spaced(a + comma, b);
        lemma_balanced_plain(comma);
        lemma_balanced_plain(seq![' ']);
        lemma_balanced_concat(a, comma);
        lemma_balanced_concat(a + comma, seq![' ']);
        lemma_balanced_concat(a + comma + seq![' '], b);
    }
}

/// The parentheses open after the first `m` tokens.
pub open spec fn depth_after(ts: Seq<Seq<char>>, m: nat) -> int
    decreases m,
{
    if m == 0 {
        0
    } else {
        depth_after(ts, (m - 1) as nat) + paren_depth(ts[m - 1])
    }
}

/// A call ends at the first token behind which no parenthesis is open.
pub proof fn lemma_call_end_scan(all: Seq<Seq<char>>, k: nat, n: nat)
    requires
        k < n <= all.len(),
        forall|m: nat| k < m < n ==> depth_after(all, m) != 0,
        depth_after(all, n) == 0,
    ensures
        call_end(all, k, depth_after(all, k)) == Some(n),
    decreases n - k,
{
    let now = depth_after(all, k) + paren_depth(all[k as int]);
    assert(now == depth_after(all, k + 1));
    if k + 1 < n {
        lemma_call_end_scan(all, k + 1, n);
    }
}

/// The parentheses open after the first tokens do not depend on what follows
/// them.
pub proof fn lemma_depth_after_prefix(ts: Seq<Seq<char>>, rest: Seq<Seq<char>>, m: nat)
    requires
        m <= ts.len(),
    ensures
        depth_after(ts + rest, m) == depth_after(ts, m),
    decreases m,
{
    if m > 0 {
        lemma_depth_after_prefix(ts, rest, (m - 1) as nat);
        assert((ts + rest)[m - 1] == ts[m - 1]);
    }
}

/// The parentheses open after the first `m` tokens are those open in the
/// text that the tokens make when joined.
pub proof fn lemma_depth_after_join(ts: Seq<Seq<char>>, m: nat)
    requires
        1 <= m <= ts.len(),
    ensures
        depth_after(ts, m) == paren_depth(join_tokens(ts.take(m as int))),
    decreases m,
{
    let head = ts.take(m as int);
    if m == 1 {
        assert(depth_after(ts, 0) == 0);
        assert(head[0] == ts[0]);
    } else {
        lemma_depth_after_join(ts, (m - 1) as nat);
        assert(head.drop_last() =~= ts.take(m - 1));
        assert(head.last() == ts[m - 1]);
        let front = join_tokens(ts.take(m - 1));
        lemma_depth_concat(front, seq![' ']);
        lemma_depth_concat(front + seq![' '], ts[m - 1]);
        lemma_balanced_plain(seq![' ']);
    }
}

/// The first `m` tokens of a text, joined, are the text up to some point
/// before its end and not before the end of its first token.
pub proof fn lemma_join_is_prefix(ts: Seq<Seq<char>>, m: nat)
    requires
        1 <= m < ts.len(),
    ensures
        join_tokens(ts.take(m as int)) == join_tokens(ts).take(
            join_tokens(ts.take(m as int)).len() as int,
        ),
        ts[0].len() <= join_tokens(ts.take(m as int)).len() < join_tokens(ts).len(),
{
    let head = ts.take(m as int);
    let tail = ts.skip(m as int);
    assert(ts =~= head + tail);
    lemma_join_concat(head, tail);
    let a = join_tokens(head);
    assert((a + seq![' '] + join_tokens(tail)).take(a.len() as int) =~= a);
    if m == 1 {
        assert(head[0] == ts[0]);
    } else {
        let first = ts.take(1);
        let more = ts.subrange(1, m as int);
        assert(head =~= first + more);
        lemma_join_concat(first, more);
        assert(first[0] == ts[0]);
    }
}

/// The tokens of a call text, with anything behind them, are delimited as
/// the call they were written for.
pub proof fn lemma_call_parts_round_trip(name: Seq<char>, inner: Seq<char>, rest: Seq<Seq<char>>)
    requires
        is_call_name(name),
        is_normalized(inner),
        is_balanced(inner),
    ensures
        tokens_of(name + "("@ + inner + ")"@).len() >= 1,
        tokens_of(name + "("@ + inner + ")"@)[0].contains('('),
        (name.len() > 0 ==> name[0] != '!') ==> !starts_with_bang(
            tokens_of(name + "("@ + inner + ")"@)[0],
        ),
        call_parts(tokens_of(name + "("@ + inner + ")"@) + rest) == Some(
            CallParts {
                name,
                arguments: inner,
                tokens: tokens_of(name + "("@ + inner + ")"@).len(),
            },
        ),
{
    reveal_text_literals();
    let text = name + "("@ + inner + ")"@;
    let front = name + seq!['('];
    assert(text =~= front + inner + seq![')']);
    assert(text =~= name + seq!['('] + inner + seq![')']);
    lemma_call_name_facts(name);
    assert(is_solid(front)) by {
        assert forall|i: int| 0 <= i < front.len() implies !is_whitespace(#[trigger] front[i]) by {
            if i < name.len() {
                assert(front[i] == name[i]);
            }
        }
    }
    lemma_normalized_wrapped(front, inner, seq![')']);
    lemma_normalized_join(text);
    lemma_balanced_call(name, inner);
    let ts = tokens_of(text);
    let n = ts.len();
    let all = ts + rest;
    // the first token reaches beyond the opening parenthesis
    lemma_word_len(text);
    let w = word_len(text) as int;
    assert(forall|i: int| 0 <= i <= name.len() ==> text[i] == front[i]);
    assert(!is_whitespace(text[0]));
    if w <= name.len() {
        assert(text[w] == front[w]);
        assert(false);
    }
    assert(ts[0] == text.take(w));
    assert(ts[0][name.len() as int] == '(');
    assert(ts[0][0] == text[0]);
    if name.len() > 0 {
        assert(text[0] == name[0]);
    }
    // no parenthesis count returns to zero before the last token
    assert forall|m: nat| 0 < m < n implies depth_after(all, m) != 0 by {
        lemma_depth_after_prefix(ts, rest, m);
        lemma_depth_after_join(ts, m);
        lemma_join_is_prefix(ts, m);
        let reach = join_tokens(ts.take(m as int)).len() as int;
        assert(name.len() < reach < text.len());
        assert(paren_depth(text.take(reach)) >= 1);
    }
    lemma_depth_after_prefix(ts, rest, n);
    lemma_depth_after_join(ts, n);
    assert(ts.take(n as int) =~= ts);
    assert(depth_after(all, 0) == 0);
    lemma_call_end_scan(all, 0, n);
    assert(all.take(n as int) =~= ts);
    // the name ends at the first `(`, the arguments at the last `)`
    assert forall|i: int| 0 <= i < name.len() implies #[trigger] text[i] != '(' by {
        assert(text[i] == name[i]);
    }
    lemma_first_index_at(text, '(', name.len() as int);
    assert(text.last() == ')');
    lemma_last_index_at(text, ')', text.len() as int);
    assert(text.take(name.len() as int) =~= name);
    assert(text.subrange(name.len() as int + 1, text.len() as int - 1) =~= inner);
}

/// Arguments are written one after the other: the first, then a comma and a
/// space, then the others.
pub proof fn lemma_arguments_text_front(args: Seq<ExpressionModel>)
    requires
        args.len() >= 2,
    ensures
        arguments_text(args) == expression_text(args[0]) + ", "@ + arguments_text(
            args.drop_first(),
        ),
    decreases args.len(),
{
    let front = args.drop_last();
    let others = args.drop_first();
    if args.len() == 2 {
        assert(front[0] == args[0]);
        assert(others[0] == args.last());
        assert(arguments_text(front) == expression_text(args[0]));
        assert(arguments_text(others) == expression_text(args.last()));
    } else {
        lemma_arguments_text_front(front);
        assert(front[0] == args[0]);
        assert(others.drop_last() =~= front.drop_first());
        assert(others.last() == args.last());
        assert(arguments_text(args) =~= expression_text(args[0]) + ", "@ + arguments_text(others));
    }
}

/// What follows an expression does not go on with it: no arithmetic
/// operator with a token behind it.
pub open spec fn ends_expression(rest: Seq<Seq<char>>) -> bool {
    !(rest.len() >= 2 && arithmetic_of(rest[0]) is Some)
}

/// The text of canonical arguments, with blanks before it, is read back as
/// those arguments.
pub proof fn lemma_arguments_round_trip(args: Seq<ExpressionModel>, pad: Seq<char>)
    requires
        forall|i: int|
            0 <= i < args.len() ==> is_canonical_expression(#[trigger] args[i]) && is_argument(
                args[i],
            ),
        is_blank(pad),
    ensures
        parse_arguments(pad + arguments_text(args)) == Ok::<Seq<ExpressionModel>, ParseErrorModel>(
            args,
        ),
    decreases args, 0nat,
{
    reveal_text_literals();
    let text = pad + arguments_text(args);
    assert forall|i: int| 0 <= i < pad.len() implies #[trigger] pad[i] != ',' by {
        assert(is_whitespace(pad[i]));
    }
    if args.len() == 0 {
        assert(text =~= pad);
        lemma_first_index_at(text, ',', text.len() as int);
        assert(text.take(text.len() as int) =~= text);
        crate::text_lemmas::lemma_tokens_blank(text);
        assert(args =~= Seq::<ExpressionModel>::empty());
    } else {
        let first = args[0];
        let t = expression_text(first);
        lemma_expression_text(first);
        let cut = (pad.len() + t.len()) as int;
        let others = args.drop_first();
        if args.len() == 1 {
            assert(arguments_text(args) == t);
        } else {
            lemma_arguments_text_front(args);
            assert(text =~= pad + t + seq![','] + (seq![' '] + arguments_text(others)));
        }
        assert forall|i: int| 0 <= i < cut implies #[trigger] text[i] != ',' by {
            if i >= pad.len() {
                assert(text[i] == t[i - pad.len()]);
                assert(t.contains(t[i - pad.len()]));
            } else {
                assert(text[i] == pad[i]);
            }
        }
        lemma_first_index_at(text, ',', cut);
        assert(text.take(cut) =~= pad + t + Seq::<char>::empty());
        lemma_tokens_padded(pad, t, Seq::empty());
        lemma_normalized_join(t);
        lemma_expression_round_trip(first, Seq::empty());
        assert(tokens_of(t) + Seq::<Seq<char>>::empty() =~= tokens_of(t));
        if args.len() == 1 {
            assert(seq![first] =~= args);
        } else {
            assert(text.skip(cut + 1) =~= seq![' '] + arguments_text(others));
            assert forall|i: int| 0 <= i < others.len() implies is_canonical_expression(
                #[trigger] others[i],
            ) && is_argument(others[i]) by {
                assert(others[i] == args[i + 1]);
            }
            lemma_arguments_round_trip(others, seq![' ']);
            assert(seq![first] + others =~= args);
        }
    }
}

/// The text of a canonical primary expression, with anything behind it, is
/// read as that expression and goes on as the grammar says.
pub proof fn lemma_primary_round_trip(e: ExpressionModel, rest: Seq<Seq<char>>)
    requires
        is_canonical_expression(e),
        is_primary(e),
    ensures
        parse_expression(tokens_of(expression_text(e)) + rest) == continue_binary(e, rest),
    decreases e, 1nat,
{
    reveal_text_literals();
    let text = expression_text(e);
    let ts = tokens_of(text) + rest;
    match e {
        ExpressionModel::Variable(name) => {
            lemma_operand_facts(name);
            assert(ts[0] == name);
            assert(ts.skip(1) =~= rest);
        },
        ExpressionModel::Literal(value) => {
            lemma_operand_facts(value);
            assert(ts[0] == value);
            assert(ts.skip(1) =~= rest);
        },
        ExpressionModel::FunctionCall { name, args } => {
            lemma_arguments_text(args);
            let inner = arguments_text(args);
            lemma_call_parts_round_trip(name, inner, rest);
            lemma_arguments_round_trip(args, Seq::empty());
            assert(Seq::<char>::empty() + inner =~= inner);
            let n = tokens_of(text).len() as int;
            assert(ts[0] == tokens_of(text)[0]);
            assert(ts.skip(n) =~= rest);
        },
        ExpressionModel::Not(inner) => {
            assert(is_canonical_expression(*inner));
            let s = expression_text(*inner);
            lemma_expression_text(*inner);
            assert(is_token(s));
            let w = "!"@ + s;
            assert(w =~= seq!['!'] + s);
            assert(is_token(w)) by {
                assert forall|i: int| 0 <= i < w.len() implies !is_whitespace(#[trigger] w[i]) by {
                    if i > 0 {
                        assert(w[i] == s[i - 1]);
                    }
                }
            }
            lemma_tokens_single(w);
            assert(ts[0] == w);
            assert(ts.skip(1) =~= rest);
            assert(w.drop_first() =~= s);
            lemma_expression_round_trip(*inner, Seq::empty());
            lemma_tokens_single(s);
            assert(seq![s] + Seq::<Seq<char>>::empty() =~= seq![s]);
        },
        ExpressionModel::BinaryOp { .. } => {},
    }
}

/// What stands behind the left operand of a binary operation: the symbol,
/// the tokens of the right operand, and what follows.
pub open spec fn behind_left(
    operator: ArithmeticOperator,
    right: ExpressionModel,
    rest: Seq<Seq<char>>,
) -> Seq<Seq<char>> {
    seq![arithmetic_symbol(operator)] + tokens_of(expression_text(right)) + rest
}

/// A binary operation is read back where its operands are.
pub proof fn lemma_binary_round_trip(
    left: ExpressionModel,
    operator: ArithmeticOperator,
    right: ExpressionModel,
    rest: Seq<Seq<char>>,
)
    requires
        is_canonical_expression(left),
        is_canonical_expression(right),
        parse_expression(
            tokens_of(expression_text(left)) + behind_left(operator, right, rest),
        ) == continue_binary(left, behind_left(operator, right, rest)),
        parse_expression(tokens_of(expression_text(right)) + rest) == Ok::<
            (ExpressionModel, Seq<Seq<char>>),
            ParseErrorModel,
        >((right, rest)),
    ensures
        parse_expression(
            tokens_of(
                expression_text(
                    ExpressionModel::BinaryOp {
                        left: Box::new(left),
                        operator,
                        right: Box::new(right),
                    },
                ),
            ) + rest,
        ) == Ok::<(ExpressionModel, Seq<Seq<char>>), ParseErrorModel>(
            (
                ExpressionModel::BinaryOp {
                    left: Box::new(left),
                    operator,
                    right: Box::new(right),
                },
                rest,
            ),
        ),
{
    reveal_text_literals();
    let e = ExpressionModel::BinaryOp { left: Box::new(left), operator, right: Box::new(right) };
    let a = expression_text(left);
    let b = expression_text(right);
    let symbol = arithmetic_symbol(operator);
    lemma_expression_text(left);
    lemma_expression_text(right);
    lemma_symbol_is_token(operator);
    lemma_spaced_infix(a, symbol, b);
    lemma_arithmetic_symbol(operator);
    lemma_normalized_join(b);
    let behind = behind_left(operator, right, rest);
    assert(tokens_of(expression_text(e)) + rest =~= tokens_of(a) + behind);
    assert(behind[0] == symbol);
    assert(behind.skip(1) =~= tokens_of(b) + rest);
}

/// A negation that is written apart from what it negates is read back
/// where what it negates is.
pub proof fn lemma_apart_round_trip(inner: ExpressionModel, rest: Seq<Seq<char>>)
    requires
        is_canonical_expression(inner),
        !is_dense(inner),
        parse_expression(tokens_of(expression_text(inner)) + rest) == Ok::<
            (ExpressionModel, Seq<Seq<char>>),
            ParseErrorModel,
        >((inner, rest)),
    ensures
        parse_expression(
            tokens_of(expression_text(ExpressionModel::Not(Box::new(inner)))) + rest,
        ) == Ok::<(ExpressionModel, Seq<Seq<char>>), ParseErrorModel>(
            (ExpressionModel::Not(Box::new(inner)), rest),
        ),
{
    reveal_text_literals();
    let e = ExpressionModel::Not(Box::new(inner));
    let t = expression_text(inner);
    lemma_expression_text(inner);
    let bang = seq!['!'];
    assert(expression_text(e) =~= bang + seq![' '] + t);
    assert(is_token(bang));
    lemma_normalized_spaced(bang, t);
    lemma_tokens_single(bang);
    lemma_normalized_join(t);
    let ts = tokens_of(expression_text(e)) + rest;
    assert(ts =~= seq![bang] + (tokens_of(t) + rest));
    assert(ts[0] == bang);
    assert(ts.skip(1) =~= tokens_of(t) + rest);
    assert(bang.drop_first() =~= Seq::<char>::empty());
}

/// The text of a canonical expression, followed by tokens that do not go on
/// with it, is read back as that expression, and those tokens are left.
pub proof fn lemma_expression_round_trip(e: ExpressionModel, rest: Seq<Seq<char>>)
    requires
        is_canonical_expression(e),
        ends_expression(rest),
    ensures
        parse_expression(tokens_of(expression_text(e)) + rest) == Ok::<
            (ExpressionModel, Seq<Seq<char>>),
            ParseErrorModel,
        >((e, rest)),
    decreases e, 2nat,
{
    match e {
        ExpressionModel::BinaryOp { left, operator, right } => {
            lemma_primary_round_trip(*left, behind_left(operator, *right, rest));
            lemma_expression_round_trip(*right, rest);
            lemma_binary_round_trip(*left, operator, *right, rest);
        },
        ExpressionModel::Not(inner) => {
            if is_dense(*inner) {
                lemma_primary_round_trip(e, rest);
            } else {
                lemma_expression_round_trip(*inner, rest);
                lemma_apart_round_trip(*inner, rest);
            }
        },
        _ => {
            lemma_primary_round_trip(e, rest);
        },
    }
}

} // verus!
