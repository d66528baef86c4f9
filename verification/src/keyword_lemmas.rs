//! What the keywords and marks of the language hold, and how a token that
//! spells one differs from the tokens of other kinds.

use crate::node::{function_call_matches, is_comment_mark, is_terminator, loop_matches};
use crate::operator::{arithmetic_of, comparison_of, logical_of, reveal_operator_literals};
use crate::text::{is_keyword, is_token, same_letter};
use vstd::prelude::*;

verus! {

/// A token that spells an operator of any kind.
pub open spec fn is_operator(t: Seq<char>) -> bool {
    arithmetic_of(t) is Some || comparison_of(t) is Some || logical_of(t) is Some
}

/// Every character is a lower-case ASCII letter.
pub open spec fn is_lower_word(s: Seq<char>) -> bool {
    s.len() > 0 && forall|i: int| 0 <= i < s.len() ==> 0x61 <= (#[trigger] s[i]) as u32 <= 0x7A
}

/// The keywords, character by character.
pub proof fn reveal_keywords()
    ensures
        "start"@ =~= seq!['s', 't', 'a', 'r', 't'],
        "if"@ =~= seq!['i', 'f'],
        "elseif"@ =~= seq!['e', 'l', 's', 'e', 'i', 'f'],
        "else"@ =~= seq!['e', 'l', 's', 'e'],
        "end"@ =~= seq!['e', 'n', 'd'],
        "assign"@ =~= seq!['a', 's', 's', 'i', 'g', 'n'],
        "return"@ =~= seq!['r', 'e', 't', 'u', 'r', 'n'],
        "for"@ =~= seq!['f', 'o', 'r'],
        "while"@ =~= seq!['w', 'h', 'i', 'l', 'e'],
        "in"@ =~= seq!['i', 'n'],
        "function"@ =~= seq!['f', 'u', 'n', 'c', 't', 'i', 'o', 'n'],
        "--"@ =~= seq!['-', '-'],
        "//"@ =~= seq!['/', '/'],
        "="@ =~= seq!['='],
{
    reveal_strlit("start");
    reveal_strlit("if");
    reveal_strlit("elseif");
    reveal_strlit("else");
    reveal_strlit("end");
    reveal_strlit("assign");
    reveal_strlit("return");
    reveal_strlit("for");
    reveal_strlit("while");
    reveal_strlit("in");
    reveal_strlit("function");
    reveal_strlit("--");
    reveal_strlit("//");
    reveal_strlit("=");
}

/// The keywords are made of lower-case letters.
pub proof fn lemma_keywords_are_words()
    ensures
        is_lower_word("start"@),
        is_lower_word("if"@),
        is_lower_word("elseif"@),
        is_lower_word("else"@),
        is_lower_word("end"@),
        is_lower_word("assign"@),
        is_lower_word("return"@),
        is_lower_word("for"@),
        is_lower_word("while"@),
        is_lower_word("in"@),
        is_lower_word("function"@),
{
    reveal_keywords();
}

/// A token that spells a keyword is made of letters: it is a token, holds no
/// parenthesis, is no operator and no comment mark, and does not begin with
/// `!`.
pub proof fn lemma_keyword_token(t: Seq<char>, keyword: Seq<char>)
    requires
        is_lower_word(keyword),
        is_keyword(t, keyword),
    ensures
        is_token(t),
        !t.contains('('),
        !is_operator(t),
        !is_comment_mark(t),
        t[0] != '!',
{
    reveal_operator_literals();
    reveal_keywords();
    assert forall|i: int| 0 <= i < t.len() implies 0x41 <= (#[trigger] t[i]) as u32 <= 0x7A by {
        assert(same_letter(t[i], keyword[i]));
        assert(0x61 <= keyword[i] as u32 <= 0x7A);
    }
    assert(0x41 <= t[0] as u32 <= 0x7A);
    if t.contains('(') {
        let i = choose|i: int| 0 <= i < t.len() && t[i] == '(';
        assert(0x41 <= t[i] as u32);
    }
}

/// A keyword spells itself.
pub proof fn lemma_keyword_self(keyword: Seq<char>)
    ensures
        is_keyword(keyword, keyword),
{
}

/// Which of the keywords each keyword spells, written as the formatter
/// writes them: itself and no other.
pub proof fn lemma_keywords_differ()
    ensures
        !loop_matches("if"@) && !loop_matches("elseif"@) && !loop_matches("else"@) && !loop_matches(
            "end"@,
        ) && !loop_matches("assign"@) && !loop_matches("return"@) && !loop_matches("//"@)
            && !loop_matches("start"@),
        loop_matches("for"@) && loop_matches("while"@),
        !is_keyword("while"@, "for"@),
        !is_keyword("elseif"@, "if"@) && !is_keyword("else"@, "if"@) && !is_keyword("end"@, "if"@)
            && !is_keyword("assign"@, "if"@) && !is_keyword("return"@, "if"@) && !is_keyword(
            "//"@,
            "if"@,
        ),
        !is_keyword("else"@, "elseif"@) && !is_keyword("end"@, "elseif"@) && !is_keyword(
            "assign"@,
            "elseif"@,
        ) && !is_keyword("return"@, "elseif"@) && !is_keyword("//"@, "elseif"@) && !is_keyword(
            "if"@,
            "elseif"@,
        ),
        !is_keyword("end"@, "else"@) && !is_keyword("assign"@, "else"@) && !is_keyword(
            "return"@,
            "else"@,
        ) && !is_keyword("//"@, "else"@) && !is_keyword("if"@, "else"@) && !is_keyword(
            "elseif"@,
            "else"@,
        ),
        !is_keyword("assign"@, "end"@) && !is_keyword("return"@, "end"@) && !is_keyword(
            "//"@,
            "end"@,
        ) && !is_keyword("if"@, "end"@) && !is_keyword("for"@, "end"@) && !is_keyword(
            "while"@,
            "end"@,
        ) && !is_keyword("else"@, "end"@) && !is_keyword("elseif"@, "end"@),
        !is_keyword("return"@, "assign"@) && !is_keyword("//"@, "assign"@),
        !is_keyword("return"@, "function"@) && !is_keyword("//"@, "function"@),
        !is_keyword("//"@, "return"@),
        !is_keyword("if"@, "start"@) && !is_keyword("elseif"@, "start"@) && !is_keyword(
            "else"@,
            "start"@,
        ) && !is_keyword("end"@, "start"@) && !is_keyword("assign"@, "start"@) && !is_keyword(
            "return"@,
            "start"@,
        ) && !is_keyword("for"@, "start"@) && !is_keyword("while"@, "start"@) && !is_keyword(
            "//"@,
            "start"@,
        ),
        is_terminator("end"@) && is_terminator("else"@) && is_terminator("elseif"@),
        !is_terminator("if"@) && !is_terminator("for"@) && !is_terminator("while"@)
            && !is_terminator("assign"@) && !is_terminator("return"@) && !is_terminator("//"@),
        is_comment_mark("//"@),
        !function_call_matches("//"@) && !function_call_matches("return"@),
        !is_operator("//"@),
        is_token("//"@) && is_token("="@),
        !is_comment_mark("="@),
{
    reveal_keywords();
    reveal_operator_literals();
    assert(!same_letter('w', 'f'));
    assert(!same_letter('e', 'f'));
    assert(!same_letter('/', 'i'));
    assert(!same_letter('/', 'e'));
    assert(!same_letter('/', 'f'));
    assert(!same_letter('i', 'e'));
    assert(!same_letter('a', 'e'));
    assert(!same_letter('r', 'e'));
    assert(!same_letter('f', 'e'));
    assert(!same_letter('r', 'a'));
    assert(!same_letter('w', 's'));
    assert(!same_letter('n', 'f'));
    assert(!same_letter('n', 'l'));
    assert("while"@[0] == 'w' && "for"@[0] == 'f');
    assert("//"@[0] == '/' && "if"@[0] == 'i' && "if"@[1] == 'f');
    assert("end"@[0] == 'e' && "for"@[0] == 'f' && "end"@[1] == 'n' && "for"@[1] == 'o');
    assert("start"@[0] == 's' && "while"@[0] == 'w');
    assert("elseif"@[0] == 'e' && "assign"@[0] == 'a' && "return"@[0] == 'r');
    assert("in"@[1] == 'n');
    assert(!"//"@.contains('(')) by {
        if "//"@.contains('(') {
            let i = choose|i: int| 0 <= i < "//"@.len() && "//"@[i] == '(';
            assert(i == 0 || i == 1);
        }
    }
    assert(!"return"@.contains('(')) by {
        lemma_keywords_are_words();
        lemma_keyword_token("return"@, "return"@);
    }
}

/// A token that holds `(` spells no keyword, no operator and no comment
/// mark.
pub proof fn lemma_call_token(t: Seq<char>)
    requires
        t.contains('('),
    ensures
        !loop_matches(t),
        !is_keyword(t, "if"@),
        !is_keyword(t, "elseif"@),
        !is_keyword(t, "else"@),
        !is_keyword(t, "end"@),
        !is_keyword(t, "assign"@),
        !is_keyword(t, "start"@),
        !is_terminator(t),
        !is_operator(t),
        function_call_matches(t),
{
    lemma_keywords_are_words();
    if is_keyword(t, "for"@) {
        lemma_keyword_token(t, "for"@);
    }
    if is_keyword(t, "while"@) {
        lemma_keyword_token(t, "while"@);
    }
    if is_keyword(t, "if"@) {
        lemma_keyword_token(t, "if"@);
    }
    if is_keyword(t, "elseif"@) {
        lemma_keyword_token(t, "elseif"@);
    }
    if is_keyword(t, "else"@) {
        lemma_keyword_token(t, "else"@);
    }
    if is_keyword(t, "end"@) {
        lemma_keyword_token(t, "end"@);
    }
    if is_keyword(t, "assign"@) {
        lemma_keyword_token(t, "assign"@);
    }
    if is_keyword(t, "start"@) {
        lemma_keyword_token(t, "start"@);
    }
    reveal_operator_literals();
    let i = choose|i: int| 0 <= i < t.len() && t[i] == '(';
    if is_operator(t) {
        assert(t.len() <= 2);
        assert(i == 0 || i == 1);
    }
}

/// A terminator is no operator and does not spell `start`.
pub proof fn lemma_terminator_token(t: Seq<char>)
    requires
        is_terminator(t),
    ensures
        !is_operator(t),
        !is_keyword(t, "start"@),
{
    lemma_keywords_are_words();
    reveal_keywords();
    if is_keyword(t, "end"@) {
        lemma_keyword_token(t, "end"@);
    }
    if is_keyword(t, "else"@) {
        lemma_keyword_token(t, "else"@);
    }
    if is_keyword(t, "elseif"@) {
        lemma_keyword_token(t, "elseif"@);
    }
}

} // verus!
