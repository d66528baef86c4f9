//! Characters, tokens and the small string operations the grammar is built on.
//!
//! Text is modelled as `Seq<char>` and a token list as `Seq<Seq<char>>`. Every
//! executable function here states its result over those models.

use vstd::prelude::*;
use vstd::slice::*;
use vstd::string::*;

verus! {

/// The code points with the Unicode `White_Space` property.
pub open spec fn is_whitespace(c: char) -> bool {
    let n = c as u32;
    ||| 0x09 <= n <= 0x0D
    ||| n == 0x20
    ||| n == 0x85
    ||| n == 0xA0
    ||| n == 0x1680
    ||| 0x2000 <= n <= 0x200A
    ||| n == 0x2028
    ||| n == 0x2029
    ||| n == 0x202F
    ||| n == 0x205F
    ||| n == 0x3000
}

/// A token is a non-empty run of characters, none of them whitespace.
pub open spec fn is_token(t: Seq<char>) -> bool {
    &&& t.len() > 0
    &&& forall|i: int| 0 <= i < t.len() ==> !is_whitespace(#[trigger] t[i])
}

/// Every element of `ts` is a token.
pub open spec fn all_tokens(ts: Seq<Seq<char>>) -> bool {
    forall|i: int| 0 <= i < ts.len() ==> is_token(#[trigger] ts[i])
}

/// Length of the longest prefix of `s` that holds no whitespace.
pub open spec fn word_len(s: Seq<char>) -> nat
    decreases s.len(),
{
    if s.len() == 0 || is_whitespace(s[0]) {
        0
    } else {
        1 + word_len(s.drop_first())
    }
}

/// The whitespace-delimited tokens of `s`, in order.
pub open spec fn tokens_of(s: Seq<char>) -> Seq<Seq<char>>
    decreases s.len(),
{
    if s.len() == 0 {
        Seq::empty()
    } else if is_whitespace(s[0]) {
        tokens_of(s.drop_first())
    } else {
        let n = word_len(s);
        if 1 <= n <= s.len() {
            seq![s.take(n as int)] + tokens_of(s.skip(n as int))
        } else {
            Seq::empty()
        }
    }
}

/// The characters of a token list plus one per token: the measure that
/// shrinks whenever a parser descends into a part of its input.
pub open spec fn token_size(ts: Seq<Seq<char>>) -> nat
    decreases ts.len(),
{
    if ts.len() == 0 {
        0
    } else {
        token_size(ts.drop_last()) + ts.last().len() + 1
    }
}

/// The tokens of `ts` written out with one space between neighbours.
pub open spec fn join_tokens(ts: Seq<Seq<char>>) -> Seq<char>
    decreases ts.len(),
{
    if ts.len() == 0 {
        Seq::empty()
    } else if ts.len() == 1 {
        ts[0]
    } else {
        join_tokens(ts.drop_last()) + seq![' '] + ts.last()
    }
}

/// `c` equals the lower-case ASCII letter `k`, or is its upper-case form.
pub open spec fn same_letter(c: char, k: char) -> bool {
    c == k || (0x41 <= c as u32 <= 0x5A && c as u32 + 32 == k as u32)
}

/// `t` spells the lower-case keyword `kw`, in any mix of ASCII case.
pub open spec fn is_keyword(t: Seq<char>, kw: Seq<char>) -> bool {
    &&& t.len() == kw.len()
    &&& forall|i: int| 0 <= i < t.len() ==> same_letter(#[trigger] t[i], kw[i])
}

/// Index of the first `c` in `s`, or `s.len()` where there is none.
pub open spec fn first_index(s: Seq<char>, c: char) -> nat
    decreases s.len(),
{
    if s.len() == 0 || s[0] == c {
        0
    } else {
        1 + first_index(s.drop_first(), c)
    }
}

/// One more than the index of the last `c` in `s`, or 0 where there is none.
pub open spec fn last_index_end(s: Seq<char>, c: char) -> nat
    decreases s.len(),
{
    if s.len() == 0 {
        0
    } else if s.last() == c {
        s.len()
    } else {
        last_index_end(s.drop_last(), c)
    }
}

/// Number of occurrences of `c` in `s`.
pub open spec fn count_char(s: Seq<char>, c: char) -> nat
    decreases s.len(),
{
    if s.len() == 0 {
        0
    } else {
        count_char(s.drop_last(), c) + if s.last() == c {
            1nat
        } else {
            0nat
        }
    }
}

/// The first word: within the text, free of whitespace, and ended by
/// whitespace or by the end of the text.
pub proof fn lemma_word_len(s: Seq<char>)
    ensures
        word_len(s) <= s.len(),
        forall|i: int| 0 <= i < word_len(s) ==> !is_whitespace(#[trigger] s[i]),
        word_len(s) < s.len() ==> is_whitespace(s[word_len(s) as int]),
        s.len() > 0 && !is_whitespace(s[0]) ==> word_len(s) >= 1,
    decreases s.len(),
{
    if s.len() == 0 || is_whitespace(s[0]) {
    } else {
        let r = s.drop_first();
        lemma_word_len(r);
        assert forall|i: int| 0 <= i < word_len(s) implies !is_whitespace(#[trigger] s[i]) by {
            if i > 0 {
                assert(s[i] == r[i - 1]);
            }
        }
        if word_len(s) < s.len() {
            assert(s[word_len(s) as int] == r[word_len(r) as int]);
        }
    }
}

/// A run of `n` characters free of whitespace, ended by whitespace or by the
/// end of the text, is exactly the first word.
pub proof fn lemma_word_len_is(s: Seq<char>, n: nat)
    requires
        n <= s.len(),
        forall|i: int| 0 <= i < n ==> !is_whitespace(#[trigger] s[i]),
        n < s.len() ==> is_whitespace(s[n as int]),
    ensures
        word_len(s) == n,
    decreases n,
{
    if n == 0 {
    } else {
        let r = s.drop_first();
        assert(!is_whitespace(s[0]));
        assert forall|i: int| 0 <= i < n - 1 implies !is_whitespace(#[trigger] r[i]) by {
            assert(r[i] == s[i + 1]);
        }
        if n - 1 < r.len() {
            assert(r[n - 1] == s[n as int]);
        }
        lemma_word_len_is(r, (n - 1) as nat);
    }
}

/// What the tokenizer returns are tokens: non-empty and free of whitespace.
pub proof fn lemma_tokens_are_tokens(s: Seq<char>)
    ensures
        all_tokens(tokens_of(s)),
    decreases s.len(),
{
    if s.len() == 0 {
    } else if is_whitespace(s[0]) {
        lemma_tokens_are_tokens(s.drop_first());
    } else {
        lemma_word_len(s);
        let n = word_len(s);
        lemma_tokens_are_tokens(s.skip(n as int));
        let rest = tokens_of(s.skip(n as int));
        assert(is_token(s.take(n as int)));
        assert forall|i: int| 0 <= i < tokens_of(s).len() implies is_token(
            #[trigger] tokens_of(s)[i],
        ) by {
            if i > 0 {
                assert(tokens_of(s)[i] == rest[i - 1]);
            }
        }
    }
}

/// The measure of two lists, one after the other, is the sum of theirs.
pub proof fn lemma_token_size_concat(a: Seq<Seq<char>>, b: Seq<Seq<char>>)
    ensures
        token_size(a + b) == token_size(a) + token_size(b),
    decreases b.len(),
{
    if b.len() == 0 {
        assert(a + b =~= a);
    } else {
        assert((a + b).drop_last() =~= a + b.drop_last());
        lemma_token_size_concat(a, b.drop_last());
    }
}

/// Dropping tokens from the front shrinks the measure by what was dropped.
pub proof fn lemma_token_size_split(ts: Seq<Seq<char>>, k: int)
    requires
        0 <= k <= ts.len(),
    ensures
        token_size(ts) == token_size(ts.take(k)) + token_size(ts.skip(k)),
{
    assert(ts =~= ts.take(k) + ts.skip(k));
    lemma_token_size_concat(ts.take(k), ts.skip(k));
}

/// The measure of a single token.
pub proof fn lemma_token_size_one(t: Seq<char>)
    ensures
        token_size(seq![t]) == t.len() + 1,
{
    assert(seq![t].drop_last() =~= Seq::<Seq<char>>::empty());
    assert(token_size(seq![t].drop_last()) == 0);
    assert(seq![t].last() == t);
}

/// The tokens of a text never outweigh the text itself.
pub proof fn lemma_tokens_size_bound(s: Seq<char>)
    ensures
        token_size(tokens_of(s)) <= s.len() + 1,
        tokens_of(s).len() > 0 ==> token_size(tokens_of(s)) <= s.len() + 1,
    decreases s.len(),
{
    if s.len() == 0 {
    } else if is_whitespace(s[0]) {
        lemma_tokens_size_bound(s.drop_first());
    } else {
        lemma_word_len(s);
        let n = word_len(s);
        let tail = s.skip(n as int);
        lemma_tokens_size_bound(tail);
        lemma_token_size_one(s.take(n as int));
        lemma_token_size_concat(seq![s.take(n as int)], tokens_of(tail));
        if tail.len() == 0 {
        } else {
            // the word is followed by whitespace, which no token counts
            assert(is_whitespace(tail[0]));
            lemma_tokens_size_bound(tail.drop_first());
        }
    }
}

/// Joined tokens are one character shorter than their measure.
pub proof fn lemma_join_len(ts: Seq<Seq<char>>)
    requires
        ts.len() > 0,
    ensures
        join_tokens(ts).len() + 1 == token_size(ts),
    decreases ts.len(),
{
    if ts.len() == 1 {
        assert(ts.drop_last() =~= Seq::<Seq<char>>::empty());
        assert(token_size(ts.drop_last()) == 0);
    } else {
        lemma_join_len(ts.drop_last());
    }
}

/// The first `c`: none before it, and `c` at it unless there is none.
pub proof fn lemma_first_index(s: Seq<char>, c: char)
    ensures
        first_index(s, c) <= s.len(),
        forall|i: int| 0 <= i < first_index(s, c) ==> #[trigger] s[i] != c,
        first_index(s, c) < s.len() ==> s[first_index(s, c) as int] == c,
    decreases s.len(),
{
    if s.len() == 0 || s[0] == c {
    } else {
        let r = s.drop_first();
        lemma_first_index(r, c);
        assert forall|i: int| 0 <= i < first_index(s, c) implies #[trigger] s[i] != c by {
            if i > 0 {
                assert(s[i] == r[i - 1]);
            }
        }
        if first_index(s, c) < s.len() {
            assert(s[first_index(s, c) as int] == r[first_index(r, c) as int]);
        }
    }
}

/// Where no `c` stands before position `n` and `c` or nothing stands at it,
/// the first `c` is at `n`.
pub proof fn lemma_first_index_is(s: Seq<char>, c: char, n: nat)
    requires
        n <= s.len(),
        forall|i: int| 0 <= i < n ==> #[trigger] s[i] != c,
        n < s.len() ==> s[n as int] == c,
    ensures
        first_index(s, c) == n,
    decreases n,
{
    if n == 0 {
    } else {
        let r = s.drop_first();
        assert(s[0] != c);
        assert forall|i: int| 0 <= i < n - 1 implies #[trigger] r[i] != c by {
            assert(r[i] == s[i + 1]);
        }
        if n - 1 < r.len() {
            assert(r[n - 1] == s[n as int]);
        }
        lemma_first_index_is(r, c, (n - 1) as nat);
    }
}

/// The last `c`: none behind it, and `c` at it unless there is none.
pub proof fn lemma_last_index_end(s: Seq<char>, c: char)
    ensures
        last_index_end(s, c) <= s.len(),
        forall|i: int| last_index_end(s, c) <= i < s.len() ==> #[trigger] s[i] != c,
        last_index_end(s, c) > 0 ==> s[last_index_end(s, c) - 1] == c,
    decreases s.len(),
{
    if s.len() == 0 || s.last() == c {
    } else {
        let r = s.drop_last();
        lemma_last_index_end(r, c);
        assert forall|i: int| last_index_end(s, c) <= i < s.len() implies #[trigger] s[i] != c by {
            if i < r.len() {
                assert(s[i] == r[i]);
            }
        }
    }
}

/// Where no `c` stands from position `n` on and `c` or nothing stands before
/// it, the last `c` ends at `n`.
pub proof fn lemma_last_index_end_is(s: Seq<char>, c: char, n: nat)
    requires
        n <= s.len(),
        forall|i: int| n <= i < s.len() ==> #[trigger] s[i] != c,
        n > 0 ==> s[n - 1] == c,
    ensures
        last_index_end(s, c) == n,
    decreases s.len(),
{
    if s.len() == 0 {
    } else if s.len() == n {
    } else {
        let r = s.drop_last();
        assert(s.last() != c);
        lemma_last_index_end_is(r, c, n);
    }
}

/// Tells whether `c` is whitespace, as `char::is_whitespace` defines it.
pub fn char_is_whitespace(c: char) -> (b: bool)
    ensures
        b == is_whitespace(c),
{
    let n: u32 = c as u32;
    (0x09 <= n && n <= 0x0D) || n == 0x20 || n == 0x85 || n == 0xA0 || n == 0x1680 || (0x2000 <= n
        && n <= 0x200A) || n == 0x2028 || n == 0x2029 || n == 0x202F || n == 0x205F || n == 0x3000
}

/// The character at position `i`. Where `ascii` tells that `text` is all
/// ASCII, it is read in constant time.
fn char_at(text: &str, i: usize, ascii: bool) -> (c: char)
    requires
        i < text@.len(),
        ascii ==> text.is_ascii(),
    ensures
        c == text@[i as int],
{
    if ascii {
        let b = text.get_ascii(i);
        assert('\0' <= text@[i as int] <= '\u{7f}');
        b as char
    } else {
        text.get_char(i)
    }
}

/// The part of `text` from position `from` to before position `to`. Where
/// `ascii` tells that `text` is all ASCII, it is cut out in constant time.
fn slice_of<'a>(text: &'a str, from: usize, to: usize, ascii: bool) -> (part: &'a str)
    requires
        from <= to <= text@.len(),
        ascii ==> text.is_ascii(),
    ensures
        part@ == text@.subrange(from as int, to as int),
{
    if ascii {
        text.substring_ascii(from, to)
    } else {
        text.substring_char(from, to)
    }
}

/// Splits `text` into its whitespace-delimited tokens. Empty or all-whitespace
/// text gives no token.
pub fn tokenize<'a>(text: &'a str) -> (tokens: Vec<&'a str>)
    ensures
        tokens.deep_view() == tokens_of(text@),
        all_tokens(tokens.deep_view()),
{
    let ascii = text.is_ascii();
    let n = text.unicode_len();
    let mut tokens: Vec<&'a str> = Vec::new();
    let mut i: usize = 0;
    assert(text@.skip(0) =~= text@);
    assert(tokens.deep_view() =~= Seq::<Seq<char>>::empty());
    while i < n
        invariant
            i <= n,
            n == text@.len(),
            ascii ==> text.is_ascii(),
            tokens_of(text@) == tokens.deep_view() + tokens_of(text@.skip(i as int)),
        decreases n - i,
    {
        let ghost tail = text@.skip(i as int);
        let c = char_at(text, i, ascii);
        assert(tail[0] == c);
        if char_is_whitespace(c) {
            assert(tail.drop_first() =~= text@.skip(i + 1));
            i += 1;
        } else {
            let mut j: usize = i + 1;
            while j < n && !char_is_whitespace(char_at(text, j, ascii))
                invariant
                    i < j <= n,
                    n == text@.len(),
                    ascii ==> text.is_ascii(),
                    forall|k: int| i <= k < j ==> !is_whitespace(#[trigger] text@[k]),
                decreases n - j,
            {
                j += 1;
            }
            proof {
                assert forall|k: int| 0 <= k < j - i implies !is_whitespace(#[trigger] tail[k]) by {
                    assert(tail[k] == text@[i + k]);
                }
                if j - i < tail.len() {
                    assert(tail[j - i] == text@[j as int]);
                }
                lemma_word_len_is(tail, (j - i) as nat);
                assert(tail.take(j - i) =~= text@.subrange(i as int, j as int));
                assert(tail.skip(j - i) =~= text@.skip(j as int));
            }
            let word = slice_of(text, i, j, ascii);
            let ghost before = tokens.deep_view();
            tokens.push(word);
            assert(tokens.deep_view() =~= before + seq![word@]);
            i = j;
        }
    }
    proof {
        assert(text@.skip(n as int) =~= Seq::<char>::empty());
        assert(tokens.deep_view() + Seq::<Seq<char>>::empty() =~= tokens.deep_view());
        lemma_tokens_are_tokens(text@);
    }
    tokens
}

/// Tells whether `t` spells the keyword `kw`, ignoring ASCII case.
pub fn keyword_matches(t: &str, kw: &str) -> (b: bool)
    ensures
        b == is_keyword(t@, kw@),
{
    let n = t.unicode_len();
    if n != kw.unicode_len() {
        return false;
    }
    let mut i: usize = 0;
    while i < n
        invariant
            i <= n,
            n == t@.len(),
            n == kw@.len(),
            forall|k: int| 0 <= k < i ==> same_letter(#[trigger] t@[k], kw@[k]),
        decreases n - i,
    {
        let c = t.get_char(i);
        let k = kw.get_char(i);
        let cn: u32 = c as u32;
        let kn: u32 = k as u32;
        if !(c == k || (0x41 <= cn && cn <= 0x5A && cn + 32 == kn)) {
            assert(!same_letter(t@[i as int], kw@[i as int]));
            return false;
        }
        i += 1;
    }
    true
}

/// Tells whether the two texts hold the same characters.
pub fn text_eq(a: &str, b: &str) -> (same: bool)
    ensures
        same == (a@ == b@),
{
    let n = a.unicode_len();
    if n != b.unicode_len() {
        return false;
    }
    let mut i: usize = 0;
    while i < n
        invariant
            i <= n,
            n == a@.len(),
            n == b@.len(),
            forall|k: int| 0 <= k < i ==> a@[k] == b@[k],
        decreases n - i,
    {
        if a.get_char(i) != b.get_char(i) {
            return false;
        }
        i += 1;
    }
    assert(a@ =~= b@);
    true
}

/// Index of the first `c` in `t`, or the length of `t` where there is none.
pub fn find_char(t: &str, c: char) -> (at: usize)
    ensures
        at == first_index(t@, c),
        at <= t@.len(),
        (at < t@.len()) == t@.contains(c),
{
    let n = t.unicode_len();
    let mut i: usize = 0;
    while i < n && t.get_char(i) != c
        invariant
            i <= n,
            n == t@.len(),
            forall|k: int| 0 <= k < i ==> #[trigger] t@[k] != c,
        decreases n - i,
    {
        i += 1;
    }
    proof {
        lemma_first_index_is(t@, c, i as nat);
        if i < n {
            assert(t@[i as int] == c);
        }
    }
    i
}

/// One more than the index of the last `c` in `t`, or 0 where there is none.
pub fn rfind_char_end(t: &str, c: char) -> (end: usize)
    ensures
        end == last_index_end(t@, c),
        end <= t@.len(),
{
    let n = t.unicode_len();
    let mut i: usize = n;
    while i > 0 && t.get_char(i - 1) != c
        invariant
            i <= n,
            n == t@.len(),
            forall|k: int| i <= k < n ==> #[trigger] t@[k] != c,
        decreases i,
    {
        i -= 1;
    }
    proof {
        lemma_last_index_end_is(t@, c, i as nat);
    }
    i
}

/// The tokens from position `k` on.
pub(crate) fn rest_of<'a>(parts: &'a [&'a str], k: usize) -> (rest: &'a [&'a str])
    requires
        k <= parts@.len(),
    ensures
        rest.deep_view() == parts.deep_view().skip(k as int),
        rest@ == parts@.skip(k as int),
{
    let rest = slice_subrange(parts, k, parts.len());
    assert(rest.deep_view() =~= parts.deep_view().skip(k as int));
    assert(rest@ =~= parts@.skip(k as int));
    rest
}

/// How often `c` occurs in `t`.
pub fn count_in(t: &str, c: char) -> (count: usize)
    ensures
        count == count_char(t@, c),
{
    let n = t.unicode_len();
    let mut count: usize = 0;
    let mut i: usize = 0;
    assert(t@.take(0) =~= Seq::<char>::empty());
    while i < n
        invariant
            i <= n,
            n == t@.len(),
            count <= i,
            count == count_char(t@.take(i as int), c),
        decreases n - i,
    {
        assert(t@.take(i + 1).drop_last() =~= t@.take(i as int));
        if t.get_char(i) == c {
            count += 1;
        }
        i += 1;
    }
    assert(t@.take(n as int) =~= t@);
    count
}

/// The first `k` tokens written out with one space between neighbours.
pub(crate) fn join_prefix(parts: &[&str], k: usize) -> (joined: String)
    requires
        1 <= k <= parts@.len(),
    ensures
        joined@ == join_tokens(parts.deep_view().take(k as int)),
{
    let ghost ts = parts.deep_view();
    let mut joined = String::from_str(parts[0]);
    let mut i: usize = 1;
    assert(ts.take(1) =~= seq![ts[0]]);
    while i < k
        invariant
            1 <= i <= k <= parts@.len(),
            ts == parts.deep_view(),
            joined@ == join_tokens(ts.take(i as int)),
        decreases k - i,
    {
        joined.append(" ");
        joined.append(parts[i]);
        proof {
            reveal_strlit(" ");
            assert(" "@ =~= seq![' ']);
            assert(ts.take(i + 1).drop_last() =~= ts.take(i as int));
            assert(ts.take(i + 1).last() == ts[i as int]);
        }
        i += 1;
    }
    joined
}

} // verus!
