//! What the tokenizer makes of texts put together from parts.

use crate::text::{
    all_tokens, count_char, first_index, is_token, is_whitespace, join_tokens, last_index_end,
    lemma_first_index_is, lemma_last_index_end_is, lemma_word_len, lemma_word_len_is, tokens_of,
    word_len,
};
use vstd::prelude::*;

verus! {

/// A text that reads as its own tokens joined by single spaces: it neither
/// begins nor ends with whitespace, and its only whitespace are single
/// spaces between tokens.
pub open spec fn is_normalized(s: Seq<char>) -> bool {
    &&& s.len() > 0 ==> !is_whitespace(s[0]) && !is_whitespace(s.last())
    &&& forall|i: int|
        0 <= i < s.len() && is_whitespace(#[trigger] s[i]) ==> s[i] == ' ' && i + 1 < s.len()
            && !is_whitespace(s[i + 1])
}

/// Every character of `s` is whitespace.
pub open spec fn is_blank(s: Seq<char>) -> bool {
    forall|i: int| 0 <= i < s.len() ==> is_whitespace(#[trigger] s[i])
}

/// No character of `s` is whitespace.
pub open spec fn is_solid(s: Seq<char>) -> bool {
    forall|i: int| 0 <= i < s.len() ==> !is_whitespace(#[trigger] s[i])
}

/// Two texts put together where at least one of them ends at the seam give
/// the tokens of the first followed by the tokens of the second.
pub proof fn lemma_tokens_concat(a: Seq<char>, b: Seq<char>)
    requires
        a.len() == 0 || b.len() == 0 || is_whitespace(a.last()) || is_whitespace(b[0]),
    ensures
        tokens_of(a + b) == tokens_of(a) + tokens_of(b),
    decreases a.len(),
{
    if a.len() == 0 {
        assert(a + b =~= b);
        assert(tokens_of(a) + tokens_of(b) =~= tokens_of(b));
    } else if b.len() == 0 {
        assert(a + b =~= a);
        assert(tokens_of(a) + tokens_of(b) =~= tokens_of(a));
    } else if is_whitespace(a[0]) {
        assert((a + b).drop_first() =~= a.drop_first() + b);
        if a.drop_first().len() > 0 {
            assert(a.drop_first().last() == a.last());
        }
        lemma_tokens_concat(a.drop_first(), b);
    } else {
        lemma_word_len(a);
        let n = word_len(a);
        let ab = a + b;
        assert forall|i: int| 0 <= i < n implies !is_whitespace(#[trigger] ab[i]) by {
            assert(ab[i] == a[i]);
        }
        if n < a.len() {
            assert(ab[n as int] == a[n as int]);
            lemma_word_len_is(ab, n);
            assert(ab.take(n as int) =~= a.take(n as int));
            assert(ab.skip(n as int) =~= a.skip(n as int) + b);
            assert(a.skip(n as int).last() == a.last());
            lemma_tokens_concat(a.skip(n as int), b);
            assert(seq![a.take(n as int)] + (tokens_of(a.skip(n as int)) + tokens_of(b)) =~= (
            seq![a.take(n as int)] + tokens_of(a.skip(n as int))) + tokens_of(b));
        } else {
            assert(ab[n as int] == b[0]);
            lemma_word_len_is(ab, n);
            assert(ab.take(n as int) =~= a);
            assert(ab.skip(n as int) =~= b);
            assert(a.take(n as int) =~= a);
            assert(a.skip(n as int) =~= Seq::<char>::empty());
            assert(seq![a] + Seq::<Seq<char>>::empty() =~= seq![a]);
        }
    }
}

/// A token is the one token of itself.
pub proof fn lemma_tokens_single(w: Seq<char>)
    requires
        is_token(w),
    ensures
        tokens_of(w) == seq![w],
{
    lemma_word_len_is(w, w.len());
    assert(!is_whitespace(w[0]));
    assert(w.take(w.len() as int) =~= w);
    assert(w.skip(w.len() as int) =~= Seq::<char>::empty());
    assert(tokens_of(w.skip(w.len() as int)).len() == 0);
    assert(seq![w] + Seq::<Seq<char>>::empty() =~= seq![w]);
}

/// Whitespace alone holds no token.
pub proof fn lemma_tokens_blank(s: Seq<char>)
    requires
        is_blank(s),
    ensures
        tokens_of(s) == Seq::<Seq<char>>::empty(),
    decreases s.len(),
{
    if s.len() > 0 {
        assert(is_whitespace(s[0]));
        assert forall|i: int| 0 <= i < s.drop_first().len() implies is_whitespace(
            #[trigger] s.drop_first()[i],
        ) by {
            assert(s.drop_first()[i] == s[i + 1]);
        }
        lemma_tokens_blank(s.drop_first());
    }
}

/// Whitespace in front of a text, and behind it, changes no token.
pub proof fn lemma_tokens_padded(before: Seq<char>, s: Seq<char>, after: Seq<char>)
    requires
        is_blank(before),
        is_blank(after),
    ensures
        tokens_of(before + s + after) == tokens_of(s),
{
    lemma_tokens_blank(before);
    lemma_tokens_blank(after);
    if before.len() > 0 {
        assert(is_whitespace(before.last()));
    }
    if after.len() > 0 {
        assert(is_whitespace(after[0]));
    }
    lemma_tokens_concat(before, s);
    lemma_tokens_concat(before + s, after);
    assert(tokens_of(before) + tokens_of(s) =~= tokens_of(s));
    assert(tokens_of(s) + tokens_of(after) =~= tokens_of(s));
}

/// Two texts with a blank between them give the tokens of the first followed
/// by the tokens of the second.
pub proof fn lemma_tokens_spaced(a: Seq<char>, gap: Seq<char>, b: Seq<char>)
    requires
        is_blank(gap),
        gap.len() > 0,
    ensures
        tokens_of(a + gap + b) == tokens_of(a) + tokens_of(b),
{
    lemma_tokens_blank(gap);
    assert(is_whitespace(gap[0]));
    assert(is_whitespace(gap.last()));
    lemma_tokens_concat(a, gap);
    assert((a + gap).last() == gap.last());
    lemma_tokens_concat(a + gap, b);
    assert(tokens_of(a) + tokens_of(gap) =~= tokens_of(a));
}

/// Joining two lists, one after the other, joins what each of them gives
/// with one space.
pub proof fn lemma_join_concat(x: Seq<Seq<char>>, y: Seq<Seq<char>>)
    requires
        x.len() > 0,
        y.len() > 0,
    ensures
        join_tokens(x + y) == join_tokens(x) + seq![' '] + join_tokens(y),
    decreases y.len(),
{
    let xy = x + y;
    assert(xy.drop_last() =~= x + y.drop_last());
    assert(xy.last() == y.last());
    if y.len() == 1 {
        assert(x + y.drop_last() =~= x);
        assert(join_tokens(y) == y[0]);
    } else {
        lemma_join_concat(x, y.drop_last());
        assert(join_tokens(xy) =~= join_tokens(x) + seq![' '] + join_tokens(y));
    }
}

/// A normalized text is its tokens joined by single spaces, and holds a
/// token unless it is empty.
pub proof fn lemma_normalized_join(s: Seq<char>)
    requires
        is_normalized(s),
    ensures
        join_tokens(tokens_of(s)) == s,
        all_tokens(tokens_of(s)),
        s.len() > 0 ==> tokens_of(s).len() > 0,
    decreases s.len(),
{
    crate::text::lemma_tokens_are_tokens(s);
    if s.len() > 0 {
        lemma_word_len(s);
        let n = word_len(s) as int;
        let word = s.take(n);
        if n == s.len() {
            assert(s.skip(n) =~= Seq::<char>::empty());
            assert(tokens_of(s.skip(n)).len() == 0);
            assert(seq![word] + Seq::<Seq<char>>::empty() =~= seq![word]);
            assert(word =~= s);
            assert(tokens_of(s) =~= seq![word]);
            assert(join_tokens(seq![word]) == word);
        } else {
            let tail = s.skip(n + 1);
            assert(is_whitespace(s[n]));
            assert(s.skip(n).drop_first() =~= tail);
            assert(s.skip(n)[0] == s[n]);
            assert(tail[0] == s[n + 1]);
            assert(tail.last() == s.last());
            assert forall|i: int|
                0 <= i < tail.len() && is_whitespace(#[trigger] tail[i]) implies tail[i] == ' ' && i
                + 1 < tail.len() && !is_whitespace(tail[i + 1]) by {
                assert(tail[i] == s[n + 1 + i]);
                assert(tail[i + 1] == s[n + 1 + i + 1]);
            }
            lemma_normalized_join(tail);
            assert(tokens_of(s.skip(n)) == tokens_of(tail));
            assert(tokens_of(s) == seq![word] + tokens_of(tail));
            lemma_join_concat(seq![word], tokens_of(tail));
            assert(join_tokens(seq![word]) == word);
            assert(word + seq![' '] + tail =~= s);
        }
    }
}

/// Joined tokens are a normalized text and read back as the same tokens.
pub proof fn lemma_join_normalized(ts: Seq<Seq<char>>)
    requires
        all_tokens(ts),
    ensures
        is_normalized(join_tokens(ts)),
        tokens_of(join_tokens(ts)) == ts,
        ts.len() > 0 ==> join_tokens(ts).len() > 0,
    decreases ts.len(),
{
    if ts.len() == 0 {
    } else if ts.len() == 1 {
        assert(is_token(ts[0]));
        lemma_tokens_single(ts[0]);
        assert(ts =~= seq![ts[0]]);
    } else {
        let front = ts.drop_last();
        let last = ts.last();
        assert(is_token(last));
        assert forall|i: int| 0 <= i < front.len() implies is_token(#[trigger] front[i]) by {
            assert(front[i] == ts[i]);
        }
        lemma_join_normalized(front);
        let a = join_tokens(front);
        let s = a + seq![' '] + last;
        assert(join_tokens(ts) == s);
        assert(is_whitespace(' '));
        assert forall|i: int| 0 <= i < s.len() && is_whitespace(#[trigger] s[i]) implies s[i] == ' '
            && i + 1 < s.len() && !is_whitespace(s[i + 1]) by {
            if i < a.len() {
                assert(s[i] == a[i]);
                if i + 1 < a.len() {
                    assert(s[i + 1] == a[i + 1]);
                }
            } else if i == a.len() {
                assert(s[i + 1] == last[0]);
            } else {
                assert(s[i] == last[i - a.len() - 1]);
            }
        }
        assert(s[0] == a[0]);
        assert(s.last() == last.last());
        lemma_tokens_single(last);
        lemma_tokens_spaced(a, seq![' '], last);
        assert(front + seq![last] =~= ts);
    }
}

/// Two normalized texts with one space between them are normalized.
pub proof fn lemma_normalized_spaced(a: Seq<char>, b: Seq<char>)
    requires
        is_normalized(a),
        is_normalized(b),
        a.len() > 0,
        b.len() > 0,
    ensures
        is_normalized(a + seq![' '] + b),
        tokens_of(a + seq![' '] + b) == tokens_of(a) + tokens_of(b),
{
    let s = a + seq![' '] + b;
    assert(is_whitespace(' '));
    assert forall|i: int| 0 <= i < s.len() && is_whitespace(#[trigger] s[i]) implies s[i] == ' '
        && i + 1 < s.len() && !is_whitespace(s[i + 1]) by {
        if i < a.len() {
            assert(s[i] == a[i]);
            if i + 1 < a.len() {
                assert(s[i + 1] == a[i + 1]);
            }
        } else if i == a.len() {
            assert(s[i + 1] == b[0]);
        } else {
            assert(s[i] == b[i - a.len() - 1]);
            if i + 1 < s.len() {
                assert(s[i + 1] == b[i - a.len()]);
            }
        }
    }
    assert(s[0] == a[0]);
    assert(s.last() == b.last());
    lemma_tokens_spaced(a, seq![' '], b);
}

/// Solid text put against the front and the back of a normalized text
/// leaves it normalized.
pub proof fn lemma_normalized_wrapped(front: Seq<char>, s: Seq<char>, back: Seq<char>)
    requires
        is_normalized(s),
        is_solid(front),
        is_solid(back),
    ensures
        is_normalized(front + s + back),
{
    let t = front + s + back;
    assert forall|i: int| 0 <= i < t.len() && is_whitespace(#[trigger] t[i]) implies t[i] == ' '
        && i + 1 < t.len() && !is_whitespace(t[i + 1]) by {
        if i < front.len() {
            assert(t[i] == front[i]);
        } else if i < front.len() + s.len() {
            let j = i - front.len();
            assert(t[i] == s[j]);
            assert(s[j + 1] == t[i + 1]);
        } else {
            assert(t[i] == back[i - front.len() - s.len()]);
        }
    }
    if t.len() > 0 {
        if front.len() > 0 {
            assert(t[0] == front[0]);
        } else if s.len() > 0 {
            assert(t[0] == s[0]);
        } else {
            assert(t[0] == back[0]);
        }
        if back.len() > 0 {
            assert(t.last() == back.last());
        } else if s.len() > 0 {
            assert(t.last() == s.last());
        } else {
            assert(t.last() == front.last());
        }
    }
}

/// Occurrences are counted part by part.
pub proof fn lemma_count_concat(a: Seq<char>, b: Seq<char>, c: char)
    ensures
        count_char(a + b, c) == count_char(a, c) + count_char(b, c),
    decreases b.len(),
{
    if b.len() == 0 {
        assert(a + b =~= a);
    } else {
        assert((a + b).drop_last() =~= a + b.drop_last());
        lemma_count_concat(a, b.drop_last(), c);
    }
}

/// A character that a text does not hold occurs in it zero times.
pub proof fn lemma_count_none(s: Seq<char>, c: char)
    requires
        !s.contains(c),
    ensures
        count_char(s, c) == 0,
    decreases s.len(),
{
    if s.len() > 0 {
        assert(s.last() == s[s.len() - 1]);
        assert forall|i: int| 0 <= i < s.drop_last().len() implies s.drop_last()[i] != c by {
            assert(s.drop_last()[i] == s[i]);
        }
        lemma_count_none(s.drop_last(), c);
    }
}

/// The occurrences of `c` in a text of one character.
pub proof fn lemma_count_one(c: char, d: char)
    ensures
        count_char(seq![d], c) == if d == c {
            1nat
        } else {
            0nat
        },
{
    assert(seq![d].drop_last() =~= Seq::<char>::empty());
    assert(count_char(seq![d].drop_last(), c) == 0);
}

/// Where the first `c` stands in a text that has none before position `n`
/// and `c` at it.
pub proof fn lemma_first_index_at(s: Seq<char>, c: char, n: int)
    requires
        0 <= n <= s.len(),
        forall|i: int| 0 <= i < n ==> #[trigger] s[i] != c,
        n < s.len() ==> s[n] == c,
    ensures
        first_index(s, c) == n,
{
    lemma_first_index_is(s, c, n as nat);
}

/// Where the last `c` stands in a text that has none from position `n` on
/// and `c` before it.
pub proof fn lemma_last_index_at(s: Seq<char>, c: char, n: int)
    requires
        0 <= n <= s.len(),
        forall|i: int| n <= i < s.len() ==> #[trigger] s[i] != c,
        n > 0 ==> s[n - 1] == c,
    ensures
        last_index_end(s, c) == n,
{
    lemma_last_index_end_is(s, c, n as nat);
}

} // verus!
