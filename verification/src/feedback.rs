//! Published feedback: the text as typed, its words joined by single spaces (what `split_whitespace` and
//! `join(" ")` give), and only once it has at least FEEDBACK_MIN_LEN characters.
use vstd::prelude::*;
use crate::text::{is_ws, char_is_ws, push_char};

verus! {

/// Feedback shorter than this (once squeezed) isn't sent.
pub const FEEDBACK_MIN_LEN: usize = 4;

/// The words of a text: its longest runs of non-whitespace characters, in order.
pub open spec fn words(s: Seq<char>) -> Seq<Seq<char>>
    decreases s.len(),
{
    if s.len() == 0 {
        Seq::empty()
    } else {
        let w = words(s.drop_last());
        let c = s.last();
        if is_ws(c) {
            w
        } else if s.len() > 1 && !is_ws(s[s.len() - 2]) {
            w.update(w.len() - 1, w.last().push(c))
        } else {
            w.push(seq![c])
        }
    }
}

/// Words joined with single spaces.
pub open spec fn joined(w: Seq<Seq<char>>) -> Seq<char>
    decreases w.len(),
{
    if w.len() == 0 {
        Seq::empty()
    } else if w.len() == 1 {
        w[0]
    } else {
        joined(w.drop_last()) + seq![' '] + w.last()
    }
}

/// The text as it is published: its words joined by single spaces.
pub open spec fn squeezed(s: Seq<char>) -> Seq<char> {
    joined(words(s))
}

proof fn lemma_words_shape(s: Seq<char>)
    ensures
        forall|i: int| 0 <= i < words(s).len() ==> (#[trigger] words(s)[i]).len() > 0,
        s.len() > 0 && !is_ws(s.last()) ==> words(s).len() > 0,
    decreases s.len(),
{
    if s.len() > 0 {
        lemma_words_shape(s.drop_last());
        let w = words(s.drop_last());
        if !is_ws(s.last()) && s.len() > 1 && !is_ws(s[s.len() - 2]) {
            assert(s.drop_last().last() == s[s.len() - 2]);
        }
    }
}

proof fn lemma_joined_empty(w: Seq<Seq<char>>)
    requires
        forall|i: int| 0 <= i < w.len() ==> (#[trigger] w[i]).len() > 0,
    ensures
        (joined(w).len() == 0) == (w.len() == 0),
    decreases w.len(),
{
    if w.len() > 1 {
        lemma_joined_empty(w.drop_last());
    }
}

proof fn lemma_joined_grow_last(w: Seq<Seq<char>>, c: char)
    requires
        w.len() > 0,
    ensures
        joined(w.update(w.len() - 1, w.last().push(c))) == joined(w).push(c),
{
    let u = w.update(w.len() - 1, w.last().push(c));
    if w.len() > 1 {
        assert(u.drop_last() =~= w.drop_last());
    }
}

/// A word: at least one character, none of them whitespace.
pub open spec fn is_word(x: Seq<char>) -> bool {
    x.len() > 0 && forall|i: int| 0 <= i < x.len() ==> !is_ws(#[trigger] x[i])
}

proof fn lemma_words_are_words(s: Seq<char>)
    ensures
        forall|i: int| 0 <= i < words(s).len() ==> is_word(#[trigger] words(s)[i]),
    decreases s.len(),
{
    if s.len() > 0 {
        lemma_words_are_words(s.drop_last());
        lemma_words_shape(s.drop_last());
        let w = words(s.drop_last());
        let c = s.last();
        if !is_ws(c) && s.len() > 1 && !is_ws(s[s.len() - 2]) {
            assert(s.drop_last().last() == s[s.len() - 2]);
            lemma_words_shape(s.drop_last());
            let u = w.update(w.len() - 1, w.last().push(c));
            assert forall|i: int| 0 <= i < u.len() implies is_word(#[trigger] u[i]) by {
                if i == w.len() - 1 {
                    assert(is_word(w[i]));
                    assert forall|j: int| 0 <= j < u[i].len() implies !is_ws(#[trigger] u[i][j]) by {
                        if j < w[i].len() {
                            assert(u[i][j] == w[i][j]);
                        }
                    }
                }
            }
        } else if !is_ws(c) {
            assert forall|i: int| 0 <= i < w.push(seq![c]).len() implies is_word(#[trigger] w.push(seq![c])[i]) by {
                if i < w.len() {
                    assert(w.push(seq![c])[i] == w[i]);
                }
            }
        }
    }
}

/// The words of `a`, a space, then the word `x`: the words of `a` and then `x`.
proof fn lemma_words_after_space(a: Seq<char>, x: Seq<char>, j: int)
    requires
        is_word(x),
        1 <= j <= x.len(),
    ensures
        words(a + seq![' '] + x.subrange(0, j)) == words(a).push(x.subrange(0, j)),
    decreases j,
{
    let t = a + seq![' '] + x.subrange(0, j);
    assert(is_ws(' '));
    assert((a + seq![' ']).drop_last() =~= a);
    assert(words(a + seq![' ']) == words(a));
    if j == 1 {
        assert(t.drop_last() =~= a + seq![' ']);
        assert(t.last() == x[0]);
        assert(!is_ws(x[0]));
        assert(t[t.len() - 2] == ' ');
        assert(x.subrange(0, 1) =~= seq![x[0]]);
    } else {
        lemma_words_after_space(a, x, j - 1);
        let p = a + seq![' '] + x.subrange(0, j - 1);
        assert(t.drop_last() =~= p);
        assert(t.last() == x[j - 1]);
        assert(!is_ws(x[j - 1]));
        assert(t[t.len() - 2] == x[j - 2]);
        assert(!is_ws(x[j - 2]));
        let w = words(a).push(x.subrange(0, j - 1));
        assert(x.subrange(0, j - 1).push(x[j - 1]) =~= x.subrange(0, j));
        assert(w.update(w.len() - 1, w.last().push(x[j - 1])) =~= words(a).push(x.subrange(0, j)));
    }
}

/// The words of a single word are that word.
proof fn lemma_words_of_word(x: Seq<char>, j: int)
    requires
        is_word(x),
        1 <= j <= x.len(),
    ensures
        words(x.subrange(0, j)) == seq![x.subrange(0, j)],
    decreases j,
{
    let t = x.subrange(0, j);
    assert(!is_ws(x[j - 1]));
    assert(t.last() == x[j - 1]);
    if j == 1 {
        assert(t.drop_last() =~= Seq::<char>::empty());
        assert(words(t.drop_last()) == Seq::<Seq<char>>::empty());
        assert(words(t) == Seq::<Seq<char>>::empty().push(seq![x[0]]));
        assert(t =~= seq![x[0]]);
        assert(Seq::<Seq<char>>::empty().push(seq![x[0]]) =~= seq![t]);
    } else {
        lemma_words_of_word(x, j - 1);
        assert(t.drop_last() =~= x.subrange(0, j - 1));
        assert(t[t.len() - 2] == x[j - 2]);
        assert(!is_ws(x[j - 2]));
        let w = seq![x.subrange(0, j - 1)];
        assert(words(t.drop_last()) == w);
        assert(words(t) == w.update(0, w[0].push(x[j - 1])));
        assert(x.subrange(0, j - 1).push(x[j - 1]) =~= t);
        assert(w.update(0, w[0].push(x[j - 1])) =~= seq![t]);
    }
}

proof fn lemma_words_of_joined(w: Seq<Seq<char>>)
    requires
        forall|i: int| 0 <= i < w.len() ==> is_word(#[trigger] w[i]),
    ensures
        words(joined(w)) == w,
    decreases w.len(),
{
    if w.len() == 1 {
        lemma_words_of_word(w[0], w[0].len() as int);
        assert(w[0].subrange(0, w[0].len() as int) =~= w[0]);
        assert(w =~= seq![w[0]]);
    } else if w.len() > 1 {
        let d = w.drop_last();
        assert forall|i: int| 0 <= i < d.len() implies is_word(#[trigger] d[i]) by {
            assert(d[i] == w[i]);
        }
        lemma_words_of_joined(d);
        let x = w.last();
        assert(is_word(w[w.len() - 1]));
        lemma_words_after_space(joined(d), x, x.len() as int);
        assert(x.subrange(0, x.len() as int) =~= x);
        assert(d.push(x) =~= w);
    }
}

/// Publishing again what was published (editing it and sending it unchanged) gives the same text: squeezing a
/// squeezed text changes nothing.
pub proof fn law_squeeze_is_stable(s: Seq<char>)
    ensures
        squeezed(squeezed(s)) == squeezed(s),
{
    lemma_words_are_words(s);
    lemma_words_of_joined(words(s));
}

/// The text with its words joined by single spaces, and whether it's long enough to be published.
pub fn feedback_text(raw: &str) -> (r: Option<String>)
    ensures
        match r {
            Some(t) => t@ == squeezed(raw@) && squeezed(raw@).len() >= FEEDBACK_MIN_LEN,
            None => squeezed(raw@).len() < FEEDBACK_MIN_LEN,
        },
{
    let n = raw.unicode_len();
    let mut out = String::new();
    let mut pending = false;
    let mut i: usize = 0;
    while i < n
        invariant
            n == raw@.len(),
            i <= n,
            out@ == squeezed(raw@.subrange(0, i as int)),
            pending == (out@.len() > 0 && i > 0 && is_ws(raw@[i - 1])),
        decreases n - i,
    {
        let c = raw.get_char(i);
        let ghost pre = raw@.subrange(0, i as int);
        let ghost cur = raw@.subrange(0, i + 1);
        proof {
            assert(cur.drop_last() =~= pre);
            assert(cur.last() == c);
            lemma_words_shape(pre);
            lemma_joined_empty(words(pre));
            if i > 0 {
                assert(cur[cur.len() - 2] == raw@[i - 1]);
            }
        }
        if char_is_ws(c) {
            pending = !out.as_str().is_empty();
        } else {
            if pending {
                pending = false;
                push_char(&mut out, ' ');
                push_char(&mut out, c);
                proof {
                    assert(out@ =~= joined(words(pre)) + seq![' '] + seq![c]);
                    assert(words(cur) == words(pre).push(seq![c]));
                    assert(words(cur).drop_last() =~= words(pre));
                }
            } else {
                push_char(&mut out, c);
                proof {
                    if words(pre).len() == 0 {
                        assert(words(cur) == words(pre).push(seq![c]));
                        assert(out@ =~= seq![c]);
                    } else {
                        assert(i > 0 && !is_ws(raw@[i - 1]));
                        lemma_joined_grow_last(words(pre), c);
                    }
                }
            }
        }
        i = i + 1;
    }
    proof {
        assert(raw@.subrange(0, n as int) =~= raw@);
    }
    if out.as_str().unicode_len() < FEEDBACK_MIN_LEN {
        None
    } else {
        Some(out)
    }
}

} // verus!
