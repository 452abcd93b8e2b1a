//! Words of a line: whitespace, splitting a line into words, and joining
//! words back with single spaces.
use vstd::prelude::*;
use vstd::string::*;

verus! {

/// The Unicode `White_Space` property, which is what `char::is_whitespace`
/// tests and what `str::trim` and `str::split_whitespace` split on.
pub open spec fn is_space(c: char) -> bool {
    ||| ('\u{9}' <= c && c <= '\u{d}')
    ||| c == ' '
    ||| c == '\u{85}'
    ||| c == '\u{a0}'
    ||| c == '\u{1680}'
    ||| ('\u{2000}' <= c && c <= '\u{200a}')
    ||| c == '\u{2028}'
    ||| c == '\u{2029}'
    ||| c == '\u{202f}'
    ||| c == '\u{205f}'
    ||| c == '\u{3000}'
}

/// A word: at least one character and no whitespace.
pub open spec fn is_word(w: Seq<char>) -> bool {
    &&& w.len() > 0
    &&& forall|i: int| 0 <= i < w.len() ==> !is_space(#[trigger] w[i])
}

/// Every element of `ws` is a word.
pub open spec fn all_words(ws: Seq<Seq<char>>) -> bool {
    forall|k: int| 0 <= k < ws.len() ==> is_word(#[trigger] ws[k])
}

/// The whitespace-separated words of `s`, in order (`str::split_whitespace`).
pub open spec fn words(s: Seq<char>) -> Seq<Seq<char>>
    decreases s.len(),
{
    if s.len() == 0 {
        seq![]
    } else {
        let prev = words(s.drop_last());
        let c = s.last();
        if is_space(c) {
            prev
        } else if s.len() >= 2 && !is_space(s[s.len() - 2]) {
            prev.update(prev.len() - 1, prev.last().push(c))
        } else {
            prev.push(seq![c])
        }
    }
}

/// The words of `ws` joined by single spaces (`[..].join(" ")`).
pub open spec fn join(ws: Seq<Seq<char>>) -> Seq<char>
    decreases ws.len(),
{
    if ws.len() == 0 {
        seq![]
    } else if ws.len() == 1 {
        ws[0]
    } else {
        join(ws.drop_last()) + seq![' '] + ws.last()
    }
}

/// Text that is its own normal form: the words of it, joined by single spaces.
pub open spec fn is_normalized(t: Seq<char>) -> bool {
    join(words(t)) == t
}

/// Character ranges `[start, end)` that lie inside `s`.
pub open spec fn spans_valid(s: Seq<char>, r: Seq<(usize, usize)>) -> bool {
    forall|k: int| 0 <= k < r.len() ==> #[trigger] r[k].0 <= r[k].1 <= s.len()
}

/// The text of each range of `r` in `s`.
pub open spec fn span_texts(s: Seq<char>, r: Seq<(usize, usize)>) -> Seq<Seq<char>> {
    r.map_values(|p: (usize, usize)| s.subrange(p.0 as int, p.1 as int))
}

/// The words of a text are words, and a text that ends in a non-space has one.
pub proof fn lemma_words_are_words(s: Seq<char>)
    ensures
        all_words(words(s)),
        s.len() > 0 && !is_space(s.last()) ==> words(s).len() > 0,
    decreases s.len(),
{
    if s.len() > 0 {
        let p = s.drop_last();
        lemma_words_are_words(p);
        let prev = words(p);
        let c = s.last();
        if is_space(c) {
        } else if s.len() >= 2 && !is_space(s[s.len() - 2]) {
            assert(p.last() == s[s.len() - 2]);
            let w = prev.last().push(c);
            assert(is_word(prev[prev.len() - 1]));
            assert(is_word(w)) by {
                assert forall|i: int| 0 <= i < w.len() implies !is_space(#[trigger] w[i]) by {
                    if i < w.len() - 1 {
                        assert(w[i] == prev[prev.len() - 1][i]);
                    }
                }
            }
            assert forall|k: int| 0 <= k < words(s).len() implies is_word(#[trigger] words(s)[k]) by {
                if k < prev.len() - 1 {
                    assert(words(s)[k] == prev[k]);
                }
            }
        } else {
            let w = seq![c];
            assert(is_word(w));
            assert forall|k: int| 0 <= k < words(s).len() implies is_word(#[trigger] words(s)[k]) by {
                if k < prev.len() {
                    assert(words(s)[k] == prev[k]);
                }
            }
        }
    }
}

/// Splitting text at a whitespace character splits its words.
pub proof fn lemma_words_split(a: Seq<char>, sp: char, b: Seq<char>)
    requires
        is_space(sp),
    ensures
        words(a + seq![sp] + b) == words(a) + words(b),
    decreases b.len(),
{
    let s = a + seq![sp] + b;
    if b.len() == 0 {
        assert(s.drop_last() =~= a);
        assert(words(a) + words(b) =~= words(a));
    } else {
        let b1 = b.drop_last();
        let c = b.last();
        lemma_words_split(a, sp, b1);
        assert(s.drop_last() =~= a + seq![sp] + b1);
        let ta = words(a);
        let tb1 = words(b1);
        if is_space(c) {
        } else {
            if b1.len() > 0 {
                assert(s[s.len() - 2] == b1.last());
                assert(b[b.len() - 2] == b1.last());
            } else {
                assert(s[s.len() - 2] == sp);
            }
            if b1.len() > 0 && !is_space(b1.last()) {
                lemma_words_are_words(b1);
                let p = ta + tb1;
                assert(p.last() == tb1.last());
                assert(p.update(p.len() - 1, p.last().push(c)) =~= ta + tb1.update(
                    tb1.len() - 1,
                    tb1.last().push(c),
                ));
            } else {
                assert((ta + tb1).push(seq![c]) =~= ta + tb1.push(seq![c]));
            }
        }
    }
}

/// A single word splits into itself.
pub proof fn lemma_words_of_word(w: Seq<char>)
    requires
        is_word(w),
    ensures
        words(w) == seq![w],
    decreases w.len(),
{
    let p = w.drop_last();
    if w.len() == 1 {
        assert(p.len() == 0);
        assert(words(p) == Seq::<Seq<char>>::empty());
        assert(seq![w.last()] =~= w);
        assert(words(w) == words(p).push(seq![w.last()]));
        assert(words(p).push(seq![w.last()]) =~= seq![w]);
    } else {
        assert(is_word(p)) by {
            assert forall|i: int| 0 <= i < p.len() implies !is_space(#[trigger] p[i]) by {
                assert(p[i] == w[i]);
            }
        }
        lemma_words_of_word(p);
        assert(w[w.len() - 2] == p.last());
        assert(!is_space(w[w.len() - 2]));
        assert(p.push(w.last()) =~= w);
        assert(seq![p].update(0, p.push(w.last())) =~= seq![w]);
    }
}

/// Joining words with single spaces and splitting the result gives the words back.
pub proof fn lemma_words_of_join(ws: Seq<Seq<char>>)
    requires
        all_words(ws),
    ensures
        words(join(ws)) == ws,
    decreases ws.len(),
{
    if ws.len() == 0 {
    } else if ws.len() == 1 {
        assert(is_word(ws[0]));
        lemma_words_of_word(ws[0]);
        assert(seq![ws[0]] =~= ws);
    } else {
        let p = ws.drop_last();
        assert(all_words(p)) by {
            assert forall|k: int| 0 <= k < p.len() implies is_word(#[trigger] p[k]) by {
                assert(p[k] == ws[k]);
            }
        }
        lemma_words_of_join(p);
        assert(is_word(ws[ws.len() - 1]));
        lemma_words_of_word(ws.last());
        lemma_words_split(join(p), ' ', ws.last());
        assert(p + seq![ws.last()] =~= ws);
    }
}

/// The words of a text, joined, are a normalized text.
pub proof fn lemma_join_is_normalized(ws: Seq<Seq<char>>)
    requires
        all_words(ws),
    ensures
        is_normalized(join(ws)),
{
    lemma_words_of_join(ws);
}

/// Joining one more word adds a space and the word.
pub proof fn lemma_join_step(ws: Seq<Seq<char>>, from: int, k: int)
    requires
        0 <= from < k < ws.len(),
    ensures
        join(ws.subrange(from, k + 1)) == join(ws.subrange(from, k)) + seq![' '] + ws[k],
{
    let t = ws.subrange(from, k + 1);
    assert(t.drop_last() =~= ws.subrange(from, k));
    assert(t.last() == ws[k]);
}

/// `char::is_whitespace`.
pub fn char_is_space(c: char) -> (r: bool)
    ensures
        r == is_space(c),
{
    ('\u{9}' <= c && c <= '\u{d}') || c == ' ' || c == '\u{85}' || c == '\u{a0}' || c == '\u{1680}'
        || ('\u{2000}' <= c && c <= '\u{200a}') || c == '\u{2028}' || c == '\u{2029}' || c
        == '\u{202f}' || c == '\u{205f}' || c == '\u{3000}'
}

/// The characters of `line`, in order.
pub fn line_chars(line: &str) -> (v: Vec<char>)
    ensures
        v@ == line@,
{
    let mut v: Vec<char> = Vec::new();
    for c in it: line.chars()
        invariant
            v@ == it.seq().take(it.index() as int),
    {
        v.push(c);
    }
    v
}

/// The ranges of the whitespace-separated words of `chars`, in order.
pub fn split_words(chars: &Vec<char>) -> (r: Vec<(usize, usize)>)
    ensures
        spans_valid(chars@, r@),
        span_texts(chars@, r@) == words(chars@),
{
    let s = Ghost(chars@);
    let n = chars.len();
    let mut r: Vec<(usize, usize)> = Vec::new();
    let mut start: usize = 0;
    let mut in_word = false;
    let mut i: usize = 0;
    while i < n
        invariant
            n == chars.len(),
            s@ == chars@,
            i <= n,
            spans_valid(s@, r@),
            forall|k: int| 0 <= k < r.len() ==> #[trigger] r@[k].1 <= i,
            in_word <==> (i > 0 && !is_space(s@[i - 1])),
            in_word ==> start < i,
            span_texts(s@, r@) + (if in_word {
                seq![s@.subrange(start as int, i as int)]
            } else {
                seq![]
            }) == words(s@.take(i as int)),
        decreases n - i,
    {
        let c = chars[i];
        let ghost before = s@.take(i as int);
        let ghost after = s@.take(i + 1);
        assert(after.drop_last() =~= before);
        assert(after.last() == c);
        if char_is_space(c) {
            if in_word {
                let ghost old_r = r@;
                r.push((start, i));
                assert(span_texts(s@, r@) =~= span_texts(s@, old_r) + seq![
                    s@.subrange(start as int, i as int),
                ]);
            } else {
                assert(span_texts(s@, r@) + seq![] =~= span_texts(s@, r@));
            }
            in_word = false;
            assert(span_texts(s@, r@) + seq![] =~= span_texts(s@, r@));
        } else {
            if in_word {
                let ghost p = span_texts(s@, r@) + seq![s@.subrange(start as int, i as int)];
                assert(after[after.len() - 2] == s@[i - 1]);
                assert(s@.subrange(start as int, i as int).push(c) =~= s@.subrange(
                    start as int,
                    i + 1,
                ));
                assert(p.update(p.len() - 1, p.last().push(c)) =~= span_texts(s@, r@) + seq![
                    s@.subrange(start as int, i + 1),
                ]);
            } else {
                if i > 0 {
                    assert(after[after.len() - 2] == s@[i - 1]);
                }
                start = i;
                let ghost p = span_texts(s@, r@) + seq![];
                assert(p =~= span_texts(s@, r@));
                assert(seq![c] =~= s@.subrange(start as int, i + 1));
                assert(p.push(seq![c]) =~= span_texts(s@, r@) + seq![
                    s@.subrange(start as int, i + 1),
                ]);
            }
            in_word = true;
        }
        i = i + 1;
    }
    if in_word {
        let ghost old_r = r@;
        r.push((start, n));
        assert(span_texts(s@, r@) =~= span_texts(s@, old_r) + seq![
            s@.subrange(start as int, n as int),
        ]);
    } else {
        assert(span_texts(s@, r@) + seq![] =~= span_texts(s@, r@));
    }
    assert(s@.take(n as int) =~= s@);
    r
}

/// The text of one range of `line`.
pub fn span_text(line: &str, a: usize, b: usize) -> (t: String)
    requires
        a <= b <= line@.len(),
    ensures
        t@ == line@.subrange(a as int, b as int),
{
    line.substring_char(a, b).to_owned()
}

/// The texts of ranges `from..` of `r`, joined by single spaces.
pub fn join_spans(line: &str, r: &Vec<(usize, usize)>, from: usize) -> (t: String)
    requires
        spans_valid(line@, r@),
        from <= r.len(),
    ensures
        t@ == join(span_texts(line@, r@).subrange(from as int, r@.len() as int)),
{
    let ghost ws = span_texts(line@, r@);
    let mut t = String::new();
    let mut k = from;
    proof {
        reveal_strlit(" ");
        assert(ws.subrange(from as int, from as int) =~= Seq::<Seq<char>>::empty());
    }
    while k < r.len()
        invariant
            from <= k <= r.len(),
            ws == span_texts(line@, r@),
            spans_valid(line@, r@),
            t@ == join(ws.subrange(from as int, k as int)),
        decreases r.len() - k,
    {
        let (a, b) = r[k];
        assert(r@[k as int].0 <= r@[k as int].1 <= line@.len());
        if k > from {
            t.append(" ");
            proof {
                reveal_strlit(" ");
                lemma_join_step(ws, from as int, k as int);
            }
        } else {
            assert(ws.subrange(from as int, k + 1) =~= seq![ws[k as int]]);
        }
        t.append(line.substring_char(a, b));
        k = k + 1;
    }
    t
}

/// Whether the characters `a..b` of `chars` are the text `w`.
pub fn span_is(chars: &Vec<char>, a: usize, b: usize, w: &str) -> (r: bool)
    requires
        a <= b <= chars.len(),
    ensures
        r == (chars@.subrange(a as int, b as int) == w@),
{
    let ghost s = chars@.subrange(a as int, b as int);
    let n = w.unicode_len();
    if b - a != n {
        return false;
    }
    let mut i: usize = 0;
    while i < n
        invariant
            n == w@.len(),
            b - a == n,
            a <= b <= chars.len(),
            s == chars@.subrange(a as int, b as int),
            i <= n,
            forall|j: int| 0 <= j < i ==> #[trigger] s[j] == w@[j],
        decreases n - i,
    {
        assert(s[i as int] == chars@[a + i]);
        if chars[a + i] != w.get_char(i) {
            return false;
        }
        i = i + 1;
    }
    assert(s =~= w@);
    true
}

} // verus!
