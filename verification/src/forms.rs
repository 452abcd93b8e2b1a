//! The text of each kind of line, character by character, and what the
//! reader makes of it: these pin down the spelling of the format itself, not
//! only that reader and writer agree.
use vstd::prelude::*;

use crate::directive::{DirectiveView, SmoothingGroup};
use crate::error::ParseErrorKindView;
use crate::laws::{
    face_vertex_ok, law_write_then_read, line_vertex_ok, lemma_float_is_word, lemma_line_word,
    lemma_parse_all_each, lemma_prefixes, lemma_read_text, writable,
};
use crate::number::{
    all_digits, count_char, count_digits, decimal, digit_value, digits_value, eq_ignore_case,
    first_match, is_decimal_float, is_digit, is_exponent, is_float_text, is_mantissa,
    lemma_decimal, lemma_first_match, lemma_first_match_after, lemma_first_match_prefix, strip_plus, strip_sign,
};
use crate::parse::{line_vertex_fn, parsed_line};
use crate::text::{is_space, is_word, join, lemma_words_of_word, lemma_words_split, words};
use crate::write::{
    directive_line, directive_words, face_word, line_word, line_words, point_words,
};

verus! {

/// Two words joined: the first, a space, the second.
pub proof fn law_join_two(a: Seq<char>, b: Seq<char>)
    ensures
        join(seq![a, b]) == a + seq![' '] + b,
{
    let ws = seq![a, b];
    assert(ws.drop_last() =~= seq![a]);
    assert(join(seq![a]) == a);
    assert(ws.last() == b);
}

/// `f` and one face vertex, written and read.
proof fn lemma_one_face_vertex(fv: (usize, Option<usize>, Option<usize>))
    requires
        face_vertex_ok(fv),
    ensures
        directive_line(DirectiveView::Face(seq![fv])) == seq!['f', ' '] + face_word(fv),
        parsed_line(seq!['f', ' '] + face_word(fv)) == Ok::<
            Option<DirectiveView>,
            ParseErrorKindView,
        >(Some(DirectiveView::Face(seq![fv]))),
{
    lemma_prefixes();
    let d = DirectiveView::Face(seq![fv]);
    assert(writable(d));
    law_write_then_read(d);
    let ws = seq!["f"@] + seq![fv].map_values(
        |x: (usize, Option<usize>, Option<usize>)| face_word(x),
    );
    assert(ws =~= seq!["f"@, face_word(fv)]);
    law_join_two("f"@, face_word(fv));
    assert("f"@ =~= seq!['f']);
    assert("f"@ + seq![' '] + face_word(fv) =~= seq!['f', ' '] + face_word(fv));
}

/// A face of one vertex whose word is `text` is written as `f ` and `text`,
/// and that line reads as the face.
proof fn lemma_face_form(fv: (usize, Option<usize>, Option<usize>), text: Seq<char>)
    requires
        face_vertex_ok(fv),
        face_word(fv) == text,
    ensures
        directive_line(DirectiveView::Face(seq![fv])) == seq!['f', ' '] + text,
        parsed_line(seq!['f', ' '] + text) == Ok::<Option<DirectiveView>, ParseErrorKindView>(
            Some(DirectiveView::Face(seq![fv])),
        ),
{
    lemma_one_face_vertex(fv);
}

/// The four forms of a face vertex, with indices `v`, `t` (texture
/// coordinate) and `n` (normal): `v`, `v/t`, `v//n` and `v/t/n`, each index
/// in decimal, the texture coordinate before the normal.
pub proof fn law_face_vertex_words(v: usize, t: usize, n: usize)
    ensures
        face_word((v, None, None)) == decimal(v as nat),
        face_word((v, Some(t), None)) == decimal(v as nat) + seq!['/'] + decimal(t as nat),
        face_word((v, None, Some(n))) == decimal(v as nat) + seq!['/', '/'] + decimal(n as nat),
        face_word((v, Some(t), Some(n))) == decimal(v as nat) + seq!['/'] + decimal(t as nat)
            + seq!['/'] + decimal(n as nat),
{
    let dv = decimal(v as nat);
    let dt = decimal(t as nat);
    let dn = decimal(n as nat);
    assert(face_word((v, None, None)) =~= dv);
    assert(face_word((v, Some(t), None)) =~= dv + seq!['/'] + dt);
    assert(face_word((v, None, Some(n))) =~= dv + seq!['/', '/'] + dn);
    assert(face_word((v, Some(t), Some(n))) =~= dv + seq!['/'] + dt + seq!['/'] + dn);
}

/// A face of one vertex `v/t/n` (each index 1 or more) is written as the line
/// `f v/t/n`, and that line reads as `v` with texture coordinate `t` and
/// normal `n`.
#[verifier::spinoff_prover]
#[verifier::rlimit(40)]
pub proof fn law_face_line_v_t_n(v: usize, t: usize, n: usize)
    requires
        v >= 1,
        t >= 1,
        n >= 1,
    ensures
        directive_line(DirectiveView::Face(seq![(v, Some(t), Some(n))])) == seq!['f', ' ']
            + decimal(v as nat) + seq!['/'] + decimal(t as nat) + seq!['/'] + decimal(n as nat),
        parsed_line(
            seq!['f', ' '] + decimal(v as nat) + seq!['/'] + decimal(t as nat) + seq!['/']
                + decimal(n as nat),
        ) == Ok::<Option<DirectiveView>, ParseErrorKindView>(
            Some(DirectiveView::Face(seq![(v, Some(t), Some(n))])),
        ),
{
    let text = decimal(v as nat) + seq!['/'] + decimal(t as nat) + seq!['/'] + decimal(n as nat);
    law_face_vertex_words(v, t, n);
    lemma_face_form((v, Some(t), Some(n)), text);
    assert(seq!['f', ' '] + text =~= seq!['f', ' '] + decimal(v as nat) + seq!['/'] + decimal(
        t as nat,
    ) + seq!['/'] + decimal(n as nat));
}

/// The line `f v/t` (each index 1 or more) reads as `v` with texture
/// coordinate `t` and no normal.
#[verifier::spinoff_prover]
#[verifier::rlimit(40)]
pub proof fn law_face_line_v_t(v: usize, t: usize)
    requires
        v >= 1,
        t >= 1,
    ensures
        parsed_line(seq!['f', ' '] + decimal(v as nat) + seq!['/'] + decimal(t as nat)) == Ok::<
            Option<DirectiveView>,
            ParseErrorKindView,
        >(Some(DirectiveView::Face(seq![(v, Some(t), None)]))),
{
    let text = decimal(v as nat) + seq!['/'] + decimal(t as nat);
    law_face_vertex_words(v, t, 1);
    lemma_face_form((v, Some(t), None), text);
    assert(seq!['f', ' '] + text =~= seq!['f', ' '] + decimal(v as nat) + seq!['/'] + decimal(
        t as nat,
    ));
}

/// The line `f v//n` (each index 1 or more) reads as `v` with normal `n` and
/// no texture coordinate.
#[verifier::spinoff_prover]
#[verifier::rlimit(40)]
pub proof fn law_face_line_v_n(v: usize, n: usize)
    requires
        v >= 1,
        n >= 1,
    ensures
        parsed_line(seq!['f', ' '] + decimal(v as nat) + seq!['/', '/'] + decimal(n as nat))
            == Ok::<Option<DirectiveView>, ParseErrorKindView>(
            Some(DirectiveView::Face(seq![(v, None, Some(n))])),
        ),
{
    let text = decimal(v as nat) + seq!['/', '/'] + decimal(n as nat);
    law_face_vertex_words(v, 1, n);
    lemma_face_form((v, None, Some(n)), text);
    assert(seq!['f', ' '] + text =~= seq!['f', ' '] + decimal(v as nat) + seq!['/', '/']
        + decimal(n as nat));
}

/// The line `f v` (`v` 1 or more) reads as `v` alone.
#[verifier::spinoff_prover]
#[verifier::rlimit(40)]
pub proof fn law_face_line_v(v: usize)
    requires
        v >= 1,
    ensures
        parsed_line(seq!['f', ' '] + decimal(v as nat)) == Ok::<
            Option<DirectiveView>,
            ParseErrorKindView,
        >(Some(DirectiveView::Face(seq![(v, None, None)]))),
{
    law_face_vertex_words(v, 1, 1);
    lemma_face_form((v, None, None), decimal(v as nat));
}

/// `s` and the argument: `s off`, or `s` and the group in decimal.
#[verifier::spinoff_prover]
#[verifier::rlimit(40)]
pub proof fn law_smoothing_group_lines(n: u32)
    requires
        n >= 1,
    ensures
        directive_line(DirectiveView::Smoothing(SmoothingGroup::Group(n))) == seq!['s', ' ']
            + decimal(n as nat),
        directive_line(DirectiveView::Smoothing(SmoothingGroup::Off)) == seq![
            's',
            ' ',
            'o',
            'f',
            'f',
        ],
        parsed_line(seq!['s', ' '] + decimal(n as nat)) == Ok::<
            Option<DirectiveView>,
            ParseErrorKindView,
        >(Some(DirectiveView::Smoothing(SmoothingGroup::Group(n)))),
        parsed_line(seq!['s', ' ', 'o', 'f', 'f']) == Ok::<
            Option<DirectiveView>,
            ParseErrorKindView,
        >(Some(DirectiveView::Smoothing(SmoothingGroup::Off))),
{
    lemma_prefixes();
    let g = DirectiveView::Smoothing(SmoothingGroup::Group(n));
    let off = DirectiveView::Smoothing(SmoothingGroup::Off);
    law_write_then_read(g);
    law_write_then_read(off);
    law_join_two("s"@, decimal(n as nat));
    law_join_two("s"@, "off"@);
    assert("s"@ =~= seq!['s']);
    assert(seq!['s'] + seq![' '] + decimal(n as nat) =~= seq!['s', ' '] + decimal(n as nat));
    assert(seq!['s'] + seq![' '] + seq!['o', 'f', 'f'] =~= seq!['s', ' ', 'o', 'f', 'f']);
}

/// `s 0` turns smoothing off, as `s off` does.
#[verifier::spinoff_prover]
#[verifier::rlimit(40)]
pub proof fn law_smoothing_group_zero_is_off()
    ensures
        parsed_line(seq!['s', ' ', '0']) == Ok::<Option<DirectiveView>, ParseErrorKindView>(
            Some(DirectiveView::Smoothing(SmoothingGroup::Off)),
        ),
{
    lemma_prefixes();
    let z = seq!['0'];
    assert(is_word(z));
    lemma_words_of_word(z);
    lemma_read_text("s"@, z);
    law_join_two("s"@, z);
    assert("s"@ + seq![' '] + z =~= seq!['s', ' ', '0']);
    assert(z.drop_last() =~= Seq::<char>::empty());
    assert(z.last() == '0');
    assert(digits_value(Seq::<char>::empty()) == 0);
    assert(digits_value(z) == digits_value(z.drop_last()) * 10 + digit_value(z.last()));
}

/// The argument of `s` that holds a letter other than those of `off` is no
/// smoothing group: the line is an `InvalidSmoothingGroup` error with that
/// argument.
#[verifier::spinoff_prover]
#[verifier::rlimit(40)]
pub proof fn law_smoothing_group_letters_rejected(w: Seq<char>, k: int)
    requires
        is_word(w),
        0 <= k < w.len(),
        ('a' <= w[k] && w[k] <= 'z') || ('A' <= w[k] && w[k] <= 'Z'),
        w[k] != 'o' && w[k] != 'f' && w[k] != 'O' && w[k] != 'F',
    ensures
        parsed_line(seq!['s', ' '] + w) == Err::<Option<DirectiveView>, ParseErrorKindView>(
            ParseErrorKindView::InvalidSmoothingGroup(w),
        ),
{
    lemma_prefixes();
    lemma_words_of_word(w);
    lemma_read_text("s"@, w);
    law_join_two("s"@, w);
    assert("s"@ + seq![' '] + w =~= seq!['s', ' '] + w);
    assert(!eq_ignore_case(w, seq!['o', 'f', 'f'])) by {
        if w.len() == 3 {
            let off = seq!['o', 'f', 'f'];
            assert(off[k] == 'o' || off[k] == 'f');
        }
    }
    let d = strip_plus(w);
    assert(!all_digits(d)) by {
        if d.len() < w.len() {
            assert(k > 0);
            assert(d[k - 1] == w[k]);
        } else {
            assert(d[k] == w[k]);
        }
    }
}

/// The prefixes of the format, character by character.
proof fn lemma_prefix_texts()
    ensures
        "#"@ == seq!['#'],
        "v"@ == seq!['v'],
        "vt"@ == seq!['v', 't'],
        "vn"@ == seq!['v', 'n'],
        "f"@ == seq!['f'],
        "o"@ == seq!['o'],
        "mtllib"@ == seq!['m', 't', 'l', 'l', 'i', 'b'],
        "usemtl"@ == seq!['u', 's', 'e', 'm', 't', 'l'],
        "g"@ == seq!['g'],
        "s"@ == seq!['s'],
        "l"@ == seq!['l'],
        "p"@ == seq!['p'],
{
    reveal_strlit("#");
    reveal_strlit("v");
    reveal_strlit("vt");
    reveal_strlit("vn");
    reveal_strlit("f");
    reveal_strlit("o");
    reveal_strlit("mtllib");
    reveal_strlit("usemtl");
    reveal_strlit("g");
    reveal_strlit("s");
    reveal_strlit("l");
    reveal_strlit("p");
    assert("#"@ =~= seq!['#']);
    assert("v"@ =~= seq!['v']);
    assert("vt"@ =~= seq!['v', 't']);
    assert("vn"@ =~= seq!['v', 'n']);
    assert("f"@ =~= seq!['f']);
    assert("o"@ =~= seq!['o']);
    assert("mtllib"@ =~= seq!['m', 't', 'l', 'l', 'i', 'b']);
    assert("usemtl"@ =~= seq!['u', 's', 'e', 'm', 't', 'l']);
    assert("g"@ =~= seq!['g']);
    assert("s"@ =~= seq!['s']);
    assert("l"@ =~= seq!['l']);
    assert("p"@ =~= seq!['p']);
}

/// A line whose first word names no directive of the format reads as an
/// unknown directive: its first word and the rest of its words joined by
/// single spaces.
#[verifier::spinoff_prover]
#[verifier::rlimit(40)]
pub proof fn law_unknown_directive(line: Seq<char>)
    requires
        words(line).len() >= 1,
        !known_prefix(words(line)[0]),
    ensures
        parsed_line(line) == Ok::<Option<DirectiveView>, ParseErrorKindView>(
            Some(
                DirectiveView::Unknown {
                    prefix: words(line)[0],
                    rest: join(words(line).drop_first()),
                },
            ),
        ),
{
    lemma_prefix_texts();
}

/// The prefixes of the directives that the format names.
pub open spec fn known_prefix(p: Seq<char>) -> bool {
    ||| p == seq!['#']
    ||| p == seq!['v']
    ||| p == seq!['v', 't']
    ||| p == seq!['v', 'n']
    ||| p == seq!['f']
    ||| p == seq!['o']
    ||| p == seq!['m', 't', 'l', 'l', 'i', 'b']
    ||| p == seq!['u', 's', 'e', 'm', 't', 'l']
    ||| p == seq!['g']
    ||| p == seq!['s']
    ||| p == seq!['l']
    ||| p == seq!['p']
}

/// The text directives keep the rest of their words: `#` and `o` and `usemtl`
/// joined by single spaces, `mtllib` and `g` one name per word.
#[verifier::spinoff_prover]
#[verifier::rlimit(40)]
pub proof fn law_text_directives(line: Seq<char>)
    requires
        words(line).len() >= 1,
    ensures
        words(line)[0] == seq!['#'] ==> parsed_line(line) == Ok::<
            Option<DirectiveView>,
            ParseErrorKindView,
        >(Some(DirectiveView::Comment(join(words(line).drop_first())))),
        words(line)[0] == seq!['o'] ==> parsed_line(line) == Ok::<
            Option<DirectiveView>,
            ParseErrorKindView,
        >(Some(DirectiveView::ObjectName(join(words(line).drop_first())))),
        words(line)[0] == seq!['u', 's', 'e', 'm', 't', 'l'] ==> parsed_line(line) == Ok::<
            Option<DirectiveView>,
            ParseErrorKindView,
        >(Some(DirectiveView::UseMaterial(join(words(line).drop_first())))),
        words(line)[0] == seq!['m', 't', 'l', 'l', 'i', 'b'] ==> parsed_line(line) == Ok::<
            Option<DirectiveView>,
            ParseErrorKindView,
        >(Some(DirectiveView::MaterialLib(words(line).drop_first()))),
        words(line)[0] == seq!['g'] ==> parsed_line(line) == Ok::<
            Option<DirectiveView>,
            ParseErrorKindView,
        >(Some(DirectiveView::Group(words(line).drop_first()))),
{
    lemma_prefix_texts();
    assert(seq!['#'][0] == '#' && seq!['v'][0] == 'v' && seq!['f'][0] == 'f' && seq!['o'][0]
        == 'o' && seq!['g'][0] == 'g');
}

/// Whitespace is what Unicode's `White_Space` property names, as
/// `char::is_whitespace` tests it: tab, line feed, vertical tab, form feed,
/// carriage return, space, next line, no-break space, Ogham space mark, the
/// spaces U+2000 to U+200A, line and paragraph separator, narrow no-break
/// space, medium mathematical space and ideographic space. In particular no
/// printable ASCII character other than the space is whitespace.
pub proof fn law_whitespace(c: char)
    ensures
        ('!' <= c && c <= '~') ==> !is_space(c),
        (c < '\t' || ('\u{e}' <= c && c <= '\u{1f}')) ==> !is_space(c),
        ('\u{7f}' <= c && c <= '\u{84}') || ('\u{86}' <= c && c <= '\u{9f}') ==> !is_space(c),
        c > '\u{3000}' ==> !is_space(c),
        c == '\t' || c == '\n' || c == '\u{b}' || c == '\u{c}' || c == '\r' || c == ' ' || c
            == '\u{85}' || c == '\u{a0}' || c == '\u{1680}' || ('\u{2000}' <= c && c <= '\u{200a}')
            || c == '\u{2028}' || c == '\u{2029}' || c == '\u{202f}' || c == '\u{205f}' || c
            == '\u{3000}' ==> is_space(c),
{
}

/// Text of printable ASCII characters other than the space is one word, and
/// `#`, `o` or `usemtl` followed by it reads as that text.
#[verifier::spinoff_prover]
#[verifier::rlimit(40)]
pub proof fn law_printable_text(w: Seq<char>)
    requires
        w.len() > 0,
        forall|i: int| 0 <= i < w.len() ==> '!' <= #[trigger] w[i] && w[i] <= '~',
    ensures
        is_word(w),
        words(w) == seq![w],
        parsed_line(seq!['#', ' '] + w) == Ok::<Option<DirectiveView>, ParseErrorKindView>(
            Some(DirectiveView::Comment(w)),
        ),
        parsed_line(seq!['o', ' '] + w) == Ok::<Option<DirectiveView>, ParseErrorKindView>(
            Some(DirectiveView::ObjectName(w)),
        ),
        parsed_line(seq!['u', 's', 'e', 'm', 't', 'l', ' '] + w) == Ok::<
            Option<DirectiveView>,
            ParseErrorKindView,
        >(Some(DirectiveView::UseMaterial(w))),
{
    assert forall|i: int| 0 <= i < w.len() implies !is_space(#[trigger] w[i]) by {
        law_whitespace(w[i]);
    }
    lemma_words_of_word(w);
    lemma_prefix_texts();
    lemma_prefixes();
    assert(join(seq![w]) == w);
    lemma_read_text("#"@, w);
    lemma_read_text("o"@, w);
    lemma_read_text("usemtl"@, w);
    law_join_two("#"@, w);
    law_join_two("o"@, w);
    law_join_two("usemtl"@, w);
    assert(seq!['#'] + seq![' '] + w =~= seq!['#', ' '] + w);
    assert(seq!['o'] + seq![' '] + w =~= seq!['o', ' '] + w);
    assert(seq!['u', 's', 'e', 'm', 't', 'l'] + seq![' '] + w =~= seq![
        'u',
        's',
        'e',
        'm',
        't',
        'l',
        ' ',
    ] + w);
}

/// What the counting functions give on one character.
proof fn lemma_single(c: char)
    ensures
        count_char(seq![c], '.') == (if c == '.' { 1nat } else { 0nat }),
        count_digits(seq![c]) == (if is_digit(c) { 1nat } else { 0nat }),
        first_match(seq![c], 'e', 'E') == (if c == 'e' || c == 'E' {
            Some(0int)
        } else {
            None
        }),
{
    let one = seq![c];
    assert(one.drop_last() =~= Seq::<char>::empty());
    assert(one.last() == c);
    assert(count_char(Seq::<char>::empty(), '.') == 0);
    assert(count_digits(Seq::<char>::empty()) == 0);
    assert(first_match(Seq::<char>::empty(), 'e', 'E') is None);
}

proof fn lemma_counts_concat(a: Seq<char>, b: Seq<char>)
    ensures
        count_char(a + b, '.') == count_char(a, '.') + count_char(b, '.'),
        count_digits(a + b) == count_digits(a) + count_digits(b),
    decreases b.len(),
{
    if b.len() == 0 {
        assert(a + b =~= a);
    } else {
        lemma_counts_concat(a, b.drop_last());
        assert((a + b).drop_last() =~= a + b.drop_last());
        assert((a + b).last() == b.last());
    }
}

proof fn lemma_digit_counts(d: Seq<char>)
    requires
        all_digits(d),
    ensures
        count_char(d, '.') == 0,
        count_digits(d) == d.len(),
    decreases d.len(),
{
    if d.len() > 0 {
        let p = d.drop_last();
        assert(all_digits(p)) by {
            assert forall|i: int| 0 <= i < p.len() implies is_digit(#[trigger] p[i]) by {
                assert(p[i] == d[i]);
            }
        }
        lemma_digit_counts(p);
        assert(is_digit(d[d.len() - 1]));
    }
}

/// A text of digits and dots holds no `e` or `E`.
proof fn lemma_no_exponent_mark(m: Seq<char>)
    requires
        forall|i: int| 0 <= i < m.len() ==> is_digit(#[trigger] m[i]) || m[i] == '.',
    ensures
        first_match(m, 'e', 'E') is None,
{
    lemma_first_match(m, 'e', 'E');
    if first_match(m, 'e', 'E') is Some {
        let i = first_match(m, 'e', 'E')->0;
        assert(is_digit(m[i]) || m[i] == '.');
    }
}

/// `d.e`, where `d` and `e` are digits and one of them is not empty, is a
/// mantissa with no exponent mark.
proof fn lemma_dotted_mantissa(d: Seq<char>, e: Seq<char>)
    requires
        all_digits(d),
        all_digits(e),
        d.len() + e.len() > 0,
    ensures
        is_mantissa(d + seq!['.'] + e),
        first_match(d + seq!['.'] + e, 'e', 'E') is None,
{
    let m = d + seq!['.'] + e;
    lemma_digit_counts(d);
    lemma_digit_counts(e);
    lemma_counts_concat(d, seq!['.']);
    lemma_counts_concat(d + seq!['.'], e);
    lemma_single('.');
    assert forall|i: int| 0 <= i < m.len() implies is_digit(#[trigger] m[i]) || m[i] == '.' by {
        if i < d.len() {
            assert(m[i] == d[i]);
        } else if i > d.len() {
            assert(m[i] == e[i - d.len() - 1]);
        }
    }
    lemma_no_exponent_mark(m);
}

/// Digits alone are a mantissa with no exponent mark.
proof fn lemma_digits_mantissa(d: Seq<char>)
    requires
        all_digits(d),
        d.len() > 0,
    ensures
        is_mantissa(d),
        first_match(d, 'e', 'E') is None,
{
    lemma_digit_counts(d);
    lemma_no_exponent_mark(d);
}

/// A text that starts with a digit or a dot keeps its first character when
/// a sign is stripped.
proof fn lemma_unsigned_start(s: Seq<char>)
    requires
        s.len() > 0,
        is_digit(s[0]) || s[0] == '.',
    ensures
        strip_sign(s) == s,
{
}

/// `m e x`: a mantissa, an exponent mark and an exponent.
proof fn lemma_with_exponent(m: Seq<char>, mark: char, x: Seq<char>)
    requires
        is_mantissa(m),
        first_match(m, 'e', 'E') is None,
        mark == 'e' || mark == 'E',
        is_exponent(x),
    ensures
        is_decimal_float(m + seq![mark] + x),
{
    let b = m + seq![mark] + x;
    let t = seq![mark] + x;
    assert(b =~= m + t);
    lemma_first_match(m, 'e', 'E');
    let one = seq![mark];
    lemma_single(mark);
    lemma_first_match_prefix(one, x, 'e', 'E');
    lemma_first_match_after(m, t, 'e', 'E');
    assert(first_match(b, 'e', 'E') == Some(m.len() as int));
    assert(b.take(m.len() as int) =~= m);
    assert(b.skip(m.len() as int + 1) =~= x);
}

/// Every text that `str::parse::<f64>()` accepts in these shapes, whatever
/// its length, is a number: for digits `d` (not empty), `e` and `x` (not
/// empty), `d`, `d.e`, `e.d`, `-d.e`, `+d.e`, `d.eex`, `dE-x` and `-inf`.
#[verifier::spinoff_prover]
#[verifier::rlimit(40)]
pub proof fn law_float_texts(d: Seq<char>, e: Seq<char>, x: Seq<char>)
    requires
        all_digits(d),
        d.len() > 0,
        all_digits(e),
        all_digits(x),
        x.len() > 0,
    ensures
        is_float_text(d),
        is_float_text(d + seq!['.'] + e),
        is_float_text(e + seq!['.'] + d),
        is_float_text(seq!['-'] + d + seq!['.'] + e),
        is_float_text(seq!['+'] + d + seq!['.'] + e),
        is_float_text(d + seq!['.'] + e + seq!['e'] + x),
        is_float_text(d + seq!['E', '-'] + x),
        is_float_text(seq!['-', 'i', 'n', 'f']),
{
    assert(is_digit(d[0]));
    lemma_digits_mantissa(d);
    lemma_unsigned_start(d);
    let m = d + seq!['.'] + e;
    lemma_dotted_mantissa(d, e);
    assert(m[0] == d[0]);
    lemma_unsigned_start(m);
    let m2 = e + seq!['.'] + d;
    lemma_dotted_mantissa(e, d);
    assert(is_digit(m2[0]) || m2[0] == '.') by {
        if e.len() > 0 {
            assert(m2[0] == e[0]);
        }
    }
    lemma_unsigned_start(m2);
    assert(strip_sign(seq!['-'] + m) =~= m);
    assert(seq!['-'] + d + seq!['.'] + e =~= seq!['-'] + m);
    assert(strip_sign(seq!['+'] + m) =~= m);
    assert(seq!['+'] + d + seq!['.'] + e =~= seq!['+'] + m);
    assert(x[0] == x[0]);
    assert(strip_sign(x) =~= x) by {
        assert(is_digit(x[0]));
    }
    assert(is_exponent(x));
    lemma_with_exponent(m, 'e', x);
    let me = m + seq!['e'] + x;
    assert(me[0] == d[0]);
    lemma_unsigned_start(me);
    let mx = seq!['-'] + x;
    assert(strip_sign(mx) =~= x);
    assert(is_exponent(mx));
    lemma_with_exponent(d, 'E', mx);
    let de = d + seq!['E'] + mx;
    assert(de =~= d + seq!['E', '-'] + x);
    assert(de[0] == d[0]);
    lemma_unsigned_start(de);
    let inf = seq!['-', 'i', 'n', 'f'];
    assert(strip_sign(inf) =~= seq!['i', 'n', 'f']);
}

/// Texts that `str::parse::<f64>()` rejects are no number: the empty text,
/// a lone dot, two dots, and an exponent mark with no exponent.
#[verifier::spinoff_prover]
#[verifier::rlimit(40)]
pub proof fn law_float_texts_rejected(d: Seq<char>, e: Seq<char>)
    requires
        all_digits(d),
        d.len() > 0,
        all_digits(e),
    ensures
        !is_float_text(Seq::<char>::empty()),
        !is_float_text(seq!['.']),
        !is_float_text(d + seq!['.'] + e + seq!['.']),
        !is_float_text(d + seq!['e']),
{
    let dot = seq!['.'];
    lemma_single('.');
    lemma_single('e');
    assert(strip_sign(dot) == dot);
    assert(!eq_ignore_case(dot, seq!['i', 'n', 'f']));
    assert(strip_sign(Seq::<char>::empty()) == Seq::<char>::empty());
    assert(first_match(Seq::<char>::empty(), 'e', 'E') is None);
    // two dots
    let m = d + seq!['.'] + e;
    lemma_dotted_mantissa(d, e);
    let mm = m + dot;
    lemma_counts_concat(m, dot);
    lemma_digit_counts(d);
    lemma_digit_counts(e);
    lemma_counts_concat(d, dot);
    lemma_counts_concat(d + dot, e);
    assert(count_char(mm, '.') == 2);
    assert forall|i: int| 0 <= i < mm.len() implies is_digit(#[trigger] mm[i]) || mm[i] == '.' by {
        if i < m.len() {
            assert(mm[i] == m[i]);
            assert(is_digit(m[i]) || m[i] == '.');
        }
    }
    lemma_no_exponent_mark(mm);
    assert(is_digit(d[0]));
    assert(mm[0] == d[0]);
    lemma_unsigned_start(mm);
    lemma_not_word_of_letters(mm);
    // a trailing exponent mark
    let de = d + seq!['e'];
    assert(de[0] == d[0]);
    lemma_unsigned_start(de);
    lemma_not_word_of_letters(de);
    lemma_digits_mantissa(d);
    let one = seq!['e'];
    lemma_first_match(d, 'e', 'E');
    lemma_first_match_after(d, one, 'e', 'E');
    assert(de.skip(d.len() as int + 1) =~= Seq::<char>::empty());
}

/// A text that starts with a digit is none of `inf`, `infinity` and `nan`.
proof fn lemma_not_word_of_letters(s: Seq<char>)
    requires
        s.len() > 0,
        is_digit(s[0]),
    ensures
        !eq_ignore_case(s, seq!['i', 'n', 'f']),
        !eq_ignore_case(s, seq!['i', 'n', 'f', 'i', 'n', 'i', 't', 'y']),
        !eq_ignore_case(s, seq!['n', 'a', 'n']),
{
    assert(seq!['i', 'n', 'f'][0] == 'i');
    assert(seq!['i', 'n', 'f', 'i', 'n', 'i', 't', 'y'][0] == 'i');
    assert(seq!['n', 'a', 'n'][0] == 'n');
}

/// The decimal of `n`: one or more digits whose value is `n`, with no
/// leading zero but for `0` itself.
pub proof fn law_decimal(n: nat)
    ensures
        decimal(n).len() > 0,
        all_digits(decimal(n)),
        digits_value(decimal(n)) == n,
        decimal(n)[0] == '0' ==> n == 0 && decimal(n).len() == 1,
    decreases n,
{
    lemma_decimal(n);
    if n >= 10 {
        law_decimal(n / 10);
        assert(decimal(n)[0] == decimal(n / 10)[0]);
    }
}

/// `v x y z`: a vertex with numbers `x`, `y` and `z` is written as `v`, then
/// the three texts, each after one space, and that line reads as the vertex.
#[verifier::spinoff_prover]
#[verifier::rlimit(40)]
pub proof fn law_vertex_line(x: Seq<char>, y: Seq<char>, z: Seq<char>)
    requires
        is_float_text(x),
        is_float_text(y),
        is_float_text(z),
    ensures
        directive_line(DirectiveView::Vertex { x, y, z, w: None }) == seq!['v', ' '] + x + seq![' ']
            + y + seq![' '] + z,
        parsed_line(seq!['v', ' '] + x + seq![' '] + y + seq![' '] + z) == Ok::<
            Option<DirectiveView>,
            ParseErrorKindView,
        >(Some(DirectiveView::Vertex { x, y, z, w: None })),
{
    lemma_prefix_texts();
    let d = DirectiveView::Vertex { x, y, z, w: None };
    law_write_then_read(d);
    let ws = seq!["v"@, x, y, z];
    assert(directive_words(d) =~= ws);
    assert(ws.drop_last() =~= seq!["v"@, x, y]);
    assert(seq!["v"@, x, y].drop_last() =~= seq!["v"@, x]);
    law_join_two("v"@, x);
    let s3 = seq!["v"@, x, y];
    assert(s3.last() == y);
    assert(join(s3) == join(seq!["v"@, x]) + seq![' '] + y);
    assert(ws.last() == z);
    assert(join(ws) == join(s3) + seq![' '] + z);
    assert(join(ws) =~= seq!['v', ' '] + x + seq![' '] + y + seq![' '] + z);
}

/// The forms of a polyline vertex, `v` and `v/t`, and of a point, `v`,
/// each index in decimal.
pub proof fn law_element_words(v: usize, t: usize)
    ensures
        line_word((v, None)) == decimal(v as nat),
        line_word((v, Some(t))) == decimal(v as nat) + seq!['/'] + decimal(t as nat),
        point_words(seq![v]) == seq![decimal(v as nat)],
{
    assert(line_word((v, None)) =~= decimal(v as nat));
    assert(point_words(seq![v]) =~= seq![decimal(v as nat)]);
}

/// `l v1/t1 v2` (each index 1 or more) is the line of a polyline of the
/// vertex `v1` with texture coordinate `t1` and the vertex `v2`, and reads as
/// that polyline.
#[verifier::spinoff_prover]
#[verifier::rlimit(40)]
pub proof fn law_line_element_line(v1: usize, t1: usize, v2: usize)
    requires
        v1 >= 1,
        t1 >= 1,
        v2 >= 1,
    ensures
        directive_line(DirectiveView::LineElement(seq![(v1, Some(t1)), (v2, None)])) == seq![
            'l',
            ' ',
        ] + decimal(v1 as nat) + seq!['/'] + decimal(t1 as nat) + seq![' '] + decimal(v2 as nat),
        parsed_line(
            seq!['l', ' '] + decimal(v1 as nat) + seq!['/'] + decimal(t1 as nat) + seq![' ']
                + decimal(v2 as nat),
        ) == Ok::<Option<DirectiveView>, ParseErrorKindView>(
            Some(DirectiveView::LineElement(seq![(v1, Some(t1)), (v2, None)])),
        ),
{
    let l = seq![(v1, Some(t1)), (v2, None)];
    let d = DirectiveView::LineElement(l);
    assert(writable(d)) by {
        assert forall|i: int| 0 <= i < l.len() implies line_vertex_ok(#[trigger] l[i]) by {
            if i == 0 {
                assert(l[i] == (v1, Some(t1)));
            } else {
                assert(l[i] == (v2, None::<usize>));
            }
        }
    }
    lemma_line_element_text(v1, t1, v2);
    law_write_then_read(d);
}

/// The text of the polyline `v1/t1 v2`.
#[verifier::spinoff_prover]
proof fn lemma_line_element_text(v1: usize, t1: usize, v2: usize)
    ensures
        directive_line(DirectiveView::LineElement(seq![(v1, Some(t1)), (v2, None)])) == seq![
            'l',
            ' ',
        ] + decimal(v1 as nat) + seq!['/'] + decimal(t1 as nat) + seq![' '] + decimal(v2 as nat),
{
    lemma_prefix_texts();
    let l = seq![(v1, Some(t1)), (v2, None)];
    let d = DirectiveView::LineElement(l);
    law_element_words(v1, t1);
    law_element_words(v2, t1);
    let a = decimal(v1 as nat) + seq!['/'] + decimal(t1 as nat);
    let c = decimal(v2 as nat);
    let ws = seq!["l"@, a, c];
    assert(line_words(l) =~= seq![a, c]);
    assert(directive_words(d) =~= ws);
    assert(ws.drop_last() =~= seq!["l"@, a]);
    law_join_two("l"@, a);
    assert(ws.last() == c);
    assert(join(ws) == join(seq!["l"@, a]) + seq![' '] + c);
    assert(join(ws) =~= seq!['l', ' '] + decimal(v1 as nat) + seq!['/'] + decimal(t1 as nat)
        + seq![' '] + c);
}

/// `p v` (`v` 1 or more) is the line of the point `v`, and reads as it.
#[verifier::spinoff_prover]
#[verifier::rlimit(40)]
pub proof fn law_point_element_line(v: usize)
    requires
        v >= 1,
    ensures
        directive_line(DirectiveView::PointElement(seq![v])) == seq!['p', ' '] + decimal(v as nat),
        parsed_line(seq!['p', ' '] + decimal(v as nat)) == Ok::<
            Option<DirectiveView>,
            ParseErrorKindView,
        >(Some(DirectiveView::PointElement(seq![v]))),
{
    lemma_prefix_texts();
    let d = DirectiveView::PointElement(seq![v]);
    law_write_then_read(d);
    law_element_words(v, 1);
    assert(directive_words(d) =~= seq!["p"@, decimal(v as nat)]);
    law_join_two("p"@, decimal(v as nat));
    assert(seq!['p'] + seq![' '] + decimal(v as nat) =~= seq!['p', ' '] + decimal(v as nat));
}

/// Element lines that do not read: a polyline of one vertex, a point element
/// with no vertex, and a face vertex of index 0.
#[verifier::spinoff_prover]
#[verifier::rlimit(40)]
pub proof fn law_element_errors(v: usize)
    requires
        v >= 1,
    ensures
        parsed_line(seq!['l', ' '] + decimal(v as nat)) == Err::<
            Option<DirectiveView>,
            ParseErrorKindView,
        >(ParseErrorKindView::LineElementTooShort),
        parsed_line(seq!['p']) == Err::<Option<DirectiveView>, ParseErrorKindView>(
            ParseErrorKindView::PointElementEmpty,
        ),
        parsed_line(seq!['f', ' ', '0']) == Err::<Option<DirectiveView>, ParseErrorKindView>(
            ParseErrorKindView::InvalidIndex { kind: "vertex"@, value: seq!['0'] },
        ),
{
    lemma_prefix_texts();
    lemma_prefixes();
    // `l v`
    let dv = decimal(v as nat);
    lemma_line_word((v, None));
    law_element_words(v, 1);
    lemma_words_of_word(dv);
    lemma_read_text("l"@, dv);
    law_join_two("l"@, dv);
    assert(seq!['l'] + seq![' '] + dv =~= seq!['l', ' '] + dv);
    lemma_parse_all_each(seq![dv], seq![(v, None::<usize>)], line_vertex_fn());
    // `p`
    let p = seq!['p'];
    assert(is_word(p));
    lemma_words_of_word(p);
    assert(words(p).drop_first() =~= Seq::<Seq<char>>::empty());
    // `f 0`
    let z = seq!['0'];
    assert(is_word(z));
    lemma_words_of_word(z);
    lemma_read_text("f"@, z);
    law_join_two("f"@, z);
    assert(seq!['f'] + seq![' '] + z =~= seq!['f', ' ', '0']);
    assert(z.drop_last() =~= Seq::<char>::empty());
    assert(z.last() == '0');
    assert(digits_value(z) == digits_value(z.drop_last()) * 10 + digit_value(z.last()));
    lemma_single('/');
    assert(first_match(z, '/', '/') is None) by {
        lemma_first_match(z, '/', '/');
        if first_match(z, '/', '/') is Some {
            assert(z[0] == '0');
        }
    }
    let zs = seq![z];
    assert(zs.drop_last() =~= Seq::<Seq<char>>::empty());
    assert(zs.last() == z);
}

/// A vertex line whose numbers do not all read gives the error of its first
/// field that is missing or does not read, in the order `x`, `y`, `z`.
#[verifier::spinoff_prover]
#[verifier::rlimit(40)]
pub proof fn law_vertex_errors(x: Seq<char>, bad: Seq<char>)
    requires
        is_float_text(x),
        is_word(bad),
        !is_float_text(bad),
    ensures
        parsed_line(seq!['v']) == Err::<Option<DirectiveView>, ParseErrorKindView>(
            ParseErrorKindView::MissingField("vertex x"@),
        ),
        parsed_line(seq!['v', ' '] + x) == Err::<Option<DirectiveView>, ParseErrorKindView>(
            ParseErrorKindView::MissingField("vertex y"@),
        ),
        parsed_line(seq!['v', ' '] + bad) == Err::<Option<DirectiveView>, ParseErrorKindView>(
            ParseErrorKindView::InvalidNumber { field: "vertex x"@, value: bad },
        ),
        parsed_line(seq!['v', ' '] + x + seq![' '] + bad) == Err::<
            Option<DirectiveView>,
            ParseErrorKindView,
        >(ParseErrorKindView::InvalidNumber { field: "vertex y"@, value: bad }),
{
    lemma_prefix_texts();
    lemma_prefixes();
    lemma_float_is_word(x);
    let v = seq!['v'];
    assert(is_word(v));
    lemma_words_of_word(v);
    assert(words(v).drop_first() =~= Seq::<Seq<char>>::empty());
    lemma_words_of_word(x);
    lemma_words_of_word(bad);
    lemma_read_text("v"@, x);
    lemma_read_text("v"@, bad);
    law_join_two("v"@, x);
    law_join_two("v"@, bad);
    assert(seq!['v'] + seq![' '] + x =~= seq!['v', ' '] + x);
    assert(seq!['v'] + seq![' '] + bad =~= seq!['v', ' '] + bad);
    let xb = x + seq![' '] + bad;
    lemma_words_split(x, ' ', bad);
    assert(words(xb) =~= seq![x, bad]);
    lemma_read_text("v"@, xb);
    law_join_two("v"@, xb);
    assert(seq!['v'] + seq![' '] + xb =~= seq!['v', ' '] + x + seq![' '] + bad);
}

/// Words joined one after the other, each after one space.
proof fn lemma_join_more(a: Seq<char>, b: Seq<char>, c: Seq<char>, d: Seq<char>, e: Seq<char>)
    ensures
        join(seq![a, b, c]) == a + seq![' '] + b + seq![' '] + c,
        join(seq![a, b, c, d]) == a + seq![' '] + b + seq![' '] + c + seq![' '] + d,
        join(seq![a, b, c, d, e]) == a + seq![' '] + b + seq![' '] + c + seq![' '] + d + seq![' ']
            + e,
{
    law_join_two(a, b);
    let s3 = seq![a, b, c];
    let s4 = seq![a, b, c, d];
    let s5 = seq![a, b, c, d, e];
    assert(s3.drop_last() =~= seq![a, b]);
    assert(s3.last() == c);
    assert(join(s3) == join(seq![a, b]) + seq![' '] + c);
    assert(s4.drop_last() =~= s3);
    assert(s4.last() == d);
    assert(join(s4) == join(s3) + seq![' '] + d);
    assert(s5.drop_last() =~= s4);
    assert(s5.last() == e);
    assert(join(s5) == join(s4) + seq![' '] + e);
}

/// `vt u v`, with numbers that read: each number after one space, and the
/// line reads back as `u` then `v`.
#[verifier::spinoff_prover]
#[verifier::rlimit(40)]
pub proof fn law_texture_coordinate_line(a: Seq<char>, b: Seq<char>)
    requires
        is_float_text(a),
        is_float_text(b),
    ensures
        directive_line(DirectiveView::TextureCoordinate { u: a, v: Some(b), w: None }) == seq![
            'v',
            't',
            ' ',
        ] + a + seq![' '] + b,
        parsed_line(seq!['v', 't', ' '] + a + seq![' '] + b) == Ok::<
            Option<DirectiveView>,
            ParseErrorKindView,
        >(Some(DirectiveView::TextureCoordinate { u: a, v: Some(b), w: None })),
{
    lemma_prefix_texts();
    let t = DirectiveView::TextureCoordinate { u: a, v: Some(b), w: None };
    law_write_then_read(t);
    assert(directive_words(t) =~= seq!["vt"@, a, b]);
    lemma_join_more("vt"@, a, b, b, b);
    assert(seq!['v', 't'] + seq![' '] + a + seq![' '] + b =~= seq!['v', 't', ' '] + a + seq![' ']
        + b);
}

/// `vn nx ny nz`, with numbers that read: each number after one space, and
/// the line reads back as the three numbers in that order.
#[verifier::spinoff_prover]
#[verifier::rlimit(40)]
pub proof fn law_normal_line(a: Seq<char>, b: Seq<char>, c: Seq<char>)
    requires
        is_float_text(a),
        is_float_text(b),
        is_float_text(c),
    ensures
        directive_line(DirectiveView::Normal { nx: a, ny: b, nz: c }) == seq!['v', 'n', ' '] + a
            + seq![' '] + b + seq![' '] + c,
        parsed_line(seq!['v', 'n', ' '] + a + seq![' '] + b + seq![' '] + c) == Ok::<
            Option<DirectiveView>,
            ParseErrorKindView,
        >(Some(DirectiveView::Normal { nx: a, ny: b, nz: c })),
{
    lemma_prefix_texts();
    let n = DirectiveView::Normal { nx: a, ny: b, nz: c };
    law_write_then_read(n);
    assert(directive_words(n) =~= seq!["vn"@, a, b, c]);
    lemma_join_more("vn"@, a, b, c, c);
    assert(seq!['v', 'n'] + seq![' '] + a + seq![' '] + b + seq![' '] + c =~= seq!['v', 'n', ' ']
        + a + seq![' '] + b + seq![' '] + c);
}

/// `v x y z w`, with numbers that read: each number after one space, and the
/// line reads back as the four numbers in that order, `w` last.
#[verifier::spinoff_prover]
#[verifier::rlimit(40)]
pub proof fn law_vertex_line_with_w(a: Seq<char>, b: Seq<char>, c: Seq<char>, d: Seq<char>)
    requires
        is_float_text(a),
        is_float_text(b),
        is_float_text(c),
        is_float_text(d),
    ensures
        directive_line(DirectiveView::Vertex { x: a, y: b, z: c, w: Some(d) }) == seq!['v', ' ']
            + a + seq![' '] + b + seq![' '] + c + seq![' '] + d,
        parsed_line(seq!['v', ' '] + a + seq![' '] + b + seq![' '] + c + seq![' '] + d) == Ok::<
            Option<DirectiveView>,
            ParseErrorKindView,
        >(Some(DirectiveView::Vertex { x: a, y: b, z: c, w: Some(d) })),
{
    lemma_prefix_texts();
    let v = DirectiveView::Vertex { x: a, y: b, z: c, w: Some(d) };
    law_write_then_read(v);
    assert(directive_words(v) =~= seq!["v"@, a, b, c, d]);
    lemma_join_more("v"@, a, b, c, d);
    assert(seq!['v'] + seq![' '] + a + seq![' '] + b + seq![' '] + c + seq![' '] + d =~= seq![
        'v',
        ' ',
    ] + a + seq![' '] + b + seq![' '] + c + seq![' '] + d);
}

} // verus!
