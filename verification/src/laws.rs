//! What the reader and the writer promise of each other: a written line
//! reads back as the directive it was written from, and whatever the reader
//! gives, the writer can write.
use vstd::prelude::*;

use crate::directive::{DirectiveView, SmoothingGroup};
use crate::error::ParseErrorKindView;
use crate::number::{
    all_digits, count_digits, decimal, digits_value, eq_ignore_case, first_match, is_digit,
    is_exponent, is_float_text, is_mantissa, lemma_decimal, lemma_digits_no_match,
    lemma_first_match, lemma_first_match_after, lemma_parse_decimal, parse_unsigned, strip_plus,
    strip_sign,
};
use crate::parse::{
    float_accepted, number_count, number_texts, parse_directive_with, parsed_line_with, std_floats,
    face_vertex, face_vertex_fn, index_value, line_vertex, line_vertex_fn, optional_index,
    parse_all, parse_directive, parsed_line, point_vertex, point_vertex_fn, smoothing_group,
};
use crate::text::{
    all_words, is_normalized, is_space, is_word, join, lemma_join_is_normalized,
    lemma_words_are_words, lemma_words_of_join, lemma_words_of_word, lemma_words_split, words,
};
use crate::write::{
    directive_line, directive_words, face_word, face_words, line_word, line_words, opt_word,
    point_words, smoothing_word,
};

verus! {

/// Every index of a face vertex is 1 or more.
pub open spec fn face_vertex_ok(fv: (usize, Option<usize>, Option<usize>)) -> bool {
    &&& fv.0 >= 1
    &&& (fv.1 matches Some(t) ==> t >= 1)
    &&& (fv.2 matches Some(n) ==> n >= 1)
}

/// Every index of a polyline vertex is 1 or more.
pub open spec fn line_vertex_ok(lv: (usize, Option<usize>)) -> bool {
    &&& lv.0 >= 1
    &&& (lv.1 matches Some(t) ==> t >= 1)
}

/// A number that is left out, or whose text reads as a number.
pub open spec fn opt_float(o: Option<Seq<char>>) -> bool {
    o matches Some(t) ==> is_float_text(t)
}

/// A directive that the writer can write so that the reader reads it back:
/// texts in their normal form, names and numbers without whitespace,
/// numbers that read as numbers, 1-based indices, a named smoothing group
/// other than 0, and enough vertices for a polyline or a point element.
pub open spec fn writable(d: DirectiveView) -> bool {
    match d {
        DirectiveView::Comment(t) => is_normalized(t),
        DirectiveView::ObjectName(t) => is_normalized(t),
        DirectiveView::UseMaterial(t) => is_normalized(t),
        DirectiveView::Vertex { x, y, z, w } => is_float_text(x) && is_float_text(y)
            && is_float_text(z) && opt_float(w),
        DirectiveView::TextureCoordinate { u, v, w } => is_float_text(u) && opt_float(v)
            && opt_float(w) && (w is Some ==> v is Some),
        DirectiveView::Normal { nx, ny, nz } => is_float_text(nx) && is_float_text(ny)
            && is_float_text(nz),
        DirectiveView::Face(l) => forall|i: int| 0 <= i < l.len() ==> face_vertex_ok(#[trigger] l[i]),
        DirectiveView::MaterialLib(names) => all_words(names),
        DirectiveView::Group(names) => all_words(names),
        DirectiveView::Smoothing(g) => g != SmoothingGroup::Group(0),
        DirectiveView::LineElement(l) => l.len() >= 2 && forall|i: int|
            0 <= i < l.len() ==> line_vertex_ok(#[trigger] l[i]),
        DirectiveView::PointElement(l) => l.len() >= 1 && forall|i: int|
            0 <= i < l.len() ==> #[trigger] l[i] >= 1,
        DirectiveView::Unknown { .. } => false,
    }
}

pub(crate) proof fn lemma_prefixes()
    ensures
        is_word("#"@),
        "#"@.len() == 1,
        "#"@[0] == '#',
        is_word("v"@),
        "v"@.len() == 1,
        "v"@[0] == 'v',
        is_word("vt"@),
        "vt"@.len() == 2,
        "vt"@[0] == 'v',
        "vt"@[1] == 't',
        is_word("vn"@),
        "vn"@.len() == 2,
        "vn"@[0] == 'v',
        "vn"@[1] == 'n',
        is_word("f"@),
        "f"@.len() == 1,
        "f"@[0] == 'f',
        is_word("o"@),
        "o"@.len() == 1,
        "o"@[0] == 'o',
        is_word("mtllib"@),
        "mtllib"@.len() == 6,
        "mtllib"@[0] == 'm',
        "mtllib"@[1] == 't',
        is_word("usemtl"@),
        "usemtl"@.len() == 6,
        "usemtl"@[0] == 'u',
        "usemtl"@[1] == 's',
        is_word("g"@),
        "g"@.len() == 1,
        "g"@[0] == 'g',
        is_word("s"@),
        "s"@.len() == 1,
        "s"@[0] == 's',
        is_word("l"@),
        "l"@.len() == 1,
        "l"@[0] == 'l',
        is_word("p"@),
        "p"@.len() == 1,
        "p"@[0] == 'p',
        is_word("off"@),
        "off"@.len() == 3,
        "off"@[0] == 'o',
        "off"@[1] == 'f',
        "off"@ == seq!['o', 'f', 'f'],
{
    reveal_strlit("#");
    reveal_strlit("v");
    reveal_strlit("vt");
    reveal_strlit("vn");
    reveal_strlit("f");
    reveal_strlit("o");
    reveal_strlit("mtllib");
    reveal_strlit("usemtl");
    reveal_strlit("g");
    reveal_strlit("s");
    reveal_strlit("l");
    reveal_strlit("p");
    reveal_strlit("off");
    assert("off"@ =~= seq!['o', 'f', 'f']);
}

pub(crate) proof fn lemma_count_digits(m: Seq<char>)
    ensures
        count_digits(m) <= m.len(),
    decreases m.len(),
{
    if m.len() > 0 {
        lemma_count_digits(m.drop_last());
    }
}

proof fn lemma_digits_word(s: Seq<char>)
    requires
        all_digits(s),
    ensures
        forall|i: int| 0 <= i < s.len() ==> !is_space(#[trigger] s[i]),
{
    assert forall|i: int| 0 <= i < s.len() implies !is_space(#[trigger] s[i]) by {
        assert(is_digit(s[i]));
    }
}

proof fn lemma_ci_no_space(b: Seq<char>, w: Seq<char>)
    requires
        eq_ignore_case(b, w),
        forall|i: int| 0 <= i < w.len() ==> 'a' <= #[trigger] w[i] && w[i] <= 'z',
    ensures
        forall|i: int| 0 <= i < b.len() ==> !is_space(#[trigger] b[i]),
{
    assert forall|i: int| 0 <= i < b.len() implies !is_space(#[trigger] b[i]) by {
        assert('a' <= w[i] && w[i] <= 'z');
        assert(b[i] == w[i] || b[i] as int + 32 == w[i] as int);
    }
}

/// A number that reads as a floating-point number is a single word.
pub proof fn lemma_float_is_word(s: Seq<char>)
    requires
        is_float_text(s),
    ensures
        is_word(s),
{
    let b = strip_sign(s);
    let inf = seq!['i', 'n', 'f'];
    let infinity = seq!['i', 'n', 'f', 'i', 'n', 'i', 't', 'y'];
    let nan = seq!['n', 'a', 'n'];
    assert(b.len() > 0 && forall|i: int| 0 <= i < b.len() ==> !is_space(#[trigger] b[i])) by {
        if eq_ignore_case(b, inf) {
            lemma_ci_no_space(b, inf);
        } else if eq_ignore_case(b, infinity) {
            lemma_ci_no_space(b, infinity);
        } else if eq_ignore_case(b, nan) {
            lemma_ci_no_space(b, nan);
        } else {
            lemma_first_match(b, 'e', 'E');
            match first_match(b, 'e', 'E') {
                None => {
                    lemma_count_digits(b);
                    assert forall|i: int| 0 <= i < b.len() implies !is_space(#[trigger] b[i]) by {
                        assert(is_digit(b[i]) || b[i] == '.');
                    }
                },
                Some(p) => {
                    let m = b.take(p);
                    let x = b.skip(p + 1);
                    let d = strip_sign(x);
                    assert forall|i: int| 0 <= i < b.len() implies !is_space(#[trigger] b[i]) by {
                        if i < p {
                            assert(b[i] == m[i]);
                            assert(is_digit(m[i]) || m[i] == '.');
                        } else if i == p {
                        } else {
                            assert(b[i] == x[i - p - 1]);
                            if d.len() < x.len() {
                                if i - p - 1 > 0 {
                                    assert(x[i - p - 1] == d[i - p - 2]);
                                    assert(is_digit(d[i - p - 2]));
                                }
                            } else {
                                assert(d =~= x);
                                assert(is_digit(d[i - p - 1]));
                            }
                        }
                    }
                },
            }
        }
    }
    assert forall|i: int| 0 <= i < s.len() implies !is_space(#[trigger] s[i]) by {
        if b.len() < s.len() {
            if i > 0 {
                assert(s[i] == b[i - 1]);
            }
        } else {
            assert(b =~= s);
        }
    }
}

proof fn lemma_opt_float_word(o: Option<Seq<char>>)
    requires
        opt_float(o),
    ensures
        all_words(opt_word(o)),
{
    if o is Some {
        lemma_float_is_word(o->0);
    }
}

/// The decimal of a number is a single word.
pub proof fn lemma_decimal_is_word(n: nat)
    ensures
        is_word(decimal(n)),
{
    lemma_decimal(n);
    lemma_digits_word(decimal(n));
}

/// The characters of `a + b` are the characters of `a`, then of `b`.
proof fn lemma_concat_word(a: Seq<char>, b: Seq<char>)
    requires
        is_word(a),
        forall|i: int| 0 <= i < b.len() ==> !is_space(#[trigger] b[i]),
    ensures
        is_word(a + b),
{
    let s = a + b;
    assert forall|i: int| 0 <= i < s.len() implies !is_space(#[trigger] s[i]) by {
        if i < a.len() {
            assert(s[i] == a[i]);
        } else {
            assert(s[i] == b[i - a.len()]);
        }
    }
}

proof fn lemma_tail_no_space(a: Seq<char>, b: Seq<char>)
    requires
        forall|i: int| 0 <= i < a.len() ==> !is_space(#[trigger] a[i]),
        forall|i: int| 0 <= i < b.len() ==> !is_space(#[trigger] b[i]),
    ensures
        forall|i: int| 0 <= i < (a + b).len() ==> !is_space(#[trigger] (a + b)[i]),
{
    let s = a + b;
    assert forall|i: int| 0 <= i < s.len() implies !is_space(#[trigger] s[i]) by {
        if i < a.len() {
            assert(s[i] == a[i]);
        } else {
            assert(s[i] == b[i - a.len()]);
        }
    }
}

/// A 1-based index written in decimal reads back as itself.
proof fn lemma_index_of_decimal(n: usize, kind: Seq<char>)
    requires
        n >= 1,
    ensures
        index_value(decimal(n as nat), kind) == Ok::<usize, ParseErrorKindView>(n),
        optional_index(decimal(n as nat), kind) == Ok::<Option<usize>, ParseErrorKindView>(
            Some(n),
        ),
{
    lemma_parse_decimal(n as nat, usize::MAX as nat);
    lemma_decimal(n as nat);
}

proof fn lemma_slash_split(a: Seq<char>, rest: Seq<char>)
    requires
        all_digits(a),
    ensures
        first_match(a + seq!['/'] + rest, '/', '/') == Some(a.len() as int),
        (a + seq!['/'] + rest).take(a.len() as int) == a,
        (a + seq!['/'] + rest).skip(a.len() as int + 1) == rest,
{
    lemma_digits_no_match(a, '/', '/');
    let y = seq!['/'] + rest;
    lemma_first_match_after(a, y, '/', '/');
    assert(y.take(1) =~= seq!['/']);
    assert(first_match(seq!['/'], '/', '/') == Some(0int)) by {
        assert(seq!['/'].drop_last() =~= Seq::<char>::empty());
        assert(first_match(Seq::<char>::empty(), '/', '/') is None);
        assert(seq!['/'].last() == '/');
    }
    crate::number::lemma_first_match_prefix(seq!['/'], rest, '/', '/');
    assert(seq!['/'] + rest =~= y);
    assert(a + seq!['/'] + rest =~= a + y);
    assert((a + seq!['/'] + rest).take(a.len() as int) =~= a);
    assert((a + seq!['/'] + rest).skip(a.len() as int + 1) =~= rest);
}

proof fn lemma_face_word_v(v: usize)
    requires
        v >= 1,
    ensures
        is_word(face_word((v, None, None))),
        face_vertex(face_word((v, None, None))) == Ok::<
            (usize, Option<usize>, Option<usize>),
            ParseErrorKindView,
        >((v, None, None)),
{
    let dv = decimal(v as nat);
    lemma_decimal(v as nat);
    lemma_decimal_is_word(v as nat);
    lemma_index_of_decimal(v, "vertex"@);
    let w = face_word((v, None, None));
    assert(w =~= dv);
    lemma_digits_no_match(dv, '/', '/');
}

proof fn lemma_face_word_vt(v: usize, t: usize)
    requires
        v >= 1,
        t >= 1,
    ensures
        is_word(face_word((v, Some(t), None))),
        face_vertex(face_word((v, Some(t), None))) == Ok::<
            (usize, Option<usize>, Option<usize>),
            ParseErrorKindView,
        >((v, Some(t), None)),
{
    let dv = decimal(v as nat);
    let dt = decimal(t as nat);
    lemma_decimal(v as nat);
    lemma_decimal_is_word(v as nat);
    lemma_index_of_decimal(v, "vertex"@);
    lemma_decimal(t as nat);
    lemma_digits_word(dt);
    lemma_index_of_decimal(t, "texcoord"@);
    let w = face_word((v, Some(t), None));
    assert(w =~= dv + seq!['/'] + dt);
    lemma_slash_split(dv, dt);
    lemma_digits_no_match(dt, '/', '/');
    assert(dt.len() > 0);
    lemma_tail_no_space(seq!['/'], dt);
    lemma_concat_word(dv, seq!['/'] + dt);
    assert(dv + (seq!['/'] + dt) =~= w);
}

proof fn lemma_face_word_vn(v: usize, n: usize)
    requires
        v >= 1,
        n >= 1,
    ensures
        is_word(face_word((v, None, Some(n)))),
        face_vertex(face_word((v, None, Some(n)))) == Ok::<
            (usize, Option<usize>, Option<usize>),
            ParseErrorKindView,
        >((v, None, Some(n))),
{
    let dv = decimal(v as nat);
    let dn = decimal(n as nat);
    lemma_decimal(v as nat);
    lemma_decimal_is_word(v as nat);
    lemma_index_of_decimal(v, "vertex"@);
    lemma_decimal(n as nat);
    lemma_digits_word(dn);
    lemma_index_of_decimal(n, "normal"@);
    let w = face_word((v, None, Some(n)));
    let rest = seq!['/'] + dn;
    assert(w =~= dv + seq!['/'] + rest);
    lemma_slash_split(dv, rest);
    lemma_slash_split(Seq::<char>::empty(), dn);
    assert(Seq::<char>::empty() + seq!['/'] + dn =~= rest);
    assert(rest.take(0) =~= Seq::<char>::empty());
    assert(optional_index(Seq::<char>::empty(), "texcoord"@) == Ok::<
        Option<usize>,
        ParseErrorKindView,
    >(None));
    lemma_tail_no_space(seq!['/', '/'], dn);
    lemma_concat_word(dv, seq!['/', '/'] + dn);
    assert(dv + (seq!['/', '/'] + dn) =~= w);
}

proof fn lemma_face_word_vtn(v: usize, t: usize, n: usize)
    requires
        v >= 1,
        t >= 1,
        n >= 1,
    ensures
        is_word(face_word((v, Some(t), Some(n)))),
        face_vertex(face_word((v, Some(t), Some(n)))) == Ok::<
            (usize, Option<usize>, Option<usize>),
            ParseErrorKindView,
        >((v, Some(t), Some(n))),
{
    let dv = decimal(v as nat);
    let dt = decimal(t as nat);
    let dn = decimal(n as nat);
    lemma_decimal(v as nat);
    lemma_decimal_is_word(v as nat);
    lemma_index_of_decimal(v, "vertex"@);
    lemma_decimal(t as nat);
    lemma_decimal(n as nat);
    lemma_digits_word(dt);
    lemma_digits_word(dn);
    lemma_index_of_decimal(t, "texcoord"@);
    lemma_index_of_decimal(n, "normal"@);
    let w = face_word((v, Some(t), Some(n)));
    let rest = dt + seq!['/'] + dn;
    assert(w =~= dv + seq!['/'] + rest);
    lemma_slash_split(dv, rest);
    lemma_slash_split(dt, dn);
    assert(rest.len() > 0);
    lemma_tail_no_space(seq!['/'] + dt + seq!['/'], dn);
    lemma_concat_word(dv, seq!['/'] + dt + seq!['/'] + dn);
    assert(dv + (seq!['/'] + dt + seq!['/'] + dn) =~= w);
}

/// A face vertex is written as one word that reads back as the vertex.
pub proof fn lemma_face_word(fv: (usize, Option<usize>, Option<usize>))
    requires
        face_vertex_ok(fv),
    ensures
        is_word(face_word(fv)),
        face_vertex(face_word(fv)) == Ok::<
            (usize, Option<usize>, Option<usize>),
            ParseErrorKindView,
        >(fv),
{
    match fv {
        (v, None, None) => lemma_face_word_v(v),
        (v, Some(t), None) => lemma_face_word_vt(v, t),
        (v, None, Some(n)) => lemma_face_word_vn(v, n),
        (v, Some(t), Some(n)) => lemma_face_word_vtn(v, t, n),
    }
}

/// A polyline vertex is written as one word that reads back as the vertex.
pub proof fn lemma_line_word(lv: (usize, Option<usize>))
    requires
        line_vertex_ok(lv),
    ensures
        is_word(line_word(lv)),
        line_vertex(line_word(lv)) == Ok::<(usize, Option<usize>), ParseErrorKindView>(lv),
{
    let (v, vt) = lv;
    let dv = decimal(v as nat);
    lemma_decimal(v as nat);
    lemma_decimal_is_word(v as nat);
    lemma_index_of_decimal(v, "vertex"@);
    let w = line_word(lv);
    match vt {
        None => {
            assert(w =~= dv);
            lemma_digits_no_match(dv, '/', '/');
        },
        Some(t) => {
            let dt = decimal(t as nat);
            lemma_decimal(t as nat);
            lemma_digits_word(dt);
            lemma_index_of_decimal(t, "texcoord"@);
            assert(w =~= dv + seq!['/'] + dt);
            lemma_slash_split(dv, dt);
            lemma_tail_no_space(seq!['/'], dt);
            lemma_concat_word(dv, seq!['/'] + dt);
            assert(dv + (seq!['/'] + dt) =~= w);
        },
    }
}

/// Reading parts that each read as the matching element gives all the elements.
pub proof fn lemma_parse_all_each<T>(
    ps: Seq<Seq<char>>,
    xs: Seq<T>,
    f: spec_fn(Seq<char>) -> Result<T, ParseErrorKindView>,
)
    requires
        ps.len() == xs.len(),
        forall|i: int| 0 <= i < ps.len() ==> #[trigger] f(ps[i]) == Ok::<T, ParseErrorKindView>(xs[i]),
    ensures
        parse_all(ps, f) == Ok::<Seq<T>, ParseErrorKindView>(xs),
    decreases ps.len(),
{
    if ps.len() > 0 {
        let p1 = ps.drop_last();
        let x1 = xs.drop_last();
        assert forall|i: int| 0 <= i < p1.len() implies #[trigger] f(p1[i]) == Ok::<
            T,
            ParseErrorKindView,
        >(x1[i]) by {
            assert(p1[i] == ps[i]);
            assert(f(ps[i]) == Ok::<T, ParseErrorKindView>(xs[i]));
        }
        lemma_parse_all_each(p1, x1, f);
        assert(f(ps[ps.len() - 1]) == Ok::<T, ParseErrorKindView>(xs[xs.len() - 1]));
        assert(x1.push(xs.last()) =~= xs);
    } else {
        assert(xs =~= Seq::<T>::empty());
    }
}

/// What reading parts gives: one element per part, each read from its part.
pub proof fn lemma_parse_all_ok<T>(
    ps: Seq<Seq<char>>,
    f: spec_fn(Seq<char>) -> Result<T, ParseErrorKindView>,
)
    requires
        parse_all(ps, f) is Ok,
    ensures
        parse_all(ps, f)->Ok_0.len() == ps.len(),
        forall|i: int|
            0 <= i < ps.len() ==> #[trigger] f(ps[i]) == Ok::<T, ParseErrorKindView>(
                parse_all(ps, f)->Ok_0[i],
            ),
    decreases ps.len(),
{
    if ps.len() > 0 {
        let p1 = ps.drop_last();
        lemma_parse_all_ok(p1, f);
        let l = parse_all(ps, f)->Ok_0;
        let l1 = parse_all(p1, f)->Ok_0;
        assert forall|i: int| 0 <= i < ps.len() implies #[trigger] f(ps[i]) == Ok::<
            T,
            ParseErrorKindView,
        >(l[i]) by {
            if i < p1.len() {
                assert(ps[i] == p1[i]);
                assert(f(p1[i]) == Ok::<T, ParseErrorKindView>(l1[i]));
            }
        }
    }
}

/// A line whose words are words reads as the directive its first word names.
proof fn lemma_read_words(ws: Seq<Seq<char>>)
    requires
        all_words(ws),
        ws.len() >= 1,
    ensures
        parsed_line(join(ws)) == match parse_directive(ws[0], ws.drop_first()) {
            Ok(d) => Ok::<Option<DirectiveView>, ParseErrorKindView>(Some(d)),
            Err(e) => Err(e),
        },
{
    lemma_words_of_join(ws);
}

/// `p t`, where `t` is a text in normal form, reads as the prefix `p` and the words of `t`.
pub(crate) proof fn lemma_read_text(p: Seq<char>, t: Seq<char>)
    requires
        is_word(p),
    ensures
        words(join(seq![p, t])) == seq![p] + words(t),
        parsed_line(join(seq![p, t])) == match parse_directive(p, words(t)) {
            Ok(d) => Ok::<Option<DirectiveView>, ParseErrorKindView>(Some(d)),
            Err(e) => Err(e),
        },
{
    let ws = seq![p, t];
    assert(ws.drop_last() =~= seq![p]);
    assert(join(seq![p]) == p);
    assert(ws.last() == t);
    assert(join(ws) == p + seq![' '] + t);
    lemma_words_split(p, ' ', t);
    lemma_words_of_word(p);
    let w = words(join(ws));
    assert(w =~= seq![p] + words(t));
    assert(w.drop_first() =~= words(t));
}

proof fn lemma_write_then_read_text(d: DirectiveView)
    requires
        writable(d),
        d is Comment || d is ObjectName || d is UseMaterial,
    ensures
        parsed_line(directive_line(d)) == Ok::<Option<DirectiveView>, ParseErrorKindView>(Some(d)),
{
    lemma_prefixes();
    match d {
        DirectiveView::Comment(t) => lemma_read_text("#"@, t),
        DirectiveView::ObjectName(t) => lemma_read_text("o"@, t),
        DirectiveView::UseMaterial(t) => lemma_read_text("usemtl"@, t),
        _ => {},
    }
}

proof fn lemma_write_then_read_numbers(d: DirectiveView)
    requires
        writable(d),
        d is Vertex || d is TextureCoordinate || d is Normal,
    ensures
        parsed_line(directive_line(d)) == Ok::<Option<DirectiveView>, ParseErrorKindView>(Some(d)),
{
    lemma_prefixes();
    let ws = directive_words(d);
    match d {
        DirectiveView::Vertex { x, y, z, w } => {
            lemma_float_is_word(x);
            lemma_float_is_word(y);
            lemma_float_is_word(z);
            lemma_opt_float_word(w);
            assert(all_words(ws)) by {
                assert forall|k: int| 0 <= k < ws.len() implies is_word(#[trigger] ws[k]) by {
                    if k == 4 {
                        assert(ws[k] == opt_word(w)[0]);
                    }
                }
            }
            lemma_read_words(ws);
            let args = ws.drop_first();
            assert(args[0] == x && args[1] == y && args[2] == z);
            assert(args.len() == 3 <==> w is None);
            if w is Some {
                assert(args[3] == w->0);
            }
        },
        DirectiveView::TextureCoordinate { u, v, w } => {
            lemma_float_is_word(u);
            lemma_opt_float_word(v);
            lemma_opt_float_word(w);
            assert(all_words(ws)) by {
                assert forall|k: int| 0 <= k < ws.len() implies is_word(#[trigger] ws[k]) by {
                    if k == 2 {
                        assert(ws[k] == v->0);
                    }
                    if k == 3 {
                        assert(ws[k] == w->0);
                    }
                }
            }
            lemma_read_words(ws);
            let args = ws.drop_first();
            assert(args[0] == u);
            if v is Some {
                assert(args[1] == v->0);
                if w is Some {
                    assert(args[2] == w->0);
                } else {
                    assert(args.len() == 2);
                }
            } else {
                assert(args.len() == 1);
            }
        },
        DirectiveView::Normal { nx, ny, nz } => {
            lemma_float_is_word(nx);
            lemma_float_is_word(ny);
            lemma_float_is_word(nz);
            lemma_read_words(ws);
            let args = ws.drop_first();
            assert(args[0] == nx && args[1] == ny && args[2] == nz);
        },
        _ => {},
    }
}

proof fn lemma_write_then_read_names(d: DirectiveView)
    requires
        writable(d),
        d is MaterialLib || d is Group,
    ensures
        parsed_line(directive_line(d)) == Ok::<Option<DirectiveView>, ParseErrorKindView>(Some(d)),
{
    lemma_prefixes();
    let ws = directive_words(d);
    match d {
        DirectiveView::MaterialLib(names) => {
            assert(all_words(ws)) by {
                assert forall|k: int| 0 <= k < ws.len() implies is_word(#[trigger] ws[k]) by {
                    if k > 0 {
                        assert(ws[k] == names[k - 1]);
                    }
                }
            }
            lemma_read_words(ws);
            assert(ws.drop_first() =~= names);
        },
        DirectiveView::Group(names) => {
            assert(all_words(ws)) by {
                assert forall|k: int| 0 <= k < ws.len() implies is_word(#[trigger] ws[k]) by {
                    if k > 0 {
                        assert(ws[k] == names[k - 1]);
                    }
                }
            }
            lemma_read_words(ws);
            assert(ws.drop_first() =~= names);
        },
        _ => {},
    }
}

proof fn lemma_write_then_read_smoothing(g: SmoothingGroup)
    requires
        g != SmoothingGroup::Group(0),
    ensures
        parsed_line(directive_line(DirectiveView::Smoothing(g))) == Ok::<
            Option<DirectiveView>,
            ParseErrorKindView,
        >(Some(DirectiveView::Smoothing(g))),
{
    lemma_prefixes();
    let ws = directive_words(DirectiveView::Smoothing(g));
    let word = smoothing_word(g);
    match g {
        SmoothingGroup::Off => {},
        SmoothingGroup::Group(n) => {
            lemma_decimal_is_word(n as nat);
            lemma_parse_decimal(n as nat, u32::MAX as nat);
            lemma_decimal(n as nat);
            let dn = decimal(n as nat);
            assert(!eq_ignore_case(dn, seq!['o', 'f', 'f'])) by {
                assert(is_digit(dn[0]));
            }
        },
    }
    assert(all_words(ws)) by {
        assert forall|k: int| 0 <= k < ws.len() implies is_word(#[trigger] ws[k]) by {
            if k == 1 {
                assert(ws[k] == word);
            }
        }
    }
    lemma_read_words(ws);
    assert(ws.drop_first() =~= seq![word]);
    assert(smoothing_group(seq![word]) == Ok::<SmoothingGroup, ParseErrorKindView>(g));
}

#[verifier::spinoff_prover]
#[verifier::rlimit(40)]
proof fn lemma_write_then_read_face(l: Seq<(usize, Option<usize>, Option<usize>)>)
    requires
        writable(DirectiveView::Face(l)),
    ensures
        parsed_line(directive_line(DirectiveView::Face(l))) == Ok::<
            Option<DirectiveView>,
            ParseErrorKindView,
        >(Some(DirectiveView::Face(l))),
{
    lemma_prefixes();
    let ws = directive_words(DirectiveView::Face(l));
    let fw = face_words(l);
    assert forall|i: int| 0 <= i < fw.len() implies is_word(#[trigger] fw[i]) && face_vertex_fn()(
        fw[i],
    ) == Ok::<(usize, Option<usize>, Option<usize>), ParseErrorKindView>(l[i]) by {
        assert(face_vertex_ok(l[i]));
        lemma_face_word(l[i]);
    }
    assert(all_words(ws)) by {
        assert forall|k: int| 0 <= k < ws.len() implies is_word(#[trigger] ws[k]) by {
            if k > 0 {
                assert(ws[k] == fw[k - 1]);
            }
        }
    }
    lemma_read_words(ws);
    assert(ws.drop_first() =~= fw);
    lemma_parse_all_each(fw, l, face_vertex_fn());
}

#[verifier::spinoff_prover]
#[verifier::rlimit(40)]
proof fn lemma_write_then_read_line(l: Seq<(usize, Option<usize>)>)
    requires
        writable(DirectiveView::LineElement(l)),
    ensures
        parsed_line(directive_line(DirectiveView::LineElement(l))) == Ok::<
            Option<DirectiveView>,
            ParseErrorKindView,
        >(Some(DirectiveView::LineElement(l))),
{
    lemma_prefixes();
    let ws = directive_words(DirectiveView::LineElement(l));
    let lw = line_words(l);
    assert forall|i: int| 0 <= i < lw.len() implies is_word(#[trigger] lw[i]) && line_vertex_fn()(
        lw[i],
    ) == Ok::<(usize, Option<usize>), ParseErrorKindView>(l[i]) by {
        assert(line_vertex_ok(l[i]));
        lemma_line_word(l[i]);
    }
    assert(all_words(ws)) by {
        assert forall|k: int| 0 <= k < ws.len() implies is_word(#[trigger] ws[k]) by {
            if k > 0 {
                assert(ws[k] == lw[k - 1]);
            }
        }
    }
    lemma_read_words(ws);
    assert(ws.drop_first() =~= lw);
    lemma_parse_all_each(lw, l, line_vertex_fn());
}

#[verifier::spinoff_prover]
#[verifier::rlimit(40)]
proof fn lemma_write_then_read_point(l: Seq<usize>)
    requires
        writable(DirectiveView::PointElement(l)),
    ensures
        parsed_line(directive_line(DirectiveView::PointElement(l))) == Ok::<
            Option<DirectiveView>,
            ParseErrorKindView,
        >(Some(DirectiveView::PointElement(l))),
{
    lemma_prefixes();
    let ws = directive_words(DirectiveView::PointElement(l));
    let pw = point_words(l);
    assert forall|i: int| 0 <= i < pw.len() implies is_word(#[trigger] pw[i]) && point_vertex_fn()(
        pw[i],
    ) == Ok::<usize, ParseErrorKindView>(l[i]) by {
        assert(l[i] >= 1);
        lemma_decimal_is_word(l[i] as nat);
        lemma_index_of_decimal(l[i], "vertex"@);
    }
    assert(all_words(ws)) by {
        assert forall|k: int| 0 <= k < ws.len() implies is_word(#[trigger] ws[k]) by {
            if k > 0 {
                assert(ws[k] == pw[k - 1]);
            }
        }
    }
    lemma_read_words(ws);
    assert(ws.drop_first() =~= pw);
    lemma_parse_all_each(pw, l, point_vertex_fn());
}

/// A line reads the same with or without the line break that ends it.
pub proof fn lemma_line_break(a: Seq<char>)
    ensures
        parsed_line(a.push('\n')) == parsed_line(a),
{
    lemma_words_split(a, '\n', Seq::<char>::empty());
    assert(a + seq!['\n'] + Seq::<char>::empty() =~= a.push('\n'));
    assert(words(a) + words(Seq::<char>::empty()) =~= words(a));
}

/// Writing a directive and reading the line back, with or without the line
/// break that ends it in a file, gives the same directive: every directive
/// that the writer can write, the reader reads as it was.
pub proof fn law_write_then_read(d: DirectiveView)
    requires
        writable(d),
    ensures
        parsed_line(directive_line(d)) == Ok::<Option<DirectiveView>, ParseErrorKindView>(Some(d)),
        parsed_line(directive_line(d).push('\n')) == Ok::<Option<DirectiveView>, ParseErrorKindView>(
            Some(d),
        ),
{
    lemma_line_break(directive_line(d));
    match d {
        DirectiveView::Comment(_) => lemma_write_then_read_text(d),
        DirectiveView::ObjectName(_) => lemma_write_then_read_text(d),
        DirectiveView::UseMaterial(_) => lemma_write_then_read_text(d),
        DirectiveView::Vertex { .. } => lemma_write_then_read_numbers(d),
        DirectiveView::TextureCoordinate { .. } => lemma_write_then_read_numbers(d),
        DirectiveView::Normal { .. } => lemma_write_then_read_numbers(d),
        DirectiveView::MaterialLib(_) => lemma_write_then_read_names(d),
        DirectiveView::Group(_) => lemma_write_then_read_names(d),
        DirectiveView::Smoothing(g) => lemma_write_then_read_smoothing(g),
        DirectiveView::Face(l) => lemma_write_then_read_face(l),
        DirectiveView::LineElement(l) => lemma_write_then_read_line(l),
        DirectiveView::PointElement(l) => lemma_write_then_read_point(l),
        DirectiveView::Unknown { .. } => {},
    }
}

proof fn lemma_index_positive(s: Seq<char>, kind: Seq<char>)
    ensures
        index_value(s, kind) matches Ok(n) ==> n >= 1,
        optional_index(s, kind) matches Ok(Some(n)) ==> n >= 1,
{
}

proof fn lemma_face_vertex_ok(part: Seq<char>)
    ensures
        face_vertex(part) matches Ok(fv) ==> face_vertex_ok(fv),
{
    let (v_text, rest) = match first_match(part, '/', '/') {
        Some(i) => (part.take(i), part.skip(i + 1)),
        None => (part, Seq::<char>::empty()),
    };
    lemma_index_positive(v_text, "vertex"@);
    lemma_index_positive(rest, "texcoord"@);
    match first_match(rest, '/', '/') {
        Some(j) => {
            lemma_index_positive(rest.take(j), "texcoord"@);
            lemma_index_positive(rest.skip(j + 1), "normal"@);
        },
        None => {},
    }
}

proof fn lemma_line_vertex_ok(part: Seq<char>)
    ensures
        line_vertex(part) matches Ok(lv) ==> line_vertex_ok(lv),
{
    lemma_index_positive(part, "vertex"@);
    match first_match(part, '/', '/') {
        Some(i) => {
            lemma_index_positive(part.take(i), "vertex"@);
            lemma_index_positive(part.skip(i + 1), "texcoord"@);
        },
        None => {},
    }
}

proof fn lemma_read_elements(args: Seq<Seq<char>>)
    ensures
        parse_all(args, face_vertex_fn()) matches Ok(l) ==> forall|i: int|
            0 <= i < l.len() ==> face_vertex_ok(#[trigger] l[i]),
        parse_all(args, line_vertex_fn()) matches Ok(l) ==> forall|i: int|
            0 <= i < l.len() ==> line_vertex_ok(#[trigger] l[i]),
        parse_all(args, point_vertex_fn()) matches Ok(l) ==> forall|i: int|
            0 <= i < l.len() ==> #[trigger] l[i] >= 1,
{
    if parse_all(args, face_vertex_fn()) is Ok {
        lemma_parse_all_ok(args, face_vertex_fn());
        let l = parse_all(args, face_vertex_fn())->Ok_0;
        assert forall|i: int| 0 <= i < l.len() implies face_vertex_ok(#[trigger] l[i]) by {
            assert(face_vertex_fn()(args[i]) == Ok::<
                (usize, Option<usize>, Option<usize>),
                ParseErrorKindView,
            >(l[i]));
            lemma_face_vertex_ok(args[i]);
        }
    }
    if parse_all(args, line_vertex_fn()) is Ok {
        lemma_parse_all_ok(args, line_vertex_fn());
        let l = parse_all(args, line_vertex_fn())->Ok_0;
        assert forall|i: int| 0 <= i < l.len() implies line_vertex_ok(#[trigger] l[i]) by {
            assert(line_vertex_fn()(args[i]) == Ok::<(usize, Option<usize>), ParseErrorKindView>(
                l[i],
            ));
            lemma_line_vertex_ok(args[i]);
        }
    }
    if parse_all(args, point_vertex_fn()) is Ok {
        lemma_parse_all_ok(args, point_vertex_fn());
        let l = parse_all(args, point_vertex_fn())->Ok_0;
        assert forall|i: int| 0 <= i < l.len() implies #[trigger] l[i] >= 1 by {
            assert(point_vertex_fn()(args[i]) == Ok::<usize, ParseErrorKindView>(l[i]));
            lemma_index_positive(args[i], "vertex"@);
        }
    }
}

/// Whatever the reader reads from a line, other than a directive it does not
/// know, the writer can write: every directive a reader can produce, a
/// writer can emit.
pub proof fn law_read_gives_writable(line: Seq<char>)
    ensures
        parsed_line(line) matches Ok(Some(d)) ==> (d is Unknown || writable(d)),
{
    let w = words(line);
    lemma_words_are_words(line);
    if w.len() > 0 {
        let p = w[0];
        let args = w.drop_first();
        assert(all_words(args)) by {
            assert forall|k: int| 0 <= k < args.len() implies is_word(#[trigger] args[k]) by {
                assert(args[k] == w[k + 1]);
            }
        }
        lemma_join_is_normalized(args);
        lemma_read_elements(args);
    }
}

/// Reading a line, writing what was read and reading that again gives what
/// the first reading gave.
pub proof fn law_read_write_read(line: Seq<char>)
    ensures
        match parsed_line(line) {
            Ok(Some(d)) => !(d is Unknown) ==> parsed_line(directive_line(d)) == parsed_line(line),
            _ => true,
        },
{
    law_read_gives_writable(line);
    if parsed_line(line) is Ok && parsed_line(line)->Ok_0 is Some {
        let d = parsed_line(line)->Ok_0->Some_0;
        if !(d is Unknown) {
            law_write_then_read(d);
        }
    }
}

/// A line that the writer wrote survives reading and writing again byte for
/// byte.
pub proof fn law_written_line_is_stable(d: DirectiveView)
    requires
        writable(d),
    ensures
        parsed_line(directive_line(d)) matches Ok(Some(e)) && directive_line(e) == directive_line(
            d,
        ),
{
    law_write_then_read(d);
}

/// Reading with a float type that accepts exactly the number texts that
/// `f32` and `f64` accept gives what reading with `f32` or `f64` gives.
pub proof fn law_std_acceptance_reads_as_parse_line(line: Seq<char>, acc: Seq<bool>)
    requires
        acc.len() >= number_texts(line).len(),
        forall|i: int|
            0 <= i < number_texts(line).len() ==> acc[i] == is_float_text(
                #[trigger] number_texts(line)[i],
            ),
    ensures
        parsed_line_with(line, acc) == parsed_line(line),
{
    let w = words(line);
    if w.len() > 0 {
        let p = w[0];
        let args = w.drop_first();
        let std = std_floats(args);
        let n = number_count(p);
        assert forall|i: int| 0 <= i < n && i < args.len() implies float_accepted(acc, i)
            == float_accepted(std, i) by {
            assert(number_texts(line)[i] == args[i]);
        }
        if n == 0 {
            assert(p != "v"@ && p != "vt"@ && p != "vn"@);
        }
        assert(parse_directive_with(p, args, acc) == parse_directive_with(p, args, std));
    }
}

} // verus!
