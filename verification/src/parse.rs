//! Reading one line of an OBJ file into a [`Directive`].
use vstd::prelude::*;
use vstd::string::*;

use crate::directive::{Directive, DirectiveView, SmoothingGroup};
use crate::error::{ObjError, ObjErrorView, ParseErrorKind, ParseErrorKindView};
use crate::number::{
    eq_ignore_case, first_match, is_float_text, lemma_first_match, parse_unsigned,
    parse_unsigned_span, span_eq_ignore_case, span_find, span_is_float,
};
use crate::text::{
    join, line_chars, span_is, span_text, span_texts, spans_valid, split_words, words, join_spans,
};

verus! {

/// A 1-based index: an unsigned integer that fits `usize` and is not 0.
pub open spec fn index_value(s: Seq<char>, kind: Seq<char>) -> Result<usize, ParseErrorKindView> {
    match parse_unsigned(s, usize::MAX as nat) {
        Some(n) => if n > 0 {
            Ok(n as usize)
        } else {
            Err(ParseErrorKindView::InvalidIndex { kind, value: s })
        },
        None => Err(ParseErrorKindView::InvalidIndex { kind, value: s }),
    }
}

/// An index that may be left out by leaving its text empty.
pub open spec fn optional_index(s: Seq<char>, kind: Seq<char>) -> Result<
    Option<usize>,
    ParseErrorKindView,
> {
    if s.len() == 0 {
        Ok(None)
    } else {
        match index_value(s, kind) {
            Ok(n) => Ok(Some(n)),
            Err(e) => Err(e),
        }
    }
}

/// One vertex of a face: `v`, `v/vt`, `v//vn` or `v/vt/vn`.
pub open spec fn face_vertex(part: Seq<char>) -> Result<
    (usize, Option<usize>, Option<usize>),
    ParseErrorKindView,
> {
    let (v_text, rest) = match first_match(part, '/', '/') {
        Some(i) => (part.take(i), part.skip(i + 1)),
        None => (part, Seq::<char>::empty()),
    };
    match index_value(v_text, "vertex"@) {
        Err(e) => Err(e),
        Ok(v) => if rest.len() == 0 {
            Ok((v, None, None))
        } else {
            match first_match(rest, '/', '/') {
                Some(j) => match optional_index(rest.take(j), "texcoord"@) {
                    Err(e) => Err(e),
                    Ok(vt) => match optional_index(rest.skip(j + 1), "normal"@) {
                        Err(e) => Err(e),
                        Ok(vn) => Ok((v, vt, vn)),
                    },
                },
                None => match index_value(rest, "texcoord"@) {
                    Err(e) => Err(e),
                    Ok(vt) => Ok((v, Some(vt), None)),
                },
            }
        },
    }
}

/// One vertex of a polyline: `v` or `v/vt`.
pub open spec fn line_vertex(part: Seq<char>) -> Result<(usize, Option<usize>), ParseErrorKindView> {
    match first_match(part, '/', '/') {
        Some(i) => match index_value(part.take(i), "vertex"@) {
            Err(e) => Err(e),
            Ok(v) => match optional_index(part.skip(i + 1), "texcoord"@) {
                Err(e) => Err(e),
                Ok(vt) => Ok((v, vt)),
            },
        },
        None => match index_value(part, "vertex"@) {
            Err(e) => Err(e),
            Ok(v) => Ok((v, None)),
        },
    }
}

/// One vertex of a point element: `v`.
pub open spec fn point_vertex(part: Seq<char>) -> Result<usize, ParseErrorKindView> {
    index_value(part, "vertex"@)
}

/// [`face_vertex`] as a function value.
pub open spec fn face_vertex_fn() -> spec_fn(Seq<char>) -> Result<
    (usize, Option<usize>, Option<usize>),
    ParseErrorKindView,
> {
    |p: Seq<char>| face_vertex(p)
}

/// [`line_vertex`] as a function value.
pub open spec fn line_vertex_fn() -> spec_fn(Seq<char>) -> Result<
    (usize, Option<usize>),
    ParseErrorKindView,
> {
    |p: Seq<char>| line_vertex(p)
}

/// [`point_vertex`] as a function value.
pub open spec fn point_vertex_fn() -> spec_fn(Seq<char>) -> Result<usize, ParseErrorKindView> {
    |p: Seq<char>| point_vertex(p)
}

/// Each part read by `f`, in order; the first part that fails gives the error.
pub open spec fn parse_all<T>(
    parts: Seq<Seq<char>>,
    f: spec_fn(Seq<char>) -> Result<T, ParseErrorKindView>,
) -> Result<Seq<T>, ParseErrorKindView>
    decreases parts.len(),
{
    if parts.len() == 0 {
        Ok(Seq::empty())
    } else {
        match parse_all(parts.drop_last(), f) {
            Err(e) => Err(e),
            Ok(l) => match f(parts.last()) {
                Err(e) => Err(e),
                Ok(x) => Ok(l.push(x)),
            },
        }
    }
}

/// Whether the float type accepts the text of argument `i`: `acc[i]`, and
/// `false` past the end of `acc`.
pub open spec fn float_accepted(acc: Seq<bool>, i: int) -> bool {
    0 <= i < acc.len() && acc[i]
}

/// For each argument, whether `str::parse::<f64>()` (and `::<f32>()`)
/// accepts it.
pub open spec fn std_floats(args: Seq<Seq<char>>) -> Seq<bool> {
    args.map_values(|t: Seq<char>| is_float_text(t))
}

/// The `i`-th argument as a floating-point number; it must be there, and the
/// float type must accept it (`acc`).
pub open spec fn required_float(args: Seq<Seq<char>>, i: int, name: Seq<char>, acc: Seq<bool>) -> Result<
    Seq<char>,
    ParseErrorKindView,
> {
    if i >= args.len() {
        Err(ParseErrorKindView::MissingField(name))
    } else if float_accepted(acc, i) {
        Ok(args[i])
    } else {
        Err(ParseErrorKindView::InvalidNumber { field: name, value: args[i] })
    }
}

/// The `i`-th argument as a floating-point number, if it is there.
pub open spec fn optional_float(args: Seq<Seq<char>>, i: int, name: Seq<char>, acc: Seq<bool>) -> Result<
    Option<Seq<char>>,
    ParseErrorKindView,
> {
    if i >= args.len() {
        Ok(None)
    } else if float_accepted(acc, i) {
        Ok(Some(args[i]))
    } else {
        Err(ParseErrorKindView::InvalidNumber { field: name, value: args[i] })
    }
}

/// The argument of `s`: `off` in any ASCII case, or an unsigned `u32`, where 0 is off.
pub open spec fn smoothing_group(args: Seq<Seq<char>>) -> Result<SmoothingGroup, ParseErrorKindView> {
    if args.len() == 0 {
        Err(ParseErrorKindView::MissingField("smoothing group value"@))
    } else {
        let v = args[0];
        if eq_ignore_case(v, seq!['o', 'f', 'f']) {
            Ok(SmoothingGroup::Off)
        } else {
            match parse_unsigned(v, u32::MAX as nat) {
                None => Err(ParseErrorKindView::InvalidSmoothingGroup(v)),
                Some(n) => if n == 0 {
                    Ok(SmoothingGroup::Off)
                } else {
                    Ok(SmoothingGroup::Group(n as u32))
                },
            }
        }
    }
}

/// The directive with prefix `p` and arguments `args`, where `acc` says
/// which arguments the float type accepts as numbers.
pub open spec fn parse_directive_with(p: Seq<char>, args: Seq<Seq<char>>, acc: Seq<bool>) -> Result<
    DirectiveView,
    ParseErrorKindView,
> {
    if p == "#"@ {
        Ok(DirectiveView::Comment(join(args)))
    } else if p == "v"@ {
        match (
            required_float(args, 0, "vertex x"@, acc),
            required_float(args, 1, "vertex y"@, acc),
            required_float(args, 2, "vertex z"@, acc),
            optional_float(args, 3, "vertex w"@, acc),
        ) {
            (Ok(x), Ok(y), Ok(z), Ok(w)) => Ok(DirectiveView::Vertex { x, y, z, w }),
            (Err(e), _, _, _) => Err(e),
            (_, Err(e), _, _) => Err(e),
            (_, _, Err(e), _) => Err(e),
            (_, _, _, Err(e)) => Err(e),
        }
    } else if p == "vt"@ {
        match (
            required_float(args, 0, "texture u"@, acc),
            optional_float(args, 1, "texture v"@, acc),
            optional_float(args, 2, "texture w"@, acc),
        ) {
            (Ok(u), Ok(v), Ok(w)) => Ok(DirectiveView::TextureCoordinate { u, v, w }),
            (Err(e), _, _) => Err(e),
            (_, Err(e), _) => Err(e),
            (_, _, Err(e)) => Err(e),
        }
    } else if p == "vn"@ {
        match (
            required_float(args, 0, "normal nx"@, acc),
            required_float(args, 1, "normal ny"@, acc),
            required_float(args, 2, "normal nz"@, acc),
        ) {
            (Ok(nx), Ok(ny), Ok(nz)) => Ok(DirectiveView::Normal { nx, ny, nz }),
            (Err(e), _, _) => Err(e),
            (_, Err(e), _) => Err(e),
            (_, _, Err(e)) => Err(e),
        }
    } else if p == "f"@ {
        match parse_all(args, face_vertex_fn()) {
            Ok(l) => Ok(DirectiveView::Face(l)),
            Err(e) => Err(e),
        }
    } else if p == "o"@ {
        Ok(DirectiveView::ObjectName(join(args)))
    } else if p == "mtllib"@ {
        Ok(DirectiveView::MaterialLib(args))
    } else if p == "usemtl"@ {
        Ok(DirectiveView::UseMaterial(join(args)))
    } else if p == "g"@ {
        Ok(DirectiveView::Group(args))
    } else if p == "s"@ {
        match smoothing_group(args) {
            Ok(g) => Ok(DirectiveView::Smoothing(g)),
            Err(e) => Err(e),
        }
    } else if p == "l"@ {
        match parse_all(args, line_vertex_fn()) {
            Err(e) => Err(e),
            Ok(l) => if l.len() < 2 {
                Err(ParseErrorKindView::LineElementTooShort)
            } else {
                Ok(DirectiveView::LineElement(l))
            },
        }
    } else if p == "p"@ {
        match parse_all(args, point_vertex_fn()) {
            Err(e) => Err(e),
            Ok(l) => if l.len() == 0 {
                Err(ParseErrorKindView::PointElementEmpty)
            } else {
                Ok(DirectiveView::PointElement(l))
            },
        }
    } else {
        Ok(DirectiveView::Unknown { prefix: p, rest: join(args) })
    }
}

/// The directive with prefix `p` and arguments `args`, numbers read as
/// `f32` and `f64` read them.
pub open spec fn parse_directive(p: Seq<char>, args: Seq<Seq<char>>) -> Result<
    DirectiveView,
    ParseErrorKindView,
> {
    parse_directive_with(p, args, std_floats(args))
}

/// What one line of an OBJ file reads as, where `acc` says which arguments
/// the float type accepts as numbers: nothing for a blank line, else the
/// directive that its first word names, read from the other words.
pub open spec fn parsed_line_with(line: Seq<char>, acc: Seq<bool>) -> Result<
    Option<DirectiveView>,
    ParseErrorKindView,
> {
    let w = words(line);
    if w.len() == 0 {
        Ok(None)
    } else {
        match parse_directive_with(w[0], w.drop_first(), acc) {
            Ok(d) => Ok(Some(d)),
            Err(e) => Err(e),
        }
    }
}

/// What one line of an OBJ file reads as, numbers read as `f32` and `f64`
/// read them: nothing for a blank line, else the directive that its first
/// word names, read from the other words.
pub open spec fn parsed_line(line: Seq<char>) -> Result<Option<DirectiveView>, ParseErrorKindView> {
    let w = words(line);
    if w.len() == 0 {
        Ok(None)
    } else {
        match parse_directive(w[0], w.drop_first()) {
            Ok(d) => Ok(Some(d)),
            Err(e) => Err(e),
        }
    }
}

/// How many arguments a directive with prefix `p` reads as numbers: 4 for
/// `v`, 3 for `vt` and `vn`, none for the others.
pub open spec fn number_count(p: Seq<char>) -> int {
    if p == "v"@ {
        4
    } else if p == "vt"@ || p == "vn"@ {
        3
    } else {
        0
    }
}

/// The texts of a line that its directive reads as numbers, in order: the
/// first arguments of `v`, `vt` and `vn`, as many as there are, up to
/// [`number_count`]; none for other lines.
pub open spec fn number_texts(line: Seq<char>) -> Seq<Seq<char>> {
    let w = words(line);
    if w.len() == 0 {
        Seq::empty()
    } else {
        let args = w.drop_first();
        let n = number_count(w[0]);
        if args.len() < n {
            args
        } else {
            args.take(n)
        }
    }
}

/// The result of [`parse_line`] with its directive and error as views.
pub open spec fn line_result(r: Result<Option<Directive>, ParseErrorKind>) -> Result<
    Option<DirectiveView>,
    ParseErrorKindView,
> {
    match r {
        Ok(Some(d)) => Ok(Some(d@)),
        Ok(None) => Ok(None),
        Err(e) => Err(e@),
    }
}

/// A result with its error as a view.
pub open spec fn plain_result<T>(r: Result<T, ParseErrorKind>) -> Result<T, ParseErrorKindView> {
    match r {
        Ok(v) => Ok(v),
        Err(e) => Err(e@),
    }
}

/// A text result with its text and error as views.
pub open spec fn text_result(r: Result<String, ParseErrorKind>) -> Result<
    Seq<char>,
    ParseErrorKindView,
> {
    match r {
        Ok(v) => Ok(v@),
        Err(e) => Err(e@),
    }
}

/// An optional-text result with its text and error as views.
pub open spec fn opt_text_result(r: Result<Option<String>, ParseErrorKind>) -> Result<
    Option<Seq<char>>,
    ParseErrorKindView,
> {
    match r {
        Ok(Some(v)) => Ok(Some(v@)),
        Ok(None) => Ok(None),
        Err(e) => Err(e@),
    }
}

/// Reading one more part extends the result by that part, or fails with its error.
pub proof fn lemma_parse_all_step<T>(
    ps: Seq<Seq<char>>,
    k: int,
    f: spec_fn(Seq<char>) -> Result<T, ParseErrorKindView>,
)
    requires
        0 <= k < ps.len(),
    ensures
        parse_all(ps.take(k + 1), f) == match parse_all(ps.take(k), f) {
            Err(e) => Err(e),
            Ok(l) => match f(ps[k]) {
                Err(e) => Err(e),
                Ok(x) => Ok(l.push(x)),
            },
        },
{
    assert(ps.take(k + 1).drop_last() =~= ps.take(k));
    assert(ps.take(k + 1).last() == ps[k]);
}

/// Once a part fails, the first failure stays the result.
pub proof fn lemma_parse_all_err<T>(
    ps: Seq<Seq<char>>,
    k: int,
    f: spec_fn(Seq<char>) -> Result<T, ParseErrorKindView>,
)
    requires
        0 <= k <= ps.len(),
        parse_all(ps.take(k), f) is Err,
    ensures
        parse_all(ps, f) == parse_all(ps.take(k), f),
    decreases ps.len() - k,
{
    if k < ps.len() {
        lemma_parse_all_step(ps, k, f);
        lemma_parse_all_err(ps, k + 1, f);
    } else {
        assert(ps.take(k) =~= ps);
    }
}

/// A line together with its characters and the ranges of its words.
struct LineWords<'a> {
    line: &'a str,
    chars: Vec<char>,
    spans: Vec<(usize, usize)>,
}

impl<'a> LineWords<'a> {
    spec fn wf(&self) -> bool {
        &&& self.chars@ == self.line@
        &&& spans_valid(self.line@, self.spans@)
        &&& span_texts(self.line@, self.spans@) == words(self.line@)
    }

    spec fn ws(&self) -> Seq<Seq<char>> {
        words(self.line@)
    }

    spec fn span_start(&self, k: int) -> int {
        self.spans@[k].0 as int
    }

    spec fn span_end(&self, k: int) -> int {
        self.spans@[k].1 as int
    }

    fn new(line: &'a str) -> (r: Self)
        ensures
            r.wf(),
            r.line == line,
    {
        let chars = line_chars(line);
        let spans = split_words(&chars);
        LineWords { line, chars, spans }
    }

    proof fn lemma_word(&self, k: int)
        requires
            self.wf(),
            0 <= k < self.ws().len(),
        ensures
            0 <= self.span_start(k) <= self.span_end(k) <= self.line@.len(),
            self.ws()[k] == self.line@.subrange(self.span_start(k), self.span_end(k)),
            self.ws()[k] == self.chars@.subrange(self.span_start(k), self.span_end(k)),
    {
        assert(self.spans@.len() == self.ws().len());
        assert(span_texts(self.line@, self.spans@)[k] == self.line@.subrange(
            self.span_start(k),
            self.span_end(k),
        ));
    }

    fn count(&self) -> (n: usize)
        requires
            self.wf(),
        ensures
            n == self.ws().len(),
    {
        self.spans.len()
    }

    fn word_is(&self, k: usize, w: &str) -> (r: bool)
        requires
            self.wf(),
            k < self.ws().len(),
        ensures
            r == (self.ws()[k as int] == w@),
    {
        proof {
            self.lemma_word(k as int);
        }
        let (a, b) = self.spans[k];
        span_is(&self.chars, a, b, w)
    }

    fn word(&self, k: usize) -> (t: String)
        requires
            self.wf(),
            k < self.ws().len(),
        ensures
            t@ == self.ws()[k as int],
    {
        proof {
            self.lemma_word(k as int);
        }
        let (a, b) = self.spans[k];
        span_text(self.line, a, b)
    }

    /// The words from `from` on, joined by single spaces.
    fn join_from(&self, from: usize) -> (t: String)
        requires
            self.wf(),
            from <= self.ws().len(),
        ensures
            t@ == join(self.ws().subrange(from as int, self.ws().len() as int)),
    {
        join_spans(self.line, &self.spans, from)
    }

    /// The words from `from` on.
    fn words_from(&self, from: usize) -> (v: Vec<String>)
        requires
            self.wf(),
            from <= self.ws().len(),
        ensures
            v.deep_view() == self.ws().subrange(from as int, self.ws().len() as int),
    {
        let n = self.count();
        let mut v: Vec<String> = Vec::new();
        let mut k = from;
        while k < n
            invariant
                self.wf(),
                n == self.ws().len(),
                from <= k <= n,
                v.deep_view() == self.ws().subrange(from as int, k as int),
            decreases n - k,
        {
            let t = self.word(k);
            let ghost old_v = v.deep_view();
            v.push(t);
            assert(v.deep_view() =~= old_v.push(t@));
            assert(self.ws().subrange(from as int, k + 1) =~= self.ws().subrange(
                from as int,
                k as int,
            ).push(self.ws()[k as int]));
            k = k + 1;
        }
        v
    }

    /// The characters `a..b` of the line as a 1-based index.
    fn index_at(&self, a: usize, b: usize, kind: &'static str) -> (r: Result<usize, ParseErrorKind>)
        requires
            self.wf(),
            a <= b <= self.line@.len(),
        ensures
            plain_result(r) == index_value(self.line@.subrange(a as int, b as int), kind@),
    {
        match parse_unsigned_span(&self.chars, a, b, usize::MAX as u64) {
            Some(n) if n > 0 => Ok(n as usize),
            _ => Err(ParseErrorKind::InvalidIndex { kind, value: span_text(self.line, a, b) }),
        }
    }

    fn optional_index_at(&self, a: usize, b: usize, kind: &'static str) -> (r: Result<
        Option<usize>,
        ParseErrorKind,
    >)
        requires
            self.wf(),
            a <= b <= self.line@.len(),
        ensures
            plain_result(r) == optional_index(self.line@.subrange(a as int, b as int), kind@),
    {
        if a == b {
            Ok(None)
        } else {
            match self.index_at(a, b, kind) {
                Ok(n) => Ok(Some(n)),
                Err(e) => Err(e),
            }
        }
    }

    fn face_vertex_at(&self, k: usize) -> (r: Result<
        (usize, Option<usize>, Option<usize>),
        ParseErrorKind,
    >)
        requires
            self.wf(),
            k < self.ws().len(),
        ensures
            plain_result(r) == face_vertex(self.ws()[k as int]),
    {
        proof {
            self.lemma_word(k as int);
        }
        let ghost part = self.ws()[k as int];
        let (a, b) = self.spans[k];
        let (vb, ra) = match span_find(&self.chars, a, b, '/', '/') {
            Some(i) => {
                proof {
                    lemma_first_match(part, '/', '/');
                }
                assert(part.take(i as int) =~= self.line@.subrange(a as int, a + i));
                assert(part.skip(i + 1) =~= self.line@.subrange(a + i + 1, b as int));
                (a + i, a + i + 1)
            },
            None => {
                assert(Seq::<char>::empty() =~= self.line@.subrange(b as int, b as int));
                (b, b)
            },
        };
        let ghost rest = self.line@.subrange(ra as int, b as int);
        let v = match self.index_at(a, vb, "vertex") {
            Ok(v) => v,
            Err(e) => {
                return Err(e);
            },
        };
        if ra == b {
            return Ok((v, None, None));
        }
        match span_find(&self.chars, ra, b, '/', '/') {
            Some(j) => {
                proof {
                    lemma_first_match(rest, '/', '/');
                }
                assert(rest.take(j as int) =~= self.line@.subrange(ra as int, ra + j));
                assert(rest.skip(j + 1) =~= self.line@.subrange(ra + j + 1, b as int));
                let vt = match self.optional_index_at(ra, ra + j, "texcoord") {
                    Ok(vt) => vt,
                    Err(e) => {
                        return Err(e);
                    },
                };
                let vn = match self.optional_index_at(ra + j + 1, b, "normal") {
                    Ok(vn) => vn,
                    Err(e) => {
                        return Err(e);
                    },
                };
                Ok((v, vt, vn))
            },
            None => {
                let vt = match self.index_at(ra, b, "texcoord") {
                    Ok(vt) => vt,
                    Err(e) => {
                        return Err(e);
                    },
                };
                Ok((v, Some(vt), None))
            },
        }
    }

    fn line_vertex_at(&self, k: usize) -> (r: Result<(usize, Option<usize>), ParseErrorKind>)
        requires
            self.wf(),
            k < self.ws().len(),
        ensures
            plain_result(r) == line_vertex(self.ws()[k as int]),
    {
        proof {
            self.lemma_word(k as int);
        }
        let ghost part = self.ws()[k as int];
        let (a, b) = self.spans[k];
        match span_find(&self.chars, a, b, '/', '/') {
            Some(i) => {
                proof {
                    lemma_first_match(part, '/', '/');
                }
                assert(part.take(i as int) =~= self.line@.subrange(a as int, a + i));
                assert(part.skip(i + 1) =~= self.line@.subrange(a + i + 1, b as int));
                let v = match self.index_at(a, a + i, "vertex") {
                    Ok(v) => v,
                    Err(e) => {
                        return Err(e);
                    },
                };
                let vt = match self.optional_index_at(a + i + 1, b, "texcoord") {
                    Ok(vt) => vt,
                    Err(e) => {
                        return Err(e);
                    },
                };
                Ok((v, vt))
            },
            None => {
                let v = match self.index_at(a, b, "vertex") {
                    Ok(v) => v,
                    Err(e) => {
                        return Err(e);
                    },
                };
                Ok((v, None))
            },
        }
    }

    fn point_vertex_at(&self, k: usize) -> (r: Result<usize, ParseErrorKind>)
        requires
            self.wf(),
            k < self.ws().len(),
        ensures
            plain_result(r) == point_vertex(self.ws()[k as int]),
    {
        proof {
            self.lemma_word(k as int);
        }
        let (a, b) = self.spans[k];
        self.index_at(a, b, "vertex")
    }

    /// The vertices of a face, one per word after the prefix.
    fn face_vertices(&self) -> (r: Result<Vec<(usize, Option<usize>, Option<usize>)>, ParseErrorKind>)
        requires
            self.wf(),
            self.ws().len() >= 1,
        ensures
            match r {
                Ok(v) => parse_all(self.ws().drop_first(), face_vertex_fn()) == Ok::<
                    Seq<(usize, Option<usize>, Option<usize>)>,
                    ParseErrorKindView,
                >(v@),
                Err(e) => parse_all(self.ws().drop_first(), face_vertex_fn()) == Err::<
                    Seq<(usize, Option<usize>, Option<usize>)>,
                    ParseErrorKindView,
                >(e@),
            },
    {
        let ghost args = self.ws().drop_first();
        let ghost f = face_vertex_fn();
        let n = self.count();
        let mut out: Vec<(usize, Option<usize>, Option<usize>)> = Vec::new();
        let mut k: usize = 1;
        assert(args.take(0) =~= Seq::<Seq<char>>::empty());
        while k < n
            invariant
                self.wf(),
                n == self.ws().len(),
                1 <= k <= n,
                args == self.ws().drop_first(),
                f == face_vertex_fn(),
                parse_all(args.take(k - 1), f) == Ok::<
                    Seq<(usize, Option<usize>, Option<usize>)>,
                    ParseErrorKindView,
                >(out@),
            decreases n - k,
        {
            proof {
                lemma_parse_all_step(args, k - 1, f);
                assert(args[k - 1] == self.ws()[k as int]);
            }
            match self.face_vertex_at(k) {
                Ok(fv) => {
                    out.push(fv);
                },
                Err(e) => {
                    proof {
                        lemma_parse_all_err(args, k as int, f);
                    }
                    return Err(e);
                },
            }
            k = k + 1;
        }
        assert(args.take(n - 1) =~= args);
        Ok(out)
    }

    /// The vertices of a polyline, one per word after the prefix.
    fn line_vertices(&self) -> (r: Result<Vec<(usize, Option<usize>)>, ParseErrorKind>)
        requires
            self.wf(),
            self.ws().len() >= 1,
        ensures
            match r {
                Ok(v) => parse_all(self.ws().drop_first(), line_vertex_fn()) == Ok::<
                    Seq<(usize, Option<usize>)>,
                    ParseErrorKindView,
                >(v@),
                Err(e) => parse_all(self.ws().drop_first(), line_vertex_fn()) == Err::<
                    Seq<(usize, Option<usize>)>,
                    ParseErrorKindView,
                >(e@),
            },
    {
        let ghost args = self.ws().drop_first();
        let ghost f = line_vertex_fn();
        let n = self.count();
        let mut out: Vec<(usize, Option<usize>)> = Vec::new();
        let mut k: usize = 1;
        assert(args.take(0) =~= Seq::<Seq<char>>::empty());
        while k < n
            invariant
                self.wf(),
                n == self.ws().len(),
                1 <= k <= n,
                args == self.ws().drop_first(),
                f == line_vertex_fn(),
                parse_all(args.take(k - 1), f) == Ok::<
                    Seq<(usize, Option<usize>)>,
                    ParseErrorKindView,
                >(out@),
            decreases n - k,
        {
            proof {
                lemma_parse_all_step(args, k - 1, f);
                assert(args[k - 1] == self.ws()[k as int]);
            }
            match self.line_vertex_at(k) {
                Ok(lv) => {
                    out.push(lv);
                },
                Err(e) => {
                    proof {
                        lemma_parse_all_err(args, k as int, f);
                    }
                    return Err(e);
                },
            }
            k = k + 1;
        }
        assert(args.take(n - 1) =~= args);
        Ok(out)
    }

    /// The vertices of a point element, one per word after the prefix.
    fn point_vertices(&self) -> (r: Result<Vec<usize>, ParseErrorKind>)
        requires
            self.wf(),
            self.ws().len() >= 1,
        ensures
            match r {
                Ok(v) => parse_all(self.ws().drop_first(), point_vertex_fn()) == Ok::<
                    Seq<usize>,
                    ParseErrorKindView,
                >(v@),
                Err(e) => parse_all(self.ws().drop_first(), point_vertex_fn()) == Err::<
                    Seq<usize>,
                    ParseErrorKindView,
                >(e@),
            },
    {
        let ghost args = self.ws().drop_first();
        let ghost f = point_vertex_fn();
        let n = self.count();
        let mut out: Vec<usize> = Vec::new();
        let mut k: usize = 1;
        assert(args.take(0) =~= Seq::<Seq<char>>::empty());
        while k < n
            invariant
                self.wf(),
                n == self.ws().len(),
                1 <= k <= n,
                args == self.ws().drop_first(),
                f == point_vertex_fn(),
                parse_all(args.take(k - 1), f) == Ok::<Seq<usize>, ParseErrorKindView>(out@),
            decreases n - k,
        {
            proof {
                lemma_parse_all_step(args, k - 1, f);
                assert(args[k - 1] == self.ws()[k as int]);
            }
            match self.point_vertex_at(k) {
                Ok(p) => {
                    out.push(p);
                },
                Err(e) => {
                    proof {
                        lemma_parse_all_err(args, k as int, f);
                    }
                    return Err(e);
                },
            }
            k = k + 1;
        }
        assert(args.take(n - 1) =~= args);
        Ok(out)
    }

    /// Argument `i` (the word after the prefix at position `i`) as a
    /// floating-point number; it must be there, and `acc` must accept it.
    fn required_float_at(&self, i: usize, name: &'static str, acc: &[bool]) -> (r: Result<
        String,
        ParseErrorKind,
    >)
        requires
            self.wf(),
            self.ws().len() >= 1,
            i < 4,
        ensures
            text_result(r) == required_float(self.ws().drop_first(), i as int, name@, acc@),
    {
        let ghost args = self.ws().drop_first();
        let n = self.count();
        if i + 1 >= n {
            return Err(ParseErrorKind::MissingField(name));
        }
        assert(args[i as int] == self.ws()[i + 1]);
        if i < acc.len() && acc[i] {
            Ok(self.word(i + 1))
        } else {
            Err(ParseErrorKind::InvalidNumber { field: name, value: self.word(i + 1) })
        }
    }

    /// Argument `i` as a floating-point number, if it is there.
    fn optional_float_at(&self, i: usize, name: &'static str, acc: &[bool]) -> (r: Result<
        Option<String>,
        ParseErrorKind,
    >)
        requires
            self.wf(),
            self.ws().len() >= 1,
            i < 4,
        ensures
            opt_text_result(r) == optional_float(self.ws().drop_first(), i as int, name@, acc@),
    {
        let ghost args = self.ws().drop_first();
        let n = self.count();
        if i + 1 >= n {
            return Ok(None);
        }
        assert(args[i as int] == self.ws()[i + 1]);
        if i < acc.len() && acc[i] {
            Ok(Some(self.word(i + 1)))
        } else {
            Err(ParseErrorKind::InvalidNumber { field: name, value: self.word(i + 1) })
        }
    }

    /// For each argument, whether `str::parse::<f64>()` accepts it.
    fn float_flags(&self) -> (v: Vec<bool>)
        requires
            self.wf(),
            self.ws().len() >= 1,
        ensures
            v@ == std_floats(self.ws().drop_first()),
    {
        let ghost args = self.ws().drop_first();
        let n = self.count();
        let mut v: Vec<bool> = Vec::new();
        let mut k: usize = 1;
        while k < n
            invariant
                self.wf(),
                n == self.ws().len(),
                1 <= k <= n,
                args == self.ws().drop_first(),
                v@ == std_floats(args.take(k - 1)),
            decreases n - k,
        {
            proof {
                self.lemma_word(k as int);
            }
            let (a, b) = self.spans[k];
            let ok = span_is_float(&self.chars, a, b);
            assert(args[k - 1] == self.ws()[k as int]);
            assert(std_floats(args.take(k as int)) =~= std_floats(args.take(k - 1)).push(ok));
            v.push(ok);
            k = k + 1;
        }
        assert(args.take(n - 1) =~= args);
        v
    }

    /// The arguments that the directive reads as numbers: [`number_texts`].
    fn numbers(&self) -> (v: Vec<String>)
        requires
            self.wf(),
            self.ws().len() >= 1,
        ensures
            v.deep_view() == number_texts(self.line@),
    {
        let ghost args = self.ws().drop_first();
        let n = self.count();
        let m: usize = if self.word_is(0, "v") {
            4
        } else if self.word_is(0, "vt") || self.word_is(0, "vn") {
            3
        } else {
            0
        };
        let end = if n - 1 < m {
            n
        } else {
            m + 1
        };
        let mut v: Vec<String> = Vec::new();
        let mut k: usize = 1;
        while k < end
            invariant
                self.wf(),
                n == self.ws().len(),
                1 <= k <= end <= n,
                args == self.ws().drop_first(),
                v.deep_view() == args.take(k - 1),
            decreases end - k,
        {
            let t = self.word(k);
            let ghost old_v = v.deep_view();
            v.push(t);
            assert(v.deep_view() =~= old_v.push(t@));
            assert(args.take(k as int) =~= args.take(k - 1).push(args[k - 1]));
            k = k + 1;
        }
        assert(args.take(end - 1) =~= (if args.len() < number_count(self.ws()[0]) {
            args
        } else {
            args.take(number_count(self.ws()[0]))
        }));
        v
    }

    fn smoothing_group_at(&self) -> (r: Result<SmoothingGroup, ParseErrorKind>)
        requires
            self.wf(),
            self.ws().len() >= 1,
        ensures
            plain_result(r) == smoothing_group(self.ws().drop_first()),
    {
        let ghost args = self.ws().drop_first();
        let n = self.count();
        if n < 2 {
            return Err(ParseErrorKind::MissingField("smoothing group value"));
        }
        proof {
            self.lemma_word(1);
        }
        assert(args[0] == self.ws()[1]);
        let (a, b) = self.spans[1];
        let off: [char; 3] = ['o', 'f', 'f'];
        assert(off@ =~= seq!['o', 'f', 'f']);
        if span_eq_ignore_case(&self.chars, a, b, &off) {
            return Ok(SmoothingGroup::Off);
        }
        match parse_unsigned_span(&self.chars, a, b, u32::MAX as u64) {
            None => Err(ParseErrorKind::InvalidSmoothingGroup(self.word(1))),
            Some(g) => if g == 0 {
                Ok(SmoothingGroup::Off)
            } else {
                Ok(SmoothingGroup::Group(g as u32))
            },
        }
    }

    /// The directive that the first word names, read from the other words.
    fn directive(&self, acc: &[bool]) -> (r: Result<Directive, ParseErrorKind>)
        requires
            self.wf(),
            self.ws().len() >= 1,
        ensures
            directive_result(r) == parse_directive_with(self.ws()[0], self.ws().drop_first(), acc@),
    {
        let ghost args = self.ws().drop_first();
        let n = self.count();
        assert(self.ws().subrange(1, n as int) =~= args);
        if self.word_is(0, "#") {
            Ok(Directive::Comment(self.join_from(1)))
        } else if self.word_is(0, "v") {
            let x = match self.required_float_at(0, "vertex x", acc) {
                Ok(t) => t,
                Err(e) => {
                    return Err(e);
                },
            };
            let y = match self.required_float_at(1, "vertex y", acc) {
                Ok(t) => t,
                Err(e) => {
                    return Err(e);
                },
            };
            let z = match self.required_float_at(2, "vertex z", acc) {
                Ok(t) => t,
                Err(e) => {
                    return Err(e);
                },
            };
            let w = match self.optional_float_at(3, "vertex w", acc) {
                Ok(t) => t,
                Err(e) => {
                    return Err(e);
                },
            };
            Ok(Directive::Vertex { x, y, z, w })
        } else if self.word_is(0, "vt") {
            let u = match self.required_float_at(0, "texture u", acc) {
                Ok(t) => t,
                Err(e) => {
                    return Err(e);
                },
            };
            let v = match self.optional_float_at(1, "texture v", acc) {
                Ok(t) => t,
                Err(e) => {
                    return Err(e);
                },
            };
            let w = match self.optional_float_at(2, "texture w", acc) {
                Ok(t) => t,
                Err(e) => {
                    return Err(e);
                },
            };
            Ok(Directive::TextureCoordinate { u, v, w })
        } else if self.word_is(0, "vn") {
            let nx = match self.required_float_at(0, "normal nx", acc) {
                Ok(t) => t,
                Err(e) => {
                    return Err(e);
                },
            };
            let ny = match self.required_float_at(1, "normal ny", acc) {
                Ok(t) => t,
                Err(e) => {
                    return Err(e);
                },
            };
            let nz = match self.required_float_at(2, "normal nz", acc) {
                Ok(t) => t,
                Err(e) => {
                    return Err(e);
                },
            };
            Ok(Directive::Normal { nx, ny, nz })
        } else if self.word_is(0, "f") {
            match self.face_vertices() {
                Ok(v) => Ok(Directive::Face(v)),
                Err(e) => Err(e),
            }
        } else if self.word_is(0, "o") {
            Ok(Directive::ObjectName(self.join_from(1)))
        } else if self.word_is(0, "mtllib") {
            Ok(Directive::MaterialLib(self.words_from(1)))
        } else if self.word_is(0, "usemtl") {
            Ok(Directive::UseMaterial(self.join_from(1)))
        } else if self.word_is(0, "g") {
            Ok(Directive::Group(self.words_from(1)))
        } else if self.word_is(0, "s") {
            match self.smoothing_group_at() {
                Ok(g) => Ok(Directive::SmoothingGroup(g)),
                Err(e) => Err(e),
            }
        } else if self.word_is(0, "l") {
            match self.line_vertices() {
                Ok(v) => if v.len() < 2 {
                    Err(ParseErrorKind::LineElementTooShort)
                } else {
                    Ok(Directive::LineElement(v))
                },
                Err(e) => Err(e),
            }
        } else if self.word_is(0, "p") {
            match self.point_vertices() {
                Ok(v) => if v.len() == 0 {
                    Err(ParseErrorKind::PointElementEmpty)
                } else {
                    Ok(Directive::PointElement(v))
                },
                Err(e) => Err(e),
            }
        } else {
            Ok(Directive::Unknown { prefix: self.word(0), rest: self.join_from(1) })
        }
    }
}

/// A directive result with its directive and error as views.
pub open spec fn directive_result(r: Result<Directive, ParseErrorKind>) -> Result<
    DirectiveView,
    ParseErrorKindView,
> {
    match r {
        Ok(d) => Ok(d@),
        Err(e) => Err(e@),
    }
}

/// Reads one line of an OBJ file: `Ok(None)` for a blank line, else the
/// directive that the line's first word names, or the syntax problem that
/// keeps the line from reading as one. Numbers are checked as
/// `str::parse::<f64>()` (and `::<f32>()`) checks them.
pub fn parse_line(line: &str) -> (r: Result<Option<Directive>, ParseErrorKind>)
    ensures
        line_result(r) == parsed_line(line@),
{
    let lw = LineWords::new(line);
    if lw.count() == 0 {
        return Ok(None);
    }
    let acc = lw.float_flags();
    match lw.directive(acc.as_slice()) {
        Ok(d) => Ok(Some(d)),
        Err(e) => Err(e),
    }
}

/// Reads one line of an OBJ file as [`parse_line`] does, for a float type of
/// the caller's: `accepted[i]` says whether that type parses the `i`-th text
/// of [`number_fields`] of the line.
pub fn parse_line_with(line: &str, accepted: &[bool]) -> (r: Result<
    Option<Directive>,
    ParseErrorKind,
>)
    ensures
        line_result(r) == parsed_line_with(line@, accepted@),
{
    let lw = LineWords::new(line);
    if lw.count() == 0 {
        return Ok(None);
    }
    match lw.directive(accepted) {
        Ok(d) => Ok(Some(d)),
        Err(e) => Err(e),
    }
}

/// The texts of `line` that its directive reads as numbers, in order: the
/// first arguments of `v` (up to 4), `vt` and `vn` (up to 3); none for other
/// lines.
pub fn number_fields(line: &str) -> (v: Vec<String>)
    ensures
        v.deep_view() == number_texts(line@),
{
    let lw = LineWords::new(line);
    if lw.count() == 0 {
        return Vec::new();
    }
    lw.numbers()
}

/// Reads an OBJ file line by line and counts the lines, so that a syntax
/// problem can name the 1-based number of the line it is on.
pub struct ObjLineReader {
    lines: usize,
}

impl ObjLineReader {
    /// The number of lines read so far.
    pub closed spec fn lines_read(&self) -> usize {
        self.lines
    }

    /// A reader that has read no line yet.
    pub fn new() -> (r: Self)
        ensures
            r.lines_read() == 0,
    {
        ObjLineReader { lines: 0 }
    }

    /// The number of lines read so far.
    pub fn line_number(&self) -> (n: usize)
        ensures
            n == self.lines_read(),
    {
        self.lines
    }

    /// Reads the next line: `Ok(None)` for a blank line, `Ok(Some(d))` for a
    /// directive, or the syntax problem with this line's number. Numbers are
    /// checked as `str::parse::<f64>()` checks them.
    pub fn read_line(&mut self, line: &str) -> (r: Result<Option<Directive>, ObjError>)
        requires
            old(self).lines_read() < usize::MAX,
        ensures
            final(self).lines_read() == old(self).lines_read() + 1,
            match parsed_line(line@) {
                Ok(None) => r matches Ok(None),
                Ok(Some(d)) => r matches Ok(Some(x)) && x@ == d,
                Err(k) => r matches Err(e) && e@ == (ObjErrorView::Parse {
                    line: final(self).lines_read(),
                    kind: k,
                }),
            },
    {
        self.lines = self.lines + 1;
        match parse_line(line) {
            Ok(d) => Ok(d),
            Err(kind) => Err(ObjError::Parse { line: self.lines, kind }),
        }
    }

    /// Reads the next line as [`read_line`](Self::read_line) does, for a
    /// float type of the caller's: `accepted[i]` says whether that type
    /// parses the `i`-th text of [`number_fields`] of the line.
    pub fn read_line_with(&mut self, line: &str, accepted: &[bool]) -> (r: Result<
        Option<Directive>,
        ObjError,
    >)
        requires
            old(self).lines_read() < usize::MAX,
        ensures
            final(self).lines_read() == old(self).lines_read() + 1,
            match parsed_line_with(line@, accepted@) {
                Ok(None) => r matches Ok(None),
                Ok(Some(d)) => r matches Ok(Some(x)) && x@ == d,
                Err(k) => r matches Err(e) && e@ == (ObjErrorView::Parse {
                    line: final(self).lines_read(),
                    kind: k,
                }),
            },
    {
        self.lines = self.lines + 1;
        match parse_line_with(line, accepted) {
            Ok(d) => Ok(d),
            Err(kind) => Err(ObjError::Parse { line: self.lines, kind }),
        }
    }
}

} // verus!
