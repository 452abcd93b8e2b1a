//! Writing a directive as one line of an OBJ file (without its line break).
use vstd::prelude::*;
use vstd::string::*;

use crate::directive::{DirectiveView, SmoothingGroup};
use crate::number::{decimal, decimal_string};
use crate::text::join;

verus! {

/// `v`, `v/vt`, `v//vn` or `v/vt/vn`, each number in decimal.
pub open spec fn face_word(fv: (usize, Option<usize>, Option<usize>)) -> Seq<char> {
    decimal(fv.0 as nat) + match (fv.1, fv.2) {
        (None, None) => Seq::<char>::empty(),
        (Some(t), None) => seq!['/'] + decimal(t as nat),
        (None, Some(n)) => seq!['/', '/'] + decimal(n as nat),
        (Some(t), Some(n)) => seq!['/'] + decimal(t as nat) + seq!['/'] + decimal(n as nat),
    }
}

/// `v` or `v/vt`, each number in decimal.
pub open spec fn line_word(lv: (usize, Option<usize>)) -> Seq<char> {
    decimal(lv.0 as nat) + match lv.1 {
        None => Seq::<char>::empty(),
        Some(t) => seq!['/'] + decimal(t as nat),
    }
}

/// One word per face vertex.
pub open spec fn face_words(l: Seq<(usize, Option<usize>, Option<usize>)>) -> Seq<Seq<char>> {
    l.map_values(|fv: (usize, Option<usize>, Option<usize>)| face_word(fv))
}

/// One word per polyline vertex.
pub open spec fn line_words(l: Seq<(usize, Option<usize>)>) -> Seq<Seq<char>> {
    l.map_values(|lv: (usize, Option<usize>)| line_word(lv))
}

/// One decimal word per point.
pub open spec fn point_words(l: Seq<usize>) -> Seq<Seq<char>> {
    l.map_values(|v: usize| decimal(v as nat))
}

/// The word of an optional text: none, or the text.
pub open spec fn opt_word(o: Option<Seq<char>>) -> Seq<Seq<char>> {
    match o {
        Some(w) => seq![w],
        None => Seq::empty(),
    }
}

/// The argument of `s`: `off`, or the group in decimal.
pub open spec fn smoothing_word(g: SmoothingGroup) -> Seq<char> {
    match g {
        SmoothingGroup::Off => "off"@,
        SmoothingGroup::Group(n) => decimal(n as nat),
    }
}

/// The words of the line that a directive is written as; the line is these
/// words joined by single spaces.
pub open spec fn directive_words(d: DirectiveView) -> Seq<Seq<char>> {
    match d {
        DirectiveView::Comment(t) => seq!["#"@, t],
        DirectiveView::ObjectName(t) => seq!["o"@, t],
        DirectiveView::Vertex { x, y, z, w } => seq!["v"@, x, y, z] + opt_word(w),
        DirectiveView::TextureCoordinate { u, v, w } => seq!["vt"@, u] + match v {
            Some(v) => seq![v] + opt_word(w),
            None => Seq::empty(),
        },
        DirectiveView::Normal { nx, ny, nz } => seq!["vn"@, nx, ny, nz],
        DirectiveView::Face(l) => seq!["f"@] + face_words(l),
        DirectiveView::MaterialLib(names) => seq!["mtllib"@] + names,
        DirectiveView::UseMaterial(t) => seq!["usemtl"@, t],
        DirectiveView::Group(names) => seq!["g"@] + names,
        DirectiveView::Smoothing(g) => seq!["s"@, smoothing_word(g)],
        DirectiveView::LineElement(l) => seq!["l"@] + line_words(l),
        DirectiveView::PointElement(l) => seq!["p"@] + point_words(l),
        DirectiveView::Unknown { prefix, rest } => seq![prefix, rest],
    }
}

/// The line that a directive is written as.
pub open spec fn directive_line(d: DirectiveView) -> Seq<char> {
    join(directive_words(d))
}

/// An optional `&str` as an optional character sequence.
pub open spec fn opt_str(o: Option<&str>) -> Option<Seq<char>> {
    match o {
        Some(s) => Some(s@),
        None => None,
    }
}

proof fn lemma_join_push(ws: Seq<Seq<char>>, w: Seq<char>)
    requires
        ws.len() >= 1,
    ensures
        join(ws.push(w)) == join(ws) + seq![' '] + w,
{
    assert(ws.push(w).drop_last() =~= ws);
}

/// Starts a line with its first word.
fn start_line(w: &str) -> (line: String)
    ensures
        line@ == join(seq![w@]),
{
    w.to_owned()
}

/// Appends a space and the word `w` to a line that holds the words `ws`.
fn push_word(line: &mut String, w: &str, Ghost(ws): Ghost<Seq<Seq<char>>>)
    requires
        ws.len() >= 1,
        old(line)@ == join(ws),
    ensures
        final(line)@ == join(ws.push(w@)),
{
    line.append(" ");
    line.append(w);
    proof {
        reveal_strlit(" ");
        lemma_join_push(ws, w@);
    }
}

/// The decimal digits of `v`.
fn decimal_text(v: usize) -> (s: String)
    ensures
        s@ == decimal(v as nat),
{
    decimal_string(v as u64)
}

/// `v`, `v/vt`, `v//vn` or `v/vt/vn`.
fn face_word_text(fv: (usize, Option<usize>, Option<usize>)) -> (s: String)
    ensures
        s@ == face_word(fv),
{
    proof {
        reveal_strlit("/");
        reveal_strlit("//");
    }
    let (v, vt, vn) = fv;
    let mut s = decimal_text(v);
    match (vt, vn) {
        (None, None) => {
            assert(s@ + Seq::<char>::empty() =~= s@);
        },
        (Some(t), None) => {
            s.append("/");
            let d = decimal_text(t);
            s.append(d.as_str());
        },
        (None, Some(n)) => {
            s.append("//");
            let d = decimal_text(n);
            s.append(d.as_str());
            assert(s@ =~= decimal(v as nat) + (seq!['/', '/'] + decimal(n as nat)));
        },
        (Some(t), Some(n)) => {
            s.append("/");
            let d = decimal_text(t);
            s.append(d.as_str());
            s.append("/");
            let e = decimal_text(n);
            s.append(e.as_str());
            assert(s@ =~= decimal(v as nat) + (seq!['/'] + decimal(t as nat) + seq!['/'] + decimal(
                n as nat,
            )));
        },
    }
    s
}

/// `v` or `v/vt`.
fn line_word_text(lv: (usize, Option<usize>)) -> (s: String)
    ensures
        s@ == line_word(lv),
{
    proof {
        reveal_strlit("/");
    }
    let (v, vt) = lv;
    let mut s = decimal_text(v);
    match vt {
        None => {
            assert(s@ + Seq::<char>::empty() =~= s@);
        },
        Some(t) => {
            s.append("/");
            let d = decimal_text(t);
            s.append(d.as_str());
            assert(s@ =~= decimal(v as nat) + (seq!['/'] + decimal(t as nat)));
        },
    }
    s
}

/// The texts of a list of words.
pub open spec fn name_texts(names: Seq<&str>) -> Seq<Seq<char>> {
    names.map_values(|s: &str| s@)
}

/// A prefix followed by the given words, joined by single spaces.
fn words_line(prefix: &str, names: &[&str]) -> (line: String)
    ensures
        line@ == join(seq![prefix@] + name_texts(names@)),
{
    let ghost l = names@;
    let mut line = start_line(prefix);
    let n = names.len();
    let mut i: usize = 0;
    assert(seq![prefix@] + name_texts(l.take(0)) =~= seq![prefix@]);
    while i < n
        invariant
            n == l.len(),
            l == names@,
            i <= n,
            line@ == join(seq![prefix@] + name_texts(l.take(i as int))),
        decreases n - i,
    {
        let w = names[i];
        push_word(&mut line, w, Ghost(seq![prefix@] + name_texts(l.take(i as int))));
        assert((seq![prefix@] + name_texts(l.take(i as int))).push(w@) =~= seq![prefix@]
            + name_texts(l.take(i + 1)));
        i = i + 1;
    }
    assert(l.take(n as int) =~= l);
    line
}

/// `# comment`
pub fn comment_line(comment: &str) -> (line: String)
    ensures
        line@ == directive_line(DirectiveView::Comment(comment@)),
{
    let parts = vec![comment];
    assert(seq!["#"@] + name_texts(parts@) =~= seq!["#"@, comment@]);
    words_line("#", parts.as_slice())
}

/// `o name`
pub fn object_name_line(name: &str) -> (line: String)
    ensures
        line@ == directive_line(DirectiveView::ObjectName(name@)),
{
    let parts = vec![name];
    assert(seq!["o"@] + name_texts(parts@) =~= seq!["o"@, name@]);
    words_line("o", parts.as_slice())
}

/// `usemtl name`
pub fn use_material_line(name: &str) -> (line: String)
    ensures
        line@ == directive_line(DirectiveView::UseMaterial(name@)),
{
    let parts = vec![name];
    assert(seq!["usemtl"@] + name_texts(parts@) =~= seq!["usemtl"@, name@]);
    words_line("usemtl", parts.as_slice())
}

/// `v x y z [w]`, from the texts of the numbers.
pub fn vertex_line(x: &str, y: &str, z: &str, w: Option<&str>) -> (line: String)
    ensures
        line@ == directive_line(
            DirectiveView::Vertex { x: x@, y: y@, z: z@, w: opt_str(w) },
        ),
{
    let mut parts = vec![x, y, z];
    if let Some(w) = w {
        parts.push(w);
    }
    assert(seq!["v"@] + name_texts(parts@) =~= seq!["v"@, x@, y@, z@] + opt_word(opt_str(w)));
    words_line("v", parts.as_slice())
}

/// `vt u [v [w]]`, from the texts of the numbers; `w` is written only after `v`.
pub fn texture_coordinate_line(u: &str, v: Option<&str>, w: Option<&str>) -> (line: String)
    ensures
        line@ == directive_line(
            DirectiveView::TextureCoordinate { u: u@, v: opt_str(v), w: opt_str(w) },
        ),
{
    let mut parts = vec![u];
    if let Some(v) = v {
        parts.push(v);
        if let Some(w) = w {
            parts.push(w);
        }
    }
    assert(seq!["vt"@] + name_texts(parts@) =~= directive_words(
        DirectiveView::TextureCoordinate { u: u@, v: opt_str(v), w: opt_str(w) },
    ));
    words_line("vt", parts.as_slice())
}

/// `vn nx ny nz`, from the texts of the numbers.
pub fn normal_line(nx: &str, ny: &str, nz: &str) -> (line: String)
    ensures
        line@ == directive_line(DirectiveView::Normal { nx: nx@, ny: ny@, nz: nz@ }),
{
    let parts = vec![nx, ny, nz];
    assert(seq!["vn"@] + name_texts(parts@) =~= seq!["vn"@, nx@, ny@, nz@]);
    words_line("vn", parts.as_slice())
}

/// `f v[/vt[/vn]] ...`, one word per vertex.
pub fn face_line(vertex_indices: &[(usize, Option<usize>, Option<usize>)]) -> (line: String)
    ensures
        line@ == directive_line(DirectiveView::Face(vertex_indices@)),
{
    let ghost l = vertex_indices@;
    let mut line = start_line("f");
    let n = vertex_indices.len();
    let mut i: usize = 0;
    assert(seq!["f"@] + face_words(l.take(0)) =~= seq!["f"@]);
    while i < n
        invariant
            n == l.len(),
            l == vertex_indices@,
            i <= n,
            line@ == join(seq!["f"@] + face_words(l.take(i as int))),
        decreases n - i,
    {
        let w = face_word_text(vertex_indices[i]);
        push_word(&mut line, w.as_str(), Ghost(seq!["f"@] + face_words(l.take(i as int))));
        assert((seq!["f"@] + face_words(l.take(i as int))).push(w@) =~= seq!["f"@] + face_words(
            l.take(i + 1),
        ));
        i = i + 1;
    }
    assert(l.take(n as int) =~= l);
    line
}

/// `l v[/vt] ...`, one word per vertex.
pub fn line_element_line(indices: &[(usize, Option<usize>)]) -> (line: String)
    ensures
        line@ == directive_line(DirectiveView::LineElement(indices@)),
{
    let ghost l = indices@;
    let mut line = start_line("l");
    let n = indices.len();
    let mut i: usize = 0;
    assert(seq!["l"@] + line_words(l.take(0)) =~= seq!["l"@]);
    while i < n
        invariant
            n == l.len(),
            l == indices@,
            i <= n,
            line@ == join(seq!["l"@] + line_words(l.take(i as int))),
        decreases n - i,
    {
        let w = line_word_text(indices[i]);
        push_word(&mut line, w.as_str(), Ghost(seq!["l"@] + line_words(l.take(i as int))));
        assert((seq!["l"@] + line_words(l.take(i as int))).push(w@) =~= seq!["l"@] + line_words(
            l.take(i + 1),
        ));
        i = i + 1;
    }
    assert(l.take(n as int) =~= l);
    line
}

/// `p v1 v2 ...`, one word per vertex.
pub fn point_element_line(indices: &[usize]) -> (line: String)
    ensures
        line@ == directive_line(DirectiveView::PointElement(indices@)),
{
    let ghost l = indices@;
    let mut line = start_line("p");
    let n = indices.len();
    let mut i: usize = 0;
    assert(seq!["p"@] + point_words(l.take(0)) =~= seq!["p"@]);
    while i < n
        invariant
            n == l.len(),
            l == indices@,
            i <= n,
            line@ == join(seq!["p"@] + point_words(l.take(i as int))),
        decreases n - i,
    {
        let w = decimal_text(indices[i]);
        push_word(&mut line, w.as_str(), Ghost(seq!["p"@] + point_words(l.take(i as int))));
        assert((seq!["p"@] + point_words(l.take(i as int))).push(w@) =~= seq!["p"@] + point_words(
            l.take(i + 1),
        ));
        i = i + 1;
    }
    assert(l.take(n as int) =~= l);
    line
}

/// `mtllib lib1.mtl lib2.mtl ...`
pub fn material_lib_line(names: &[&str]) -> (line: String)
    ensures
        line@ == directive_line(DirectiveView::MaterialLib(name_texts(names@))),
{
    words_line("mtllib", names)
}

/// `g name1 name2 ...`
pub fn group_line(names: &[&str]) -> (line: String)
    ensures
        line@ == directive_line(DirectiveView::Group(name_texts(names@))),
{
    words_line("g", names)
}

/// `s off` or `s <n>`.
pub fn smoothing_group_line(group: SmoothingGroup) -> (line: String)
    ensures
        line@ == directive_line(DirectiveView::Smoothing(group)),
{
    let word = match group {
        SmoothingGroup::Off => "off".to_owned(),
        SmoothingGroup::Group(n) => decimal_string(n as u64),
    };
    let parts = vec![word.as_str()];
    assert(seq!["s"@] + name_texts(parts@) =~= seq!["s"@, smoothing_word(group)]);
    words_line("s", parts.as_slice())
}

} // verus!
