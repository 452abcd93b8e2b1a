//! The directives of an OBJ file, one per line.
use vstd::prelude::*;

verus! {

/// Smoothing group selector for the `s` directive.
///
/// `s 0` and `s off` both disable smoothing; any positive integer names a
/// smoothing group.
#[derive(Debug, Clone, Copy, PartialEq, Eq, Structural)]
pub enum SmoothingGroup {
    Off,
    Group(u32),
}

/// One directive of an OBJ file. Numbers in `v`, `vt` and `vn` keep their
/// text, which is a floating-point literal; indices are 1-based.
#[derive(Debug, Clone, PartialEq, Eq)]
pub enum Directive {
    /// `# text`
    Comment(String),
    /// `o name`
    ObjectName(String),
    /// `v x y z [w]`
    Vertex { x: String, y: String, z: String, w: Option<String> },
    /// `vt u [v [w]]`
    TextureCoordinate { u: String, v: Option<String>, w: Option<String> },
    /// `vn nx ny nz`
    Normal { nx: String, ny: String, nz: String },
    /// `f v[/vt[/vn]] ...`
    Face(Vec<(usize, Option<usize>, Option<usize>)>),
    /// `mtllib lib1.mtl lib2.mtl ...`
    MaterialLib(Vec<String>),
    /// `usemtl name`
    UseMaterial(String),
    /// `g name1 name2 ...`
    Group(Vec<String>),
    /// `s 0|off|<n>`
    SmoothingGroup(SmoothingGroup),
    /// `l v1[/vt1] v2[/vt2] ...`
    LineElement(Vec<(usize, Option<usize>)>),
    /// `p v1 v2 ...`
    PointElement(Vec<usize>),
    /// Any other directive: its prefix, and the rest of its words joined by
    /// single spaces.
    Unknown { prefix: String, rest: String },
}

/// A [`Directive`] with its texts as character sequences.
pub enum DirectiveView {
    Comment(Seq<char>),
    ObjectName(Seq<char>),
    Vertex { x: Seq<char>, y: Seq<char>, z: Seq<char>, w: Option<Seq<char>> },
    TextureCoordinate { u: Seq<char>, v: Option<Seq<char>>, w: Option<Seq<char>> },
    Normal { nx: Seq<char>, ny: Seq<char>, nz: Seq<char> },
    Face(Seq<(usize, Option<usize>, Option<usize>)>),
    MaterialLib(Seq<Seq<char>>),
    UseMaterial(Seq<char>),
    Group(Seq<Seq<char>>),
    Smoothing(SmoothingGroup),
    LineElement(Seq<(usize, Option<usize>)>),
    PointElement(Seq<usize>),
    Unknown { prefix: Seq<char>, rest: Seq<char> },
}

/// An optional text as an optional character sequence.
pub open spec fn opt_text(o: Option<String>) -> Option<Seq<char>> {
    match o {
        Some(s) => Some(s@),
        None => None,
    }
}

impl View for Directive {
    type V = DirectiveView;

    open spec fn view(&self) -> DirectiveView {
        match self {
            Directive::Comment(t) => DirectiveView::Comment(t@),
            Directive::ObjectName(t) => DirectiveView::ObjectName(t@),
            Directive::Vertex { x, y, z, w } => DirectiveView::Vertex {
                x: x@,
                y: y@,
                z: z@,
                w: opt_text(*w),
            },
            Directive::TextureCoordinate { u, v, w } => DirectiveView::TextureCoordinate {
                u: u@,
                v: opt_text(*v),
                w: opt_text(*w),
            },
            Directive::Normal { nx, ny, nz } => DirectiveView::Normal {
                nx: nx@,
                ny: ny@,
                nz: nz@,
            },
            Directive::Face(f) => DirectiveView::Face(f@),
            Directive::MaterialLib(n) => DirectiveView::MaterialLib(n.deep_view()),
            Directive::UseMaterial(t) => DirectiveView::UseMaterial(t@),
            Directive::Group(n) => DirectiveView::Group(n.deep_view()),
            Directive::SmoothingGroup(g) => DirectiveView::Smoothing(*g),
            Directive::LineElement(l) => DirectiveView::LineElement(l@),
            Directive::PointElement(p) => DirectiveView::PointElement(p@),
            Directive::Unknown { prefix, rest } => DirectiveView::Unknown {
                prefix: prefix@,
                rest: rest@,
            },
        }
    }
}

} // verus!
