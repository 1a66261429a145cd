//! Colours of triangles, and the combinatorial half of clipping a triangle
//! against one plane of the view frustum: which triangles replace it, built
//! from which of its vertices and which edge crossings.
use vstd::prelude::*;

verus! {

/// A 24-bit colour.
#[derive(Copy, Clone, Debug, PartialEq, Eq, Structural)]
pub struct Color {
    pub r: u8,
    pub g: u8,
    pub b: u8,
}

impl Color {
    /// The colour with channels `r`, `g` and `b`.
    pub fn new(r: u8, g: u8, b: u8) -> (color: Self)
        ensures
            color == (Color { r, g, b }),
    {
        Self { r, g, b }
    }
}

/// A vertex of a triangle that clipping produces.
#[derive(Copy, Clone, Debug, PartialEq, Eq, Structural)]
pub enum ClipVertex {
    /// Vertex `i` (0, 1 or 2) of the triangle being clipped.
    Original(usize),
    /// The point where the edge from vertex `inside` (on the kept side of the
    /// plane) to vertex `outside` (beyond it) crosses the plane.
    Intersection(usize, usize),
}

/// The index of the first vertex on the kept side of the plane, or 3 when none is.
pub open spec fn first_inside(inside: [bool; 3]) -> int {
    if inside[0] {
        0
    } else if inside[1] {
        1
    } else if inside[2] {
        2
    } else {
        3
    }
}

/// The triangles that replace a triangle when it is clipped against one
/// plane, given which of its vertices lie on the kept side. With `a` the first
/// kept vertex and `b`, `c` the next two around the triangle: all kept gives
/// the triangle itself; `b` kept and `c` cut gives `[a, b, bc]` and
/// `[a, bc, ac]`; `b` cut and `c` kept gives `[a, ab, c]` and `[c, ab, cb]`;
/// both cut gives `[a, ab, ac]`; no vertex kept gives nothing.
pub open spec fn clip_plan(inside: [bool; 3]) -> Seq<[ClipVertex; 3]> {
    let ia = first_inside(inside);
    if ia == 3 {
        seq![]
    } else {
        let a = ia as usize;
        let b = ((ia + 1) % 3) as usize;
        let c = ((ia + 2) % 3) as usize;
        if inside[b as int] && inside[c as int] {
            seq![[ClipVertex::Original(0), ClipVertex::Original(1), ClipVertex::Original(2)]]
        } else if inside[b as int] {
            seq![
                [ClipVertex::Original(a), ClipVertex::Original(b), ClipVertex::Intersection(b, c)],
                [ClipVertex::Original(a), ClipVertex::Intersection(b, c), ClipVertex::Intersection(a, c)],
            ]
        } else if inside[c as int] {
            seq![
                [ClipVertex::Original(a), ClipVertex::Intersection(a, b), ClipVertex::Original(c)],
                [ClipVertex::Original(c), ClipVertex::Intersection(a, b), ClipVertex::Intersection(c, b)],
            ]
        } else {
            seq![[ClipVertex::Original(a), ClipVertex::Intersection(a, b), ClipVertex::Intersection(a, c)]]
        }
    }
}

/// The triangles that replace a triangle clipped against one plane of the
/// view frustum, given which of its three vertices lie on the kept side of
/// that plane. The caller computes the crossing points and keeps the colour.
pub fn plan_triangle_clip(inside: [bool; 3]) -> (plan: Vec<[ClipVertex; 3]>)
    ensures
        plan@ == clip_plan(inside),
{
    let index: usize = if inside[0] {
        0
    } else if inside[1] {
        1
    } else if inside[2] {
        2
    } else {
        // None of the vertices are within the plane
        return Vec::new();
    };
    let b = (index + 1) % 3;
    let c = (index + 2) % 3;
    let b_inside = inside[b];
    let c_inside = inside[c];
    let plan = if b_inside && c_inside {
        // Triangle is already fully within the plane
        vec![[ClipVertex::Original(0), ClipVertex::Original(1), ClipVertex::Original(2)]]
    } else if b_inside {
        // Triangle is clipped into two triangles
        vec![
            [ClipVertex::Original(index), ClipVertex::Original(b), ClipVertex::Intersection(b, c)],
            [ClipVertex::Original(index), ClipVertex::Intersection(b, c), ClipVertex::Intersection(index, c)],
        ]
    } else if c_inside {
        // Triangle is clipped into two triangles
        vec![
            [ClipVertex::Original(index), ClipVertex::Intersection(index, b), ClipVertex::Original(c)],
            [ClipVertex::Original(c), ClipVertex::Intersection(index, b), ClipVertex::Intersection(c, b)],
        ]
    } else {
        // Triangle is clipped into one smaller triangle
        vec![[ClipVertex::Original(index), ClipVertex::Intersection(index, b), ClipVertex::Intersection(index, c)]]
    };
    assert(plan@ =~= clip_plan(inside));
    plan
}

/// The number of vertices of a triangle on the kept side of a plane.
pub open spec fn inside_count(inside: [bool; 3]) -> int {
    (if inside[0] { 1int } else { 0 }) + (if inside[1] { 1int } else { 0 }) + (if inside[2] { 1int } else { 0 })
}

/// Whether a produced vertex lies on the kept part of the triangle: an
/// original vertex on the kept side, or the crossing of an edge that goes
/// from the kept side to the cut side.
pub open spec fn vertex_kept(inside: [bool; 3], v: ClipVertex) -> bool {
    match v {
        ClipVertex::Original(i) => i < 3 && inside[i as int],
        ClipVertex::Intersection(i, j) => i < 3 && j < 3 && inside[i as int] && !inside[j as int],
    }
}

/// Clipping against a plane keeps a triangle whole when all its vertices are
/// kept, drops it when none are, cuts it into one triangle when one vertex is
/// kept and into two when two are; and every vertex it produces lies on the
/// kept part of the triangle.
pub proof fn lemma_clip_plan_shape(inside: [bool; 3])
    ensures
        inside_count(inside) == 0 ==> clip_plan(inside).len() == 0,
        inside_count(inside) == 1 ==> clip_plan(inside).len() == 1,
        inside_count(inside) == 2 ==> clip_plan(inside).len() == 2,
        inside_count(inside) == 3 ==> clip_plan(inside) == seq![
            [ClipVertex::Original(0), ClipVertex::Original(1), ClipVertex::Original(2)],
        ],
        forall|t: int, k: int|
            0 <= t < clip_plan(inside).len() && 0 <= k < 3 ==> vertex_kept(inside, #[trigger] clip_plan(inside)[t][k]),
{
}

} // verus!
