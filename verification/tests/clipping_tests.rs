use terminal_renderer::geometry::{plan_triangle_clip, ClipVertex, Color};

#[derive(Clone, Copy)]
enum Plane {
    Near,
    Right,
    Top,
}

type P4 = [f64; 4];

fn inside(plane: Plane, v: &P4) -> bool {
    match plane {
        Plane::Near => v[2] >= -v[3],
        Plane::Right => v[0] <= v[3],
        Plane::Top => v[1] <= v[3],
    }
}

fn intersection(plane: Plane, a: &P4, b: &P4) -> P4 {
    let alpha = match plane {
        Plane::Near => (-b[3] - b[2]) / (a[2] + a[3] - b[3] - b[2]),
        Plane::Right => (b[3] - b[0]) / (a[0] - a[3] + b[3] - b[0]),
        Plane::Top => (b[3] - b[1]) / (a[1] - a[3] + b[3] - b[1]),
    };
    let mut r = [0.0; 4];
    for i in 0..4 {
        r[i] = alpha * a[i] + (1.0 - alpha) * b[i];
    }
    r
}

/// Clips a clip-space triangle against one plane, as the renderer does: the
/// library decides the pieces, the floating-point crossings are computed here.
fn clip(plane: Plane, tri: [P4; 3], color: Color) -> Vec<([P4; 3], Color)> {
    let flags = [inside(plane, &tri[0]), inside(plane, &tri[1]), inside(plane, &tri[2])];
    plan_triangle_clip(flags)
        .iter()
        .map(|t| {
            let point = |v: &ClipVertex| match *v {
                ClipVertex::Original(i) => tri[i],
                ClipVertex::Intersection(i, j) => intersection(plane, &tri[i], &tri[j]),
            };
            ([point(&t[0]), point(&t[1]), point(&t[2])], color)
        })
        .collect()
}

#[test]
fn test_near_plane_one_clip() {
    let white = Color::new(255, 255, 255);
    let triangle = [[0.0, 0.0, 0.0, 1.0], [0.0, 0.0, -2.0, 1.0], [1.0, 0.0, -2.0, 1.0]];
    let expected = vec![([[0.0, 0.0, 0.0, 1.0], [0.0, 0.0, -1.0, 1.0], [0.5, 0.0, -1.0, 1.0]], white)];
    assert_eq!(clip(Plane::Near, triangle, white), expected);
}

#[test]
fn test_right_plane_one_clip() {
    let white = Color::new(255, 255, 255);
    let triangle = [[0.0, 0.0, 0.0, 1.0], [2.0, 0.0, 0.0, 1.0], [2.0, 0.0, -1.0, 1.0]];
    let expected = vec![([[0.0, 0.0, 0.0, 1.0], [1.0, 0.0, 0.0, 1.0], [1.0, 0.0, -0.5, 1.0]], white)];
    assert_eq!(clip(Plane::Right, triangle, white), expected);
}

#[test]
fn test_top_plane_one_clip() {
    let white = Color::new(255, 255, 255);
    let triangle = [[0.0, 0.0, 0.0, 1.0], [0.0, 2.0, 0.0, 1.0], [0.0, 2.0, -1.0, 1.0]];
    let expected = vec![([[0.0, 0.0, 0.0, 1.0], [0.0, 1.0, 0.0, 1.0], [0.0, 1.0, -0.5, 1.0]], white)];
    assert_eq!(clip(Plane::Top, triangle, white), expected);
}

#[test]
fn clip_plan_cases() {
    #[allow(non_snake_case)]
    let O = ClipVertex::Original;
    #[allow(non_snake_case)]
    let X = ClipVertex::Intersection;
    assert!(plan_triangle_clip([false, false, false]).is_empty());
    assert_eq!(plan_triangle_clip([true, true, true]), vec![[O(0), O(1), O(2)]]);
    // one vertex kept: one smaller triangle
    assert_eq!(plan_triangle_clip([false, true, false]), vec![[O(1), X(1, 2), X(1, 0)]]);
    assert_eq!(plan_triangle_clip([false, false, true]), vec![[O(2), X(2, 0), X(2, 1)]]);
    // two vertices kept: two triangles
    assert_eq!(plan_triangle_clip([true, true, false]), vec![[O(0), O(1), X(1, 2)], [O(0), X(1, 2), X(0, 2)]]);
    assert_eq!(plan_triangle_clip([true, false, true]), vec![[O(0), X(0, 1), O(2)], [O(2), X(0, 1), X(2, 1)]]);
    assert_eq!(plan_triangle_clip([false, true, true]), vec![[O(1), O(2), X(2, 0)], [O(1), X(2, 0), X(1, 0)]]);
}

#[test]
fn clip_keeps_whole_triangle_inside() {
    let c = Color::new(1, 2, 3);
    let tri = [[0.1, 0.1, 0.1, 1.0], [0.2, 0.1, 0.1, 1.0], [0.1, 0.3, 0.1, 1.0]];
    assert_eq!(clip(Plane::Near, tri, c), vec![(tri, c)]);
    let outside = [[0.0, 0.0, -3.0, 1.0], [0.0, 1.0, -3.0, 1.0], [1.0, 0.0, -3.0, 1.0]];
    assert!(clip(Plane::Near, outside, c).is_empty());
}
