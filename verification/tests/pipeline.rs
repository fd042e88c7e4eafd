use terminal_gfx::types::Intersection;
use terminal_gfx::types::Triangle;
use terminal_gfx::types::Vector2;
use terminal_gfx::types::Vector3;
use terminal_gfx::types::Vertex;
use terminal_gfx::TerminalGraphics;

#[derive(Copy, Clone, Debug, PartialEq)]
struct TestVertex {
    pos: Vector3<f32>,
    color: f32,
}

impl Vertex for TestVertex {
    type Num = f32;

    fn default() -> Self {
        TestVertex { pos: Vector3 { x: 0.0, y: 0.0, z: 0.0 }, color: 0.0 }
    }

    fn get_pos(&self) -> Vector3<f32> {
        self.pos
    }
}

fn vert(x: f32, y: f32, z: f32, color: f32) -> TestVertex {
    TestVertex { pos: Vector3 { x, y, z }, color }
}

fn sub3(a: Vector3<f32>, b: Vector3<f32>) -> Vector3<f32> {
    Vector3 { x: a.x - b.x, y: a.y - b.y, z: a.z - b.z }
}

fn dot3(a: Vector3<f32>, b: Vector3<f32>) -> f32 {
    a.x * b.x + a.y * b.y + a.z * b.z
}

/// Barycentric hit test over the normalized (-1,-1)..(1,1) square: u weights
/// toward c, v toward b; inside iff u >= 0, v >= 0 and u + v < 1 (the far edge
/// is excluded).
fn is_inside(
    triangle: &Triangle<TestVertex>,
    x: usize,
    y: usize,
    width: usize,
    height: usize,
) -> Option<Intersection<f32>> {
    let p = Vector3 {
        x: 2.0 * x as f32 / width as f32 - 1.0,
        y: 2.0 * y as f32 / height as f32 - 1.0,
        z: 0.0,
    };
    let v0 = sub3(triangle.c.get_pos(), triangle.a.get_pos());
    let v1 = sub3(triangle.b.get_pos(), triangle.a.get_pos());
    let v2 = sub3(p, triangle.a.get_pos());
    let dot00 = dot3(v0, v0);
    let dot01 = dot3(v0, v1);
    let dot02 = dot3(v0, v2);
    let dot11 = dot3(v1, v1);
    let dot12 = dot3(v1, v2);
    let inv_denominator = 1.0 / (dot00 * dot11 - dot01 * dot01);
    let u = (dot11 * dot02 - dot01 * dot12) * inv_denominator;
    let v = (dot00 * dot12 - dot01 * dot02) * inv_denominator;
    if !((u >= 0.0) && (v >= 0.0) && (u + v < 1.0)) {
        return None;
    }
    let depth = triangle.b.get_pos().z * u + triangle.c.get_pos().z * v
        + triangle.a.get_pos().z * (1.0 - u - v);
    Some(Intersection { depth, uv: Vector2::new(u, v) })
}

fn pixel_shader(triangle: &Triangle<TestVertex>, uv: Vector2<f32>) -> u8 {
    let u = uv.x;
    let v = uv.y;
    let color = (triangle.b.color * u + triangle.c.color * v + triangle.a.color * (1.0 - u - v))
        * 255.0;
    if color < 0.0 {
        0
    } else if color > 255.0 {
        255
    } else {
        color as u8
    }
}

fn depth_ge(a: f32, b: f32) -> bool {
    a >= b
}

fn draw_all(
    gfx: &mut TerminalGraphics<f32>,
    vertices: &[TestVertex],
    scratch: &mut Vec<TestVertex>,
    indices: &[(usize, usize, usize)],
) {
    gfx.draw(
        vertices,
        scratch,
        indices,
        pixel_shader,
        TerminalGraphics::<f32>::vertex_shader,
        is_inside,
        depth_ge,
    );
}

#[test]
fn identity_vertex_shader_returns_input() {
    let v = vert(0.25, -0.5, 0.75, 0.9);
    let shaded = TerminalGraphics::<f32>::vertex_shader(&v);
    assert_eq!(shaded, v);
}

#[test]
fn vertex_stage_fills_scratch_and_keeps_tail() {
    let mut gfx = TerminalGraphics::new(2, 2, f32::NEG_INFINITY);
    let vertices = [vert(-1.0, -1.0, 0.0, 1.0), vert(1.0, 1.0, 0.0, 0.5)];
    let filler = vert(9.0, 9.0, 9.0, 9.0);
    let mut scratch = vec![filler; 3];
    draw_all(&mut gfx, &vertices, &mut scratch, &[]);
    assert_eq!(scratch[0], vertices[0]);
    assert_eq!(scratch[1], vertices[1]);
    assert_eq!(scratch[2], filler);
    // no triangles were listed, so no cell was touched
    for y in 0..2 {
        for x in 0..2 {
            assert_eq!(gfx.pixel_at(x, y), 0);
            assert_eq!(gfx.depth_at(x, y), f32::NEG_INFINITY);
        }
    }
}

#[test]
fn end_to_end_four_by_four() {
    // Vertices a(-1,-1,0), b(1,1,0), c(1,-1,0) with colors 1.0, 0.5, 0.1 on a
    // 4x4 buffer. Cell (x,y) maps to (x/2-1, y/2-1); there u = (x-y)/4 and
    // v = y/4, so the cell is covered exactly when x >= y, and the intensity
    // is (0.5*u + 0.1*v + 1.0*(1-u-v)) * 255 truncated to a byte.
    let mut gfx = TerminalGraphics::new(4, 4, f32::NEG_INFINITY);
    let vertices = [
        vert(-1.0, -1.0, 0.0, 1.0),
        vert(1.0, 1.0, 0.0, 0.5),
        vert(1.0, -1.0, 0.0, 0.1),
    ];
    let mut scratch = vec![TestVertex::default(); 3];
    draw_all(&mut gfx, &vertices, &mut scratch, &[(0, 1, 2)]);
    let expected: [[u8; 4]; 4] = [
        [255, 223, 191, 159],
        [0, 197, 165, 133],
        [0, 0, 140, 108],
        [0, 0, 0, 82],
    ];
    for y in 0..4 {
        for x in 0..4 {
            assert_eq!(gfx.pixel_at(x, y), expected[y][x], "cell ({}, {})", x, y);
        }
    }
    // uncovered cells were never written: their depth is still the floor
    assert_eq!(gfx.depth_at(0, 1), f32::NEG_INFINITY);
    assert_eq!(gfx.depth_at(0, 0), 0.0);
}

#[test]
fn far_edge_is_excluded() {
    // Right triangle a(-1,-1), b(-1,0), c(0,-1): u = px+1 and v = py+1, so
    // u+v == 1 exactly on the cells where px+py == -1, i.e. x+y == 2 on a 4x4
    // buffer. Those cells must stay empty; cells with x+y < 2 are covered.
    let mut gfx = TerminalGraphics::new(4, 4, f32::NEG_INFINITY);
    let vertices = [
        vert(-1.0, -1.0, 0.0, 1.0),
        vert(-1.0, 0.0, 0.0, 1.0),
        vert(0.0, -1.0, 0.0, 1.0),
    ];
    let mut scratch = vec![TestVertex::default(); 3];
    draw_all(&mut gfx, &vertices, &mut scratch, &[(0, 1, 2)]);
    for y in 0..4 {
        for x in 0..4 {
            let expected = if x + y < 2 { 255 } else { 0 };
            assert_eq!(gfx.pixel_at(x, y), expected, "cell ({}, {})", x, y);
        }
    }
}

#[test]
fn depth_tie_lets_later_triangle_win() {
    let mut gfx = TerminalGraphics::new(4, 4, f32::NEG_INFINITY);
    let vertices = [
        vert(-1.0, -1.0, 0.5, 1.0),
        vert(1.0, 1.0, 0.5, 1.0),
        vert(1.0, -1.0, 0.5, 1.0),
        vert(-1.0, -1.0, 0.5, 0.5),
        vert(1.0, 1.0, 0.5, 0.5),
        vert(1.0, -1.0, 0.5, 0.5),
    ];
    let mut scratch = vec![TestVertex::default(); 6];
    draw_all(&mut gfx, &vertices, &mut scratch, &[(0, 1, 2), (3, 4, 5)]);
    // equal interpolated depth at every covered cell: the later triangle wins
    assert_eq!(gfx.pixel_at(0, 0), 127);
    assert_eq!(gfx.depth_at(0, 0), 0.5);
}

#[test]
fn lower_depth_keeps_first_triangle() {
    let mut gfx = TerminalGraphics::new(4, 4, f32::NEG_INFINITY);
    let vertices = [
        vert(-1.0, -1.0, 0.5, 1.0),
        vert(1.0, 1.0, 0.5, 1.0),
        vert(1.0, -1.0, 0.5, 1.0),
        vert(-1.0, -1.0, 0.25, 0.5),
        vert(1.0, 1.0, 0.25, 0.5),
        vert(1.0, -1.0, 0.25, 0.5),
    ];
    let mut scratch = vec![TestVertex::default(); 6];
    draw_all(&mut gfx, &vertices, &mut scratch, &[(0, 1, 2), (3, 4, 5)]);
    // the later triangle lies strictly behind: the first one's color stays
    assert_eq!(gfx.pixel_at(0, 0), 255);
    assert_eq!(gfx.depth_at(0, 0), 0.5);
}

#[test]
fn higher_depth_overwrites_first_triangle() {
    let mut gfx = TerminalGraphics::new(4, 4, f32::NEG_INFINITY);
    let vertices = [
        vert(-1.0, -1.0, 0.25, 1.0),
        vert(1.0, 1.0, 0.25, 1.0),
        vert(1.0, -1.0, 0.25, 1.0),
        vert(-1.0, -1.0, 0.5, 0.5),
        vert(1.0, 1.0, 0.5, 0.5),
        vert(1.0, -1.0, 0.5, 0.5),
    ];
    let mut scratch = vec![TestVertex::default(); 6];
    draw_all(&mut gfx, &vertices, &mut scratch, &[(0, 1, 2), (3, 4, 5)]);
    // the later triangle lies in front: it overwrites color and depth
    assert_eq!(gfx.pixel_at(0, 0), 127);
    assert_eq!(gfx.depth_at(0, 0), 0.5);
}

#[test]
fn triangle_new_copies_indexed_vertices() {
    let vertices = [
        vert(0.0, 0.0, 0.0, 0.1),
        vert(1.0, 0.0, 0.0, 0.2),
        vert(0.0, 1.0, 0.0, 0.3),
        vert(1.0, 1.0, 0.0, 0.4),
    ];
    let triangle = Triangle::new(&(3, 0, 2), &vertices);
    assert_eq!(triangle.a, vertices[3]);
    assert_eq!(triangle.b, vertices[0]);
    assert_eq!(triangle.c, vertices[2]);
}

#[test]
fn interior_point_has_admissible_barycentric_pair() {
    // a point chosen strictly inside the triangle by construction: the
    // midpoint-ish cell (1, 0) of the end-to-end scene
    let vertices = [
        vert(-1.0, -1.0, 0.0, 1.0),
        vert(1.0, 1.0, 0.0, 0.5),
        vert(1.0, -1.0, 0.0, 0.1),
    ];
    let triangle = Triangle::new(&(0, 1, 2), &vertices);
    let hit = is_inside(&triangle, 1, 0, 4, 4).expect("point is inside");
    assert!(hit.uv.x >= 0.0);
    assert!(hit.uv.y >= 0.0);
    assert!(hit.uv.x + hit.uv.y < 1.0);
    assert_eq!(hit.uv.x, 0.25);
    assert_eq!(hit.uv.y, 0.0);
}
