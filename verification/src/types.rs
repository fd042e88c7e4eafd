//! Vector, vertex and triangle primitives for the rasterizer.
use vstd::prelude::*;

verus! {

/// A 2D vector, generic over its element type.
#[derive(Copy, Clone, PartialEq, Debug)]
pub struct Vector2<T> {
    pub x: T,
    pub y: T,
}

impl<T> Vector2<T> {
    pub fn new(x: T, y: T) -> (r: Vector2<T>)
        ensures
            r == (Vector2 { x, y }),
    {
        Vector2 { x, y }
    }
}

/// A 3D vector, generic over its element type.
#[derive(Copy, Clone, PartialEq, Debug)]
pub struct Vector3<T> {
    pub x: T,
    pub y: T,
    pub z: T,
}

impl<T> Vector3<T> {
    pub fn new(x: T, y: T, z: T) -> (r: Vector3<T>)
        ensures
            r == (Vector3 { x, y, z }),
    {
        Vector3 { x, y, z }
    }
}

impl<T> Vector2<T> {
    /// Promote to 3D by appending a z component.
    pub fn extend(self, z: T) -> (r: Vector3<T>)
        ensures
            r == (Vector3 { x: self.x, y: self.y, z }),
    {
        Vector3 { x: self.x, y: self.y, z }
    }
}

impl Vector3<i64> {
    /// Component-wise sum.
    pub fn add(self, other: Vector3<i64>) -> (r: Vector3<i64>)
        requires
            i64::MIN <= self.x + other.x <= i64::MAX,
            i64::MIN <= self.y + other.y <= i64::MAX,
            i64::MIN <= self.z + other.z <= i64::MAX,
        ensures
            r.x == self.x + other.x,
            r.y == self.y + other.y,
            r.z == self.z + other.z,
    {
        Vector3 { x: self.x + other.x, y: self.y + other.y, z: self.z + other.z }
    }

    /// Component-wise difference.
    pub fn sub(self, other: Vector3<i64>) -> (r: Vector3<i64>)
        requires
            i64::MIN <= self.x - other.x <= i64::MAX,
            i64::MIN <= self.y - other.y <= i64::MAX,
            i64::MIN <= self.z - other.z <= i64::MAX,
        ensures
            r.x == self.x - other.x,
            r.y == self.y - other.y,
            r.z == self.z - other.z,
    {
        Vector3 { x: self.x - other.x, y: self.y - other.y, z: self.z - other.z }
    }
}

/// Dot product of two 3D vectors.
pub fn dot(a: Vector3<i64>, b: Vector3<i64>) -> (r: i64)
    requires
        i64::MIN <= a.x * b.x <= i64::MAX,
        i64::MIN <= a.y * b.y <= i64::MAX,
        i64::MIN <= a.z * b.z <= i64::MAX,
        i64::MIN <= a.x * b.x + a.y * b.y <= i64::MAX,
        i64::MIN <= a.x * b.x + a.y * b.y + a.z * b.z <= i64::MAX,
    ensures
        r == a.x * b.x + a.y * b.y + a.z * b.z,
{
    a.x * b.x + a.y * b.y + a.z * b.z
}

/// The capability a vertex variant must supply to run through the pipeline: a
/// zero instance and a 3D position, over whatever scalar the variant carries.
/// Any other attribute is the concern of the pixel shader written for the
/// variant.
pub trait Vertex: Copy {
    type Num;

    fn default() -> Self;

    fn get_pos(&self) -> Vector3<Self::Num>;
}

/// Three vertices copied out of a vertex array by an index triple.
#[derive(Copy, Clone)]
pub struct Triangle<T: Vertex> {
    pub a: T,
    pub b: T,
    pub c: T,
}

impl<T: Vertex> Triangle<T> {
    /// Copy the three vertices that `indices` selects. Validating the indices
    /// is the caller's contract.
    pub fn new(indices: &(usize, usize, usize), vertices: &[T]) -> (r: Self)
        requires
            indices.0 < vertices@.len(),
            indices.1 < vertices@.len(),
            indices.2 < vertices@.len(),
        ensures
            r.a == vertices@[indices.0 as int],
            r.b == vertices@[indices.1 as int],
            r.c == vertices@[indices.2 as int],
    {
        Triangle { a: vertices[indices.0], b: vertices[indices.1], c: vertices[indices.2] }
    }
}

/// The triangle that `Triangle::new` builds from a vertex sequence and an
/// index triple.
pub open spec fn spec_triangle_of<T: Vertex>(
    vertices: Seq<T>,
    indices: (usize, usize, usize),
) -> Triangle<T> {
    Triangle {
        a: vertices[indices.0 as int],
        b: vertices[indices.1 as int],
        c: vertices[indices.2 as int],
    }
}

/// The ephemeral result of a hit test: the interpolated depth at the tested
/// cell and the barycentric `(u, v)` pair, `u` weighting toward the third
/// vertex and `v` toward the second.
#[derive(Copy, Clone)]
pub struct Intersection<D> {
    pub depth: D,
    pub uv: Vector2<D>,
}

} // verus!
