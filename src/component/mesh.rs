//! Triangle meshes.

use vstd::prelude::*;

use crate::component::{Component, ComponentType};

verus! {

/// The three corner indices of a triangle all name one of `n` vertices.
pub open spec fn triangle_in_range(t: [usize; 3], n: int) -> bool {
    t[0] < n && t[1] < n && t[2] < n
}

/// Geometry that a mesh can hold: at least one vertex and one triangle, and every triangle
/// names existing vertices.
pub open spec fn valid_geometry(n_vertices: int, triangles: Seq<[usize; 3]>) -> bool {
    &&& n_vertices > 0
    &&& triangles.len() > 0
    &&& forall|k: int| 0 <= k < triangles.len() ==> triangle_in_range(#[trigger] triangles[k], n_vertices)
}

/// Why geometry was refused.
#[derive(Debug, PartialEq, Eq, Structural, Clone, Copy)]
pub enum MeshError {
    /// There is no vertex or no triangle.
    NoGeometry,
    /// A triangle names a vertex that does not exist.
    IndexOutOfRange,
}

/// Triangle geometry: a list of vertices of type `V` and a list of index triples into it.
#[derive(Debug)]
pub struct Mesh<V> {
    src: String,
    vertices: Vec<V>,
    triangles: Vec<[usize; 3]>,
}

impl<V> Component for Mesh<V> {
}

impl<V> ComponentType for Mesh<V> {
    const TYPE: &'static str = "Mesh";
}

fn all_in_range(triangles: &Vec<[usize; 3]>, n: usize) -> (r: bool)
    ensures
        r == forall|k: int| 0 <= k < triangles.len() ==> triangle_in_range(#[trigger] triangles@[k], n as int),
{
    let mut k: usize = 0;
    while k < triangles.len()
        invariant
            0 <= k <= triangles.len(),
            forall|j: int| 0 <= j < k ==> triangle_in_range(#[trigger] triangles@[j], n as int),
        decreases triangles.len() - k,
    {
        let t = triangles[k];
        if t[0] >= n || t[1] >= n || t[2] >= n {
            assert(!triangle_in_range(triangles@[k as int], n as int));
            return false;
        }
        k += 1;
    }
    true
}

impl<V> Mesh<V> {
    /// The vertices.
    pub closed spec fn vertex_list(&self) -> Seq<V> {
        self.vertices@
    }

    /// The triangles, as index triples into the vertices.
    pub closed spec fn triangle_list(&self) -> Seq<[usize; 3]> {
        self.triangles@
    }

    /// Where the geometry came from.
    pub closed spec fn source(&self) -> Seq<char> {
        self.src@
    }

    /// A mesh with no source, no vertex and no triangle.
    pub fn new() -> (m: Mesh<V>)
        ensures
            m.vertex_list().len() == 0,
            m.triangle_list().len() == 0,
            m.source().len() == 0,
    {
        Mesh { src: String::new(), vertices: Vec::new(), triangles: Vec::new() }
    }

    pub fn vertices(&self) -> (r: &Vec<V>)
        ensures
            r@ == self.vertex_list(),
    {
        &self.vertices
    }

    pub fn triangles(&self) -> (r: &Vec<[usize; 3]>)
        ensures
            r@ == self.triangle_list(),
    {
        &self.triangles
    }

    pub fn src(&self) -> (r: &String)
        ensures
            r@ == self.source(),
    {
        &self.src
    }

    /// Takes geometry read from `src`. Refuses it, and keeps what the mesh held, when it has
    /// no vertex or no triangle, or when a triangle names a vertex that does not exist.
    pub fn set_geometry(&mut self, src: String, vertices: Vec<V>, triangles: Vec<[usize; 3]>) -> (r:
        Result<(), MeshError>)
        ensures
            r is Ok <==> valid_geometry(vertices.len() as int, triangles@),
            r == Err::<(), MeshError>(MeshError::NoGeometry) <==> (vertices.len() == 0
                || triangles.len() == 0),
            r == Err::<(), MeshError>(MeshError::IndexOutOfRange) <==> (vertices.len() > 0
                && triangles.len() > 0 && !valid_geometry(vertices.len() as int, triangles@)),
            r is Ok ==> final(self).vertex_list() == vertices@ && final(self).triangle_list()
                == triangles@ && final(self).source() == src@,
            r is Err ==> *final(self) == *old(self),
    {
        if vertices.len() == 0 || triangles.len() == 0 {
            return Err(MeshError::NoGeometry);
        }
        if !all_in_range(&triangles, vertices.len()) {
            return Err(MeshError::IndexOutOfRange);
        }
        self.src = src;
        self.vertices = vertices;
        self.triangles = triangles;
        Ok(())
    }
}

} // verus!
