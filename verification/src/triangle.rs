use vstd::prelude::*;

verus! {

/// Three vertex indices that make up one face of a mesh.
#[derive(Copy, Clone, Debug, PartialEq, Eq, Structural)]
pub struct Triangle {
    pub a: usize,
    pub b: usize,
    pub c: usize,
}

impl Triangle {
    pub fn new(a: usize, b: usize, c: usize) -> (t: Triangle)
        ensures
            t.a == a,
            t.b == b,
            t.c == c,
    {
        Triangle { a, b, c }
    }
}

} // verus!
