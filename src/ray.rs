use vstd::prelude::*;

verus! {

/// A ray: an origin point and a direction, both of the caller's vector type.
/// The direction is not required to be of unit length.
#[derive(Clone, Copy, Debug)]
pub struct Ray<P> {
    pub ori: P,
    pub dir: P,
}

impl<P> Ray<P> {
    /// Builds the ray that starts at `ori` and runs along `dir`; both are kept
    /// exactly as given.
    pub fn new(ori: P, dir: P) -> (r: Self)
        ensures
            r.ori == ori,
            r.dir == dir,
    {
        Ray { ori, dir }
    }
}

} // verus!
