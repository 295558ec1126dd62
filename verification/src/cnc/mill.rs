use vstd::prelude::*;

verus! {

/// Shape of the cutting end of a mill.
#[derive(Clone, Copy, Debug, PartialEq, Eq, Structural)]
pub enum CutterShape {
    Ball,
    Cylinder,
}

impl Default for CutterShape {
    fn default() -> (s: CutterShape)
        ensures
            s == CutterShape::Ball,
    {
        CutterShape::Ball
    }
}

/// Kind of mill a program is written for (the first letter of the file
/// extension: `k` ball, `f` flat).
#[derive(Clone, Copy, Debug, PartialEq, Eq, Structural)]
pub enum MillType {
    Ball,
    Cylinder,
}

/// The mill a program is written for, from its file extension (`k16`: ball,
/// 16 mm).
#[derive(Clone, Copy, Debug, PartialEq, Eq, Structural)]
pub struct MillShape {
    pub type_: MillType,
    pub diameter: u32,
}

} // verus!
