//! Verified core of a CAD/CAM modelling tool: the G-code (CNC program)
//! reader and checker, the patch topology of Bezier surfaces, the C0 edge
//! graph used to find holes to fill, and the entity registry bookkeeping.

pub mod cnc;
pub mod entities;
pub mod graph;
pub mod json;
