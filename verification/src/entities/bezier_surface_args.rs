use vstd::prelude::*;

verus! {

/// The fewest patches a new surface may have along a direction.
pub const MIN_PATCHES: i32 = 1;

/// The most patches a new surface may have along a direction.
pub const MAX_PATCHES: i32 = 30;

/// A patch count brought into `MIN_PATCHES..=MAX_PATCHES`, as the arguments
/// of a new surface are before it is built (its lengths are clamped likewise,
/// in floating point, by the caller).
pub fn clamp_patches(patches: &mut i32)
    ensures
        *final(patches) == (if *old(patches) < MIN_PATCHES {
            MIN_PATCHES
        } else if *old(patches) > MAX_PATCHES {
            MAX_PATCHES
        } else {
            *old(patches)
        }),
{
    if *patches < MIN_PATCHES {
        *patches = MIN_PATCHES;
    } else if *patches > MAX_PATCHES {
        *patches = MAX_PATCHES;
    }
}

/// Rows and columns of control points of a new C0 surface of `u_patches` by
/// `v_patches` patches: patches share their border rows and columns, and a
/// cylinder's last patch closes on its first row instead of a row of its own.
pub fn c0_point_counts(u_patches: i32, v_patches: i32, is_cylinder: bool) -> (r: (i32, i32))
    requires
        i32::MIN <= u_patches * 3,
        i32::MIN <= v_patches * 3,
        u_patches * 3 + 1 <= i32::MAX,
        v_patches * 3 + 1 <= i32::MAX,
    ensures
        r.0 == (if is_cylinder {
            u_patches * 3
        } else {
            u_patches * 3 + 1
        }),
        r.1 == v_patches * 3 + 1,
{
    if is_cylinder {
        (u_patches * 3, v_patches * 3 + 1)
    } else {
        (u_patches * 3 + 1, v_patches * 3 + 1)
    }
}

/// Rows and columns of control points of a new C2 surface of `u_patches` by
/// `v_patches` patches: each patch takes four consecutive rows and columns,
/// and a cylinder's rows wrap around.
pub fn c2_point_counts(u_patches: i32, v_patches: i32, is_cylinder: bool) -> (r: (i32, i32))
    requires
        u_patches + 3 <= i32::MAX,
        v_patches + 3 <= i32::MAX,
    ensures
        r.0 == (if is_cylinder {
            u_patches as int
        } else {
            u_patches + 3
        }),
        r.1 == v_patches + 3,
{
    if is_cylinder {
        (u_patches, v_patches + 3)
    } else {
        (u_patches + 3, v_patches + 3)
    }
}

/// The fewest patches a C2 cylinder may have around it.
pub const MIN_C2_CYLINDER_AROUND_PATCHES: i32 = 3;

/// The patch count around a new C2 cylinder raised to at least
/// `MIN_C2_CYLINDER_AROUND_PATCHES`, as the arguments of a C2 cylinder are
/// before the patch counts are clamped.
pub fn raise_c2_cylinder_around_patches(around_patches: &mut i32)
    ensures
        *final(around_patches) == (if *old(around_patches) < MIN_C2_CYLINDER_AROUND_PATCHES {
            MIN_C2_CYLINDER_AROUND_PATCHES
        } else {
            *old(around_patches)
        }),
{
    if *around_patches < MIN_C2_CYLINDER_AROUND_PATCHES {
        *around_patches = MIN_C2_CYLINDER_AROUND_PATCHES;
    }
}

} // verus!
