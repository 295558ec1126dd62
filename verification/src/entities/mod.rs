pub mod entity;
pub mod surface_grid;
pub mod bezier_utils;
pub mod bezier_surface_args;
pub mod utils;
pub mod manager;
pub mod changeable_name;
