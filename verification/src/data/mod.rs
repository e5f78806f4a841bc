pub mod area_info;

pub use area_info::{get_random_area, AreaData, AreaInfo};
