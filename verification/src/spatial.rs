pub mod geometry;
pub mod rng;
pub mod zone;

pub use self::geometry::compute_indexes_for_zones_in_range;
pub use self::geometry::compute_visible_area;
pub use self::geometry::zone_index_for_point;
pub use self::geometry::MapDefinition;
pub use self::geometry::Point;
pub use self::geometry::Zone;
pub use self::zone::Entity;
pub use self::zone::SpatialEvent;
pub use self::zone::SubscribeError;
pub use self::zone::ZoneChannel;

pub mod channel;

pub use self::channel::SpatialChannel;

pub mod laws;
