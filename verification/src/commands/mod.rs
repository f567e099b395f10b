pub mod apparel_pick;
pub mod fog;
pub mod linked;
pub mod listing;
pub mod ownership;
pub mod probe;
pub mod render;
pub mod snow;
pub mod terrain_edges;
pub mod v1_scene;
pub mod world_sprites;
