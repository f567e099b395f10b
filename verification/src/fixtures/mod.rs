pub mod schema;
pub mod validate;

pub use schema::{FixtureChecks, GlowSourceCheck, PawnSpawn, RoofCell, TerrainCell, ThingSpawn};
pub use validate::{validate_fixture, FixtureIssue};
