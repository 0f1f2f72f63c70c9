pub mod challenge_map;
pub mod orchestration;
pub mod state;
