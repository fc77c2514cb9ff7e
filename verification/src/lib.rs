pub mod types;
pub mod text;
pub mod wrappers;
pub mod detect;
pub mod display;
pub mod order;
pub mod analysis;
pub mod ui;
pub mod batch;
pub mod wallet;
pub mod export;
pub mod laws;
