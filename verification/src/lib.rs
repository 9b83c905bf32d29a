pub mod app;
pub mod clock;
pub mod codex_store;
pub mod model;
pub mod text;
pub mod ui;
