pub mod text;
pub mod scanner;
pub mod detect;
pub mod app;
pub mod event;
pub mod ui;
pub mod laws;
