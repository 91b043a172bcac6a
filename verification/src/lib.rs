pub mod app;
pub mod channel;
pub mod event;
pub mod laws;
pub mod text;
pub mod ui;
pub mod rendering_laws;
pub mod model_laws;
