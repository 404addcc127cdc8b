pub mod appearance;
pub mod cursor;
pub mod display;
pub mod displays;
pub mod network;
pub mod power;
pub mod settings;
pub mod text;
