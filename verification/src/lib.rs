//! Design-token generation: the integer and text logic of a colour-token pipeline.
pub mod config;
pub mod hexcolor;
pub mod neutral;
pub mod preview;
pub mod strmap;
pub mod text;
pub mod tokens;
