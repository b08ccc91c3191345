pub mod json;
pub mod textutil;
pub mod parser;
pub mod time;
pub mod record;
pub mod feeder;
pub mod render;
pub mod laws;
