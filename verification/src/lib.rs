pub mod canvas;
pub mod channel;
pub mod ppm;
