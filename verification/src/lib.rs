pub mod genalg;
pub mod individual;
pub mod pattern;
pub mod random;
pub mod text;
