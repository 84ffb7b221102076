pub mod dlx;
pub mod genetic;
