pub mod line;
pub mod point;
pub mod pose;
pub mod ray;
pub mod target;
pub mod vector;
