pub mod laserscanner;
pub mod robot;
pub mod room;
