pub mod laserscanner;
