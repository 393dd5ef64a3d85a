pub mod audio;
pub mod cli;
pub mod device;
pub mod m3u;
pub mod netmd;
pub mod output;
pub mod text;
pub mod titles;
pub mod udev;
pub mod workflow;
