//! Verified core of a scheduled backup tool that copies Premiere Pro project
//! files into a Google Drive synchronised folder.

pub mod text;
pub mod paths;
pub mod backup;
pub mod clock;
pub mod scheduler;
pub mod config;
pub mod status;
pub mod app_dir;
pub mod drive_detector;
pub mod drive_waiter;
pub mod logger;
