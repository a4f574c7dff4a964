//! The installation core of a Python package manager: parsing of
//! requirements files into a normalized requirement set, and installation of
//! prebuilt wheel archives into a target interpreter environment with
//! platform-compatibility checking, exclusive-access locking, and
//! content-integrity verification.
pub mod bytes;
pub mod cursor;
pub mod fsio;
pub mod install;
pub mod record;
pub mod requirements_txt;
pub mod wheel_tags;

pub use install::install_wheel_in_venv;
pub use install::install_wheel;
pub use install::get_script_launcher;
pub use install::Error;
pub use install::InstallLocation;
pub use install::LockedDir;
pub use install::MONOTRAIL_SCRIPT_SHEBANG;
pub use record::read_record_file;
pub use wheel_tags::Arch;
pub use wheel_tags::CompatibleTags;
pub use wheel_tags::Os;
pub use wheel_tags::WheelFilename;
