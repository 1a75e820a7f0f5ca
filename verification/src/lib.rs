//! Installs the limine bootloader for the generations nix knows about.
//!
//! The library decides; it never touches the disk. What it needs to know
//! about the machine comes in as plain values, and what it wants done goes
//! out as plain values.

pub mod text;
pub mod path;
pub mod error;
pub mod plan;
pub mod settings;
pub mod config;
pub mod bootspec;
pub mod facts;
pub mod entries;
pub mod conf;
pub mod raw;
pub mod cmd;
pub mod secure_boot;
pub mod nvram;
pub mod step;
pub mod hash;
pub mod bios;
pub mod efi;
pub mod profiles;
pub mod mountinfo;
pub mod disk;
pub mod gather;
pub mod install;
pub mod reads;
