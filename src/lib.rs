//! Backup and recovery of a chosen set of files and folders: the manifest
//! that records them, its document format, and the filesystem steps that
//! copy them into a backup folder and bring them back.
pub mod backup_service;
pub mod config;
pub mod fs_model;
pub mod manifest_text;
pub mod paths;
pub mod transfer;
