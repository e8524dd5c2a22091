//! One mouse and one keyboard for several machines.

pub mod text;
pub mod geom;
pub mod layout;
pub mod capture;
pub mod protocol;
pub mod network;
pub mod control;
pub mod handoff;
pub mod base64;
pub mod safepath;
pub mod transfer;
pub mod walk;
pub mod i18n;
pub mod strings;
pub mod clipfile;
pub mod clipboard;
pub mod discovery;
pub mod machine;
pub mod config;
pub mod hub;
pub mod activity;
pub mod canvas;
pub mod window;
pub mod typeset;
pub mod ui;
