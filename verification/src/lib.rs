pub mod actions;
pub mod boost_laws;
pub mod bytes;
pub mod cli;
pub mod collections;
pub mod config;
pub mod config_laws;
pub mod editor;
pub mod editor_laws;
pub mod etw;
pub mod etw_laws;
pub mod events;
pub mod hotkey;
pub mod i18n;
pub mod ipc;
pub mod laws;
pub mod log;
pub mod network;
pub mod order;
pub mod policy;
pub mod proc_table;
pub mod qos;
pub mod restore_laws;
pub mod rule_laws;
pub mod rules;
pub mod service;
pub mod start_laws;
pub mod strings;
pub mod template;
pub mod text;
pub mod ui;
pub mod window;
