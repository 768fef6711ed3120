//! ProcSentinel: the verified core of a Linux process inspector.

pub mod text;
pub mod filter;
pub mod paths;
pub mod checkpoint;
pub mod profile;
pub mod scheduler;
pub mod cpu;
pub mod procinfo;
pub mod groups;
pub mod namespace_view;
pub mod container_view;
pub mod coordinator;
pub mod agent;
pub mod alert;
pub mod process;
pub mod kill_dialog;
pub mod nice_dialog;
pub mod task_form;
pub mod group_view;
pub mod system_stats;
pub mod activity;
pub mod history;
pub mod kill_tree;
pub mod profile_form;
pub mod start_form;
pub mod screens;
pub mod lists;
pub mod alert_form;
