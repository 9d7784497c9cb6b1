//! Verified core of the FrameSage tray: what the tray shows, decides and
//! sends, apart from drawing, window handling and the pipes themselves.

pub mod action_laws;
pub mod activity_laws;
pub mod activity_log;
pub mod activity_tab;
pub mod affinity;
pub mod affinity_laws;
pub mod cell_laws;
pub mod editor_laws;
pub mod editors;
pub mod engine_laws;
pub mod field_laws;
pub mod formatter_laws;
pub mod formatters;
pub mod hotkey;
pub mod icons;
pub mod ipc;
pub mod ipc_client;
pub mod label_laws;
pub mod onboarding;
pub mod onboarding_laws;
pub mod paint_laws;
pub mod policy;
pub mod policy_laws;
pub mod process_actions;
pub mod process_cells;
pub mod process_menu;
pub mod processes;
pub mod profile_laws;
pub mod profiles_tab;
pub mod rule_laws;
pub mod rules_tab;
pub mod session_laws;
pub mod sessions;
pub mod shell;
pub mod sort_laws;
pub mod sorting;
pub mod startup;
pub mod state;
pub mod status_laws;
pub mod status_tab;
pub mod table_laws;
pub mod text;
pub mod text_edit;
pub mod text_laws;
pub mod theme;
pub mod tray_prefs;
pub mod tree;
pub mod tree_laws;
pub mod widgets;
pub mod window_laws;
