//! DevToolBox core: the verified logic behind the launcher's terminal,
//! Docker port views, grid layout, native-window policy and updater.

pub mod command_line;
pub mod docker_confirm;
pub mod docker_dispatch;
pub mod egui_app;
pub mod fonts;
pub mod icon_picker;
pub mod launcher_cards;
pub mod model_commands;
pub mod model_events;
pub mod models;
pub mod models_view;
pub mod pending_actions;
pub mod native_window;
pub mod port_plan;
pub mod ports;
pub mod registry;
pub mod process;
pub mod terminal_view;
pub mod text;
pub mod theme;
pub mod uninstall;
pub mod update;
pub mod user_scripts;
pub mod visual_harness;
pub mod xaml_gen;
