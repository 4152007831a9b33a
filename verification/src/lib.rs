//! The verified core of a terminal front end for an agent session.
//!
//! Every module holds plain values and the rules over them; drawing, terminal
//! events, files and the network stay with the caller.
pub mod clipboard_image;
pub mod command;
pub mod command_details;
pub mod command_style;
pub mod completion;
pub mod composer;
pub mod controller;
pub mod controller_provider;
pub mod copy_controls;
pub mod dispatch;
pub mod effects;
pub mod event_loop;
pub mod highlight;
pub mod history;
pub mod input;
pub mod input_history_store;
pub mod json;
pub mod key;
pub mod keymap;
pub mod layout;
pub mod markdown;
pub mod menu;
pub mod mouse;
pub mod ordered;
pub mod overlay;
pub mod overlay_render;
pub mod panels;
pub mod patch;
pub mod plan;
pub mod plan_approval;
pub mod plan_controller;
pub mod plan_model;
pub mod plan_projector;
pub mod plan_render;
pub mod preferences;
pub mod process_output;
pub mod projector;
pub mod provider_form;
pub mod provider_overlay;
pub mod provider_render;
pub mod providers;
pub mod reasoning_picker;
pub mod render;
pub mod runner;
pub mod script;
pub mod setup;
pub mod startup;
pub mod text;
pub mod textmap;
pub mod timeline;
pub mod timeline_lines;
pub mod tool_output;
pub mod transcript;
pub mod ui;
pub mod width;
pub mod words;
