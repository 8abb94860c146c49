pub mod text;
pub mod ids;
pub mod id_map;
pub mod layout;
pub mod seq_util;
pub mod focus;
pub mod types;
pub mod wm;
pub mod navigation;
pub mod workspace;
pub mod command;
pub mod host;
pub mod artifact_state;
pub mod resize;
pub mod syntax;
pub mod ranking;
pub mod lsp_workspace;
pub mod css_source;
pub mod snapshot;
pub mod runtime_error;
pub mod config;
pub mod css_types;
pub mod runtime_contract;
pub mod lsp_project;
pub mod focus_visual;
pub mod language;
pub mod cursor;
pub mod css_diagnostics;
pub mod hover;
pub mod code_actions;
pub mod layout_dependencies;
pub mod prepared_layouts;
pub mod layout_context;
pub mod lsp_requests;
pub mod selector_references;
pub mod declaration_names;
