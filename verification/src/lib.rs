//! Gaussian splat clouds for Godot: the data and the rules behind the nodes.

pub mod asset;
pub mod backend;
pub mod bytes;
pub mod chunking;
pub mod cloud_settings;
pub mod doubles;
pub mod engine;
pub mod extents;
pub mod floats;
pub mod gltf_extension;
pub mod gsplat_pack;
pub mod import_options;
pub mod import_state;
pub mod laws;
pub mod node;
pub mod render_manager;
pub mod render_packet;
pub mod scene_import_plugin;
pub mod sorting;
pub mod text;
pub mod variant;
pub mod view_selection;
pub mod words;
