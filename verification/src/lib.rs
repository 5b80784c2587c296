pub mod anim_archive;
pub mod asset_state;
pub mod asset_tree;
pub mod capture;
pub mod clock;
pub mod commands;
pub mod debug_value;
pub mod encoding;
pub mod fs_ops;
pub mod inspector;
pub mod json;
pub mod object_tree;
pub mod prefab_facets;
pub mod prefab_resolver;
pub mod prefab_state;
pub mod prefab_tab;
pub mod prefab_transforms;
pub mod prefab_types;
pub mod project;
pub mod runner;
pub mod seqs;
pub mod state;
pub mod text;
