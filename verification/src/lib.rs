//! The logic of a per-project code-index daemon.

pub mod activation;
pub mod activation_laws;
pub mod build_stamp;
pub mod bulk_index;
pub mod bulk_laws;
pub mod call_laws;
pub mod candidates;
pub mod command_laws;
pub mod delivery;
pub mod delivery_laws;
pub mod detection_laws;
pub mod digest;
pub mod files;
pub mod fingerprint;
pub mod generation;
pub mod identity;
pub mod indexing_status;
pub mod lifecycle;
pub mod lifecycle_laws;
pub mod lock;
pub mod manifest;
pub mod memory;
pub mod name_laws;
pub mod number;
pub mod order;
pub mod path;
pub mod path_laws;
pub mod plan_laws;
pub mod plugin;
pub mod record_laws;
pub mod registry;
pub mod registry_laws;
pub mod routing_laws;
pub mod semantic;
pub mod semantic_laws;
pub mod spelling;
pub mod startup;
pub mod startup_laws;
pub mod state_files;
pub mod status_laws;
pub mod supervisor;
pub mod text;
pub mod text_laws;
pub mod text_set;
pub mod time;
pub mod use_laws;
pub mod walk_laws;
