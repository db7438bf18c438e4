//! The verified core of a remote cargo build tool.

pub mod agent;
pub mod be;
pub mod deploy;
pub mod deploy_laws;
pub mod launch;
pub mod layout_laws;
pub mod path_laws;
pub mod paths;
pub mod plan_laws;
pub mod proto;
pub mod proto_laws;
pub mod reconcile;
pub mod reconcile_laws;
pub mod render;
pub mod render_laws;
mod seqs;
pub mod session;
pub mod session_laws;
pub mod sync_laws;
pub mod text;
pub mod text_laws;
pub mod tool_laws;
pub mod tools;
pub mod tree;
pub mod view_laws;
pub mod walk;
pub mod walk_laws;
