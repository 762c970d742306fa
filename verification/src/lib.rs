//! Core logic of the OpenFusion launcher: settings, saved servers and launch
//! profiles, version bookkeeping, launch-command construction and the
//! decisions taken on replies of a server's web endpoint.
pub mod seqs;
pub mod text;
pub mod ids;
pub mod config;
pub mod launch;
pub mod versions;
pub mod servers;
pub mod profiles;
pub mod tokens;
pub mod app_state;
pub mod endpoint;
pub mod util;
