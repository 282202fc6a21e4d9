//! The logic of a desktop shell for chat turns, agents and linked
//! accounts: the swarm projection that turns stream events into a tree of
//! nodes, the decisions over the app-server stream, account selection and
//! the text helpers that these share.
pub mod text;
pub mod runtime;
pub mod swarm;
pub mod swarm_shape;
pub mod tokens;
pub mod json;
pub mod stream;
pub mod turn;
pub mod paths;
pub mod accounts;
pub mod codex;
pub mod settings;
pub mod chat;
pub mod forms;
pub mod autodrive;
pub mod display;
pub mod requests;
pub mod rpc;
pub mod markdown;
pub mod catalog;
