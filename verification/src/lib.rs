//! Server-side core of a multi-client spatial display: nodes that one client
//! owns become visible to other clients as restricted aliases, and every
//! input method is matched against the input handlers that may consume it.
//!
//! The [`scene`] holds all clients and nodes; a node is known by an identifier
//! that is never handed out twice, so that a reference to a node that is gone
//! can be told from one to a node that lives. [`registry`] and
//! [`node_collections`] are the two collections of such references. An
//! [`alias`] shows a node in the namespace of another client and lets through
//! only what its allowlist names. [`input`] wires methods and handlers through
//! pairs of aliases, ranks the handlers of a method by distance, and keeps the
//! captures that bias the ranking. [`wayland`] decides what windowing clients
//! are told.
//!
//! Every operation on the scene is stated over a plain mathematical view of
//! it, [`scene::SceneView`]: the view after the operation is a function of
//! the view before.

pub mod alias;
pub mod input;
pub mod node_collections;
pub mod registry;
pub mod scene;
pub mod wayland;
