//! What the server decides when a windowing client speaks to it.

pub mod xdg_shell;
