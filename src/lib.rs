//! Workspace reconciliation and change suppression for a status-bar feed of
//! Hyprland workspaces.
pub mod record;
pub mod reconcile;
pub mod render;
pub mod events;
pub mod config;
