//! Verified core of the Monadeck VR overlay: wire formats, queues and the
//! decisions behind its listeners and panels.
pub mod a11y;
pub mod clipboard;
pub mod desktop;
pub mod gamemode;
pub mod games;
pub mod gestures;
pub mod keyboard;
pub mod launch;
pub mod media;
pub mod monado;
pub mod notifications;
pub mod osc;
pub mod outputs;
pub mod photos;
pub mod sync;
pub mod text;
pub mod toast;
