//! The decisions behind a software KVM sender: which key codes mean what, when the
//! pointer crosses to the other machine, which keys are held, and when to let go.
//!
//! - [`keymap`] translates key codes; [`keyboards`] tells keyboards among device nodes;
//!   [`evdev`] keeps track of grabbed keyboards and held keys.
//! - [`geometry`] measures screen edges; [`capture`] decides when the pointer is grabbed at
//!   them; [`poll`] orders the work on the compositor's connection.
//! - [`session`] ties both together: when capture begins and ends, and what is sent.
//! - [`event`] and [`wire`] are the protocol; [`config`] and [`text`] read configuration and
//!   clipboard content.
pub mod capture;
pub mod config;
pub mod evdev;
pub mod event;
pub mod geometry;
pub mod keyboards;
pub mod keymap;
pub mod poll;
pub mod session;
pub mod text;
pub mod wire;
