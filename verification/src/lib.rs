//! Display-scoped control of an X11 desktop: the rules behind the tools.

pub mod accessibility;
pub mod allowlist;
pub mod applications;
pub mod capture;
pub mod clipboard;
pub mod command;
pub mod controller;
pub mod damage;
pub mod element_wait;
pub mod error;
pub mod frames;
pub mod geometry;
pub mod guard;
pub mod ieee;
pub mod input;
pub mod keyboard;
pub mod link;
pub mod observe;
pub mod rate;
pub mod safety;
pub mod session;
pub mod settle;
pub mod setup;
pub mod snapshot;
pub mod sort;
pub mod text;
pub mod tools;
pub mod types;
pub mod wait;
pub mod windows;
