//! A snapshot of what a browser shows outside its pages: the element that has
//! the focus, and the popups of the browser's own windows, such as the list of
//! saved credentials, the bar that offers to save a password, or a sign-in
//! sheet. It is made from the accessibility tree of the browser's process. The
//! insides of pages are left alone: a debugger reaches them.
//!
//! The crate decides what to read ([`reading`], [`attribute`]), finds the
//! popups ([`popup`], [`dedup`]) and puts the snapshot together ([`snapshot`]).
//! It also takes the process id of the browser from a process listing ([`pid`])
//! and lays out the steps of a click that the browser takes for its user's
//! ([`click`]). Asking the system is left to the caller.
//!
//! What a snapshot has to state of the tree is written down in [`stated`], which
//! elements a walk has to find in [`walk`], and what else holds of every snapshot
//! in [`laws`].

#![allow(unused_imports)]

pub mod attribute;
pub mod click;
pub mod dedup;
pub mod element;
pub mod json;
pub mod laws;
pub mod node;
pub mod pid;
pub mod popup;
pub mod reading;
pub mod snapshot;
pub mod stated;
pub mod text;
pub mod walk;
