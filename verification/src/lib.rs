//! Sanae: a software store for Arch Linux that lives in the terminal. This is
//! its library: the package model, the parsers for pacman's and the AUR's
//! output, the index and its search, the queue of changes, recipes and the
//! small pieces of text handling they share.

use vstd::prelude::*;

pub mod cache;
pub mod commands;
pub mod config;
pub mod exec;
pub mod i18n;
pub mod index;
pub mod model;
pub mod queue;
pub mod recipes;
pub mod screens;
pub mod search;
pub mod selfupdate;
pub mod show;
pub mod sources;
pub mod text;
pub mod theme;
pub mod ui;

verus! {

} // verus!
