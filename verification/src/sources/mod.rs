//! Where package data comes from, read from what the tools print.

pub mod appstream;
pub mod aur;
pub mod news;
pub mod pacman;
pub mod xml;
