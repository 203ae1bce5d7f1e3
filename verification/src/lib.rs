//! Lean 4 support for a modal editor: abbreviation input and the infoview.

pub mod buffer;
pub mod diagnostics;
pub mod editor;
pub mod goals;
pub mod goto;
pub mod handlers;
pub mod json;
pub mod lean_abbreviations;
pub mod lean_infoview;
pub mod offsets;
pub mod payload;
pub mod platform;
pub mod protocol;
pub mod refresh;
pub mod rpc;
pub mod segments;
pub mod state;
pub mod text;
pub mod views;
