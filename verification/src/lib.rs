//! Verified core of a client-side JSON viewer.
//!
//! The library holds the logic worth proving: the JSON value model, the
//! paginator that splits a large document into bounded pages, the renderer
//! that turns a value into a tree of display nodes, the session state
//! machine that reacts to upload events, and the parse boundary. The browser
//! plumbing around it (file reading, DOM updates) lives outside and only
//! hands plain values in.

pub mod json;
pub mod paginator;
pub mod parse;
pub mod renderer;
pub mod state;
pub mod text;
pub mod theme;
