//! Making spirits: the checks that a spirit directory must pass and the
//! archive that is written from it.
//!
//! A spirit directory holds `actions/` (one directory of frames per action),
//! an optional `audio/`, and `meta.json`, which names the spirit and
//! describes its actions. The modules:
//!
//! - `layout`: what the top level of the directory may hold, how the frames
//!   of an action are counted, and the spirit's name;
//! - `json_model` and `meta`: the parsed `meta.json` and its rules;
//! - `frames`: the frame ranges of an action;
//! - `archive`: the entries of the `.spirit` archive;
//! - `ritual`: the order of the stages;
//! - `text`: character helpers.

pub mod text;
pub mod frames;
pub mod json_model;
pub mod meta;
pub mod layout;
pub mod archive;
pub mod ritual;
