//! Verified core of a WebDAV front-end for a paginated, id-addressed cloud drive.
use vstd::prelude::*;

pub mod adapter;
pub mod cache;
pub mod drive;
pub mod front;
pub mod html;
pub mod model;
pub mod paths;
pub mod percent;
pub mod render;
pub mod text;
