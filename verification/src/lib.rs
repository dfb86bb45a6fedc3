//! Rebit: the verified core of a BIM/CAD platform.
use vstd::prelude::*;

pub mod entity;
pub mod keyed;
pub mod plugins;
pub mod relationship;
pub mod text;
pub mod transaction;
pub mod ui;
pub mod pipeline;
pub mod auth;
pub mod projects;
pub mod collaboration;
pub mod desktop;
pub mod gpu;
pub mod telemetry;
pub mod schema;
pub mod dwg;
pub mod ifc;
pub mod ai;
pub mod geometry;
pub mod sorted;
pub mod constraints;
pub mod scene;
pub mod mesh;
pub mod parametric;
