//! Renders a trigger point, the boolean condition that decides when a SIP
//! request is handed to an application server, as a nested English
//! expression.
//!
//! A trigger point is a list of conditions, each belonging to a numbered
//! group, together with a marker that says whether the groups form a
//! conjunctive or a disjunctive normal form. [`render`] lays the groups out
//! in ascending order of their number and joins them with the connectives of
//! that normal form; [`SPT::to_english`] phrases a single condition.
//!
//! Every function states what it returns over the views in [`model`] and the
//! spec functions [`phrase::phrase`] and [`render::rendering`].

pub mod groups;
pub mod model;
pub mod phrase;
pub mod render;
pub mod text;

pub use crate::groups::group_keys;
pub use crate::model::{SipHeader, SipHeaderView, SptView, TriggerPoint, TriggerPointView, SPT};
pub use crate::phrase::session_case_description;
pub use crate::render::{render, render_group, FormatError, ParseError, RenderError};
pub use crate::text::{decimal_string, join};
