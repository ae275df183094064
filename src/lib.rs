//! A streaming HTML renderer for markdown document events.
//!
//! The renderer takes a sequence of [`event::Event`] values and writes the
//! corresponding markup to a [`sink::Sink`], one piece at a time, stopping at
//! the first failed write or at the first construct it does not render.

pub mod event;
pub mod markup;
pub mod sink;
pub mod html;
pub mod elements;
pub mod nesting;
