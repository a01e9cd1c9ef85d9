//! Markup transcoding, task scheduling decisions and session retry logic for a
//! chat bot that relays answers from an AI service.

pub mod text;
pub mod escape;
pub mod markup;
pub mod reflow;
pub mod command;
pub mod errors;
pub mod render;
pub mod schedule;
pub mod session;
pub mod service;
