//! A conflated single-slot mailbox for sharing the latest value between
//! pipeline stages, with the consumer-side arithmetic that turns noisy
//! landmark positions into a stable crop of the current frame.

pub mod camera;
pub mod faces;
pub mod img;
pub mod latest;
pub mod render;
pub mod ring;
pub mod stage;
pub mod track;
pub mod viewport;
