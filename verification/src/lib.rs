//! Periodic sampling of system counters, rendered as a status line.
//!
//! A run registers metrics and renderers in a [`config::Config`], lets the
//! options of the command line choose among them, and then steps a
//! [`render::RenderLoop`]: before every step the caller reads the counter
//! files that the loop names into [`helper::Counters`], and after it writes
//! what the step hands back. The library itself reads no file and writes
//! nothing.
//!
//! - [`framework`]: colors, outputs, the state of a metric, the `Metric`
//!   capability and the active metric.
//! - [`metrics`]: the clock, the load averages, the processor load and the
//!   network throughput.
//! - [`render`]: the two renderers and the render loop.
//! - [`config`]: the registry, the display order and the choice.
//! - [`helper`], [`text`], [`table`]: counter files, lines, fields and
//!   numbers; a table keyed by strings.
//! - [`matching`], [`clock`]: what is taken on trust from the `regex` and
//!   `chrono` crates.

pub mod clock;
pub mod config;
pub mod framework;
pub mod helper;
pub mod matching;
pub mod metrics;
pub mod render;
pub mod table;
pub mod text;
