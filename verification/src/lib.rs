//! A declarative command runner: named commands, platform-specific tool
//! aliases and deployment environments are described in a configuration, and
//! the engine turns a requested command into an ordered sequence of effects.
//!
//! The engine never performs an effect itself. It is a resumable state
//! machine: every step hands the caller one [`interpreter::Action`] to carry
//! out and is resumed with the [`interpreter::Event`] that reports how it went.
//!
//! The modules, leaves first:
//!
//! * [`text`]: characters, trimming, joining, decimal numbers.
//! * [`platform`], [`alias`]: the platforms and the alias table.
//! * [`interpolate`]: `{name}` placeholders.
//! * [`directive`]: the four directives and their parser.
//! * [`path`]: the working directory as a stack of segments.
//! * [`command`], [`config`], [`context`], [`error`]: the data.
//! * [`machine`]: the interpreter as a mathematical state machine, with the
//!   proof that it always comes to rest and the laws that hold of it.
//! * [`interpreter`]: the executable machine, which follows the model
//!   step by step.
//! * [`help`]: the usage text.

pub mod alias;
pub mod command;
pub mod config;
pub mod context;
pub mod directive;
pub mod error;
pub mod help;
pub mod interpolate;
pub mod interpreter;
pub mod machine;
pub mod path;
pub mod platform;
pub mod text;
