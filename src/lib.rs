//! Verified pieces of the build step that generates Rust bindings for mbedtls:
//! the renaming and integer-macro policies handed to the generator, the
//! umbrella header, the generator's settings, the framing of its output, the
//! text rewrite pass run over that output, and the order of the steps.

pub mod config;
pub mod naming;
pub mod pipeline;
pub mod rewrite;
pub mod umbrella;
