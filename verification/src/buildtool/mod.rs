//! Build tools: detection, Maven and Gradle dependency extraction.

pub mod detector;
pub mod gradle;
pub mod maven;
