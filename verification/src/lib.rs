//! Verified core of a display-output query tool: it parses the verbose,
//! line-oriented diagnostic text of a display-configuration command into
//! per-display sections, extracts structured fields from them (connection
//! state, geometry, EDID hex blob, connector id, serial number), decodes
//! hex payloads, and decides how map-style listings are formatted.
pub mod commands;
pub mod extract;
pub mod geometry;
pub mod header;
pub mod hex;
pub mod monitors;
pub mod policy;
pub mod queries;
pub mod sections;
pub mod serial;
pub mod text;
