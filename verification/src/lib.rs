//! Verified natives of a Red evaluator: the JSON and HTML dialects, the
//! byte codecs, bitsets, maps and hashes, the conversions (`to`, `make`),
//! the build dialect's tasks, the printer, the integer side of the
//! arithmetic, path steps on data, and what the host natives (files,
//! environment, commands) are asked to do.
pub mod value;
pub mod text;
pub mod codec;
pub mod json;
pub mod json_decode;
pub mod native;
pub mod html;
pub mod options;
pub mod math;
pub mod printer;
pub mod map;
pub mod bitset;
pub mod io;
pub mod json_laws;
pub mod convert;
pub mod tasks;
pub mod keyed;
pub mod host;
pub mod path;
pub mod html_laws;
pub mod json_props;
