//! Decoder for the header of a NetCDF "classic" container file (format
//! generations CDF-1, CDF-2 and CDF-5): named dimensions, global attributes,
//! and a table of variables, decoded in one bounds-checked pass over an
//! untrusted byte buffer.

pub mod decode;
pub mod grammar;
pub mod laws;
pub mod types;

pub use types::Attribute;
pub use types::Data;
pub use types::DecodeError;
pub use types::Dimension;
pub use types::File;
pub use types::FileHeader;
pub use types::Type;
pub use types::Variable;
pub use types::Version;
