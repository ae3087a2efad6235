pub mod extrans_error;
pub mod fix;
pub mod log_builder;
pub mod properties;
pub mod text;

pub use extrans_error::ExtransError;
pub use fix::FIX;


use vstd::prelude::*;

verus! {

/// Something that renders itself in the protocol's wire text.
pub trait Extrans {
    fn encode(&self) -> (r: String);
}

} // verus!
