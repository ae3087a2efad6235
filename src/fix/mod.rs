pub mod component;
pub mod dictionary;
pub mod field;
pub mod fix_field;
pub mod group;
pub mod laws;
pub mod loader;
pub mod message;
pub mod xml;

use crate::extrans_error::ExtransError;
use crate::Extrans;
use dictionary::Dictionary;
use loader::{dictionary_of_text, text_view};
use vstd::prelude::*;

verus! {

/// The protocol's entry point.
pub struct FIX {}

impl Extrans for FIX {
    fn encode(&self) -> String {
        "Hello".to_string()
    }
}

impl FIX {
    pub fn new() -> (r: FIX) {
        FIX {  }
    }

    pub fn init() {
    }

    /// Loads the dictionary written in `contents`, the text of the file
    /// `filename` (`None` where the file does not exist). Every failure is a
    /// setup error.
    pub fn load_dictionary(&mut self, filename: &str, contents: Option<&str>) -> (r: Result<
        (),
        ExtransError,
    >)
        ensures
            r is Ok <==> dictionary_of_text(text_view(contents)) is Some,
            r is Err ==> r->Err_0 is SetupError,
    {
        match Dictionary::load_text(filename, contents) {
            Ok(_) => Ok(()),
            Err(e) => Err(e),
        }
    }
}

} // verus!
