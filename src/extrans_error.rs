use vstd::prelude::*;

verus! {

/// The failures the library reports.
#[derive(Debug)]
pub enum ExtransError {
    /// The dictionary could not be loaded: missing, unreadable or malformed.
    SetupError(String),
    EncodeError(String),
    PropertyNotFound(String),
    ParseError(String),
}

impl ExtransError {
    /// The message of the error, prefixed by its kind.
    pub fn to_string(&self) -> (r: String)
        ensures
            r@ == self.text(),
    {
        let (mut s, m) = match self {
            ExtransError::SetupError(m) => ("setup Error: ".to_string(), m),
            ExtransError::EncodeError(m) => ("encode Error: ".to_string(), m),
            ExtransError::PropertyNotFound(m) => ("property not found: ".to_string(), m),
            ExtransError::ParseError(m) => ("failed to parse property: ".to_string(), m),
        };
        s.append(m.as_str());
        s
    }

    pub open spec fn text(&self) -> Seq<char> {
        match self {
            ExtransError::SetupError(m) => "setup Error: "@ + m@,
            ExtransError::EncodeError(m) => "encode Error: "@ + m@,
            ExtransError::PropertyNotFound(m) => "property not found: "@ + m@,
            ExtransError::ParseError(m) => "failed to parse property: "@ + m@,
        }
    }
}

} // verus!
