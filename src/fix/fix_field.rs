use super::field::{field_type_of, string_to_field_type, FieldType};
use vstd::prelude::*;

verus! {

/// A field definition as the wire layer sees it.
pub struct FIXField {
    pub m_tag: i32,
    pub m_name: String,
    pub m_field_type: FieldType,
}

impl FIXField {
    pub fn new(tag: i32, name: String, ftype: String) -> (r: FIXField)
        ensures
            r.m_tag == tag,
            r.m_name@ == name@,
            r.m_field_type == field_type_of(ftype@),
    {
        FIXField { m_tag: tag, m_name: name, m_field_type: string_to_field_type(ftype.as_str()) }
    }
}

} // verus!
