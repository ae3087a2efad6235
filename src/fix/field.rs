use crate::text::{append_decimal, decimal_of, text_is};
use vstd::prelude::*;

verus! {

/// The closed set of semantic value types a field can carry.
#[derive(Clone, Copy, Debug, PartialEq, Eq, Structural)]
pub enum FieldType {
    INTEGER,
    DECIMAL,
    STRING,
    UTCTIMESTAMP,
    MSTIMESTAMP,
    UTCDATE,
    UTCTIMEONLY,
    MONTHYEAR,
    LOCALMKTDATE,
}

/// The normalisation table from raw dictionary type names to value types;
/// every name it does not list is a string.
pub open spec fn field_type_of(raw: Seq<char>) -> FieldType {
    if raw == "INT"@ || raw == "LENGTH"@ || raw == "DAYOFMONTH"@ {
        FieldType::INTEGER
    } else if raw == "QTY"@ || raw == "FLOAT"@ || raw == "PRICE"@ || raw == "PRICEOFFSET"@
        || raw == "AMT"@ {
        FieldType::DECIMAL
    } else if raw == "UTCTIMESTAMP"@ {
        FieldType::UTCTIMESTAMP
    } else if raw == "MSTIMESTAMP"@ {
        FieldType::MSTIMESTAMP
    } else if raw == "UTCDATE"@ {
        FieldType::UTCDATE
    } else if raw == "UTCTIMEONLY"@ {
        FieldType::UTCTIMEONLY
    } else if raw == "MONTHYEAR"@ {
        FieldType::MONTHYEAR
    } else if raw == "LOCALMKTDATE"@ {
        FieldType::LOCALMKTDATE
    } else {
        FieldType::STRING
    }
}

/// Maps a raw type name to its value type; total over all strings.
pub fn string_to_field_type(value: &str) -> (r: FieldType)
    ensures
        r == field_type_of(value@),
{
    if text_is(value, "INT") || text_is(value, "LENGTH") || text_is(value, "DAYOFMONTH") {
        FieldType::INTEGER
    } else if text_is(value, "QTY") || text_is(value, "FLOAT") || text_is(value, "PRICE")
        || text_is(value, "PRICEOFFSET") || text_is(value, "AMT") {
        FieldType::DECIMAL
    } else if text_is(value, "UTCTIMESTAMP") {
        FieldType::UTCTIMESTAMP
    } else if text_is(value, "MSTIMESTAMP") {
        FieldType::MSTIMESTAMP
    } else if text_is(value, "UTCDATE") {
        FieldType::UTCDATE
    } else if text_is(value, "UTCTIMEONLY") {
        FieldType::UTCTIMEONLY
    } else if text_is(value, "MONTHYEAR") {
        FieldType::MONTHYEAR
    } else if text_is(value, "LOCALMKTDATE") {
        FieldType::LOCALMKTDATE
    } else {
        FieldType::STRING
    }
}

impl FieldType {
    /// How the value type is printed: the name of its variant.
    pub open spec fn text(self) -> Seq<char> {
        match self {
            FieldType::INTEGER => "INTEGER"@,
            FieldType::DECIMAL => "DECIMAL"@,
            FieldType::STRING => "STRING"@,
            FieldType::UTCTIMESTAMP => "UTCTIMESTAMP"@,
            FieldType::MSTIMESTAMP => "MSTIMESTAMP"@,
            FieldType::UTCDATE => "UTCDATE"@,
            FieldType::UTCTIMEONLY => "UTCTIMEONLY"@,
            FieldType::MONTHYEAR => "MONTHYEAR"@,
            FieldType::LOCALMKTDATE => "LOCALMKTDATE"@,
        }
    }

    pub fn to_string(&self) -> (r: String)
        ensures
            r@ == self.text(),
    {
        match self {
            FieldType::INTEGER => "INTEGER".to_string(),
            FieldType::DECIMAL => "DECIMAL".to_string(),
            FieldType::STRING => "STRING".to_string(),
            FieldType::UTCTIMESTAMP => "UTCTIMESTAMP".to_string(),
            FieldType::MSTIMESTAMP => "MSTIMESTAMP".to_string(),
            FieldType::UTCDATE => "UTCDATE".to_string(),
            FieldType::UTCTIMEONLY => "UTCTIMEONLY".to_string(),
            FieldType::MONTHYEAR => "MONTHYEAR".to_string(),
            FieldType::LOCALMKTDATE => "LOCALMKTDATE".to_string(),
        }
    }
}

/// What a field is: its tag, its name and its value type.
pub ghost struct FieldView {
    pub tag: i32,
    pub name: Seq<char>,
    pub value_type: FieldType,
}

/// One field of the protocol: its tag, its name and its value type.
#[derive(Clone, Debug)]
pub struct Field {
    pub m_tag: i32,
    pub m_name: String,
    pub m_field_type: FieldType,
}

impl View for Field {
    type V = FieldView;

    open spec fn view(&self) -> FieldView {
        FieldView { tag: self.m_tag, name: self.m_name@, value_type: self.m_field_type }
    }
}

/// How a field is printed: `field: <tag> <name> <type>`.
pub open spec fn field_text(f: FieldView) -> Seq<char> {
    "field: "@ + decimal_of(f.tag as int) + " "@ + f.name + " "@ + f.value_type.text()
}

impl Field {
    pub fn to_string(&self) -> (r: String)
        ensures
            r@ == field_text(self@),
    {
        let mut r = "field: ".to_string();
        append_decimal(&mut r, self.m_tag);
        r.append(" ");
        r.append(self.m_name.as_str());
        r.append(" ");
        let t = self.m_field_type.to_string();
        r.append(t.as_str());
        r
    }

    pub fn new(tag: i32, name: String, ftype: String) -> (r: Field)
        ensures
            r.m_tag == tag,
            r.m_name@ == name@,
            r.m_field_type == field_type_of(ftype@),
    {
        Field { m_tag: tag, m_name: name, m_field_type: string_to_field_type(ftype.as_str()) }
    }

    pub fn get_tag(&self) -> (r: i32)
        ensures
            r == self.m_tag,
    {
        self.m_tag
    }

    pub fn get_name(&self) -> (r: &String)
        ensures
            r@ == self.m_name@,
    {
        &self.m_name
    }

    pub fn get_field_type(&self) -> (r: FieldType)
        ensures
            r == self.m_field_type,
    {
        self.m_field_type
    }

    /// A copy equal to this field.
    pub fn copied(&self) -> (r: Field)
        ensures
            r == *self,
            r@ == self@,
    {
        Field { m_tag: self.m_tag, m_name: self.m_name.clone(), m_field_type: self.m_field_type }
    }
}

} // verus!
