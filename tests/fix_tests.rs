use extrans::fix::dictionary::Dictionary;
use extrans::fix::field::{string_to_field_type, Field, FieldType};
use extrans::fix::group::Group;
use extrans::fix::message::Message;
use extrans::{Extrans, ExtransError, FIX};

#[test]
fn test_encode() {
    let fix = FIX {};
    let result = fix.encode();
    let expected = "Hello".to_string();

    assert_eq!(result, expected);
}

#[test]
fn test_load_dictionary_invalid_file() {
    let mut fix = FIX {};
    let result = fix.load_dictionary("invalid_file.xml", None);
    assert!(result.is_err(), "Expected an error, but success returned");
}

fn load(text: &str) -> Result<Dictionary, ExtransError> {
    Dictionary::load_text("test.xml", Some(text))
}

fn msg<'a>(d: &'a Dictionary, ty: &str) -> &'a Message {
    d.get_message(&ty.to_string()).expect("message present")
}

fn group_tags(g: &Group) -> Vec<i32> {
    g.iter_fields().iter().map(|f| f.get_tag()).collect()
}

#[test]
fn missing_file_is_setup_error_naming_it() {
    match Dictionary::load_text("nowhere.xml", None) {
        Err(ExtransError::SetupError(m)) => {
            assert_eq!(m, "FIX Dictionary 'nowhere.xml' does not exist.")
        }
        _ => panic!("expected a setup error"),
    }
}

#[test]
fn raw_types_normalise() {
    assert_eq!(string_to_field_type("PRICE"), FieldType::DECIMAL);
    assert_eq!(string_to_field_type("QTY"), FieldType::DECIMAL);
    assert_eq!(string_to_field_type("AMT"), FieldType::DECIMAL);
    assert_eq!(string_to_field_type("INT"), FieldType::INTEGER);
    assert_eq!(string_to_field_type("LENGTH"), FieldType::INTEGER);
    assert_eq!(string_to_field_type("DAYOFMONTH"), FieldType::INTEGER);
    assert_eq!(string_to_field_type("UTCTIMESTAMP"), FieldType::UTCTIMESTAMP);
    assert_eq!(string_to_field_type("UTCDATE"), FieldType::UTCDATE);
    assert_eq!(string_to_field_type("UTCTIMEONLY"), FieldType::UTCTIMEONLY);
    assert_eq!(string_to_field_type("MONTHYEAR"), FieldType::MONTHYEAR);
    assert_eq!(string_to_field_type("LOCALMKTDATE"), FieldType::LOCALMKTDATE);
    assert_eq!(string_to_field_type("UNKNOWNTYPE"), FieldType::STRING);
    assert_eq!(string_to_field_type(""), FieldType::STRING);
}

#[test]
fn defined_field_found_by_name() {
    let mut d = Dictionary::new();
    d.define_field(44, "Price".to_string(), "PRICE".to_string());
    d.define_field(55, "Symbol".to_string(), "UNKNOWNTYPE".to_string());
    let f = d.get_field_by_name(&"Price".to_string()).unwrap();
    assert_eq!(f.get_tag(), 44);
    assert_eq!(f.get_field_type(), FieldType::DECIMAL);
    let s = d.get_field_by_name(&"Symbol".to_string()).unwrap();
    assert_eq!(s.get_tag(), 55);
    assert_eq!(s.get_field_type(), FieldType::STRING);
    assert!(d.get_field_by_name(&"Nope".to_string()).is_none());
}

#[test]
fn redefined_field_last_wins() {
    let mut d = Dictionary::new();
    d.define_field(1, "A".to_string(), "INT".to_string());
    d.define_field(2, "A".to_string(), "STRING".to_string());
    assert_eq!(d.get_field_by_name(&"A".to_string()).unwrap().get_tag(), 2);
}

#[test]
fn minimal_document_one_field() {
    let text = r#"<fix>
  <fields><field number="55" name="Symbol" type="STRING"/></fields>
  <messages><message name="NewOrderSingle" msgtype="D" msgcat="app"><field name="Symbol"/></message></messages>
</fix>"#;
    let d = load(text).unwrap();
    let m = msg(&d, "D");
    assert_eq!(m.field_count(), 1);
    assert!(m.has_field(55));
    assert_eq!(m.group_count(), 0);
}

#[test]
fn component_with_group() {
    let text = r#"<fix>
  <messages>
    <message name="NewOrderSingle" msgtype="D" msgcat="app"><component name="Instrument"/></message>
  </messages>
  <components>
    <component name="Instrument">
      <field name="Symbol"/>
      <group name="NoPartyIDs"><field name="PartyID"/><field name="PartyIDSource"/></group>
    </component>
  </components>
  <fields>
    <field number="55" name="Symbol" type="STRING"/>
    <field number="453" name="NoPartyIDs" type="NUMINGROUP"/>
    <field number="448" name="PartyID" type="STRING"/>
    <field number="447" name="PartyIDSource" type="CHAR"/>
  </fields>
</fix>"#;
    let d = load(text).unwrap();
    let m = msg(&d, "D");
    assert_eq!(m.field_count(), 1);
    assert!(m.has_field(55));
    assert_eq!(m.group_count(), 1);
    let g = m.get_group(453).unwrap();
    assert_eq!(g.get_parent_tag(), 453);
    assert_eq!(group_tags(g), vec![448, 447]);
    assert!(g.is_first_tag(448));
    assert!(!g.is_first_tag(447));
    assert!(g.has_tag(447));
}

#[test]
fn nesting_three_levels_flattens() {
    let text = r#"<fix>
  <fields>
    <field number="1" name="A" type="INT"/>
    <field number="2" name="B" type="INT"/>
    <field number="3" name="C" type="INT"/>
    <field number="4" name="D" type="INT"/>
  </fields>
  <components>
    <component name="Outer"><field name="A"/><component name="Middle"/></component>
    <component name="Middle"><field name="B"/><component name="Inner"/></component>
    <component name="Inner"><field name="C"/></component>
  </components>
  <messages>
    <message name="M" msgtype="X" msgcat="app"><component name="Outer"/><field name="D"/></message>
  </messages>
</fix>"#;
    let d = load(text).unwrap();
    let m = msg(&d, "X");
    assert_eq!(m.field_count(), 4);
    for t in 1..=4 {
        assert!(m.has_field(t));
    }
}

#[test]
fn unresolved_names_are_skipped() {
    let text = r#"<fix>
  <fields>
    <field number="1" name="A" type="INT"/>
    <field number="2" name="B" type="INT"/>
  </fields>
  <components>
    <component name="C"><field name="Ghost"/><field name="B"/><component name="Missing"/></component>
  </components>
  <messages>
    <message name="M" msgtype="X" msgcat="app">
      <field name="Nope"/><field name="A"/><component name="C"/><group name="NoSuch"><field name="A"/></group>
    </message>
  </messages>
</fix>"#;
    let d = load(text).unwrap();
    let m = msg(&d, "X");
    assert_eq!(m.field_count(), 2);
    assert!(m.has_field(1));
    assert!(m.has_field(2));
    assert_eq!(m.group_count(), 0);
}

#[test]
fn group_members_deduplicated_in_order() {
    let text = r#"<fix>
  <fields>
    <field number="10" name="N" type="NUMINGROUP"/>
    <field number="7" name="X" type="INT"/>
    <field number="5" name="Y" type="INT"/>
  </fields>
  <messages>
    <message name="M" msgtype="X" msgcat="app">
      <group name="N"><field name="Unknown"/><field name="X"/><field name="Y"/><field name="X"/></group>
    </message>
  </messages>
</fix>"#;
    let d = load(text).unwrap();
    let g = msg(&d, "X").get_group(10).unwrap();
    assert_eq!(group_tags(g), vec![7, 5]);
    assert!(g.is_first_tag(7));
}

#[test]
fn group_without_resolvable_members_is_left_out() {
    let text = r#"<fix>
  <fields><field number="10" name="N" type="NUMINGROUP"/></fields>
  <messages>
    <message name="M" msgtype="X" msgcat="app"><group name="N"><field name="Unknown"/></group></message>
  </messages>
</fix>"#;
    let d = load(text).unwrap();
    assert_eq!(msg(&d, "X").group_count(), 0);
}

#[test]
fn cyclic_components_fail() {
    let text = r#"<fix>
  <fields><field number="1" name="A" type="INT"/></fields>
  <components>
    <component name="P"><field name="A"/><component name="Q"/></component>
    <component name="Q"><component name="P"/></component>
  </components>
  <messages><message name="M" msgtype="X" msgcat="app"><component name="P"/></message></messages>
</fix>"#;
    match load(text) {
        Err(ExtransError::SetupError(m)) => assert_eq!(m, "cyclic component reference: P"),
        _ => panic!("expected a setup error"),
    }
}

#[test]
fn unparsable_tag_fails() {
    let text = r#"<fix><fields><field number="abc" name="A" type="INT"/></fields></fix>"#;
    assert!(matches!(load(text), Err(ExtransError::SetupError(_))));
}

#[test]
fn field_without_type_fails() {
    let text = r#"<fix><fields><field number="1" name="A"/></fields></fix>"#;
    assert!(matches!(load(text), Err(ExtransError::SetupError(_))));
}

#[test]
fn message_without_msgtype_fails() {
    let text = r#"<fix><messages><message name="M" msgcat="app"/></messages></fix>"#;
    assert!(matches!(load(text), Err(ExtransError::SetupError(_))));
}

#[test]
fn malformed_document_fails() {
    assert!(matches!(load("<fix><fields></fix>"), Err(ExtransError::SetupError(_))));
    let mut fix = FIX::new();
    assert!(fix.load_dictionary("bad.xml", Some("<fix")).is_err());
    assert!(fix.load_dictionary("good.xml", Some("<fix/>")).is_ok());
}

#[test]
fn later_message_of_same_type_wins() {
    let text = r#"<fix>
  <fields><field number="1" name="A" type="INT"/><field number="2" name="B" type="INT"/></fields>
  <messages>
    <message name="M1" msgtype="X" msgcat="app"><field name="A"/></message>
    <message name="M2" msgtype="X" msgcat="admin"><field name="B"/></message>
  </messages>
</fix>"#;
    let d = load(text).unwrap();
    assert_eq!(d.message_count(), 2);
    let m = msg(&d, "X");
    assert!(m.has_field(2));
    assert!(!m.has_field(1));
}

#[test]
fn message_add_field_replaces_same_tag() {
    let mut m = Message::new("M".to_string(), "X".to_string(), "app".to_string());
    m.add_field(Field::new(5, "A".to_string(), "INT".to_string()));
    m.add_field(Field::new(5, "B".to_string(), "STRING".to_string()));
    assert_eq!(m.field_count(), 1);
    let mut g = Group::new(9);
    m.add_group(Group::new(8));
    assert_eq!(m.group_count(), 0);
    g.add_field(Field::new(3, "C".to_string(), "INT".to_string()));
    g.add_field(Field::new(3, "C".to_string(), "INT".to_string()));
    assert_eq!(group_tags(&g), vec![3]);
    m.add_group(g);
    assert_eq!(m.group_count(), 1);
}

#[test]
fn error_text_has_kind_prefix() {
    assert_eq!(ExtransError::SetupError("x".to_string()).to_string(), "setup Error: x");
    assert_eq!(ExtransError::ParseError("y".to_string()).to_string(), "failed to parse property: y");
}
