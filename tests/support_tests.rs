use extrans::fix::component::{Component, ComponentFieldType};
use extrans::fix::field::Field;
use extrans::fix::group::Group;
use extrans::log_builder::{str_to_level, FileOutput, LevelFilter, LogBuilder};
use extrans::properties::properties_source::PropertiesSource;
use extrans::properties::{config_file_in, trim_quotes, PropertiesBuilder};

#[test]
fn component_records_members_and_groups() {
    let mut c = Component::new("Instrument".to_string());
    c.add_field("Symbol".to_string());
    c.add_component("Other".to_string());
    c.add_group("NoPartyIDs".to_string(), vec!["PartyID".to_string()]);
    c.add_group("NoPartyIDs".to_string(), vec!["PartyRole".to_string()]);
    assert_eq!(c.iter().len(), 4);
    assert!(matches!(c.iter()[1].0, ComponentFieldType::COMPONENT));
    assert_eq!(c.get_group_fields("NoPartyIDs".to_string()), Some(vec!["PartyRole".to_string()]));
    assert_eq!(c.get_group_fields("None".to_string()), None);
}

#[test]
fn levels_from_names() {
    assert_eq!(str_to_level("debug", LevelFilter::Off), LevelFilter::Debug);
    assert_eq!(str_to_level("warn", LevelFilter::Off), LevelFilter::Warn);
    assert_eq!(str_to_level("loud", LevelFilter::Trace), LevelFilter::Trace);
}

#[test]
fn log_builder_settings() {
    let b = LogBuilder::new();
    assert_eq!(b.file_output(), FileOutput::NoFile);
    assert_eq!(b.root_level(), LevelFilter::Info);
    let b = b.with_console_level("error").with_log_file("out.log");
    assert_eq!(b.m_console_level, LevelFilter::Error);
    assert_eq!(b.file_output(), FileOutput::Plain);
    assert_eq!(b.root_level(), LevelFilter::Debug);
    let b = b.with_filesize_limit(1024).with_file_count(5).with_file_level("nonsense");
    assert_eq!(b.file_output(), FileOutput::Rolling);
    assert_eq!(b.m_file_count, 5);
    assert_eq!(b.m_file_level, LevelFilter::Debug);
}

#[test]
fn property_keys_most_qualified_first() {
    let b = PropertiesBuilder::new()
        .with_namespace("extrans".to_string())
        .with_class("properties".to_string())
        .with_app("fix".to_string())
        .with_file("tests/config/extrans.properties");
    assert_eq!(
        b.property_keys("timeout"),
        vec![
            "extrans.properties.fix.timeout".to_string(),
            "extrans.properties.timeout".to_string(),
            "extrans.timeout".to_string(),
            "timeout".to_string()
        ]
    );
    assert_eq!(b.m_file_path, Some("tests/config/extrans.properties".to_string()));
}

#[test]
fn config_file_joins_directory() {
    assert_eq!(config_file_in("/etc/"), "/etc/extrans.properties");
    assert_eq!(config_file_in("/etc"), "/etc/extrans.properties");
    assert_eq!(config_file_in(""), "/extrans.properties");
}

#[test]
fn quotes_trimmed() {
    assert_eq!(trim_quotes("\"DictionaryValue\""), "DictionaryValue");
    assert_eq!(trim_quotes("'a'b''"), "a'b");
    assert_eq!(trim_quotes("\"\"\""), "");
    assert_eq!(trim_quotes("plain"), "plain");
}

#[test]
fn property_lines() {
    assert_eq!(
        PropertiesSource::parse_line("  extrans.properties.timeout = 5.5 "),
        Some(("extrans.properties.timeout".to_string(), "5.5".to_string()))
    );
    assert_eq!(
        PropertiesSource::parse_line("a=b=c"),
        Some(("a".to_string(), "b=c".to_string()))
    );
    assert_eq!(PropertiesSource::parse_line("# comment = x"), None);
    assert_eq!(PropertiesSource::parse_line("! comment"), None);
    assert_eq!(PropertiesSource::parse_line("   "), None);
    assert_eq!(PropertiesSource::parse_line("novalue"), None);
    assert_eq!(PropertiesSource::new("f.properties").file_path, "f.properties");
}

#[test]
fn renderings() {
    let f = Field::new(55, "Symbol".to_string(), "STRING".to_string());
    assert_eq!(f.to_string(), "field: 55 Symbol STRING");
    let n = Field::new(-120, "Neg".to_string(), "INT".to_string());
    assert_eq!(n.to_string(), "field: -120 Neg INTEGER");
    let p = Field::new(0, "Px".to_string(), "PRICE".to_string());
    assert_eq!(p.to_string(), "field: 0 Px DECIMAL");
    let mut g = Group::new(453);
    g.add_field(Field::new(448, "PartyID".to_string(), "STRING".to_string()));
    g.add_field(Field::new(447, "PartyIDSource".to_string(), "INT".to_string()));
    assert_eq!(
        g.to_string(),
        "group parent tag: 453\n    field: 448 PartyID STRING\n    field: 447 PartyIDSource INTEGER\n"
    );
    let mut c = Component::new("Instrument".to_string());
    c.add_field("Symbol".to_string());
    c.add_component("Other".to_string());
    c.add_group("NoPartyIDs".to_string(), vec![]);
    assert_eq!(c.to_string(), "Field Symbol\nComponent Other\nGroup NoPartyIDs\n");
    assert_eq!(i32::MIN.to_string().len(), 11);
    let m = Field::new(i32::MIN, "Min".to_string(), "INT".to_string());
    assert_eq!(m.to_string(), "field: -2147483648 Min INTEGER");
}
