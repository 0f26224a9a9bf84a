use lazyhex::config::{parse_endian, parse_on_delete, Config, ConfigError, Endian, HighlightUpdate};

#[test]
fn defaults() {
    let c = Config::default();
    assert_eq!(c.page, 256);
    assert_eq!(c.endian, Endian::Big);
    assert_eq!(c.empty_value, 0);
    assert_eq!(c.on_delete, HighlightUpdate::Reload);
    assert_eq!(Config::from_values(None, None, None, None), Ok(c));
}

#[test]
fn given_values() {
    let c = Config::from_values(Some(64), Some(String::from("l")), Some(0xff), Some(String::from("update")));
    assert_eq!(
        c,
        Ok(Config { page: 64, endian: Endian::Little, empty_value: 0xff, on_delete: HighlightUpdate::Update })
    );
}

#[test]
fn unknown_values_are_errors() {
    assert_eq!(
        Config::from_values(None, Some(String::from("middle")), None, None),
        Err(ConfigError::Endian(String::from("middle")))
    );
    assert_eq!(
        Config::from_values(None, None, None, Some(String::from("never"))),
        Err(ConfigError::OnDelete(String::from("never")))
    );
}

#[test]
fn setting_names() {
    assert_eq!(parse_endian(&String::from("little")), Some(Endian::Little));
    assert_eq!(parse_endian(&String::from("b")), Some(Endian::Big));
    assert_eq!(parse_endian(&String::from("Big")), None);
    assert_eq!(parse_on_delete(&String::from("reload")), Some(HighlightUpdate::Reload));
    assert_eq!(parse_on_delete(&String::from("delete")), None);
}

#[test]
fn toggle_endian() {
    let mut c = Config::default();
    c.toggle_endian();
    assert_eq!(c.endian, Endian::Little);
}
