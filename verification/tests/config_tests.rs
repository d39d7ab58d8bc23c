use pwdmgr::config::{Config, ConfigError};

#[test]
fn test_parse_simple_config() {
    let config_str = r#"
[database]
host=localhost
port=5432

[server]
address=0.0.0.0
port=8080
"#;
    let config = Config::parse(config_str).unwrap();

    assert_eq!(config.sections.len(), 2);
    assert!(config.has_section("database"));
    assert!(config.has_section("server"));

    let db_section = config.section("database").unwrap();
    assert_eq!(db_section.get("host"), Some(&"localhost".to_string()));
    assert_eq!(db_section.get("port"), Some(&"5432".to_string()));
}

#[test]
fn test_parse_with_comments() {
    let config_str = r#"
# Ceci est un commentaire
[app]
name=MyApp
# Encore un commentaire
version=1.0
"#;
    let config = Config::parse(config_str).unwrap();

    let app_section = config.section("app").unwrap();
    assert_eq!(app_section.properties.len(), 2);
    assert_eq!(app_section.get("name"), Some(&"MyApp".to_string()));
}

#[test]
fn test_duplicate_key_error() {
    let config_str = r#"
[test]
key=value1
key=value2
"#;
    let result = Config::parse(config_str);
    assert!(result.is_err());

    if let Err(ConfigError::DuplicateKey(key)) = result {
        assert_eq!(key, "key");
    } else {
        panic!("Expected DuplicateKey error");
    }
}

#[test]
fn test_property_outside_section_error() {
    let config_str = r#"
key=value
[section]
key2=value2
"#;
    let result = Config::parse(config_str);
    assert!(result.is_err());

    if let Err(ConfigError::InvalidFormat(msg)) = result {
        assert!(msg.contains("Propriété en dehors de toute section"));
    } else {
        panic!("Expected InvalidFormat error");
    }
}

#[test]
fn test_invalid_line_error() {
    let config_str = r#"
[section]
invalid line without equals
"#;
    let result = Config::parse(config_str);
    assert!(result.is_err());

    if let Err(ConfigError::InvalidFormat(msg)) = result {
        assert!(msg.contains("Ligne non reconnue"));
    } else {
        panic!("Expected InvalidFormat error");
    }
}

#[test]
fn test_get_value_exists() {
    let config_str = r#"
[database]
host=localhost
port=5432
"#;
    let config = Config::parse(config_str).unwrap();

    assert_eq!(config.get_value("database", "host"), Some(&"localhost".to_string()));
    assert_eq!(config.get_value("database", "port"), Some(&"5432".to_string()));
}

#[test]
fn test_get_value_section_not_found() {
    let config_str = r#"
[database]
host=localhost
"#;
    let config = Config::parse(config_str).unwrap();

    assert_eq!(config.get_value("server", "host"), None);
}

#[test]
fn test_get_value_key_not_found() {
    let config_str = r#"
[database]
host=localhost
"#;
    let config = Config::parse(config_str).unwrap();

    assert_eq!(config.get_value("database", "port"), None);
}

#[test]
fn test_get_value_multiple_sections() {
    let config_str = r#"
[section1]
key1=value1

[section2]
key2=value2
"#;
    let config = Config::parse(config_str).unwrap();

    assert_eq!(config.get_value("section1", "key1"), Some(&"value1".to_string()));
    assert_eq!(config.get_value("section2", "key2"), Some(&"value2".to_string()));
    assert_eq!(config.get_value("section1", "key2"), None);
}

#[test]
fn test_display_errors() {
    let err1 = ConfigError::InvalidFormat("test".to_string());
    assert_eq!(err1.message(), "Format invalide : test");

    let err2 = ConfigError::DuplicateKey("mykey".to_string());
    assert_eq!(err2.message(), "Clé dupliquée : mykey");

    let err3 = ConfigError::MissingSection("mysection".to_string());
    assert_eq!(err3.message(), "Section manquante : mysection");
}

#[test]
fn test_line_numbers_in_messages() {
    let result = Config::parse("\nkey=value\n");
    if let Err(ConfigError::InvalidFormat(msg)) = result {
        assert_eq!(msg, "Propriété en dehors de toute section à la ligne 2");
    } else {
        panic!("Expected InvalidFormat error");
    }
}

#[test]
fn test_section_redefined_keeps_last() {
    let config = Config::parse("[a]\nx=1\n[b]\ny=2\n[a]\nz=3\n").unwrap();
    assert_eq!(config.sections.len(), 2);
    assert_eq!(config.get_value("a", "z"), Some(&"3".to_string()));
    assert_eq!(config.get_value("a", "x"), None);
    assert_eq!(config.get_value("b", "y"), Some(&"2".to_string()));
}
