use chien::{db_params_from_toml, parse_db_params, TomlSection, TomlTable, TomlValue, UserInfo};

#[test]
fn db_params_full_section() {
    let text = "[postgres]\ndb = \"chien\"\nuser = \"dog\"\npass = \"woof\"\n";
    let (user, db) = db_params_from_toml(text);
    assert_eq!(db, Some("chien".to_string()));
    assert_eq!(
        user,
        Some(UserInfo { user: "dog".to_string(), password: Some("woof".to_string()) })
    );
}

#[test]
fn db_params_without_password_or_user() {
    let (user, db) = db_params_from_toml("[postgres]\nuser = \"dog\"\n");
    assert_eq!(user, Some(UserInfo { user: "dog".to_string(), password: None }));
    assert_eq!(db, None);
    let (user, db) = db_params_from_toml("[postgres]\ndb = \"chien\"\npass = \"x\"\n");
    assert_eq!(user, None);
    assert_eq!(db, Some("chien".to_string()));
}

#[test]
fn db_params_ignores_non_strings() {
    let (user, db) = db_params_from_toml("[postgres]\ndb = 5\nuser = \"dog\"\npass = true\n");
    assert_eq!(db, None);
    assert_eq!(user, Some(UserInfo { user: "dog".to_string(), password: None }));
}

#[test]
fn db_params_without_section() {
    assert_eq!(db_params_from_toml("[mysql]\ndb = \"chien\"\n"), (None, None));
    assert_eq!(db_params_from_toml("postgres = \"chien\"\n"), (None, None));
    assert_eq!(db_params_from_toml(""), (None, None));
}

#[test]
fn db_params_of_invalid_toml() {
    assert_eq!(db_params_from_toml("[postgres\ndb = \"chien\"\n"), (None, None));
    assert_eq!(parse_db_params(None), (None, None));
}

#[test]
fn parse_db_params_reads_the_model() {
    let section = TomlSection {
        entries: vec![
            ("db".to_string(), Some("chien".to_string())),
            ("user".to_string(), Some("dog".to_string())),
        ],
    };
    let table = TomlTable {
        entries: vec![
            ("name".to_string(), TomlValue::String("x".to_string())),
            ("postgres".to_string(), TomlValue::Table(section)),
        ],
    };
    let (user, db) = parse_db_params(Some(table));
    assert_eq!(db, Some("chien".to_string()));
    assert_eq!(user, Some(UserInfo { user: "dog".to_string(), password: None }));
}
