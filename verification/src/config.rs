//! The database parameters that the service's TOML configuration gives.
//!
//! The configuration's `[postgres]` section may name the database (`db`),
//! the user (`user`) and the user's password (`pass`).
use vstd::prelude::*;

verus! {

/// A section of a TOML document: each key, in the order of the document's
/// table, with its value where that value is a string.
#[derive(Clone, Debug, PartialEq, Eq)]
pub struct TomlSection {
    pub entries: Vec<(String, Option<String>)>,
}

/// A value of a TOML document's top-level table: a string, a section, or
/// anything else.
#[derive(Clone, Debug, PartialEq, Eq)]
pub enum TomlValue {
    String(String),
    Table(TomlSection),
    Other,
}

/// The top-level table of a TOML document: each key with its value.
#[derive(Clone, Debug, PartialEq, Eq)]
pub struct TomlTable {
    pub entries: Vec<(String, TomlValue)>,
}

/// The user that the service logs into the database as, with the password
/// where one is given.
#[derive(Clone, Debug, PartialEq, Eq)]
pub struct UserInfo {
    pub user: String,
    pub password: Option<String>,
}

/// The value of the first entry whose key is `key`.
pub open spec fn lookup<V>(entries: Seq<(String, V)>, key: Seq<char>) -> Option<V>
    decreases entries.len(),
{
    if entries.len() == 0 {
        None
    } else if entries[0].0@ == key {
        Some(entries[0].1)
    } else {
        lookup(entries.drop_first(), key)
    }
}

/// The string that the section gives `key`, if it gives it a string.
pub open spec fn section_str(section: TomlSection, key: Seq<char>) -> Option<String> {
    match lookup(section.entries@, key) {
        Some(Some(s)) => Some(s),
        _ => None,
    }
}

/// The user and the database that a parsed configuration names: both come
/// from its `postgres` section, where that is a table; the user is there
/// where `user` is a string, with `pass` as password where that is a
/// string.
pub open spec fn db_params(parsed: Option<TomlTable>) -> (Option<UserInfo>, Option<String>) {
    match parsed {
        Some(table) => match lookup(table.entries@, "postgres"@) {
            Some(TomlValue::Table(section)) => (
                match section_str(section, "user"@) {
                    Some(user) => Some(UserInfo { user, password: section_str(section, "pass"@) }),
                    None => None,
                },
                section_str(section, "db"@),
            ),
            _ => (None, None),
        },
        None => (None, None),
    }
}

/// A key's value is the value of its first entry.
pub proof fn law_lookup_first<V>(entries: Seq<(String, V)>, key: Seq<char>, i: int)
    requires
        0 <= i < entries.len(),
        entries[i].0@ == key,
        forall|j: int| 0 <= j < i ==> (#[trigger] entries[j]).0@ != key,
    ensures
        lookup(entries, key) == Some(entries[i].1),
    decreases i,
{
    if i > 0 {
        let rest = entries.drop_first();
        assert forall|j: int| 0 <= j < i - 1 implies (#[trigger] rest[j]).0@ != key by {
            assert(rest[j] == entries[j + 1]);
        }
        law_lookup_first(rest, key, i - 1);
    }
}

/// A key without an entry has no value.
pub proof fn law_lookup_absent<V>(entries: Seq<(String, V)>, key: Seq<char>)
    requires
        forall|j: int| 0 <= j < entries.len() ==> (#[trigger] entries[j]).0@ != key,
    ensures
        lookup(entries, key) is None,
    decreases entries.len(),
{
    if entries.len() > 0 {
        let rest = entries.drop_first();
        assert(entries[0].0@ != key);
        assert forall|j: int| 0 <= j < rest.len() implies (#[trigger] rest[j]).0@ != key by {
            assert(rest[j] == entries[j + 1]);
        }
        law_lookup_absent(rest, key);
    }
}

/// Where the `postgres` section gives `user` and `pass` strings, the user
/// logs in with that password, whatever the section says of `db`.
pub proof fn law_db_user_with_password(
    table: TomlTable,
    section: TomlSection,
    user: String,
    pass: String,
)
    requires
        lookup(table.entries@, "postgres"@) == Some(TomlValue::Table(section)),
        lookup(section.entries@, "user"@) == Some(Some(user)),
        lookup(section.entries@, "pass"@) == Some(Some(pass)),
    ensures
        db_params(Some(table)).0 == Some(UserInfo { user: user, password: Some(pass) }),
{
}

/// Where the `postgres` section gives `user` a string but `pass` none, the
/// user logs in without a password.
pub proof fn law_db_user_without_password(table: TomlTable, section: TomlSection, user: String)
    requires
        lookup(table.entries@, "postgres"@) == Some(TomlValue::Table(section)),
        lookup(section.entries@, "user"@) == Some(Some(user)),
        !(lookup(section.entries@, "pass"@) matches Some(Some(_))),
    ensures
        db_params(Some(table)).0 == Some(UserInfo { user: user, password: None }),
{
}

/// Where the `postgres` section gives `user` no string, no user is named.
pub proof fn law_db_no_user(table: TomlTable, section: TomlSection)
    requires
        lookup(table.entries@, "postgres"@) == Some(TomlValue::Table(section)),
        !(lookup(section.entries@, "user"@) matches Some(Some(_))),
    ensures
        db_params(Some(table)).0 is None,
{
}

/// The database is the string that the `postgres` section gives `db`,
/// whatever it says of the user; without such a string none is named.
pub proof fn law_db_database(table: TomlTable, section: TomlSection)
    requires
        lookup(table.entries@, "postgres"@) == Some(TomlValue::Table(section)),
    ensures
        lookup(section.entries@, "db"@) matches Some(Some(d)) ==> db_params(Some(table)).1 == Some(
            d,
        ),
        !(lookup(section.entries@, "db"@) matches Some(Some(_))) ==> db_params(Some(table)).1 is None,
{
}

/// Without a `postgres` section that is a table, or without a parsed
/// configuration, nothing is named.
pub proof fn law_db_no_section(table: TomlTable)
    requires
        !(lookup(table.entries@, "postgres"@) matches Some(TomlValue::Table(_))),
    ensures
        db_params(Some(table)) == (None::<UserInfo>, None::<String>),
        db_params(None) == (None::<UserInfo>, None::<String>),
{
}

/// The top-level table that the TOML text parses to, where it is valid
/// TOML, as far as `TomlTable` holds it.
pub uninterp spec fn toml_document(text: Seq<char>) -> Option<TomlTable>;

/// `toml::Parser::parse`: parses the text as a TOML document and keeps of
/// its top-level table the strings, the sections (with their string
/// values) and the other keys. Claimed: the result is a function of the
/// text alone (the parser is deterministic and its tables are ordered by
/// key); nothing is claimed of what that function is.
#[verifier::external_body]
fn parse_toml(text: &str) -> (r: Option<TomlTable>)
    ensures
        r == toml_document(text@),
{
    toml::Parser::new(text).parse().map(|table| TomlTable {
        entries: table.into_iter().map(|(key, value)| (key, match value {
            toml::Value::String(s) => TomlValue::String(s),
            toml::Value::Table(section) => TomlValue::Table(TomlSection {
                entries: section.into_iter().map(|(k, v)| (k, match v {
                    toml::Value::String(s) => Some(s),
                    _ => None,
                })).collect(),
            }),
            _ => TomlValue::Other,
        })).collect(),
    })
}

/// The position of the first entry whose key is `key`.
fn find_key<V>(entries: &Vec<(String, V)>, key: &str) -> (r: Option<usize>)
    ensures
        r matches Some(i) ==> i < entries@.len() && lookup(entries@, key@) == Some(
            entries@[i as int].1,
        ),
        r is None ==> lookup(entries@, key@) is None,
{
    let wanted = key.to_owned();
    let mut i: usize = 0;
    assert(entries@.subrange(0, entries@.len() as int) =~= entries@);
    while i < entries.len()
        invariant
            wanted@ == key@,
            i <= entries@.len(),
            lookup(entries@, key@) == lookup(entries@.subrange(i as int, entries@.len() as int), key@),
        decreases entries@.len() - i,
    {
        let ghost rest = entries@.subrange(i as int, entries@.len() as int);
        assert(rest[0] == entries@[i as int]);
        if entries[i].0 == wanted {
            assert(rest.len() > 0 && rest[0].0@ == key@);
            assert(lookup(rest, key@) == Some(rest[0].1));
            return Some(i);
        }
        assert(rest.drop_first() =~= entries@.subrange(i + 1, entries@.len() as int));
        i = i + 1;
    }
    None
}

/// The string that the section gives `key`, if it gives it a string.
fn section_string(section: &TomlSection, key: &str) -> (r: Option<String>)
    ensures
        r == section_str(*section, key@),
{
    match find_key(&section.entries, key) {
        Some(i) => match &section.entries[i].1 {
            Some(s) => Some(s.clone()),
            None => None,
        },
        None => None,
    }
}

/// The user and the database that a parsed configuration names.
pub fn parse_db_params(parsed: Option<TomlTable>) -> (r: (Option<UserInfo>, Option<String>))
    ensures
        r == db_params(parsed),
{
    if let Some(table) = parsed {
        match find_key(&table.entries, "postgres") {
            Some(i) => match &table.entries[i].1 {
                TomlValue::Table(section) => {
                    let database = section_string(section, "db");
                    let user_params = match section_string(section, "user") {
                        Some(user) => Some(
                            UserInfo { user, password: section_string(section, "pass") },
                        ),
                        None => None,
                    };
                    (user_params, database)
                },
                _ => (None, None),
            },
            None => (None, None),
        }
    } else {
        (None, None)
    }
}

/// The user and the database that the TOML configuration text names.
pub fn db_params_from_toml(text: &str) -> (r: (Option<UserInfo>, Option<String>))
    ensures
        r == db_params(toml_document(text@)),
{
    parse_db_params(parse_toml(text))
}

} // verus!
