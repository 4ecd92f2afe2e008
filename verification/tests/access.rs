//! Users, roles and privileges.
use potatodb::access::{parse_create_user, parse_grant, split_statement};
use potatodb::catalog::Catalog;

fn catalog() -> Catalog {
    let mut c = Catalog::new();
    c.ensure_first_user("root");
    c.handle_create_user("CREATE USER ada PASSWORD 'secret'").unwrap().unwrap();
    c
}

#[test]
fn first_user_is_an_admin() {
    let c = catalog();
    assert!(c.user_is_admin("root"));
    assert!(!c.user_is_admin("ada"));
    assert!(c.enforce_access("root", "DELETE FROM t").is_ok());
}

#[test]
fn known_users_stay() {
    let mut c = catalog();
    c.ensure_first_user("other");
    assert!(!c.user_is_admin("other"));
    assert_eq!(c.users.len(), 2);
}

#[test]
fn grants_open_and_revokes_close() {
    let mut c = catalog();
    let table = Some("t".to_string());
    assert!(!c.user_has_privilege("ada", "INSERT", &table));
    c.handle_grant("GRANT INSERT ON t TO ada").unwrap();
    assert!(c.user_has_privilege("ada", "INSERT", &table));
    assert!(!c.user_has_privilege("ada", "DELETE", &table));
    assert!(!c.user_has_privilege("ada", "INSERT", &Some("u".to_string())));
    c.handle_revoke("REVOKE INSERT ON t FROM ada").unwrap();
    assert!(!c.user_has_privilege("ada", "INSERT", &table));
}

#[test]
fn privileges_stay_on_their_tables() {
    let mut c = catalog();
    c.handle_grant("GRANT ALL ON a TO ada").unwrap();
    assert!(c.user_has_privilege("ada", "DELETE", &Some("a".to_string())));
    assert!(!c.user_has_privilege("ada", "DELETE", &Some("b".to_string())));
    assert!(!c.user_has_privilege("ada", "DELETE", &None));
    assert!(!c.user_is_admin("ada"));
    assert!(c.enforce_access("ada", "DELETE FROM b").is_err());
}

#[test]
fn refusals_name_the_user_and_the_action() {
    let c = catalog();
    assert_eq!(
        c.enforce_access("ada", "select 1").unwrap_err(),
        "permission denied for user 'ada' on SELECT"
    );
    assert_eq!(
        c.enforce_access("ada", "DELETE FROM t").unwrap_err(),
        "permission denied for user 'ada' on statement 'DELETE'"
    );
}

#[test]
fn granting_twice_is_granting_once() {
    let mut c = catalog();
    c.handle_grant("GRANT SELECT ON t TO ada").unwrap();
    c.handle_grant("GRANT SELECT ON t TO ada").unwrap();
    c.handle_revoke("REVOKE SELECT ON t FROM ada").unwrap();
    assert!(!c.user_has_privilege("ada", "SELECT", &Some("t".to_string())));
}

#[test]
fn malformed_access_statements() {
    let mut c = catalog();
    assert_eq!(
        c.handle_grant("GRANT").unwrap_err(),
        "GRANT syntax: GRANT <PRIV> ON <TABLE> TO <ROLE|USER>"
    );
    assert_eq!(
        c.handle_revoke("REVOKE").unwrap_err(),
        "REVOKE syntax: REVOKE <PRIV> ON <TABLE> FROM <ROLE|USER>"
    );
    assert!(c.handle_create_role("CREATE ROLE").is_err());
    assert!(c.handle_create_role("CREATE ROLE reader").is_ok());
    assert!(c.roles.contains_key("reader"));
}

#[test]
fn access_statements_are_read() {
    let g = parse_grant("GRANT SELECT ON \"T\" TO bob;").unwrap();
    assert_eq!(g.privilege, "SELECT");
    assert_eq!(g.target, "bob");
    assert!(parse_grant("GRANT SELECT").is_none());
    let u = parse_create_user("CREATE USER eve PASSWORD 'pw'").unwrap().ok().unwrap();
    assert_eq!(u.name, "eve");
    assert_eq!(split_statement("a  b;"), vec!["a".to_string(), "b".to_string()]);
}

#[test]
fn users_are_listed_with_their_roles() {
    let c = catalog();
    let users = c.user_info();
    assert_eq!(users.len(), 2);
    assert!(users.iter().any(|u| u.name == "root" && !u.roles.is_empty()));
    assert!(users.iter().any(|u| u.name == "ada"));
}
