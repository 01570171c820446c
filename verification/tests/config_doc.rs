use shortenurl::config::{encode_config, parse_config, Config};

#[test]
fn config_round_trip_is_field_for_field() {
    let cfg = Config {
        database_url: String::from("postgres://localhost:5432/shortener"),
        domain: String::from("foo.com"),
    };
    let doc = encode_config(&cfg).unwrap();
    let back = parse_config(&doc).unwrap();
    assert_eq!(back.database_url, cfg.database_url);
    assert_eq!(back.domain, cfg.domain);
}

#[test]
fn encode_writes_the_two_line_document() {
    let cfg = Config {
        database_url: String::from("postgres://localhost/db"),
        domain: String::from("foo.com"),
    };
    let doc = encode_config(&cfg).unwrap();
    assert_eq!(
        doc,
        "database_url = \"postgres://localhost/db\"\ndomain = \"foo.com\"\n"
    );
}

#[test]
fn parse_reads_a_document_written_by_hand() {
    let doc = "database_url = \"postgres://localhost/db\"\ndomain = \"bar.example\"\n";
    let cfg = parse_config(doc).unwrap();
    assert_eq!(cfg.database_url, "postgres://localhost/db");
    assert_eq!(cfg.domain, "bar.example");
}

#[test]
fn parse_allows_empty_fields() {
    let doc = "database_url = \"\"\ndomain = \"\"\n";
    let cfg = parse_config(doc).unwrap();
    assert_eq!(cfg.database_url, "");
    assert_eq!(cfg.domain, "");
}

#[test]
fn encode_refuses_a_field_that_needs_escaping() {
    let with_quote = Config {
        database_url: String::from("postgres://localhost/\"db\""),
        domain: String::from("foo.com"),
    };
    assert!(encode_config(&with_quote).is_none());
    let with_newline = Config {
        database_url: String::from("postgres://localhost/db"),
        domain: String::from("foo\n.com"),
    };
    assert!(encode_config(&with_newline).is_none());
}

#[test]
fn parse_rejects_malformed_documents() {
    assert!(parse_config("").is_none());
    assert!(parse_config("domain = \"foo.com\"\n").is_none());
    assert!(parse_config("database_url = \"a\"\ndomain = \"b\"").is_none());
    assert!(parse_config("database_url = \"a\\b\"\ndomain = \"c\"\n").is_none());
    assert!(parse_config("database_url = \"a\"\ndomain = \"b\"\nextra = \"c\"\n").is_none());
}

#[test]
fn short_url_joins_domain_and_alias() {
    let cfg = Config {
        database_url: String::from("postgres://localhost/db"),
        domain: String::from("foo.com"),
    };
    assert_eq!(cfg.short_url("Ab3"), "https://foo.com/Ab3");
}

#[test]
fn statement_texts_are_parameterized() {
    assert_eq!(
        shortenurl::sql::select_by_alias_sql(),
        "SELECT * FROM aliases WHERE alias=$1"
    );
    assert_eq!(shortenurl::sql::select_all_sql(), "SELECT * FROM aliases");
    assert_eq!(
        shortenurl::sql::insert_sql(),
        "INSERT INTO aliases (alias, url) VALUES ($1, $2) RETURNING *"
    );
    assert_eq!(
        shortenurl::sql::delete_by_alias_sql(),
        "DELETE FROM aliases WHERE alias=$1 RETURNING *"
    );
    assert_eq!(
        shortenurl::sql::delete_all_sql(),
        "DELETE FROM aliases RETURNING *"
    );
    assert!(shortenurl::sql::create_table_sql().starts_with("CREATE TABLE IF NOT EXISTS aliases"));
}
