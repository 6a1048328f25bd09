use discord_data_loader::migration::Table;
use discord_data_loader::sql::{escape_quotes, str_to_sql_str, SqlValue, Statement};

#[test]
fn plain_text_is_wrapped_in_quotes() {
    assert_eq!(str_to_sql_str("general"), "'general'");
}

#[test]
fn empty_text_is_two_quotes() {
    assert_eq!(str_to_sql_str(""), "''");
}

#[test]
fn quotes_inside_are_doubled() {
    assert_eq!(str_to_sql_str("O'Brien's Server"), "'O''Brien''s Server'");
    assert_eq!(escape_quotes("''"), "''''");
    assert_eq!(escape_quotes("a'b"), "a''b");
}

#[test]
fn other_characters_are_kept() {
    assert_eq!(str_to_sql_str("a \"b\" \\ ;--\n\u{e9}"), "'a \"b\" \\ ;--\n\u{e9}'");
}

#[test]
fn literals_of_values() {
    assert_eq!(SqlValue::Null.literal(), "null");
    assert_eq!(SqlValue::Integer(0).literal(), "0");
    assert_eq!(SqlValue::Integer(-42).literal(), "-42");
    assert_eq!(SqlValue::Integer(i64::MIN).literal(), "-9223372036854775808");
    assert_eq!(SqlValue::Integer(i64::MAX).literal(), "9223372036854775807");
    assert_eq!(SqlValue::text("it's").literal(), "'it''s'");
    assert_eq!(SqlValue::boolean(true).literal(), "1");
    assert_eq!(SqlValue::boolean(false).literal(), "0");
    assert_eq!(SqlValue::optional_text(&None).literal(), "null");
    assert_eq!(SqlValue::optional_text(&Some("x".to_string())).literal(), "'x'");
}

#[test]
fn insert_with_parameters() {
    let statement = Statement::Insert {
        table: Table::Server,
        row: vec![SqlValue::text("1"), SqlValue::text("home")],
    };
    assert_eq!(statement.sql(), "insert into server (id, name) values (?1, ?2);");
    let params = statement.params();
    assert_eq!(params.len(), 2);
    assert!(matches!(&params[0], SqlValue::Text(s) if s == "1"));
    assert!(matches!(&params[1], SqlValue::Text(s) if s == "home"));
}

#[test]
fn insert_with_many_parameters_numbers_them() {
    let row: Vec<SqlValue> = (0..15).map(|_| SqlValue::Null).collect();
    let statement = Statement::Insert { table: Table::Account, row };
    let sql = statement.sql();
    assert!(sql.starts_with("insert into account (id, username, discriminator, email, verified, avatar_hash, has_mobile, needs_email_verification, premium_until, flags, phone, temp_banned_until, ip, boosting_started_at, premium_started_at) values (?1, ?2, "));
    assert!(sql.ends_with("?9, ?10, ?11, ?12, ?13, ?14, ?15);"));
}

#[test]
fn bulk_insert_writes_literals() {
    let statement = Statement::BulkInsert {
        table: Table::ChannelRecipient,
        rows: vec![
            vec![SqlValue::text("c1"), SqlValue::text("u'1")],
            vec![SqlValue::text("c1"), SqlValue::text("u2")],
        ],
    };
    assert_eq!(
        statement.sql(),
        "insert into channel_recipient (channel_id, recipient) values ('c1', 'u''1'), ('c1', 'u2');"
    );
    assert_eq!(statement.params().len(), 0);
}
