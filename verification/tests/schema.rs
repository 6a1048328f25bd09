use discord_data_loader::migration::{drop_create_tables, tables_in_create_order, Table};
use discord_data_loader::sql::Statement;
use rusqlite::Connection;

const TABLES: [&str; 9] = [
    "account",
    "relationship",
    "server",
    "channel",
    "message",
    "channel_recipient",
    "activity",
    "accepted_languages",
    "accepted_languages_weighted",
];

#[test]
fn script_drops_before_it_creates() {
    let script = drop_create_tables();
    let statements: Vec<&str> = script.split("\n\n").collect();
    assert_eq!(statements.len(), 18);
    assert_eq!(statements[0], "drop table if exists accepted_languages_weighted;");
    assert_eq!(statements[1], "drop table if exists accepted_languages;");
    assert_eq!(statements[2], "drop table if exists activity;");
    assert_eq!(statements[8], "drop table if exists account;");
    assert!(statements[9].starts_with("create table account ("));
    assert!(statements[10].starts_with("create table relationship ("));
    assert!(statements[17].starts_with("create table accepted_languages_weighted ("));
    assert!(script.ends_with(");"));
}

#[test]
fn reset_statement_is_the_script() {
    assert_eq!(Statement::Reset.sql(), drop_create_tables());
    assert_eq!(Statement::Reset.params().len(), 0);
}

#[test]
fn tables_have_their_names() {
    let tables = tables_in_create_order();
    let names: Vec<&str> = tables.iter().map(|t| t.name()).collect();
    assert_eq!(names, TABLES.to_vec());
    for table in tables {
        assert!(table.create_sql().starts_with(&format!("create table {} (", table.name())));
    }
}

#[test]
fn columns_of_tables() {
    assert_eq!(Table::Server.columns(), vec!["id", "name"]);
    assert_eq!(Table::Channel.columns(), vec!["id", "type", "server_id"]);
    assert_eq!(Table::Account.columns().len(), 15);
    assert_eq!(Table::Relationship.columns()[0], "account_id");
    assert_eq!(Table::Message.columns(), vec!["id", "channel_id", "timestamp", "contents", "attachments"]);
    assert_eq!(Table::Activity.columns().len(), 9);
    assert_eq!(Table::AcceptedLanguages.columns(), Table::AcceptedLanguagesWeighted.columns());
}

#[test]
fn script_runs_on_an_empty_store() {
    let connection = Connection::open_in_memory().unwrap();
    connection.execute_batch(&drop_create_tables()).unwrap();
    for table in TABLES {
        let rows: i64 = connection
            .query_row(&format!("select count(*) from {}", table), (), |row| row.get(0))
            .unwrap();
        assert_eq!(rows, 0);
    }
}

#[test]
fn script_runs_with_foreign_keys_enforced() {
    let connection = Connection::open_in_memory().unwrap();
    connection.execute_batch("pragma foreign_keys = on;").unwrap();
    connection.execute_batch(&drop_create_tables()).unwrap();
    connection
        .execute_batch(
            "insert into channel (id, type) values ('c', 0);
             insert into message (id, channel_id, timestamp) values ('m', 'c', 't');",
        )
        .unwrap();
    connection.execute_batch(&drop_create_tables()).unwrap();
    connection.execute_batch(&drop_create_tables()).unwrap();
    let rows: i64 =
        connection.query_row("select count(*) from message", (), |row| row.get(0)).unwrap();
    assert_eq!(rows, 0);
}

#[test]
fn every_column_of_an_insert_exists() {
    let connection = Connection::open_in_memory().unwrap();
    connection.execute_batch(&drop_create_tables()).unwrap();
    for table in tables_in_create_order() {
        let sql = format!("select {} from {}", table.columns().join(", "), table.name());
        assert!(connection.prepare(&sql).is_ok(), "{}", sql);
    }
}
