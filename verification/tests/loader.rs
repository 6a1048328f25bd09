use discord_data_loader::activity::{Activity, ActivityType};
use discord_data_loader::channel::{Channel, Message};
use discord_data_loader::db::Dao;
use discord_data_loader::migration::Table;
use discord_data_loader::export::ExportFile;
use discord_data_loader::parser::{Parser, ParserResult};
use discord_data_loader::servers::Server;
use discord_data_loader::sql::{SqlValue, Statement};
use discord_data_loader::user::{RelationUser, Relationship, User, UserMetadata};
use rusqlite::Connection;

fn file(path: &str, contents: &str) -> ExportFile {
    ExportFile { path: path.to_string(), contents: contents.as_bytes().to_vec() }
}

fn relationship(id: &str, kind: u32, nickname: Option<&str>) -> Relationship {
    Relationship {
        id: id.to_string(),
        relation_type: kind,
        nickname: nickname.map(|n| n.to_string()),
        user: RelationUser {
            id: id.to_string(),
            username: format!("user{}", id),
            avatar: None,
            avatar_decoration: Some("deco".to_string()),
            discriminator: "0042".to_string(),
            public_flags: 64,
        },
    }
}

fn account(relationships: Vec<Relationship>) -> User {
    User {
        id: "900".to_string(),
        username: "me".to_string(),
        discriminator: 1234,
        email: "me@example.org".to_string(),
        verified: true,
        avatar_hash: "abc".to_string(),
        has_mobile: false,
        needs_email_verification: false,
        premium_until: None,
        flags: 32,
        phone: Some("+100".to_string()),
        temp_banned_until: None,
        ip: "127.0.0.1".to_string(),
        user_profile_metadata: UserMetadata {
            user_id: "900".to_string(),
            boosting_started_at: None,
            premium_started_at: Some("2020-01-01".to_string()),
        },
        relationships,
    }
}

fn message(id: &str, contents: Option<&str>) -> Message {
    Message {
        id: id.to_string(),
        timestamp: format!("2020-01-01 00:00:{}", id),
        contents: contents.map(|c| c.to_string()),
        attachments: None,
    }
}

fn channel(id: &str, recipients: Option<Vec<&str>>, messages: Vec<Message>) -> Channel {
    Channel {
        id: id.to_string(),
        name: None,
        channel_type: 1,
        recipients: recipients.map(|r| r.iter().map(|s| s.to_string()).collect()),
        guild: None,
        messages,
    }
}

fn activity(event_id: &str, languages: Vec<&str>, other: Vec<(String, String)>) -> Activity {
    Activity {
        event_type: "launch".to_string(),
        event_id: event_id.to_string(),
        user_id: "900".to_string(),
        domain: "Reporting".to_string(),
        accepted_languages: languages.iter().map(|s| s.to_string()).collect(),
        accepted_languages_weighted: vec!["en-US;q=0.9".to_string()],
        client_send_timestamp: "\"2020-01-01T00:00:00.000Z\"".to_string(),
        client_track_timestamp: "\"2020-01-01T00:00:00.000Z\"".to_string(),
        timestamp: "\"2020-01-01T00:00:01.000Z\"".to_string(),
        other,
    }
}

fn data(
    relationships: Vec<Relationship>,
    servers: Vec<Server>,
    channels: Vec<Channel>,
    activities: Vec<(ActivityType, Vec<Activity>)>,
) -> ParserResult {
    ParserResult { account: account(relationships), activities, channels, servers }
}

fn to_param(value: &SqlValue) -> rusqlite::types::Value {
    match value {
        SqlValue::Null => rusqlite::types::Value::Null,
        SqlValue::Integer(n) => rusqlite::types::Value::Integer(*n),
        SqlValue::Text(s) => rusqlite::types::Value::Text(s.clone()),
    }
}

fn run(connection: &Connection, plan: &Vec<Statement>) -> Result<(), rusqlite::Error> {
    for statement in plan {
        match statement {
            Statement::Reset => connection.execute_batch(&statement.sql())?,
            _ => {
                let params: Vec<rusqlite::types::Value> =
                    statement.params().iter().map(to_param).collect();
                connection.execute(&statement.sql(), rusqlite::params_from_iter(params))?;
            }
        }
    }
    Ok(())
}

fn load(data: &ParserResult) -> Connection {
    let connection = Connection::open_in_memory().unwrap();
    let plan = Dao::new(":memory:").save(data);
    run(&connection, &plan).unwrap();
    connection
}

fn count(connection: &Connection, table: &str) -> i64 {
    connection
        .query_row(&format!("select count(*) from {}", table), (), |row| row.get(0))
        .unwrap()
}

fn texts(connection: &Connection, sql: &str) -> Vec<Option<String>> {
    let mut statement = connection.prepare(sql).unwrap();
    let rows = statement.query_map((), |row| row.get::<usize, Option<String>>(0)).unwrap();
    rows.map(|r| r.unwrap()).collect()
}

#[test]
fn new_loader_keeps_the_name_of_the_store() {
    assert_eq!(Dao::new("export.db").name(), "export.db");
}

#[test]
fn plan_starts_with_the_reset() {
    let plan = Dao::new("x").save(&data(vec![], vec![], vec![], vec![]));
    assert_eq!(plan.len(), 2);
    assert!(matches!(plan[0], Statement::Reset));
    assert!(matches!(&plan[1], Statement::Insert { table: Table::Account, row } if row.len() == 15));
}

#[test]
fn account_with_relationships_round_trips() {
    let relationships = vec![
        relationship("1", 1, Some("buddy")),
        relationship("2", 2, None),
        relationship("3", 1, None),
    ];
    let connection = load(&data(relationships, vec![], vec![], vec![]));
    assert_eq!(count(&connection, "account"), 1);
    assert_eq!(count(&connection, "relationship"), 3);
    assert_eq!(
        texts(&connection, "select account_id from relationship order by id"),
        vec![Some("900".to_string()), Some("900".to_string()), Some("900".to_string())]
    );
    assert_eq!(
        texts(&connection, "select username from relationship order by id"),
        vec![Some("user1".to_string()), Some("user2".to_string()), Some("user3".to_string())]
    );
    assert_eq!(
        texts(&connection, "select nickname from relationship order by id"),
        vec![Some("buddy".to_string()), None, None]
    );
    assert_eq!(texts(&connection, "select id from account"), vec![Some("900".to_string())]);
    assert_eq!(texts(&connection, "select phone from account"), vec![Some("+100".to_string())]);
    assert_eq!(texts(&connection, "select premium_until from account"), vec![None]);
    let verified: i64 =
        connection.query_row("select verified from account", (), |row| row.get(0)).unwrap();
    assert_eq!(verified, 1);
    let discriminator: i64 =
        connection.query_row("select discriminator from account", (), |row| row.get(0)).unwrap();
    assert_eq!(discriminator, 1234);
}

#[test]
fn account_without_relationships_round_trips() {
    let connection = load(&data(vec![], vec![], vec![], vec![]));
    assert_eq!(count(&connection, "account"), 1);
    assert_eq!(count(&connection, "relationship"), 0);
}

#[test]
fn account_plan_has_one_statement_per_row() {
    let dao = Dao::new("x");
    let plan = dao.save_account(&account(vec![relationship("7", 4, None)]));
    assert_eq!(plan.len(), 2);
    match &plan[1] {
        Statement::Insert { table, row } => {
            assert_eq!(*table, Table::Relationship);
            assert_eq!(row.len(), 8);
            assert!(matches!(&row[0], SqlValue::Text(s) if s == "900"));
            assert!(matches!(&row[1], SqlValue::Integer(4)));
            assert!(matches!(&row[2], SqlValue::Null));
            assert!(matches!(&row[7], SqlValue::Integer(64)));
        }
        _ => panic!("a relationship is inserted as one row"),
    }
}

#[test]
fn reset_twice_leaves_an_empty_schema() {
    let connection = Connection::open_in_memory().unwrap();
    let dao = Dao::new(":memory:");
    run(&connection, &vec![dao.drop_create_tables()]).unwrap();
    connection.execute("insert into server (id, name) values ('1', 'left over')", ()).unwrap();
    assert_eq!(count(&connection, "server"), 1);
    run(&connection, &vec![dao.drop_create_tables(), dao.drop_create_tables()]).unwrap();
    for table in [
        "account",
        "relationship",
        "server",
        "channel",
        "message",
        "channel_recipient",
        "activity",
        "accepted_languages",
        "accepted_languages_weighted",
    ] {
        assert_eq!(count(&connection, table), 0);
    }
    let tables: i64 = connection
        .query_row(
            "select count(*) from sqlite_master where type = 'table' and name not like 'sqlite_%'",
            (),
            |row| row.get(0),
        )
        .unwrap();
    assert_eq!(tables, 9);
}

#[test]
fn load_after_load_keeps_only_the_second() {
    let connection = Connection::open_in_memory().unwrap();
    let dao = Dao::new(":memory:");
    let first = data(vec![relationship("1", 1, None)], vec![], vec![], vec![]);
    let second = data(vec![], vec![], vec![], vec![]);
    run(&connection, &dao.save(&first)).unwrap();
    run(&connection, &dao.save(&second)).unwrap();
    assert_eq!(count(&connection, "account"), 1);
    assert_eq!(count(&connection, "relationship"), 0);
}

#[test]
fn messages_keep_their_order() {
    let channels = vec![channel(
        "c",
        None,
        vec![message("3", Some("m1")), message("1", Some("m2")), message("2", Some("m3"))],
    )];
    let connection = load(&data(vec![], vec![], channels, vec![]));
    assert_eq!(
        texts(&connection, "select contents from message order by rowid"),
        vec![Some("m1".to_string()), Some("m2".to_string()), Some("m3".to_string())]
    );
    assert_eq!(
        texts(&connection, "select channel_id from message order by rowid"),
        vec![Some("c".to_string()), Some("c".to_string()), Some("c".to_string())]
    );
}

#[test]
fn messages_of_several_channels_come_channel_by_channel() {
    let channels = vec![
        channel("a", None, vec![message("1", Some("a1")), message("2", Some("a2"))]),
        channel("b", None, vec![]),
        channel("c", None, vec![message("3", Some("c1"))]),
    ];
    let connection = load(&data(vec![], vec![], channels, vec![]));
    assert_eq!(count(&connection, "channel"), 3);
    assert_eq!(
        texts(&connection, "select contents from message order by rowid"),
        vec![Some("a1".to_string()), Some("a2".to_string()), Some("c1".to_string())]
    );
}

#[test]
fn channel_without_recipients_gives_no_recipient_rows() {
    let channels = vec![channel("c", None, vec![message("1", None)])];
    let dao = Dao::new("x");
    let plan = dao.save_channel(&channels[0]);
    assert_eq!(plan.len(), 2);
    let connection = load(&data(vec![], vec![], channels, vec![]));
    assert_eq!(count(&connection, "channel"), 1);
    assert_eq!(count(&connection, "channel_recipient"), 0);
}

#[test]
fn channel_with_empty_recipients_gives_no_statement() {
    let channels = vec![channel("c", Some(vec![]), vec![])];
    let plan = Dao::new("x").save_channels(&channels);
    assert_eq!(plan.len(), 1);
    let connection = load(&data(vec![], vec![], channels, vec![]));
    assert_eq!(count(&connection, "channel_recipient"), 0);
}

#[test]
fn recipients_are_paired_with_their_channel() {
    let channels = vec![channel("c'1", Some(vec!["5", "6'"]), vec![])];
    let connection = load(&data(vec![], vec![], channels, vec![]));
    assert_eq!(
        texts(&connection, "select recipient from channel_recipient order by id"),
        vec![Some("5".to_string()), Some("6'".to_string())]
    );
    assert_eq!(
        texts(&connection, "select channel_id from channel_recipient order by id"),
        vec![Some("c'1".to_string()), Some("c'1".to_string())]
    );
}

#[test]
fn message_without_contents_loads_null() {
    let channels = vec![channel("c", None, vec![message("1", None), message("2", Some(""))])];
    let connection = load(&data(vec![], vec![], channels, vec![]));
    assert_eq!(
        texts(&connection, "select contents from message order by rowid"),
        vec![None, Some("".to_string())]
    );
    assert_eq!(texts(&connection, "select attachments from message order by rowid"), vec![None, None]);
}

#[test]
fn channel_row_names_its_server() {
    let mut with_server = channel("c", None, vec![]);
    with_server.guild = Some(Server { id: "100".to_string(), name: "home".to_string() });
    with_server.channel_type = 0;
    let connection = load(&data(vec![], vec![], vec![with_server, channel("d", None, vec![])], vec![]));
    assert_eq!(
        texts(&connection, "select server_id from channel order by rowid"),
        vec![Some("100".to_string()), None]
    );
}

#[test]
fn server_name_with_quotes_is_kept() {
    let servers = vec![
        Server { id: "100".to_string(), name: "O'Brien's Server".to_string() },
        Server { id: "200".to_string(), name: "'; drop table server; --".to_string() },
        Server { id: "300".to_string(), name: "''".to_string() },
    ];
    let connection = load(&data(vec![], servers, vec![], vec![]));
    assert_eq!(
        texts(&connection, "select name from server order by id"),
        vec![
            Some("O'Brien's Server".to_string()),
            Some("'; drop table server; --".to_string()),
            Some("''".to_string())
        ]
    );
}

#[test]
fn servers_are_inserted_at_once() {
    let dao = Dao::new("x");
    let servers = vec![
        Server { id: "1".to_string(), name: "a".to_string() },
        Server { id: "2".to_string(), name: "b".to_string() },
    ];
    let plan = dao.save_servers(&servers);
    assert_eq!(plan.len(), 1);
    assert_eq!(plan[0].sql(), "insert into server (id, name) values ('1', 'a'), ('2', 'b');");
    assert_eq!(dao.save_servers(&vec![]).len(), 0);
}

#[test]
fn batch_of_no_rows_is_no_statement() {
    let dao = Dao::new("x");
    assert_eq!(dao.execute_batch(Table::AcceptedLanguages, vec![]).len(), 0);
    let plan = dao.execute_batch(Table::AcceptedLanguages, vec![vec![SqlValue::text("e"), SqlValue::text("en")]]);
    assert_eq!(plan.len(), 1);
    assert_eq!(
        plan[0].sql(),
        "insert into accepted_languages (event_id, language) values ('e', 'en');"
    );
}

#[test]
fn activities_load_with_category_and_languages() {
    let activities = vec![
        (ActivityType::Analytics, vec![activity("e1", vec!["en-US", "fr"], vec![])]),
        (ActivityType::Modeling, vec![]),
        (ActivityType::Reporting, vec![activity("e2", vec![], vec![])]),
        (ActivityType::Tns, vec![activity("e3", vec!["de"], vec![])]),
    ];
    let connection = load(&data(vec![], vec![], vec![], activities));
    assert_eq!(
        texts(&connection, "select activity_type from activity order by rowid"),
        vec![Some("Analytics".to_string()), Some("Reporting".to_string()), Some("Tns".to_string())]
    );
    assert_eq!(
        texts(&connection, "select language from accepted_languages order by id"),
        vec![Some("en-US".to_string()), Some("fr".to_string()), Some("de".to_string())]
    );
    assert_eq!(
        texts(&connection, "select event_id from accepted_languages order by id"),
        vec![Some("e1".to_string()), Some("e1".to_string()), Some("e3".to_string())]
    );
    assert_eq!(count(&connection, "accepted_languages_weighted"), 3);
    assert_eq!(
        texts(&connection, "select other from activity order by rowid"),
        vec![Some("{}".to_string()), Some("{}".to_string()), Some("{}".to_string())]
    );
}

#[test]
fn unmodeled_payload_survives_the_load() {
    let line = "{\"event_type\":\"launch\",\"event_id\":\"e1\",\"user_id\":\"900\",\"domain\":\"d\",\"accepted_languages\":[],\"accepted_languages_weighted\":[],\"client_send_timestamp\":\"a\",\"client_track_timestamp\":\"b\",\"timestamp\":\"c\",\"foo\":\"bar\"}";
    let files = vec![file("root/activity/analytics/events.json", line)];
    let events = Parser::new("root").read_activities(&files, ActivityType::Analytics).unwrap();
    assert_eq!(events.len(), 1);
    let activities = vec![(ActivityType::Analytics, events)];
    let connection = load(&data(vec![], vec![], vec![], activities));
    let stored = texts(&connection, "select other from activity");
    assert_eq!(stored.len(), 1);
    let payload: serde_json::Value = serde_json::from_str(stored[0].as_ref().unwrap()).unwrap();
    assert_eq!(payload.get("foo"), Some(&serde_json::Value::String("bar".to_string())));
    assert_eq!(payload.as_object().unwrap().len(), 1);
}

#[test]
fn nested_payload_survives_the_load() {
    let line = "{\"event_type\":\"launch\",\"event_id\":\"e\",\"user_id\":\"900\",\"domain\":\"d\",\"accepted_languages\":[],\"accepted_languages_weighted\":[],\"client_send_timestamp\":\"a\",\"client_track_timestamp\":\"b\",\"timestamp\":\"c\",\"n\":-3,\"x\":1.5,\"list\":[null,true,\"it's \\\"q\\\"\\n\"],\"inner\":{\"k\":false}}";
    let files = vec![file("root/activity/tns/events.json", line)];
    let events = Parser::new("root").read_activities(&files, ActivityType::Tns).unwrap();
    let connection = load(&data(vec![], vec![], vec![], vec![(ActivityType::Tns, events)]));
    let stored = texts(&connection, "select other from activity");
    let payload: serde_json::Value = serde_json::from_str(stored[0].as_ref().unwrap()).unwrap();
    assert_eq!(payload.as_object().unwrap().len(), 4);
    assert_eq!(payload["n"].as_i64(), Some(-3));
    assert_eq!(payload["x"].to_string(), "1.5");
    assert_eq!(payload["list"][0], serde_json::Value::Null);
    assert_eq!(payload["list"][1], serde_json::Value::Bool(true));
    assert_eq!(payload["list"][2].as_str(), Some("it's \"q\"\n"));
    assert_eq!(payload["inner"]["k"], serde_json::Value::Bool(false));
}

#[test]
fn payload_is_written_as_one_object() {
    let other = vec![
        ("foo".to_string(), "\"bar\"".to_string()),
        ("q'\"".to_string(), "[1,2]".to_string()),
    ];
    let plan = Dao::new("x").save_activity(ActivityType::Modeling, &activity("e", vec![], other));
    match &plan[0] {
        Statement::Insert { table, row } => {
            assert_eq!(*table, Table::Activity);
            assert_eq!(row.len(), 9);
            assert!(matches!(&row[0], SqlValue::Text(s) if s == "e"));
            assert!(matches!(&row[2], SqlValue::Text(s) if s == "Modeling"));
            assert!(matches!(&row[8], SqlValue::Text(s) if s == "{\"foo\":\"bar\",\"q'\\\"\":[1,2]}"));
        }
        _ => panic!("an activity event is inserted as one row"),
    }
}

#[test]
fn duplicate_message_ids_are_refused_by_the_store() {
    let channels = vec![channel("c", None, vec![message("1", None), message("1", None)])];
    let connection = Connection::open_in_memory().unwrap();
    let plan = Dao::new(":memory:").save(&data(vec![], vec![], channels, vec![]));
    assert!(run(&connection, &plan).is_err());
}

#[test]
fn whole_export_loads_from_its_files() {
    let event = "{\"event_type\":\"launch\",\"event_id\":\"e1\",\"user_id\":\"900\",\"domain\":\"d\",\"accepted_languages\":[\"en\",\"fr\"],\"accepted_languages_weighted\":[],\"client_send_timestamp\":\"a\",\"client_track_timestamp\":\"b\",\"timestamp\":\"c\",\"extra\":[1,2]}";
    let files = vec![
        file(
            "x/account/user.json",
            "{\"id\":\"900\",\"username\":\"me\",\"discriminator\":7,\"email\":\"e\",\"verified\":false,\"avatar_hash\":\"h\",\"has_mobile\":true,\"needs_email_verification\":false,\"flags\":0,\"ip\":\"::1\",\"user_profile_metadata\":{\"user_id\":\"900\"},\"relationships\":[{\"id\":\"1\",\"type\":1,\"user\":{\"id\":\"1\",\"username\":\"one\",\"discriminator\":\"0001\",\"public_flags\":0}}]}",
        ),
        file("x/servers/index.json", "{\"100\":\"O'Brien's Server\"}"),
        file("x/servers/100/guild.json", "{\"id\":\"100\",\"name\":\"O'Brien's Server\"}"),
        file("x/messages/index.json", "{\"1\":\"general\",\"2\":null}"),
        file("x/messages/c1/channel.json", "{\"id\":\"1\",\"type\":0,\"guild\":{\"id\":\"100\",\"name\":\"s\"}}"),
        file(
            "x/messages/c1/messages.csv",
            "ID,Timestamp,Contents,Attachments\n13,t3,\"it's, \"\"m1\"\"\",\n11,t1,,a.png\n12,t2,m3,\n",
        ),
        file("x/messages/c2/channel.json", "{\"id\":\"2\",\"type\":1,\"recipients\":[\"5\",\"6\"]}"),
        file("x/messages/c2/messages.csv", "ID,Timestamp,Contents,Attachments\n21,t,dm,\n"),
        file("x/activity/analytics/a.json", &format!("{}\n", event)),
        file("x/activity/modeling/a.json", ""),
        file("x/activity/reporting/a.json", ""),
        file("x/activity/tns/a.json", ""),
    ];
    let parsed = Parser::new("x").parse(&files).unwrap();
    let connection = load(&parsed);
    assert_eq!(count(&connection, "account"), 1);
    assert_eq!(count(&connection, "relationship"), 1);
    assert_eq!(count(&connection, "server"), 1);
    assert_eq!(count(&connection, "channel"), 2);
    assert_eq!(count(&connection, "message"), 4);
    assert_eq!(count(&connection, "channel_recipient"), 2);
    assert_eq!(count(&connection, "activity"), 1);
    assert_eq!(count(&connection, "accepted_languages"), 2);
    assert_eq!(count(&connection, "accepted_languages_weighted"), 0);
    assert_eq!(
        texts(&connection, "select name from server"),
        vec![Some("O'Brien's Server".to_string())]
    );
    assert_eq!(
        texts(&connection, "select contents from message where channel_id = '1' order by rowid"),
        vec![Some("it's, \"m1\"".to_string()), None, Some("m3".to_string())]
    );
    assert_eq!(
        texts(&connection, "select id from message order by rowid"),
        vec![
            Some("13".to_string()),
            Some("11".to_string()),
            Some("12".to_string()),
            Some("21".to_string())
        ]
    );
    assert_eq!(
        texts(&connection, "select server_id from channel order by rowid"),
        vec![Some("100".to_string()), None]
    );
    assert_eq!(
        texts(&connection, "select other from activity"),
        vec![Some("{\"extra\":[1,2]}".to_string())]
    );
}

#[test]
fn export_with_a_bad_row_loads_nothing() {
    let files = vec![
        file("x/account/user.json", "{}"),
        file("x/messages/index.json", "{\"1\":null}"),
        file("x/messages/c1/channel.json", "{\"id\":\"1\",\"type\":0}"),
        file("x/messages/c1/messages.csv", "Timestamp,Contents\nt,hello\n"),
    ];
    let parser = Parser::new("x");
    assert!(matches!(
        parser.read_channels(&files),
        Err(discord_data_loader::parser::ParseError::TabularRowError { .. })
    ));
    assert!(parser.parse(&files).is_err());
}
