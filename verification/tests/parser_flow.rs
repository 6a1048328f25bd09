use discord_data_loader::activity::ActivityType;
use discord_data_loader::export::{split_lines, ExportFile};
use discord_data_loader::parser::{decode_activities, ParseError, Parser};

fn file(path: &str, contents: &str) -> ExportFile {
    ExportFile { path: path.to_string(), contents: contents.as_bytes().to_vec() }
}

const ACCOUNT: &str = r#"{
  "id": "900",
  "username": "me",
  "discriminator": 1234,
  "email": "me@example.org",
  "verified": true,
  "avatar_hash": "abc",
  "has_mobile": false,
  "needs_email_verification": false,
  "premium_until": null,
  "flags": 32,
  "phone": "+100",
  "temp_banned_until": null,
  "ip": "127.0.0.1",
  "settings": {"locale": "en"},
  "user_profile_metadata": {"user_id": "900", "boosting_started_at": null},
  "relationships": [
    {"id": "1", "type": 1, "nickname": "buddy",
     "user": {"id": "1", "username": "one", "avatar": null, "avatar_decoration": null,
              "discriminator": "0001", "public_flags": 0}},
    {"id": "2", "type": 2, "nickname": null,
     "user": {"id": "2", "username": "two", "avatar": "pic",
              "discriminator": "0002", "public_flags": 4294967295}}
  ]
}"#;

const EVENT: &str = r#"{"event_type":"launch","event_id":"e1","user_id":"900","domain":"d","accepted_languages":["en-US","fr"],"accepted_languages_weighted":["en-US;q=0.9"],"client_send_timestamp":"a","client_track_timestamp":"b","timestamp":"c","foo":"bar","n":1.5}"#;

fn export() -> Vec<ExportFile> {
    vec![
        file("root/account/user.json", ACCOUNT),
        file("root/servers/index.json", r#"{"100": "O'Brien's Server", "200": "Second"}"#),
        file("root/servers/100/guild.json", r#"{"id": "100", "name": "O'Brien's Server"}"#),
        file("root/servers/200/guild.json", r#"{"id": "200", "name": "Second", "extra": 1}"#),
        file("root/messages/index.json", r#"{"1": "general", "2": null}"#),
        file(
            "root/messages/c1/channel.json",
            r#"{"id": "1", "type": 0, "guild": {"id": "100", "name": "O'Brien's Server"}}"#,
        ),
        file(
            "root/messages/c1/messages.csv",
            "ID,Timestamp,Contents,Attachments\n11,2020-01-01,hello,\n12,2020-01-02,,file.png\n13,2020-01-03,\"a, \"\"b\"\"\",\n",
        ),
        file("root/messages/c2/channel.json", r#"{"id": "2", "type": 1, "recipients": ["5", "6"]}"#),
        file("root/messages/c2/messages.csv", "ID,Timestamp,Contents,Attachments\n"),
        file("root/activity/analytics/events-2020.json", &format!("{}\n", EVENT)),
        file("root/activity/analytics/second.json", "not read"),
        file("root/activity/modeling/events.json", ""),
        file("root/activity/reporting/events.json", &format!("{}\n\n{}\n", EVENT, EVENT)),
        file("root/activity/tns/events.json", "\n"),
    ]
}

fn without(path: &str) -> Vec<ExportFile> {
    export().into_iter().filter(|f| f.path != path).collect()
}

fn with(path: &str, contents: &str) -> Vec<ExportFile> {
    export()
        .into_iter()
        .map(|f| if f.path == path { file(path, contents) } else { f })
        .collect()
}

fn missing(result: Result<impl std::fmt::Debug, ParseError>, path: &str) {
    match result {
        Err(ParseError::MissingFile { path: p }) => assert_eq!(p, path),
        other => panic!("expected a missing file, got {:?}", other),
    }
}

fn undecodable(result: Result<impl std::fmt::Debug, ParseError>, path: &str) {
    match result {
        Err(ParseError::DecodeError { path: p }) => assert_eq!(p, path),
        other => panic!("expected a decode error, got {:?}", other),
    }
}

fn bad_row(result: Result<impl std::fmt::Debug, ParseError>, path: &str) {
    match result {
        Err(ParseError::TabularRowError { path: p }) => assert_eq!(p, path),
        other => panic!("expected a row error, got {:?}", other),
    }
}

#[test]
fn parser_keeps_its_root() {
    assert_eq!(Parser::new("some/where").data_path(), "some/where");
}

#[test]
fn whole_export_parses() {
    let result = Parser::new("root").parse(&export()).unwrap();
    assert_eq!(result.account.id, "900");
    assert_eq!(result.account.discriminator, 1234);
    assert_eq!(result.account.flags, 32);
    assert_eq!(result.account.premium_until, None);
    assert_eq!(result.account.phone, Some("+100".to_string()));
    assert_eq!(result.account.user_profile_metadata.user_id, "900");
    assert_eq!(result.account.user_profile_metadata.premium_started_at, None);
    assert_eq!(result.account.relationships.len(), 2);
    assert_eq!(result.account.relationships[0].nickname, Some("buddy".to_string()));
    assert_eq!(result.account.relationships[0].relation_type, 1);
    assert_eq!(result.account.relationships[1].user.avatar, Some("pic".to_string()));
    assert_eq!(result.account.relationships[1].user.avatar_decoration, None);
    assert_eq!(result.account.relationships[1].user.public_flags, u32::MAX);

    assert_eq!(result.servers.len(), 2);
    assert_eq!(result.servers[0].id, "100");
    assert_eq!(result.servers[0].name, "O'Brien's Server");
    assert_eq!(result.servers[1].name, "Second");

    assert_eq!(result.channels.len(), 2);
    let first = &result.channels[0];
    assert_eq!(first.id, "1");
    assert_eq!(first.name, Some("general".to_string()));
    assert_eq!(first.channel_type, 0);
    assert!(first.recipients.is_none());
    assert_eq!(first.guild.as_ref().unwrap().id, "100");
    assert_eq!(first.messages.len(), 3);
    assert_eq!(first.messages[0].id, "11");
    assert_eq!(first.messages[0].contents, Some("hello".to_string()));
    assert_eq!(first.messages[0].attachments, None);
    assert_eq!(first.messages[1].contents, None);
    assert_eq!(first.messages[1].attachments, Some("file.png".to_string()));
    assert_eq!(first.messages[2].contents, Some("a, \"b\"".to_string()));
    assert_eq!(first.messages[2].timestamp, "2020-01-03");
    let second = &result.channels[1];
    assert_eq!(second.name, None);
    assert_eq!(second.recipients, Some(vec!["5".to_string(), "6".to_string()]));
    assert!(second.guild.is_none());
    assert_eq!(second.messages.len(), 0);

    assert_eq!(result.activities.len(), 4);
    assert_eq!(result.activities[0].0, ActivityType::Analytics);
    assert_eq!(result.activities[1].0, ActivityType::Modeling);
    assert_eq!(result.activities[2].0, ActivityType::Reporting);
    assert_eq!(result.activities[3].0, ActivityType::Tns);
    assert_eq!(result.activities[0].1.len(), 1);
    assert_eq!(result.activities[1].1.len(), 0);
    assert_eq!(result.activities[2].1.len(), 2);
    assert_eq!(result.activities[3].1.len(), 0);
    let event = &result.activities[0].1[0];
    assert_eq!(event.event_id, "e1");
    assert_eq!(event.accepted_languages, vec!["en-US".to_string(), "fr".to_string()]);
    assert_eq!(event.accepted_languages_weighted, vec!["en-US;q=0.9".to_string()]);
    assert_eq!(event.other.len(), 2);
    assert_eq!(event.other[0], ("foo".to_string(), "\"bar\"".to_string()));
    assert_eq!(event.other[1], ("n".to_string(), "1.5".to_string()));
}

#[test]
fn missing_account_file() {
    let parser = Parser::new("root");
    let files = without("root/account/user.json");
    missing(parser.read_account(&files), "root/account/user.json");
    missing(parser.parse(&files), "root/account/user.json");
}

#[test]
fn account_that_is_no_json() {
    let files = with("root/account/user.json", "{");
    undecodable(Parser::new("root").parse(&files), "root/account/user.json");
}

#[test]
fn account_with_a_field_of_the_wrong_type() {
    let files = with("root/account/user.json", &ACCOUNT.replace("\"flags\": 32", "\"flags\": \"32\""));
    undecodable(Parser::new("root").read_account(&files), "root/account/user.json");
    let files = with("root/account/user.json", &ACCOUNT.replace("\"flags\": 32", "\"flags\": 3.5"));
    undecodable(Parser::new("root").read_account(&files), "root/account/user.json");
    let files = with(
        "root/account/user.json",
        &ACCOUNT.replace("\"discriminator\": 1234", "\"discriminator\": 2147483648"),
    );
    undecodable(Parser::new("root").read_account(&files), "root/account/user.json");
}

#[test]
fn account_without_a_required_field() {
    let files = with("root/account/user.json", &ACCOUNT.replace("\"ip\": \"127.0.0.1\",", ""));
    undecodable(Parser::new("root").read_account(&files), "root/account/user.json");
}

#[test]
fn account_with_a_bad_relationship() {
    let files = with("root/account/user.json", &ACCOUNT.replace("\"type\": 2", "\"type\": -1"));
    undecodable(Parser::new("root").read_account(&files), "root/account/user.json");
}

#[test]
fn missing_servers_index() {
    let files = without("root/servers/index.json");
    missing(Parser::new("root").read_servers(&files), "root/servers/index.json");
}

#[test]
fn one_bad_server_fails_all_servers() {
    let parser = Parser::new("root");
    missing(parser.read_servers(&without("root/servers/200/guild.json")), "root/servers/200/guild.json");
    undecodable(
        parser.read_servers(&with("root/servers/100/guild.json", r#"{"id": 100, "name": "x"}"#)),
        "root/servers/100/guild.json",
    );
    undecodable(
        parser.read_servers(&with("root/servers/index.json", r#"{"100": null}"#)),
        "root/servers/index.json",
    );
    undecodable(
        parser.parse(&with("root/servers/200/guild.json", r#"{"id": "200"}"#)),
        "root/servers/200/guild.json",
    );
}

#[test]
fn no_servers_at_all() {
    let files = with("root/servers/index.json", "{}");
    assert_eq!(Parser::new("root").read_servers(&files).unwrap().len(), 0);
}

#[test]
fn missing_channel_files() {
    let parser = Parser::new("root");
    missing(parser.read_channels(&without("root/messages/index.json")), "root/messages/index.json");
    missing(parser.read_channels(&without("root/messages/c2/channel.json")), "root/messages/c2/channel.json");
    missing(parser.read_channels(&without("root/messages/c1/messages.csv")), "root/messages/c1/messages.csv");
}

#[test]
fn channel_description_of_the_wrong_shape() {
    let parser = Parser::new("root");
    undecodable(
        parser.read_channels(&with("root/messages/c2/channel.json", r#"{"id": "2", "type": 256}"#)),
        "root/messages/c2/channel.json",
    );
    undecodable(
        parser.read_channels(&with(
            "root/messages/c2/channel.json",
            r#"{"id": "2", "type": 1, "recipients": ["5", 6]}"#,
        )),
        "root/messages/c2/channel.json",
    );
    undecodable(
        parser.read_channels(&with(
            "root/messages/c2/channel.json",
            r#"{"id": "2", "type": 1, "guild": {"id": "1"}}"#,
        )),
        "root/messages/c2/channel.json",
    );
    undecodable(
        parser.read_channels(&with("root/messages/index.json", r#"{"1": 3}"#)),
        "root/messages/index.json",
    );
}

#[test]
fn row_without_id_fails_the_whole_parse() {
    let parser = Parser::new("root");
    let files = with(
        "root/messages/c2/messages.csv",
        "Timestamp,Contents,Attachments\n2020-01-01,hello,\n",
    );
    bad_row(parser.read_channels(&files), "root/messages/c2/messages.csv");
    bad_row(parser.parse(&files), "root/messages/c2/messages.csv");
}

#[test]
fn row_of_the_wrong_length_fails_the_channel() {
    let files = with(
        "root/messages/c1/messages.csv",
        "ID,Timestamp,Contents,Attachments\n11,2020-01-01,hello,\n12,2020-01-02\n",
    );
    bad_row(Parser::new("root").read_channels(&files), "root/messages/c1/messages.csv");
}

#[test]
fn first_file_of_a_category_is_read() {
    let parser = Parser::new("root");
    let events = parser.read_activities(&export(), ActivityType::Analytics).unwrap();
    assert_eq!(events.len(), 1);
    let mut files = export();
    files.swap(9, 10);
    undecodable(
        parser.read_activities(&files, ActivityType::Analytics),
        "root/activity/analytics/second.json",
    );
}

#[test]
fn files_deeper_than_the_category_are_passed_over() {
    let parser = Parser::new("root");
    let mut files = vec![file("root/activity/tns/old/events.json", "not read")];
    files.extend(export());
    assert_eq!(parser.read_activities(&files, ActivityType::Tns).unwrap().len(), 0);
    let files = vec![
        file("root/activity/tns/old/events.json", "not read"),
        file("root/activity/tnsx", "not read"),
        file("root/activity/tns", "not read"),
        file("root/activity/tns/", "not read"),
    ];
    missing(parser.read_activities(&files, ActivityType::Tns), "root/activity/tns");
}

#[test]
fn empty_category_is_a_missing_file() {
    let parser = Parser::new("root");
    let files = without("root/activity/modeling/events.json");
    missing(parser.read_activities(&files, ActivityType::Modeling), "root/activity/modeling");
    missing(parser.read_all_activities(&files), "root/activity/modeling");
    missing(parser.parse(&files), "root/activity/modeling");
}

#[test]
fn bad_line_fails_the_category() {
    let parser = Parser::new("root");
    let files = with("root/activity/reporting/events.json", &format!("{}\n{{\"event_id\": 1}}\n", EVENT));
    undecodable(
        parser.read_activities(&files, ActivityType::Reporting),
        "root/activity/reporting/events.json",
    );
    undecodable(parser.read_all_activities(&files), "root/activity/reporting/events.json");
    let files = with("root/activity/tns/events.json", "  \n");
    undecodable(parser.read_activities(&files, ActivityType::Tns), "root/activity/tns/events.json");
}

#[test]
fn first_failure_of_the_parse_is_reported() {
    let files: Vec<ExportFile> = export()
        .into_iter()
        .filter(|f| f.path != "root/servers/index.json" && f.path != "root/messages/index.json")
        .collect();
    missing(Parser::new("root").parse(&files), "root/servers/index.json");
}

#[test]
fn lines_are_what_stands_between_line_feeds() {
    assert_eq!(split_lines(b""), vec![b"".to_vec()]);
    assert_eq!(split_lines(b"a"), vec![b"a".to_vec()]);
    assert_eq!(split_lines(b"a\n"), vec![b"a".to_vec(), b"".to_vec()]);
    assert_eq!(
        split_lines(b"\n\nb\r\nc"),
        vec![b"".to_vec(), b"".to_vec(), b"b\r".to_vec(), b"c".to_vec()]
    );
}

#[test]
fn bytes_that_are_no_text_are_not_decoded() {
    let parser = Parser::new("root");
    let mut files = export();
    files[0].contents = vec![0xff, 0xfe, b'{', b'}'];
    undecodable(parser.parse(&files), "root/account/user.json");
    let mut files = export();
    files[6].contents = b"ID,Timestamp\n1,\xff\n".to_vec();
    bad_row(parser.read_channels(&files), "root/messages/c1/messages.csv");
    let mut files = export();
    files[13].contents = b"\xff\n".to_vec();
    undecodable(parser.read_activities(&files, ActivityType::Tns), "root/activity/tns/events.json");
}

#[test]
fn events_of_lines() {
    assert_eq!(decode_activities(b"").unwrap().len(), 0);
    assert_eq!(decode_activities(b"\n\n").unwrap().len(), 0);
    let two = format!("{}\n{}", EVENT, EVENT.replace("e1", "e2"));
    let events = decode_activities(two.as_bytes()).unwrap();
    assert_eq!(events.len(), 2);
    assert_eq!(events[0].event_id, "e1");
    assert_eq!(events[1].event_id, "e2");
    assert!(decode_activities(b"[]").is_none());
    assert!(decode_activities(two.replace("\"domain\":\"d\",", "").as_bytes()).is_none());
}

#[test]
fn errors_say_what_went_wrong() {
    assert_eq!(ParseError::MissingFile { path: "a/b".to_string() }.message(), "missing file: a/b");
    assert_eq!(ParseError::DecodeError { path: "a/b".to_string() }.message(), "cannot decode: a/b");
    assert_eq!(ParseError::TabularRowError { path: "a/b".to_string() }.message(), "bad row in: a/b");
}
