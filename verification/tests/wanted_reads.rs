use discord_data_loader::export::ExportFile;
use discord_data_loader::parser::{ParseError, Parser};
use discord_data_loader::wanted::Wanted;

fn file(path: &str, contents: &str) -> ExportFile {
    ExportFile { path: path.to_string(), contents: contents.as_bytes().to_vec() }
}

fn names(wanted: &Vec<Wanted>) -> Vec<String> {
    wanted
        .iter()
        .map(|w| match w {
            Wanted::File { path } => format!("file {}", path),
            Wanted::FirstIn { dir } => format!("first in {}", dir),
        })
        .collect()
}

#[test]
fn empty_snapshot_wants_the_fixed_files() {
    let wanted = Parser::new("r").wanted(&vec![]);
    assert_eq!(
        names(&wanted),
        vec![
            "file r/account/user.json",
            "file r/servers/index.json",
            "file r/messages/index.json",
            "first in r/activity/analytics",
            "first in r/activity/modeling",
            "first in r/activity/reporting",
            "first in r/activity/tns",
        ]
    );
}

#[test]
fn indexes_tell_what_else_is_wanted() {
    let files = vec![
        file("r/account/user.json", "{}"),
        file("r/servers/index.json", r#"{"1": "a", "2": "b"}"#),
        file("r/servers/2/guild.json", "{}"),
        file("r/messages/index.json", r#"{"7": null, "8": "x"}"#),
        file("r/messages/c7/messages.csv", ""),
        file("r/messages/c8/channel.json", "{}"),
        file("r/activity/analytics/a.json", ""),
        file("r/activity/modeling/a.json", ""),
        file("r/activity/reporting/a.json", ""),
        file("r/activity/tns/sub/a.json", ""),
    ];
    let wanted = Parser::new("r").wanted(&files);
    assert_eq!(
        names(&wanted),
        vec![
            "file r/servers/1/guild.json",
            "file r/messages/c7/channel.json",
            "file r/messages/c8/messages.csv",
            "first in r/activity/tns",
        ]
    );
}

#[test]
fn index_that_cannot_be_read_tells_nothing() {
    let files = vec![
        file("r/servers/index.json", r#"{"1": 5}"#),
        file("r/messages/index.json", "["),
    ];
    let wanted = Parser::new("r").wanted(&files);
    assert_eq!(
        names(&wanted),
        vec![
            "file r/account/user.json",
            "first in r/activity/analytics",
            "first in r/activity/modeling",
            "first in r/activity/reporting",
            "first in r/activity/tns",
        ]
    );
}

#[test]
fn missing_file_of_a_parse_is_wanted() {
    let parser = Parser::new("r");
    let mut files = vec![
        file("r/servers/index.json", r#"{"1": "a"}"#),
        file("r/messages/index.json", "{}"),
    ];
    let mut rounds = 0;
    loop {
        match parser.parse(&files) {
            Err(ParseError::MissingFile { path }) => {
                let wanted = names(&parser.wanted(&files));
                assert!(
                    wanted.contains(&format!("file {}", path))
                        || wanted.contains(&format!("first in {}", path))
                );
                if path.contains("/activity/") {
                    files.push(file(&format!("{}/events.json", path), ""));
                } else {
                    files.push(file(&path, "{}"));
                }
            }
            Err(ParseError::DecodeError { path }) => {
                assert_eq!(path, "r/account/user.json");
                break;
            }
            other => panic!("the empty account does not decode: {:?}", other),
        }
        rounds += 1;
        assert!(rounds < 10);
    }
    assert_eq!(rounds, 1);
}

#[test]
fn complete_snapshot_wants_nothing() {
    let files = vec![
        file("r/account/user.json", "{}"),
        file("r/servers/index.json", "{}"),
        file("r/messages/index.json", "{}"),
        file("r/activity/analytics/a", ""),
        file("r/activity/modeling/b", ""),
        file("r/activity/reporting/c", ""),
        file("r/activity/tns/d", ""),
    ];
    assert_eq!(Parser::new("r").wanted(&files).len(), 0);
}
