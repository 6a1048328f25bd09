use discord_data_loader::tabular::{decode_message, decode_messages, read_messages};

fn row(fields: &[&str]) -> Vec<String> {
    fields.iter().map(|f| f.to_string()).collect()
}

#[test]
fn rows_become_messages_in_order() {
    let messages = read_messages("ID,Timestamp,Contents,Attachments\n3,t3,first,\n1,t1,second,a.png\n2,t2,third,\n".as_bytes())
    .unwrap();
    let ids: Vec<&str> = messages.iter().map(|m| m.id.as_str()).collect();
    assert_eq!(ids, vec!["3", "1", "2"]);
    assert_eq!(messages[0].contents, Some("first".to_string()));
    assert_eq!(messages[1].attachments, Some("a.png".to_string()));
    assert_eq!(messages[2].timestamp, "t2");
}

#[test]
fn empty_fields_of_optional_columns_are_none() {
    let messages = read_messages("ID,Timestamp,Contents,Attachments\n1,t,,\n".as_bytes()).unwrap();
    assert_eq!(messages[0].contents, None);
    assert_eq!(messages[0].attachments, None);
}

#[test]
fn empty_fields_of_required_columns_are_empty_texts() {
    let messages = read_messages("ID,Timestamp,Contents,Attachments\n,\"\",x,\n".as_bytes()).unwrap();
    assert_eq!(messages[0].id, "");
    assert_eq!(messages[0].timestamp, "");
}

#[test]
fn quoted_fields_are_unquoted() {
    let messages = read_messages("ID,Timestamp,Contents,Attachments\n1,t,\"line one\nline two, with \"\"quotes\"\"\",\n".as_bytes())
    .unwrap();
    assert_eq!(messages.len(), 1);
    assert_eq!(messages[0].contents, Some("line one\nline two, with \"quotes\"".to_string()));
}

#[test]
fn columns_may_come_in_any_order_and_with_others() {
    let messages = read_messages("Extra,Contents,ID,Timestamp\nx,hello,1,t\n".as_bytes()).unwrap();
    assert_eq!(messages[0].id, "1");
    assert_eq!(messages[0].timestamp, "t");
    assert_eq!(messages[0].contents, Some("hello".to_string()));
    assert_eq!(messages[0].attachments, None);
}

#[test]
fn table_without_rows_holds_no_message() {
    assert_eq!(read_messages("".as_bytes()).unwrap().len(), 0);
    assert_eq!(read_messages("ID,Timestamp,Contents,Attachments\n".as_bytes()).unwrap().len(), 0);
    assert_eq!(read_messages("Nothing\n".as_bytes()).unwrap().len(), 0);
}

#[test]
fn row_without_id_column_is_refused() {
    assert!(read_messages("Timestamp,Contents,Attachments\nt,hello,\n".as_bytes()).is_none());
    assert!(read_messages("id,Timestamp,Contents,Attachments\n1,t,hello,\n".as_bytes()).is_none());
}

#[test]
fn row_without_timestamp_column_is_refused() {
    assert!(read_messages("ID,Contents,Attachments\n1,hello,\n".as_bytes()).is_none());
}

#[test]
fn one_bad_row_fails_the_table() {
    assert!(read_messages("ID,Timestamp,Contents,Attachments\n1,t,a,\n2,t\n3,t,c,\n".as_bytes()).is_none());
    assert!(read_messages("ID,Timestamp\n1,t\n2,t,extra\n".as_bytes()).is_none());
}

#[test]
fn repeated_columns_are_refused() {
    assert!(read_messages("ID,ID,Timestamp\n1,2,t\n".as_bytes()).is_none());
    assert!(read_messages("ID,Timestamp,Contents,Contents\n1,t,a,b\n".as_bytes()).is_none());
    assert_eq!(read_messages("ID,Timestamp,Other,Other\n1,t,a,b\n".as_bytes()).unwrap().len(), 1);
}

#[test]
fn one_record_under_a_header() {
    let header = row(&["ID", "Timestamp", "Contents", "Attachments"]);
    let message = decode_message(&header, &row(&["1", "t", "", "file"])).unwrap();
    assert_eq!(message.id, "1");
    assert_eq!(message.contents, None);
    assert_eq!(message.attachments, Some("file".to_string()));
    assert!(decode_message(&header, &row(&["1", "t", ""])).is_none());
    assert!(decode_message(&header, &row(&["1", "t", "", "", ""])).is_none());
    assert!(decode_message(&row(&["Timestamp"]), &row(&["t"])).is_none());
}

#[test]
fn records_of_a_table() {
    assert_eq!(decode_messages(&vec![]).unwrap().len(), 0);
    assert_eq!(decode_messages(&vec![row(&["anything"])]).unwrap().len(), 0);
    let table = vec![row(&["ID", "Timestamp"]), row(&["b", "1"]), row(&["a", "2"])];
    let messages = decode_messages(&table).unwrap();
    assert_eq!(messages.len(), 2);
    assert_eq!(messages[0].id, "b");
    assert_eq!(messages[1].id, "a");
    let table = vec![row(&["ID", "Timestamp"]), row(&["b", "1"]), row(&["a"])];
    assert!(decode_messages(&table).is_none());
}
