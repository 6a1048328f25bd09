//! The message table of a channel: rows and columns of text.
//!
//! Cutting a text into records and fields is the `csv` crate's work; which columns make
//! a message is decided here.
use crate::channel::{message_views, Message, MessageView};
use crate::text::same_text;
use vstd::prelude::*;

verus! {

/// The records that the `csv` crate reads from the bytes of a text, the first line among
/// them, each record as the texts of its fields; `None` where it refuses a record.
pub uninterp spec fn csv_table(bytes: Seq<u8>) -> Option<Seq<Seq<Seq<char>>>>;

/// Cuts the bytes of a text into records and fields.
///
/// Stands for a `csv::Reader` that is built by `csv::ReaderBuilder` with `has_headers`
/// switched off and everything else as it is by default, and for its `records`. The
/// contract only names what is read, as [`csv_table`] of the bytes, and says that the
/// result is `None` exactly where a record is refused.
#[verifier::external_body]
fn read_records(bytes: &[u8]) -> (r: Option<Vec<Vec<String>>>)
    ensures
        r.deep_view() == csv_table(bytes@),
{
    let mut reader = csv::ReaderBuilder::new().has_headers(false).from_reader(bytes);
    reader.records().map(|r| r.ok().map(|rec| rec.iter().map(String::from).collect())).collect()
}

/// How many columns of a header have the given name.
pub open spec fn occurrences(header: Seq<Seq<char>>, name: Seq<char>) -> nat
    decreases header.len(),
{
    if header.len() == 0 {
        0
    } else if header.last() == name {
        occurrences(header.drop_last(), name) + 1
    } else {
        occurrences(header.drop_last(), name)
    }
}

/// The place of the last column with the given name; -1 where there is none.
pub open spec fn position(header: Seq<Seq<char>>, name: Seq<char>) -> int
    decreases header.len(),
{
    if header.len() == 0 {
        -1
    } else if header.last() == name {
        header.len() - 1
    } else {
        position(header.drop_last(), name)
    }
}

/// The place of a column lies in the header, and the column there has the name.
pub proof fn lemma_position(header: Seq<Seq<char>>, name: Seq<char>)
    ensures
        -1 <= position(header, name) < header.len(),
        position(header, name) >= 0 <==> occurrences(header, name) > 0,
        position(header, name) >= 0 ==> header[position(header, name)] == name,
    decreases header.len(),
{
    if header.len() > 0 {
        lemma_position(header.drop_last(), name);
    }
}

/// The text of a column that may be missing and may be left empty: `None` in either
/// case.
pub open spec fn optional_cell(header: Seq<Seq<char>>, row: Seq<Seq<char>>, name: Seq<char>)
    -> Option<Seq<char>> {
    if occurrences(header, name) == 0 || row[position(header, name)].len() == 0 {
        None
    } else {
        Some(row[position(header, name)])
    }
}

/// The message that a row holds under a header: the row has as many fields as the
/// header, the columns `ID` and `Timestamp` are there once, and the columns `Contents`
/// and `Attachments` at most once. Other columns are passed over.
pub open spec fn message_of(header: Seq<Seq<char>>, row: Seq<Seq<char>>) -> Option<MessageView> {
    if row.len() == header.len() && occurrences(header, "ID"@) == 1 && occurrences(
        header,
        "Timestamp"@,
    ) == 1 && occurrences(header, "Contents"@) <= 1 && occurrences(header, "Attachments"@) <= 1 {
        Some(
            MessageView {
                id: row[position(header, "ID"@)],
                timestamp: row[position(header, "Timestamp"@)],
                contents: optional_cell(header, row, "Contents"@),
                attachments: optional_cell(header, row, "Attachments"@),
            },
        )
    } else {
        None
    }
}

/// The messages that a table holds: its first record is the header, and every record
/// after it a message, in the order of the records. A table without records holds no
/// message; a table with a record that is no message holds nothing.
pub open spec fn messages_of(table: Seq<Seq<Seq<char>>>) -> Option<Seq<MessageView>> {
    if table.len() == 0 {
        Some(Seq::empty())
    } else if forall|i: int| 1 <= i < table.len() ==> (#[trigger] message_of(table[0], table[i]))
        is Some {
        Some(Seq::new((table.len() - 1) as nat, |i: int| message_of(table[0], table[i + 1])->0))
    } else {
        None
    }
}

/// Where a table holds messages, it holds one for each record after the header, and
/// message `i` is the one of record `i + 1`: no record is left out, none moved.
pub proof fn lemma_messages_keep_order(table: Seq<Seq<Seq<char>>>, i: int)
    requires
        messages_of(table) is Some,
        1 <= i + 1 < table.len(),
    ensures
        messages_of(table)->0.len() == table.len() - 1,
        message_of(table[0], table[i + 1]) == Some(messages_of(table)->0[i]),
{
    assert(message_of(table[0], table[i + 1]) is Some);
}

/// A table with a record that is no message holds nothing: not the messages before that
/// record, and not those after it.
pub proof fn lemma_bad_row_fails(table: Seq<Seq<Seq<char>>>, i: int)
    requires
        1 <= i < table.len(),
        message_of(table[0], table[i]) is None,
    ensures
        messages_of(table) is None,
{
}

/// A record under a header without the column `ID` is no message.
pub proof fn lemma_missing_id_fails(header: Seq<Seq<char>>, row: Seq<Seq<char>>)
    requires
        occurrences(header, "ID"@) == 0,
    ensures
        message_of(header, row) is None,
{
}

/// The column of a header with the given name: how often it occurs, and where last.
fn find_column(header: &Vec<String>, name: &str) -> (r: (usize, usize))
    ensures
        r.0 == occurrences(header.deep_view(), name@),
        r.0 > 0 ==> r.1 == position(header.deep_view(), name@),
{
    let ghost all = header.deep_view();
    let mut count: usize = 0;
    let mut place: usize = 0;
    let mut i: usize = 0;
    while i < header.len()
        invariant
            i <= header.len(),
            all == header.deep_view(),
            count <= i,
            count == occurrences(all.take(i as int), name@),
            count > 0 ==> place == position(all.take(i as int), name@),
        decreases header.len() - i,
    {
        proof {
            let next = all.take(i + 1);
            assert(next.drop_last() == all.take(i as int));
            assert(next.last() == header@[i as int]@);
        }
        if same_text(header[i].as_str(), name) {
            count += 1;
            place = i;
        }
        i += 1;
    }
    proof {
        assert(all.take(header@.len() as int) == all);
    }
    (count, place)
}

/// The text of a column that may be missing and may be left empty.
fn read_optional_cell(header: &Vec<String>, row: &Vec<String>, name: &str) -> (r: Option<
    Option<String>,
>)
    requires
        row@.len() == header@.len(),
    ensures
        match r {
            Some(cell) => occurrences(header.deep_view(), name@) <= 1 && cell.deep_view()
                == optional_cell(header.deep_view(), row.deep_view(), name@),
            None => occurrences(header.deep_view(), name@) > 1,
        },
{
    let (count, place) = find_column(header, name);
    proof {
        lemma_position(header.deep_view(), name@);
    }
    if count > 1 {
        None
    } else if count == 0 {
        Some(None)
    } else if row[place].as_str().is_empty() {
        Some(None)
    } else {
        Some(Some(row[place].clone()))
    }
}

/// The text of a column that has to be there once.
fn read_cell(header: &Vec<String>, row: &Vec<String>, name: &str) -> (r: Option<String>)
    requires
        row@.len() == header@.len(),
    ensures
        match r {
            Some(cell) => occurrences(header.deep_view(), name@) == 1 && cell@
                == row.deep_view()[position(header.deep_view(), name@)],
            None => occurrences(header.deep_view(), name@) != 1,
        },
{
    let (count, place) = find_column(header, name);
    proof {
        lemma_position(header.deep_view(), name@);
    }
    if count == 1 {
        Some(row[place].clone())
    } else {
        None
    }
}

/// Decodes one record under a header; `None` where the record is no message.
pub fn decode_message(header: &Vec<String>, row: &Vec<String>) -> (r: Option<Message>)
    ensures
        match r {
            Some(message) => message_of(header.deep_view(), row.deep_view()) == Some(message@),
            None => message_of(header.deep_view(), row.deep_view()) is None,
        },
{
    if row.len() != header.len() {
        return None;
    }
    let id = read_cell(header, row, "ID")?;
    let timestamp = read_cell(header, row, "Timestamp")?;
    let contents = read_optional_cell(header, row, "Contents")?;
    let attachments = read_optional_cell(header, row, "Attachments")?;
    Some(Message { id, timestamp, contents, attachments })
}

/// Decodes the records of a table; `None` where a record after the header is no
/// message.
pub fn decode_messages(table: &Vec<Vec<String>>) -> (r: Option<Vec<Message>>)
    ensures
        match r {
            Some(messages) => messages_of(table.deep_view()) == Some(message_views(messages@)),
            None => messages_of(table.deep_view()) is None,
        },
{
    let mut messages: Vec<Message> = Vec::new();
    if table.len() == 0 {
        assert(message_views(messages@) =~= Seq::empty());
        return Some(messages);
    }
    let ghost all = table.deep_view();
    let mut i: usize = 1;
    while i < table.len()
        invariant
            1 <= i <= table.len(),
            all == table.deep_view(),
            messages@.len() == i - 1,
            forall|k: int|
                1 <= k < i ==> message_of(all[0], all[k]) == Some((#[trigger] messages@[k - 1])@),
        decreases table.len() - i,
    {
        assert(all[i as int] == table@[i as int].deep_view());
        assert(all[0] == table@[0].deep_view());
        match decode_message(&table[0], &table[i]) {
            Some(message) => {
                messages.push(message);
            },
            None => {
                return None;
            },
        }
        i += 1;
    }
    proof {
        assert forall|k: int| 1 <= k < all.len() implies (#[trigger] message_of(all[0], all[k]))
            is Some by {
            assert(message_of(all[0], all[k]) == Some(messages@[k - 1]@));
        }
        assert forall|k: int| 0 <= k < messages@.len() implies message_views(messages@)[k]
            == message_of(all[0], all[k + 1])->0 by {
            assert(message_of(all[0], all[k + 1]) == Some(messages@[(k + 1) - 1]@));
        }
        assert(message_views(messages@) =~= Seq::new(
            (all.len() - 1) as nat,
            |i: int| message_of(all[0], all[i + 1])->0,
        ));
    }
    Some(messages)
}

/// The messages that the bytes of a message table hold.
pub open spec fn messages_in(bytes: Seq<u8>) -> Option<Seq<MessageView>> {
    match csv_table(bytes) {
        Some(table) => messages_of(table),
        None => None,
    }
}

/// Reads the bytes of a message table; `None` where they are no table, or a record
/// after the header is no message.
pub fn read_messages(bytes: &[u8]) -> (r: Option<Vec<Message>>)
    ensures
        match r {
            Some(messages) => messages_in(bytes@) == Some(message_views(messages@)),
            None => messages_in(bytes@) is None,
        },
{
    match read_records(bytes) {
        Some(table) => decode_messages(&table),
        None => None,
    }
}

} // verus!
