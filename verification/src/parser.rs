//! The parser: which files of an export are read, and how they decode into records.
//!
//! The parser works on a snapshot of the export. Taking the snapshot is the caller's
//! part; [`crate::wanted`] says what it has to hold.
use crate::activity::{activity_of, activity_views, Activity, ActivityType, ActivityView};
use crate::channel::{
    channel_from_parts, channel_info_of, channel_views, Channel, ChannelInfo, ChannelView,
};
use crate::export::{
    contents_of, file_views, find_file, find_first_in, first_in, line_views, lines_of,
    split_lines, ExportFile, FileView,
};
use crate::json::{
    json_document, json_fields, lemma_object_view, member_models, parse_fields, parse_json, Json,
    JsonModel,
};
use crate::servers::{server_of, server_views, Server, ServerView};
use crate::tabular::{messages_in, read_messages};
use crate::user::{user_of, User, UserView};
use vstd::prelude::*;
use vstd::string::StringExecFns;

verus! {

/// Why an export could not be parsed.
#[derive(Debug)]
pub enum ParseError {
    /// A file that the export has to hold is not there; for an activity category, no
    /// file lies in its directory.
    MissingFile { path: String },
    /// The text of a file is no JSON, or not of the shape that is expected there.
    DecodeError { path: String },
    /// The message table of a channel cannot be read, or one of its rows is no message.
    TabularRowError { path: String },
}

/// The mathematical value of a [`ParseError`].
pub enum ParseErrorView {
    MissingFile { path: Seq<char> },
    DecodeError { path: Seq<char> },
    TabularRowError { path: Seq<char> },
}

impl View for ParseError {
    type V = ParseErrorView;

    open spec fn view(&self) -> ParseErrorView {
        match self {
            ParseError::MissingFile { path } => ParseErrorView::MissingFile { path: path@ },
            ParseError::DecodeError { path } => ParseErrorView::DecodeError { path: path@ },
            ParseError::TabularRowError { path } => ParseErrorView::TabularRowError {
                path: path@,
            },
        }
    }
}

impl ParseError {
    /// A sentence that says what went wrong, and with which file.
    pub fn message(&self) -> (text: String)
        ensures
            text@ == error_text(self@),
    {
        match self {
            ParseError::MissingFile { path } => {
                let mut text = String::from_str("missing file: ");
                text.append(path.as_str());
                text
            },
            ParseError::DecodeError { path } => {
                let mut text = String::from_str("cannot decode: ");
                text.append(path.as_str());
                text
            },
            ParseError::TabularRowError { path } => {
                let mut text = String::from_str("bad row in: ");
                text.append(path.as_str());
                text
            },
        }
    }
}

/// The sentence that stands for an error.
pub open spec fn error_text(e: ParseErrorView) -> Seq<char> {
    match e {
        ParseErrorView::MissingFile { path } => "missing file: "@ + path,
        ParseErrorView::DecodeError { path } => "cannot decode: "@ + path,
        ParseErrorView::TabularRowError { path } => "bad row in: "@ + path,
    }
}

/// Everything that one export holds.
#[derive(Debug)]
pub struct ParserResult {
    pub account: User,
    /// The activity events, category by category.
    pub activities: Vec<(ActivityType, Vec<Activity>)>,
    pub channels: Vec<Channel>,
    pub servers: Vec<Server>,
}

/// The mathematical value of a [`ParserResult`].
pub struct ParserResultView {
    pub account: UserView,
    pub activities: Seq<(ActivityType, Seq<ActivityView>)>,
    pub channels: Seq<ChannelView>,
    pub servers: Seq<ServerView>,
}

/// The values of the activity events, category by category.
pub open spec fn group_views(groups: Seq<(ActivityType, Vec<Activity>)>) -> Seq<
    (ActivityType, Seq<ActivityView>),
> {
    Seq::new(groups.len(), |i: int| (groups[i].0, activity_views(groups[i].1@)))
}

impl View for ParserResult {
    type V = ParserResultView;

    open spec fn view(&self) -> ParserResultView {
        ParserResultView {
            account: self.account@,
            activities: group_views(self.activities@),
            channels: channel_views(self.channels@),
            servers: server_views(self.servers@),
        }
    }
}

/// The JSON document in the file with the given path.
pub open spec fn document_at(files: Seq<FileView>, path: Seq<char>) -> Result<
    JsonModel,
    ParseErrorView,
> {
    match contents_of(files, path) {
        None => Err(ParseErrorView::MissingFile { path }),
        Some(text) => match json_document(text) {
            None => Err(ParseErrorView::DecodeError { path }),
            Some(m) => Ok(m),
        },
    }
}

/// The path of the account's file.
pub open spec fn account_path(root: Seq<char>) -> Seq<char> {
    root + "/account/user.json"@
}

/// The path of the index of the servers.
pub open spec fn servers_index_path(root: Seq<char>) -> Seq<char> {
    root + "/servers/index.json"@
}

/// The path of the file of the server with the given identifier.
pub open spec fn server_path(root: Seq<char>, id: Seq<char>) -> Seq<char> {
    root + "/servers/"@ + id + "/guild.json"@
}

/// The path of the index of the channels.
pub open spec fn channels_index_path(root: Seq<char>) -> Seq<char> {
    root + "/messages/index.json"@
}

/// The path of the description of the channel with the given identifier.
pub open spec fn channel_path(root: Seq<char>, id: Seq<char>) -> Seq<char> {
    root + "/messages/c"@ + id + "/channel.json"@
}

/// The path of the message table of the channel with the given identifier.
pub open spec fn messages_path(root: Seq<char>, id: Seq<char>) -> Seq<char> {
    root + "/messages/c"@ + id + "/messages.csv"@
}

/// The path of the directory of an activity category.
pub open spec fn activity_dir(root: Seq<char>, category: ActivityType) -> Seq<char> {
    root + "/activity/"@ + category.dir_text()
}

/// The account of an export.
pub open spec fn account_outcome(files: Seq<FileView>, root: Seq<char>) -> Result<
    UserView,
    ParseErrorView,
> {
    match document_at(files, account_path(root)) {
        Err(e) => Err(e),
        Ok(m) => match user_of(m) {
            None => Err(ParseErrorView::DecodeError { path: account_path(root) }),
            Some(u) => Ok(u),
        },
    }
}

/// Whether a member of an index is an entry: its value is a string, or, where
/// `nameless` is allowed, `null`.
pub open spec fn is_entry(member: (Seq<char>, JsonModel), nameless: bool) -> bool {
    member.1 is String || (nameless && member.1 is Null)
}

/// The entry that a member of an index stands for: its name, and the text of its value
/// where that is a string.
pub open spec fn entry_of(member: (Seq<char>, JsonModel)) -> (Seq<char>, Option<Seq<char>>) {
    (
        member.0,
        match member.1 {
            JsonModel::String(s) => Some(s),
            _ => None,
        },
    )
}

/// The entries of an index: the members of an object whose values all are strings, or,
/// where `nameless` is allowed, `null`.
pub open spec fn index_of(m: JsonModel, nameless: bool) -> Option<
    Seq<(Seq<char>, Option<Seq<char>>)>,
> {
    match m {
        JsonModel::Object(members) => if forall|i: int|
            0 <= i < members.len() ==> is_entry(#[trigger] members[i], nameless) {
            Some(Seq::new(members.len(), |i: int| entry_of(members[i])))
        } else {
            None
        },
        _ => None,
    }
}

/// The entries of the index in the file with the given path.
pub open spec fn index_at(files: Seq<FileView>, path: Seq<char>, nameless: bool) -> Result<
    Seq<(Seq<char>, Option<Seq<char>>)>,
    ParseErrorView,
> {
    match document_at(files, path) {
        Err(e) => Err(e),
        Ok(m) => match index_of(m, nameless) {
            None => Err(ParseErrorView::DecodeError { path }),
            Some(entries) => Ok(entries),
        },
    }
}

/// The items read so far, followed by those that are still to come; the error where
/// what is still to come fails.
pub open spec fn prepend<T>(done: Seq<T>, rest: Result<Seq<T>, ParseErrorView>) -> Result<
    Seq<T>,
    ParseErrorView,
> {
    match rest {
        Ok(more) => Ok(done + more),
        Err(e) => Err(e),
    }
}

/// The server with the given identifier.
pub open spec fn server_at(files: Seq<FileView>, root: Seq<char>, id: Seq<char>) -> Result<
    ServerView,
    ParseErrorView,
> {
    match document_at(files, server_path(root, id)) {
        Err(e) => Err(e),
        Ok(m) => match server_of(m) {
            None => Err(ParseErrorView::DecodeError { path: server_path(root, id) }),
            Some(s) => Ok(s),
        },
    }
}

/// The servers of the entries of the index, in their order; the error of the first
/// entry that fails.
pub open spec fn servers_from(
    files: Seq<FileView>,
    root: Seq<char>,
    entries: Seq<(Seq<char>, Option<Seq<char>>)>,
) -> Result<Seq<ServerView>, ParseErrorView>
    decreases entries.len(),
{
    if entries.len() == 0 {
        Ok(Seq::empty())
    } else {
        match server_at(files, root, entries[0].0) {
            Err(e) => Err(e),
            Ok(s) => prepend(seq![s], servers_from(files, root, entries.drop_first())),
        }
    }
}

/// The servers of an export: one for each entry of the index, in the order of the index.
pub open spec fn servers_outcome(files: Seq<FileView>, root: Seq<char>) -> Result<
    Seq<ServerView>,
    ParseErrorView,
> {
    match index_at(files, servers_index_path(root), false) {
        Err(e) => Err(e),
        Ok(entries) => servers_from(files, root, entries),
    }
}

/// The channel with the given identifier and the name that the index gives it.
pub open spec fn channel_at(
    files: Seq<FileView>,
    root: Seq<char>,
    id: Seq<char>,
    name: Option<Seq<char>>,
) -> Result<ChannelView, ParseErrorView> {
    match document_at(files, channel_path(root, id)) {
        Err(e) => Err(e),
        Ok(m) => match channel_info_of(m) {
            None => Err(ParseErrorView::DecodeError { path: channel_path(root, id) }),
            Some(info) => match contents_of(files, messages_path(root, id)) {
                None => Err(ParseErrorView::MissingFile { path: messages_path(root, id) }),
                Some(text) => match messages_in(text) {
                    None => Err(ParseErrorView::TabularRowError { path: messages_path(root, id) }),
                    Some(messages) => Ok(channel_from_parts(info, name, messages)),
                },
            },
        },
    }
}

/// The channels of the entries of the index, in their order; the error of the first
/// entry that fails.
pub open spec fn channels_from(
    files: Seq<FileView>,
    root: Seq<char>,
    entries: Seq<(Seq<char>, Option<Seq<char>>)>,
) -> Result<Seq<ChannelView>, ParseErrorView>
    decreases entries.len(),
{
    if entries.len() == 0 {
        Ok(Seq::empty())
    } else {
        match channel_at(files, root, entries[0].0, entries[0].1) {
            Err(e) => Err(e),
            Ok(c) => prepend(seq![c], channels_from(files, root, entries.drop_first())),
        }
    }
}

/// The channels of an export: one for each entry of the index, in the order of the
/// index.
pub open spec fn channels_outcome(files: Seq<FileView>, root: Seq<char>) -> Result<
    Seq<ChannelView>,
    ParseErrorView,
> {
    match index_at(files, channels_index_path(root), true) {
        Err(e) => Err(e),
        Ok(entries) => channels_from(files, root, entries),
    }
}

/// The activity event that a line describes.
pub open spec fn activity_in(line: Seq<u8>) -> Option<ActivityView> {
    match json_fields(line) {
        Some(fields) => activity_of(fields),
        None => None,
    }
}

/// The activity events of the lines, in their order. An empty line holds none; a line
/// that is not empty and describes no event makes the whole fail.
pub open spec fn activities_in(lines: Seq<Seq<u8>>) -> Option<Seq<ActivityView>>
    decreases lines.len(),
{
    if lines.len() == 0 {
        Some(Seq::empty())
    } else {
        match activities_in(lines.drop_last()) {
            None => None,
            Some(before) => if lines.last().len() == 0 {
                Some(before)
            } else {
                match activity_in(lines.last()) {
                    Some(a) => Some(before.push(a)),
                    None => None,
                }
            },
        }
    }
}

/// The activity events of one category: those of the lines of the first file that lies
/// in the category's directory.
pub open spec fn activities_outcome(
    files: Seq<FileView>,
    root: Seq<char>,
    category: ActivityType,
) -> Result<Seq<ActivityView>, ParseErrorView> {
    match first_in(files, activity_dir(root, category)) {
        None => Err(ParseErrorView::MissingFile { path: activity_dir(root, category) }),
        Some(file) => match activities_in(lines_of(file.1)) {
            None => Err(ParseErrorView::DecodeError { path: file.0 }),
            Some(activities) => Ok(activities),
        },
    }
}

/// The four categories, in the order in which they are read.
pub open spec fn categories() -> Seq<ActivityType> {
    seq![
        ActivityType::Analytics,
        ActivityType::Modeling,
        ActivityType::Reporting,
        ActivityType::Tns,
    ]
}

/// The activity events of the first `n` categories; the error of the first category
/// that fails.
pub open spec fn categories_outcome(files: Seq<FileView>, root: Seq<char>, n: int) -> Result<
    Seq<(ActivityType, Seq<ActivityView>)>,
    ParseErrorView,
>
    decreases n,
{
    if n <= 0 {
        Ok(Seq::empty())
    } else {
        match categories_outcome(files, root, n - 1) {
            Err(e) => Err(e),
            Ok(before) => match activities_outcome(files, root, categories()[n - 1]) {
                Err(e) => Err(e),
                Ok(activities) => Ok(before.push((categories()[n - 1], activities))),
            },
        }
    }
}

/// The activity events of an export: those of the four categories, category by
/// category.
pub open spec fn all_activities_outcome(files: Seq<FileView>, root: Seq<char>) -> Result<
    Seq<(ActivityType, Seq<ActivityView>)>,
    ParseErrorView,
> {
    categories_outcome(files, root, 4)
}

/// What an export holds: its account, its servers, its channels and its activity
/// events; the error of the first of these, in this order, that fails.
pub open spec fn parse_outcome(files: Seq<FileView>, root: Seq<char>) -> Result<
    ParserResultView,
    ParseErrorView,
> {
    match account_outcome(files, root) {
        Err(e) => Err(e),
        Ok(account) => match servers_outcome(files, root) {
            Err(e) => Err(e),
            Ok(servers) => match channels_outcome(files, root) {
                Err(e) => Err(e),
                Ok(channels) => match all_activities_outcome(files, root) {
                    Err(e) => Err(e),
                    Ok(activities) => Ok(
                        ParserResultView { account, activities, channels, servers },
                    ),
                },
            },
        },
    }
}

/// The values of the entries of an index.
pub open spec fn entry_views(entries: Seq<(String, Option<String>)>) -> Seq<
    (Seq<char>, Option<Seq<char>>),
> {
    Seq::new(entries.len(), |i: int| (entries[i].0@, entries[i].1.deep_view()))
}

/// Reads the JSON document in the file with the given path.
fn read_document(files: &Vec<ExportFile>, path: String) -> (r: Result<Json, ParseError>)
    ensures
        match r {
            Ok(j) => document_at(file_views(files@), path@) == Ok::<JsonModel, ParseErrorView>(j@),
            Err(e) => document_at(file_views(files@), path@) == Err::<JsonModel, ParseErrorView>(
                e@,
            ),
        },
{
    match find_file(files, path.as_str()) {
        None => Err(ParseError::MissingFile { path }),
        Some(file) => match parse_json(file.contents.as_slice()) {
            None => Err(ParseError::DecodeError { path }),
            Some(j) => Ok(j),
        },
    }
}

/// Reads the entries of an index.
fn decode_index(j: &Json, nameless: bool) -> (r: Option<Vec<(String, Option<String>)>>)
    ensures
        match r {
            Some(entries) => index_of(j@, nameless) == Some(entry_views(entries@)),
            None => index_of(j@, nameless) is None,
        },
{
    match j {
        Json::Object(members) => {
            proof {
                lemma_object_view(*members);
            }
            let ghost all = member_models(members@);
            let mut entries: Vec<(String, Option<String>)> = Vec::new();
            let mut i: usize = 0;
            while i < members.len()
                invariant
                    i <= members.len(),
                    all == member_models(members@),
                    j@ == JsonModel::Object(all),
                    entries@.len() == i,
                    forall|k: int| 0 <= k < i ==> is_entry(#[trigger] all[k], nameless),
                    forall|k: int|
                        0 <= k < i ==> ((#[trigger] entries@[k]).0@, entries@[k].1.deep_view())
                            == entry_of(all[k]),
                decreases members.len() - i,
            {
                assert(all[i as int] == (members@[i as int].0@, members@[i as int].1@));
                match &members[i].1 {
                    Json::String(name) => {
                        entries.push((members[i].0.clone(), Some(name.clone())));
                    },
                    Json::Null => {
                        if !nameless {
                            return None;
                        }
                        entries.push((members[i].0.clone(), None));
                    },
                    _ => {
                        return None;
                    },
                }
                i += 1;
            }
            proof {
                assert(entry_views(entries@) =~= index_of(j@, nameless)->0);
            }
            Some(entries)
        },
        _ => None,
    }
}

/// Reads the entries of the index in the file with the given path.
pub(crate) fn read_index(files: &Vec<ExportFile>, path: String, nameless: bool) -> (r: Result<
    Vec<(String, Option<String>)>,
    ParseError,
>)
    ensures
        match r {
            Ok(entries) => index_at(file_views(files@), path@, nameless) == Ok::<
                Seq<(Seq<char>, Option<Seq<char>>)>,
                ParseErrorView,
            >(entry_views(entries@)),
            Err(e) => index_at(file_views(files@), path@, nameless) == Err::<
                Seq<(Seq<char>, Option<Seq<char>>)>,
                ParseErrorView,
            >(e@),
        },
{
    let ghost path_view = path@;
    let document = read_document(files, path.clone())?;
    match decode_index(&document, nameless) {
        Some(entries) => Ok(entries),
        None => Err(ParseError::DecodeError { path }),
    }
}

/// Lines that fail to decode make every longer run of lines fail.
proof fn lemma_activities_in_prefix(lines: Seq<Seq<u8>>, n: int)
    requires
        0 <= n <= lines.len(),
        activities_in(lines.take(n)) is None,
    ensures
        activities_in(lines) is None,
    decreases lines.len(),
{
    if n < lines.len() {
        assert(lines.drop_last().take(n) == lines.take(n));
        lemma_activities_in_prefix(lines.drop_last(), n);
    } else {
        assert(lines.take(n) == lines);
    }
}

/// Decodes the activity events of the lines of a text; `None` where a line that is not
/// empty describes no event.
pub fn decode_activities(bytes: &[u8]) -> (r: Option<Vec<Activity>>)
    ensures
        match r {
            Some(activities) => activities_in(lines_of(bytes@)) == Some(
                activity_views(activities@),
            ),
            None => activities_in(lines_of(bytes@)) is None,
        },
{
    let lines = split_lines(bytes);
    let ghost all = line_views(lines@);
    let mut activities: Vec<Activity> = Vec::new();
    let mut i: usize = 0;
    proof {
        assert(activity_views(activities@) =~= Seq::empty());
    }
    while i < lines.len()
        invariant
            i <= lines.len(),
            all == line_views(lines@),
            all == lines_of(bytes@),
            activities_in(all.take(i as int)) == Some(activity_views(activities@)),
        decreases lines.len() - i,
    {
        proof {
            let next = all.take(i + 1);
            assert(next.drop_last() == all.take(i as int));
            assert(next.last() == lines@[i as int]@);
        }
        if lines[i].len() > 0 {
            let decoded = match parse_fields(lines[i].as_slice()) {
                Some(fields) => Activity::from_fields(&fields),
                None => None,
            };
            match decoded {
                Some(activity) => {
                    let ghost before = activity_views(activities@);
                    activities.push(activity);
                    proof {
                        assert(activity_views(activities@) =~= before.push(activity@));
                    }
                },
                None => {
                    proof {
                        lemma_activities_in_prefix(all, i + 1);
                    }
                    return None;
                },
            }
        }
        i += 1;
    }
    proof {
        assert(all.take(lines@.len() as int) == all);
    }
    Some(activities)
}

/// The parser of one export.
pub struct Parser {
    discord_data_path: String,
}

impl Parser {
    /// A parser for the export below the given root.
    pub fn new(discord_data_path: &str) -> (parser: Parser)
        ensures
            parser.root() == discord_data_path@,
    {
        Parser { discord_data_path: String::from_str(discord_data_path) }
    }

    /// The path of the export's root.
    pub closed spec fn root(&self) -> Seq<char> {
        self.discord_data_path@
    }

    /// The path of the export's root.
    pub fn data_path(&self) -> (path: &str)
        ensures
            path@ == self.root(),
    {
        self.discord_data_path.as_str()
    }

    /// The path of a file below the root: the root, then the pieces.
    pub(crate) fn path_of(&self, first: &str, second: &str, third: &str) -> (path: String)
        ensures
            path@ == self.root() + first@ + second@ + third@,
    {
        let mut path = self.discord_data_path.clone();
        path.append(first);
        path.append(second);
        path.append(third);
        path
    }

    /// Reads the account.
    pub fn read_account(&self, files: &Vec<ExportFile>) -> (r: Result<User, ParseError>)
        ensures
            match r {
                Ok(account) => account_outcome(file_views(files@), self.root()) == Ok::<
                    UserView,
                    ParseErrorView,
                >(account@),
                Err(e) => account_outcome(file_views(files@), self.root()) == Err::<
                    UserView,
                    ParseErrorView,
                >(e@),
            },
    {
        let path = self.path_of("/account/user.json", "", "");
        proof {
            reveal_strlit("");
            assert(path@ =~= account_path(self.root()));
        }
        let document = read_document(files, path.clone())?;
        match User::from_json(&document) {
            Some(account) => Ok(account),
            None => Err(ParseError::DecodeError { path }),
        }
    }

    /// Reads the server with the given identifier.
    fn read_server(&self, files: &Vec<ExportFile>, id: &str) -> (r: Result<Server, ParseError>)
        ensures
            match r {
                Ok(server) => server_at(file_views(files@), self.root(), id@) == Ok::<
                    ServerView,
                    ParseErrorView,
                >(server@),
                Err(e) => server_at(file_views(files@), self.root(), id@) == Err::<
                    ServerView,
                    ParseErrorView,
                >(e@),
            },
    {
        let path = self.path_of("/servers/", id, "/guild.json");
        let document = read_document(files, path.clone())?;
        match Server::from_json(&document) {
            Some(server) => Ok(server),
            None => Err(ParseError::DecodeError { path }),
        }
    }

    /// Reads the servers: one for each entry of the index, in the order of the index.
    /// The first entry that fails makes the whole fail.
    pub fn read_servers(&self, files: &Vec<ExportFile>) -> (r: Result<Vec<Server>, ParseError>)
        ensures
            match r {
                Ok(servers) => servers_outcome(file_views(files@), self.root()) == Ok::<
                    Seq<ServerView>,
                    ParseErrorView,
                >(server_views(servers@)),
                Err(e) => servers_outcome(file_views(files@), self.root()) == Err::<
                    Seq<ServerView>,
                    ParseErrorView,
                >(e@),
            },
    {
        let path = self.path_of("/servers/index.json", "", "");
        proof {
            reveal_strlit("");
            assert(path@ =~= servers_index_path(self.root()));
        }
        let entries = read_index(files, path, false)?;
        let ghost all = entry_views(entries@);
        let ghost snapshot = file_views(files@);
        let mut servers: Vec<Server> = Vec::new();
        let mut i: usize = 0;
        proof {
            assert(all.skip(0) == all);
            assert(server_views(servers@) =~= Seq::empty());
            lemma_prepend_nothing(servers_from(snapshot, self.root(), all));
        }
        while i < entries.len()
            invariant
                i <= entries.len(),
                all == entry_views(entries@),
                snapshot == file_views(files@),
                servers_outcome(snapshot, self.root()) == servers_from(snapshot, self.root(), all),
                servers_from(snapshot, self.root(), all) == prepend(
                    server_views(servers@),
                    servers_from(snapshot, self.root(), all.skip(i as int)),
                ),
            decreases entries.len() - i,
        {
            proof {
                assert(all.skip(i as int).drop_first() == all.skip(i + 1));
                assert(all.skip(i as int)[0] == all[i as int]);
            }
            let ghost before = server_views(servers@);
            let ghost rest = servers_from(snapshot, self.root(), all.skip(i + 1));
            match self.read_server(files, entries[i].0.as_str()) {
                Ok(server) => {
                    servers.push(server);
                    proof {
                        assert(server_views(servers@) =~= before + seq![server@]);
                        lemma_prepend_twice(before, seq![server@], rest);
                    }
                },
                Err(e) => {
                    return Err(e);
                },
            }
            i += 1;
        }
        proof {
            assert(all.skip(entries@.len() as int) =~= Seq::empty());
            assert(server_views(servers@) + Seq::<ServerView>::empty() =~= server_views(
                servers@,
            ));
        }
        Ok(servers)
    }
}

/// Nothing read so far, followed by what is still to come, is what is still to come.
proof fn lemma_prepend_nothing<T>(rest: Result<Seq<T>, ParseErrorView>)
    ensures
        prepend(Seq::<T>::empty(), rest) == rest,
{
    if let Ok(more) = rest {
        assert(Seq::<T>::empty() + more =~= more);
    }
}

/// Items may be counted among those read so far one run after the other.
proof fn lemma_prepend_twice<T>(a: Seq<T>, b: Seq<T>, rest: Result<Seq<T>, ParseErrorView>)
    ensures
        prepend(a, prepend(b, rest)) == prepend(a + b, rest),
{
    if let Ok(more) = rest {
        assert(a + (b + more) =~= (a + b) + more);
    }
}

impl Parser {
    /// Reads the channel with the given identifier: its description, then its message
    /// table.
    fn read_channel(&self, files: &Vec<ExportFile>, id: &str, name: &Option<String>) -> (r: Result<
        Channel,
        ParseError,
    >)
        ensures
            match r {
                Ok(channel) => channel_at(
                    file_views(files@),
                    self.root(),
                    id@,
                    name.deep_view(),
                ) == Ok::<ChannelView, ParseErrorView>(channel@),
                Err(e) => channel_at(file_views(files@), self.root(), id@, name.deep_view())
                    == Err::<ChannelView, ParseErrorView>(e@),
            },
    {
        let path = self.path_of("/messages/c", id, "/channel.json");
        let document = read_document(files, path.clone())?;
        let info = match ChannelInfo::from_json(&document) {
            Some(info) => info,
            None => {
                return Err(ParseError::DecodeError { path });
            },
        };
        let table_path = self.path_of("/messages/c", id, "/messages.csv");
        let table = match find_file(files, table_path.as_str()) {
            Some(file) => file,
            None => {
                return Err(ParseError::MissingFile { path: table_path });
            },
        };
        let messages = match read_messages(table.contents.as_slice()) {
            Some(messages) => messages,
            None => {
                return Err(ParseError::TabularRowError { path: table_path });
            },
        };
        let name = match name {
            Some(name) => Some(name.clone()),
            None => None,
        };
        Ok(Channel::from_parts(info, name, messages))
    }

    /// Reads the channels: one for each entry of the index, in the order of the index,
    /// each with its messages in the order of its message table. The first entry that
    /// fails makes the whole fail.
    pub fn read_channels(&self, files: &Vec<ExportFile>) -> (r: Result<Vec<Channel>, ParseError>)
        ensures
            match r {
                Ok(channels) => channels_outcome(file_views(files@), self.root()) == Ok::<
                    Seq<ChannelView>,
                    ParseErrorView,
                >(channel_views(channels@)),
                Err(e) => channels_outcome(file_views(files@), self.root()) == Err::<
                    Seq<ChannelView>,
                    ParseErrorView,
                >(e@),
            },
    {
        let path = self.path_of("/messages/index.json", "", "");
        proof {
            reveal_strlit("");
            assert(path@ =~= channels_index_path(self.root()));
        }
        let entries = read_index(files, path, true)?;
        let ghost all = entry_views(entries@);
        let ghost snapshot = file_views(files@);
        let mut channels: Vec<Channel> = Vec::new();
        let mut i: usize = 0;
        proof {
            assert(all.skip(0) == all);
            assert(channel_views(channels@) =~= Seq::empty());
            lemma_prepend_nothing(channels_from(snapshot, self.root(), all));
        }
        while i < entries.len()
            invariant
                i <= entries.len(),
                all == entry_views(entries@),
                snapshot == file_views(files@),
                channels_outcome(snapshot, self.root()) == channels_from(
                    snapshot,
                    self.root(),
                    all,
                ),
                channels_from(snapshot, self.root(), all) == prepend(
                    channel_views(channels@),
                    channels_from(snapshot, self.root(), all.skip(i as int)),
                ),
            decreases entries.len() - i,
        {
            proof {
                assert(all.skip(i as int).drop_first() == all.skip(i + 1));
                assert(all.skip(i as int)[0] == all[i as int]);
            }
            let ghost before = channel_views(channels@);
            let ghost rest = channels_from(snapshot, self.root(), all.skip(i + 1));
            match self.read_channel(files, entries[i].0.as_str(), &entries[i].1) {
                Ok(channel) => {
                    channels.push(channel);
                    proof {
                        assert(channel_views(channels@) =~= before + seq![channel@]);
                        lemma_prepend_twice(before, seq![channel@], rest);
                    }
                },
                Err(e) => {
                    return Err(e);
                },
            }
            i += 1;
        }
        proof {
            assert(all.skip(entries@.len() as int) =~= Seq::empty());
            assert(channel_views(channels@) + Seq::<ChannelView>::empty() =~= channel_views(
                channels@,
            ));
        }
        Ok(channels)
    }

    /// Reads the activity events of one category: those of the lines of the first file
    /// that lies in the category's directory.
    pub fn read_activities(&self, files: &Vec<ExportFile>, activity_type: ActivityType) -> (r:
        Result<Vec<Activity>, ParseError>)
        ensures
            match r {
                Ok(activities) => activities_outcome(
                    file_views(files@),
                    self.root(),
                    activity_type,
                ) == Ok::<Seq<ActivityView>, ParseErrorView>(activity_views(activities@)),
                Err(e) => activities_outcome(file_views(files@), self.root(), activity_type)
                    == Err::<Seq<ActivityView>, ParseErrorView>(e@),
            },
    {
        let dir = self.path_of("/activity/", activity_type.dir_name(), "");
        proof {
            reveal_strlit("");
            assert(dir@ =~= activity_dir(self.root(), activity_type));
        }
        let file = match find_first_in(files, dir.as_str()) {
            Some(file) => file,
            None => {
                return Err(ParseError::MissingFile { path: dir });
            },
        };
        match decode_activities(file.contents.as_slice()) {
            Some(activities) => Ok(activities),
            None => Err(ParseError::DecodeError { path: file.path.clone() }),
        }
    }

    /// Reads the activity events of the four categories, category by category. The first
    /// category that fails makes the whole fail.
    pub fn read_all_activities(&self, files: &Vec<ExportFile>) -> (r: Result<
        Vec<(ActivityType, Vec<Activity>)>,
        ParseError,
    >)
        ensures
            match r {
                Ok(groups) => all_activities_outcome(file_views(files@), self.root()) == Ok::<
                    Seq<(ActivityType, Seq<ActivityView>)>,
                    ParseErrorView,
                >(group_views(groups@)),
                Err(e) => all_activities_outcome(file_views(files@), self.root()) == Err::<
                    Seq<(ActivityType, Seq<ActivityView>)>,
                    ParseErrorView,
                >(e@),
            },
    {
        let ghost snapshot = file_views(files@);
        let mut groups: Vec<(ActivityType, Vec<Activity>)> = Vec::new();
        proof {
            assert(group_views(groups@) =~= Seq::empty());
        }
        self.read_category(files, ActivityType::Analytics, &mut groups, Ghost(0))?;
        self.read_category(files, ActivityType::Modeling, &mut groups, Ghost(1))?;
        self.read_category(files, ActivityType::Reporting, &mut groups, Ghost(2))?;
        self.read_category(files, ActivityType::Tns, &mut groups, Ghost(3))?;
        Ok(groups)
    }

    /// Reads one more category and puts its events behind those of the categories before.
    fn read_category(
        &self,
        files: &Vec<ExportFile>,
        category: ActivityType,
        groups: &mut Vec<(ActivityType, Vec<Activity>)>,
        Ghost(n): Ghost<int>,
    ) -> (r: Result<(), ParseError>)
        requires
            0 <= n < 4,
            category == categories()[n],
            categories_outcome(file_views(files@), self.root(), n) == Ok::<
                Seq<(ActivityType, Seq<ActivityView>)>,
                ParseErrorView,
            >(group_views(old(groups)@)),
        ensures
            match r {
                Ok(_) => categories_outcome(file_views(files@), self.root(), n + 1) == Ok::<
                    Seq<(ActivityType, Seq<ActivityView>)>,
                    ParseErrorView,
                >(group_views(final(groups)@)),
                Err(e) => forall|k: int|
                    n < k ==> #[trigger] categories_outcome(file_views(files@), self.root(), k)
                        == Err::<Seq<(ActivityType, Seq<ActivityView>)>, ParseErrorView>(e@),
            },
    {
        let ghost before = group_views(groups@);
        match self.read_activities(files, category) {
            Ok(activities) => {
                let ghost added = activity_views(activities@);
                groups.push((category, activities));
                proof {
                    assert(group_views(groups@) =~= before.push((category, added)));
                }
                Ok(())
            },
            Err(e) => {
                proof {
                    assert forall|k: int| n < k implies #[trigger] categories_outcome(
                        file_views(files@),
                        self.root(),
                        k,
                    ) == Err::<Seq<(ActivityType, Seq<ActivityView>)>, ParseErrorView>(e@) by {
                        lemma_categories_fail(file_views(files@), self.root(), n + 1, k, e@);
                    }
                }
                Err(e)
            },
        }
    }

    /// Parses the export: its account, its servers, its channels and its activity
    /// events, in this order. The first of these that fails makes the whole fail; there
    /// is no result that holds only a part.
    pub fn parse(&self, files: &Vec<ExportFile>) -> (r: Result<ParserResult, ParseError>)
        ensures
            match r {
                Ok(result) => parse_outcome(file_views(files@), self.root()) == Ok::<
                    ParserResultView,
                    ParseErrorView,
                >(result@),
                Err(e) => parse_outcome(file_views(files@), self.root()) == Err::<
                    ParserResultView,
                    ParseErrorView,
                >(e@),
            },
    {
        let account = self.read_account(files)?;
        let servers = self.read_servers(files)?;
        let channels = self.read_channels(files)?;
        let activities = self.read_all_activities(files)?;
        Ok(ParserResult { account, activities, channels, servers })
    }
}

/// Once a category fails, reading more categories fails in the same way.
proof fn lemma_categories_fail(
    files: Seq<FileView>,
    root: Seq<char>,
    n: int,
    k: int,
    e: ParseErrorView,
)
    requires
        0 < n <= k,
        categories_outcome(files, root, n) == Err::<
            Seq<(ActivityType, Seq<ActivityView>)>,
            ParseErrorView,
        >(e),
    ensures
        categories_outcome(files, root, k) == Err::<
            Seq<(ActivityType, Seq<ActivityView>)>,
            ParseErrorView,
        >(e),
    decreases k - n,
{
    if n < k {
        lemma_categories_fail(files, root, n, k - 1, e);
    }
}

/// A parse gives a result exactly where the account, the servers, the channels and the
/// activity events all can be read, and the result then holds what each of them gave:
/// there is no result that holds only a part.
pub proof fn lemma_parse_all_or_nothing(files: Seq<FileView>, root: Seq<char>)
    ensures
        parse_outcome(files, root) is Ok <==> account_outcome(files, root) is Ok
            && servers_outcome(files, root) is Ok && channels_outcome(files, root) is Ok
            && all_activities_outcome(files, root) is Ok,
        parse_outcome(files, root) matches Ok(result) ==> account_outcome(files, root) == Ok::<
            UserView,
            ParseErrorView,
        >(result.account) && servers_outcome(files, root) == Ok::<
            Seq<ServerView>,
            ParseErrorView,
        >(result.servers) && channels_outcome(files, root) == Ok::<
            Seq<ChannelView>,
            ParseErrorView,
        >(result.channels) && all_activities_outcome(files, root) == Ok::<
            Seq<(ActivityType, Seq<ActivityView>)>,
            ParseErrorView,
        >(result.activities),
{
}

/// One channel that cannot be read makes the read of all channels fail: no channel of
/// the index is handed out, whether it comes before that channel or after it.
pub proof fn lemma_channels_all_or_nothing(
    files: Seq<FileView>,
    root: Seq<char>,
    entries: Seq<(Seq<char>, Option<Seq<char>>)>,
    i: int,
)
    requires
        0 <= i < entries.len(),
        channel_at(files, root, entries[i].0, entries[i].1) is Err,
    ensures
        channels_from(files, root, entries) is Err,
    decreases entries.len(),
{
    if i > 0 {
        assert(entries.drop_first()[i - 1] == entries[i]);
        lemma_channels_all_or_nothing(files, root, entries.drop_first(), i - 1);
    }
}

/// A channel whose message table has a row that is no message cannot be read, and the
/// error says so: where the channel's description is in order and the table is there,
/// the read of the channel fails for the table.
pub proof fn lemma_bad_table_fails_channel(
    files: Seq<FileView>,
    root: Seq<char>,
    id: Seq<char>,
    name: Option<Seq<char>>,
)
    requires
        document_at(files, channel_path(root, id)) matches Ok(m) && channel_info_of(m) is Some,
        contents_of(files, messages_path(root, id)) matches Some(text) && messages_in(text)
            is None,
    ensures
        channel_at(files, root, id, name) == Err::<ChannelView, ParseErrorView>(
            ParseErrorView::TabularRowError { path: messages_path(root, id) },
        ),
{
}

} // verus!
