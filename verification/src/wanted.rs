//! What a parse looks for: the reads by which a caller takes the snapshot of an export
//! step by step.
use crate::activity::ActivityType;
use crate::channel::ChannelView;
use crate::export::{
    contents_of, file_views, find_file, find_first_in, first_in, ExportFile, FileView,
};
use crate::parser::{
    account_outcome, account_path, activities_outcome, activity_dir, categories_outcome,
    channel_at, channel_path, channels_from, channels_index_path, channels_outcome, entry_views,
    index_at, messages_path, parse_outcome, read_index, server_at, server_path, servers_from,
    servers_index_path, servers_outcome, ParseErrorView, Parser, ParserResultView,
};
use crate::servers::ServerView;
use vstd::prelude::*;

verus! {

/// Something that a parse looks for in the snapshot.
#[derive(Debug)]
pub enum Wanted {
    /// The file with this path.
    File { path: String },
    /// The first file that lies in this directory.
    FirstIn { dir: String },
}

/// The mathematical value of a [`Wanted`].
pub enum WantedView {
    File { path: Seq<char> },
    FirstIn { dir: Seq<char> },
}

impl View for Wanted {
    type V = WantedView;

    open spec fn view(&self) -> WantedView {
        match self {
            Wanted::File { path } => WantedView::File { path: path@ },
            Wanted::FirstIn { dir } => WantedView::FirstIn { dir: dir@ },
        }
    }
}

/// The values of a sequence of wanted things.
pub open spec fn wanted_views(wanted: Seq<Wanted>) -> Seq<WantedView> {
    Seq::new(wanted.len(), |i: int| wanted[i]@)
}

/// The file with the given path, where the snapshot does not hold it.
pub open spec fn wanted_file(files: Seq<FileView>, path: Seq<char>) -> Seq<WantedView> {
    if contents_of(files, path) is None {
        seq![WantedView::File { path }]
    } else {
        Seq::empty()
    }
}

/// The first file of a directory, where the snapshot holds no file that lies in it.
pub open spec fn wanted_dir(files: Seq<FileView>, dir: Seq<char>) -> Seq<WantedView> {
    if first_in(files, dir) is None {
        seq![WantedView::FirstIn { dir }]
    } else {
        Seq::empty()
    }
}

/// The entries of an index that the snapshot holds and that can be read; none otherwise.
pub open spec fn known_entries(files: Seq<FileView>, path: Seq<char>, nameless: bool) -> Seq<
    (Seq<char>, Option<Seq<char>>),
> {
    match index_at(files, path, nameless) {
        Ok(entries) => entries,
        Err(_) => Seq::empty(),
    }
}

/// The files of the servers of the entries that the snapshot does not hold.
pub open spec fn wanted_servers(
    files: Seq<FileView>,
    root: Seq<char>,
    entries: Seq<(Seq<char>, Option<Seq<char>>)>,
) -> Seq<WantedView>
    decreases entries.len(),
{
    if entries.len() == 0 {
        Seq::empty()
    } else {
        wanted_servers(files, root, entries.drop_last()) + wanted_file(
            files,
            server_path(root, entries.last().0),
        )
    }
}

/// The files of the channels of the entries that the snapshot does not hold.
pub open spec fn wanted_channels(
    files: Seq<FileView>,
    root: Seq<char>,
    entries: Seq<(Seq<char>, Option<Seq<char>>)>,
) -> Seq<WantedView>
    decreases entries.len(),
{
    if entries.len() == 0 {
        Seq::empty()
    } else {
        wanted_channels(files, root, entries.drop_last()) + wanted_file(
            files,
            channel_path(root, entries.last().0),
        ) + wanted_file(files, messages_path(root, entries.last().0))
    }
}

/// Everything that a parse looks for and the snapshot does not hold, as far as the
/// snapshot tells: the account's file, the two indexes, the files of the servers and
/// channels of the indexes that it holds, and a file in the directory of each category.
pub open spec fn wanted(files: Seq<FileView>, root: Seq<char>) -> Seq<WantedView> {
    wanted_file(files, account_path(root)) + wanted_file(files, servers_index_path(root))
        + wanted_servers(files, root, known_entries(files, servers_index_path(root), false))
        + wanted_file(files, channels_index_path(root)) + wanted_channels(
        files,
        root,
        known_entries(files, channels_index_path(root), true),
    ) + wanted_dir(files, activity_dir(root, ActivityType::Analytics)) + wanted_dir(
        files,
        activity_dir(root, ActivityType::Modeling),
    ) + wanted_dir(files, activity_dir(root, ActivityType::Reporting)) + wanted_dir(
        files,
        activity_dir(root, ActivityType::Tns),
    )
}

/// Puts the file with the given path among the wanted, where the snapshot lacks it.
fn want_file(files: &Vec<ExportFile>, path: String, out: &mut Vec<Wanted>)
    ensures
        wanted_views(final(out)@) == wanted_views(old(out)@) + wanted_file(
            file_views(files@),
            path@,
        ),
{
    let ghost before = wanted_views(out@);
    if find_file(files, path.as_str()).is_none() {
        out.push(Wanted::File { path });
        assert(wanted_views(out@) =~= before + wanted_file(file_views(files@), path@));
    } else {
        assert(wanted_views(out@) =~= before + wanted_file(file_views(files@), path@));
    }
}

/// Puts the first file of a directory among the wanted, where the snapshot holds no
/// file that lies in it.
fn want_dir(files: &Vec<ExportFile>, dir: String, out: &mut Vec<Wanted>)
    ensures
        wanted_views(final(out)@) == wanted_views(old(out)@) + wanted_dir(file_views(files@), dir@),
{
    let ghost before = wanted_views(out@);
    if find_first_in(files, dir.as_str()).is_none() {
        out.push(Wanted::FirstIn { dir });
        assert(wanted_views(out@) =~= before + wanted_dir(file_views(files@), dir@));
    } else {
        assert(wanted_views(out@) =~= before + wanted_dir(file_views(files@), dir@));
    }
}

impl Parser {
    /// Everything that a parse of the snapshot looks for and the snapshot does not hold.
    ///
    /// A caller that takes the snapshot step by step reads what is wanted, adds what it
    /// found to the snapshot and asks again, until nothing new is found; as long as
    /// [`Parser::parse`] fails for a missing file, that file is among the wanted.
    pub fn wanted(&self, files: &Vec<ExportFile>) -> (out: Vec<Wanted>)
        ensures
            wanted_views(out@) == wanted(file_views(files@), self.root()),
    {
        let ghost snapshot = file_views(files@);
        let mut out: Vec<Wanted> = Vec::new();
        proof {
            reveal_strlit("");
            assert(wanted_views(out@) =~= Seq::empty());
        }
        let account = self.path_of("/account/user.json", "", "");
        assert(account@ =~= account_path(self.root()));
        want_file(files, account, &mut out);
        let servers_index = self.path_of("/servers/index.json", "", "");
        assert(servers_index@ =~= servers_index_path(self.root()));
        want_file(files, servers_index.clone(), &mut out);
        let ghost head = wanted_views(out@);
        match read_index(files, servers_index, false) {
            Ok(entries) => {
                let ghost all = entry_views(entries@);
                let mut i: usize = 0;
                proof {
                    assert(all.take(0) =~= Seq::empty());
                    assert(head + Seq::<WantedView>::empty() =~= head);
                }
                while i < entries.len()
                    invariant
                        i <= entries.len(),
                        all == entry_views(entries@),
                        snapshot == file_views(files@),
                        wanted_views(out@) == head + wanted_servers(
                            snapshot,
                            self.root(),
                            all.take(i as int),
                        ),
                    decreases entries.len() - i,
                {
                    proof {
                        let next = all.take(i + 1);
                        assert(next.drop_last() == all.take(i as int));
                        assert(next.last() == all[i as int]);
                    }
                    let ghost so_far = wanted_servers(snapshot, self.root(), all.take(i as int));
                    let path = self.path_of("/servers/", entries[i].0.as_str(), "/guild.json");
                    want_file(files, path, &mut out);
                    proof {
                        let more = wanted_file(snapshot, server_path(self.root(), all[i as int].0));
                        assert(head + so_far + more =~= head + (so_far + more));
                    }
                    i += 1;
                }
                proof {
                    assert(all.take(entries@.len() as int) == all);
                }
            },
            Err(_) => {
                proof {
                    assert(head + Seq::<WantedView>::empty() =~= head);
                }
            },
        }
        let channels_index = self.path_of("/messages/index.json", "", "");
        assert(channels_index@ =~= channels_index_path(self.root()));
        want_file(files, channels_index.clone(), &mut out);
        let ghost head = wanted_views(out@);
        match read_index(files, channels_index, true) {
            Ok(entries) => {
                let ghost all = entry_views(entries@);
                let mut i: usize = 0;
                proof {
                    assert(all.take(0) =~= Seq::empty());
                    assert(head + Seq::<WantedView>::empty() =~= head);
                }
                while i < entries.len()
                    invariant
                        i <= entries.len(),
                        all == entry_views(entries@),
                        snapshot == file_views(files@),
                        wanted_views(out@) == head + wanted_channels(
                            snapshot,
                            self.root(),
                            all.take(i as int),
                        ),
                    decreases entries.len() - i,
                {
                    proof {
                        let next = all.take(i + 1);
                        assert(next.drop_last() == all.take(i as int));
                        assert(next.last() == all[i as int]);
                    }
                    let ghost so_far = wanted_channels(snapshot, self.root(), all.take(i as int));
                    let id = entries[i].0.as_str();
                    want_file(files, self.path_of("/messages/c", id, "/channel.json"), &mut out);
                    want_file(files, self.path_of("/messages/c", id, "/messages.csv"), &mut out);
                    proof {
                        let one = wanted_file(snapshot, channel_path(self.root(), all[i as int].0));
                        let two = wanted_file(snapshot, messages_path(self.root(), all[i as int].0));
                        assert(head + so_far + one + two =~= head + (so_far + one + two));
                    }
                    i += 1;
                }
                proof {
                    assert(all.take(entries@.len() as int) == all);
                }
            },
            Err(_) => {
                proof {
                    assert(head + Seq::<WantedView>::empty() =~= head);
                }
            },
        }
        let analytics = self.path_of("/activity/", ActivityType::Analytics.dir_name(), "");
        assert(analytics@ =~= activity_dir(self.root(), ActivityType::Analytics));
        want_dir(files, analytics, &mut out);
        let modeling = self.path_of("/activity/", ActivityType::Modeling.dir_name(), "");
        assert(modeling@ =~= activity_dir(self.root(), ActivityType::Modeling));
        want_dir(files, modeling, &mut out);
        let reporting = self.path_of("/activity/", ActivityType::Reporting.dir_name(), "");
        assert(reporting@ =~= activity_dir(self.root(), ActivityType::Reporting));
        want_dir(files, reporting, &mut out);
        let tns = self.path_of("/activity/", ActivityType::Tns.dir_name(), "");
        assert(tns@ =~= activity_dir(self.root(), ActivityType::Tns));
        want_dir(files, tns, &mut out);
        out
    }
}

/// What the first of two sequences holds, the two together hold.
proof fn lemma_in_left<T>(a: Seq<T>, b: Seq<T>, x: T)
    requires
        a.contains(x),
    ensures
        (a + b).contains(x),
{
    let i = choose|i: int| 0 <= i < a.len() && a[i] == x;
    assert((a + b)[i] == x);
}

/// What the second of two sequences holds, the two together hold.
proof fn lemma_in_right<T>(a: Seq<T>, b: Seq<T>, x: T)
    requires
        b.contains(x),
    ensures
        (a + b).contains(x),
{
    let i = choose|i: int| 0 <= i < b.len() && b[i] == x;
    assert((a + b)[a.len() + i] == x);
}

/// A file that the snapshot lacks is wanted.
proof fn lemma_wanted_file(files: Seq<FileView>, path: Seq<char>)
    requires
        contents_of(files, path) is None,
    ensures
        wanted_file(files, path).contains(WantedView::File { path }),
{
    assert(wanted_file(files, path)[0] == WantedView::File { path });
}

/// A directory in which no file of the snapshot lies is wanted.
proof fn lemma_wanted_dir(files: Seq<FileView>, dir: Seq<char>)
    requires
        first_in(files, dir) is None,
    ensures
        wanted_dir(files, dir).contains(WantedView::FirstIn { dir }),
{
    assert(wanted_dir(files, dir)[0] == WantedView::FirstIn { dir });
}

/// The file of a server of the index that the snapshot lacks is among the wanted.
proof fn lemma_wanted_servers(
    files: Seq<FileView>,
    root: Seq<char>,
    entries: Seq<(Seq<char>, Option<Seq<char>>)>,
    i: int,
)
    requires
        0 <= i < entries.len(),
        contents_of(files, server_path(root, entries[i].0)) is None,
    ensures
        wanted_servers(files, root, entries).contains(
            WantedView::File { path: server_path(root, entries[i].0) },
        ),
    decreases entries.len(),
{
    let x = WantedView::File { path: server_path(root, entries[i].0) };
    let front = wanted_servers(files, root, entries.drop_last());
    let back = wanted_file(files, server_path(root, entries.last().0));
    if i == entries.len() - 1 {
        lemma_wanted_file(files, server_path(root, entries[i].0));
        lemma_in_right(front, back, x);
    } else {
        lemma_wanted_servers(files, root, entries.drop_last(), i);
        lemma_in_left(front, back, x);
    }
}

/// Where the read of the servers fails for a missing file, it is the file of a server
/// of the index.
proof fn lemma_servers_missing(
    files: Seq<FileView>,
    root: Seq<char>,
    entries: Seq<(Seq<char>, Option<Seq<char>>)>,
    path: Seq<char>,
) -> (i: int)
    requires
        servers_from(files, root, entries) == Err::<Seq<ServerView>, ParseErrorView>(
            ParseErrorView::MissingFile { path },
        ),
    ensures
        0 <= i < entries.len(),
        path == server_path(root, entries[i].0),
        contents_of(files, path) is None,
    decreases entries.len(),
{
    if server_at(files, root, entries[0].0) is Err {
        0
    } else {
        let i = lemma_servers_missing(files, root, entries.drop_first(), path);
        assert(entries.drop_first()[i] == entries[i + 1]);
        i + 1
    }
}

/// A file of a channel of the index that the snapshot lacks is among the wanted.
proof fn lemma_wanted_channels(
    files: Seq<FileView>,
    root: Seq<char>,
    entries: Seq<(Seq<char>, Option<Seq<char>>)>,
    i: int,
)
    requires
        0 <= i < entries.len(),
    ensures
        contents_of(files, channel_path(root, entries[i].0)) is None ==> wanted_channels(
            files,
            root,
            entries,
        ).contains(WantedView::File { path: channel_path(root, entries[i].0) }),
        contents_of(files, messages_path(root, entries[i].0)) is None ==> wanted_channels(
            files,
            root,
            entries,
        ).contains(WantedView::File { path: messages_path(root, entries[i].0) }),
    decreases entries.len(),
{
    let one = WantedView::File { path: channel_path(root, entries[i].0) };
    let two = WantedView::File { path: messages_path(root, entries[i].0) };
    let front = wanted_channels(files, root, entries.drop_last());
    let middle = wanted_file(files, channel_path(root, entries.last().0));
    let back = wanted_file(files, messages_path(root, entries.last().0));
    if i == entries.len() - 1 {
        if contents_of(files, channel_path(root, entries[i].0)) is None {
            lemma_wanted_file(files, channel_path(root, entries[i].0));
            lemma_in_right(front, middle, one);
            lemma_in_left(front + middle, back, one);
        }
        if contents_of(files, messages_path(root, entries[i].0)) is None {
            lemma_wanted_file(files, messages_path(root, entries[i].0));
            lemma_in_right(front + middle, back, two);
        }
    } else {
        lemma_wanted_channels(files, root, entries.drop_last(), i);
        if contents_of(files, channel_path(root, entries[i].0)) is None {
            lemma_in_left(front, middle, one);
            lemma_in_left(front + middle, back, one);
        }
        if contents_of(files, messages_path(root, entries[i].0)) is None {
            lemma_in_left(front, middle, two);
            lemma_in_left(front + middle, back, two);
        }
    }
}

/// Where the read of the channels fails for a missing file, it is a file of a channel
/// of the index.
proof fn lemma_channels_missing(
    files: Seq<FileView>,
    root: Seq<char>,
    entries: Seq<(Seq<char>, Option<Seq<char>>)>,
    path: Seq<char>,
) -> (i: int)
    requires
        channels_from(files, root, entries) == Err::<Seq<ChannelView>, ParseErrorView>(
            ParseErrorView::MissingFile { path },
        ),
    ensures
        0 <= i < entries.len(),
        path == channel_path(root, entries[i].0) || path == messages_path(root, entries[i].0),
        contents_of(files, path) is None,
    decreases entries.len(),
{
    if channel_at(files, root, entries[0].0, entries[0].1) is Err {
        0
    } else {
        let i = lemma_channels_missing(files, root, entries.drop_first(), path);
        assert(entries.drop_first()[i] == entries[i + 1]);
        i + 1
    }
}

/// As long as a parse fails for a missing file, that file is among the wanted: as the
/// file with its path, or, for a category without a file, as the first file of the
/// category's directory.
pub proof fn lemma_missing_is_wanted(files: Seq<FileView>, root: Seq<char>, path: Seq<char>)
    requires
        parse_outcome(files, root) == Err::<ParserResultView, ParseErrorView>(
            ParseErrorView::MissingFile { path },
        ),
    ensures
        wanted(files, root).contains(WantedView::File { path }) || wanted(files, root).contains(
            WantedView::FirstIn { dir: path },
        ),
{
    let file = WantedView::File { path };
    let dir = WantedView::FirstIn { dir: path };
    let w1 = wanted_file(files, account_path(root));
    let w2 = wanted_file(files, servers_index_path(root));
    let w3 = wanted_servers(files, root, known_entries(files, servers_index_path(root), false));
    let w4 = wanted_file(files, channels_index_path(root));
    let w5 = wanted_channels(files, root, known_entries(files, channels_index_path(root), true));
    let w6 = wanted_dir(files, activity_dir(root, ActivityType::Analytics));
    let w7 = wanted_dir(files, activity_dir(root, ActivityType::Modeling));
    let w8 = wanted_dir(files, activity_dir(root, ActivityType::Reporting));
    let w9 = wanted_dir(files, activity_dir(root, ActivityType::Tns));
    assert(wanted(files, root) == w1 + w2 + w3 + w4 + w5 + w6 + w7 + w8 + w9);
    let found = if account_outcome(files, root) is Err {
        lemma_wanted_file(files, account_path(root));
        (1int, file)
    } else if servers_outcome(files, root) is Err {
        if index_at(files, servers_index_path(root), false) is Err {
            lemma_wanted_file(files, servers_index_path(root));
            (2int, file)
        } else {
            let entries = known_entries(files, servers_index_path(root), false);
            let i = lemma_servers_missing(files, root, entries, path);
            lemma_wanted_servers(files, root, entries, i);
            (3int, file)
        }
    } else if channels_outcome(files, root) is Err {
        if index_at(files, channels_index_path(root), true) is Err {
            lemma_wanted_file(files, channels_index_path(root));
            (4int, file)
        } else {
            let entries = known_entries(files, channels_index_path(root), true);
            let i = lemma_channels_missing(files, root, entries, path);
            lemma_wanted_channels(files, root, entries, i);
            (5int, file)
        }
    } else {
        reveal_with_fuel(categories_outcome, 5);
        if activities_outcome(files, root, ActivityType::Analytics) is Err {
            lemma_wanted_dir(files, activity_dir(root, ActivityType::Analytics));
            (6int, dir)
        } else if activities_outcome(files, root, ActivityType::Modeling) is Err {
            lemma_wanted_dir(files, activity_dir(root, ActivityType::Modeling));
            (7int, dir)
        } else if activities_outcome(files, root, ActivityType::Reporting) is Err {
            lemma_wanted_dir(files, activity_dir(root, ActivityType::Reporting));
            (8int, dir)
        } else {
            lemma_wanted_dir(files, activity_dir(root, ActivityType::Tns));
            (9int, dir)
        }
    };
    let x = found.1;
    if found.0 <= 1 {
        lemma_in_left(w1, w2, x);
    } else if found.0 == 2 {
        lemma_in_right(w1, w2, x);
    }
    if found.0 <= 2 {
        lemma_in_left(w1 + w2, w3, x);
    } else if found.0 == 3 {
        lemma_in_right(w1 + w2, w3, x);
    }
    if found.0 <= 3 {
        lemma_in_left(w1 + w2 + w3, w4, x);
    } else if found.0 == 4 {
        lemma_in_right(w1 + w2 + w3, w4, x);
    }
    if found.0 <= 4 {
        lemma_in_left(w1 + w2 + w3 + w4, w5, x);
    } else if found.0 == 5 {
        lemma_in_right(w1 + w2 + w3 + w4, w5, x);
    }
    if found.0 <= 5 {
        lemma_in_left(w1 + w2 + w3 + w4 + w5, w6, x);
    } else if found.0 == 6 {
        lemma_in_right(w1 + w2 + w3 + w4 + w5, w6, x);
    }
    if found.0 <= 6 {
        lemma_in_left(w1 + w2 + w3 + w4 + w5 + w6, w7, x);
    } else if found.0 == 7 {
        lemma_in_right(w1 + w2 + w3 + w4 + w5 + w6, w7, x);
    }
    if found.0 <= 7 {
        lemma_in_left(w1 + w2 + w3 + w4 + w5 + w6 + w7, w8, x);
    } else if found.0 == 8 {
        lemma_in_right(w1 + w2 + w3 + w4 + w5 + w6 + w7, w8, x);
    }
    if found.0 <= 8 {
        lemma_in_left(w1 + w2 + w3 + w4 + w5 + w6 + w7 + w8, w9, x);
    } else {
        lemma_in_right(w1 + w2 + w3 + w4 + w5 + w6 + w7 + w8, w9, x);
    }
}

} // verus!
