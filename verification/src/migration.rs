//! The schema of the destination store, and the script that resets it.
use crate::text::{join, joined, views};
use vstd::prelude::*;
use vstd::string::StringExecFns;

verus! {

/// The tables of the destination store.
#[derive(Clone, Copy, Debug, PartialEq, Eq, Structural)]
pub enum Table {
    Account,
    Relationship,
    Server,
    Channel,
    Message,
    ChannelRecipient,
    Activity,
    AcceptedLanguages,
    AcceptedLanguagesWeighted,
}

impl Table {
    /// The table's name in the store.
    pub open spec fn name_text(self) -> Seq<char> {
        match self {
            Table::Account => "account"@,
            Table::Relationship => "relationship"@,
            Table::Server => "server"@,
            Table::Channel => "channel"@,
            Table::Message => "message"@,
            Table::ChannelRecipient => "channel_recipient"@,
            Table::Activity => "activity"@,
            Table::AcceptedLanguages => "accepted_languages"@,
            Table::AcceptedLanguagesWeighted => "accepted_languages_weighted"@,
        }
    }

    /// The table whose rows this table's rows refer to by a foreign key, if there is one.
    pub open spec fn parent(self) -> Option<Table> {
        match self {
            Table::Account => None,
            Table::Relationship => Some(Table::Account),
            Table::Server => None,
            Table::Channel => None,
            Table::Message => Some(Table::Channel),
            Table::ChannelRecipient => Some(Table::Channel),
            Table::Activity => Some(Table::Account),
            Table::AcceptedLanguages => Some(Table::Activity),
            Table::AcceptedLanguagesWeighted => Some(Table::Activity),
        }
    }

    /// The columns that a load gives a value for, in the order of the values.
    pub open spec fn column_texts(self) -> Seq<Seq<char>> {
        match self {
            Table::Account => seq![
                "id"@,
                "username"@,
                "discriminator"@,
                "email"@,
                "verified"@,
                "avatar_hash"@,
                "has_mobile"@,
                "needs_email_verification"@,
                "premium_until"@,
                "flags"@,
                "phone"@,
                "temp_banned_until"@,
                "ip"@,
                "boosting_started_at"@,
                "premium_started_at"@,
            ],
            Table::Relationship => seq![
                "account_id"@,
                "relation_type"@,
                "nickname"@,
                "username"@,
                "avatar"@,
                "avatar_decoration"@,
                "discriminator"@,
                "public_flags"@,
            ],
            Table::Server => seq!["id"@, "name"@],
            Table::Channel => seq!["id"@, "type"@, "server_id"@],
            Table::Message => seq![
                "id"@,
                "channel_id"@,
                "timestamp"@,
                "contents"@,
                "attachments"@,
            ],
            Table::ChannelRecipient => seq!["channel_id"@, "recipient"@],
            Table::Activity => seq![
                "event_id"@,
                "event_type"@,
                "activity_type"@,
                "user_id"@,
                "domain"@,
                "client_send_timestamp"@,
                "client_track_timestamp"@,
                "timestamp"@,
                "other"@,
            ],
            Table::AcceptedLanguages => seq!["event_id"@, "language"@],
            Table::AcceptedLanguagesWeighted => seq!["event_id"@, "language"@],
        }
    }

    /// The number of values in a row that a load inserts.
    pub open spec fn arity(self) -> nat {
        self.column_texts().len()
    }

    /// The statement that creates the table.
    pub open spec fn create_text(self) -> Seq<char> {
        match self {
            Table::Account => "create table account (
    id text primary key not null,
    username text not null,
    discriminator integer,
    email text not null,
    verified boolean not null,
    avatar_hash text not null,
    has_mobile boolean not null,
    needs_email_verification boolean not null,
    premium_until text,
    flags integer not null,
    phone text,
    temp_banned_until text,
    ip text not null,
    user_profile_metadata_id integer,
    boosting_started_at text,
    premium_started_at text
);"@,
            Table::Relationship => "create table relationship (
    id integer not null primary key autoincrement,
    account_id text not null,
    relation_type integer not null,
    nickname text,
    username text not null,
    avatar text,
    avatar_decoration text,
    discriminator text not null,
    public_flags integer not null,
    foreign key (account_id) references account (id) on delete cascade
);"@,
            Table::Server => "create table server (
    id text primary key not null,
    name text not null
);"@,
            Table::Channel => "create table channel (
    id text primary key not null,
    type integer not null,
    server_id text
);"@,
            Table::Message => "create table message (
    id text primary key not null,
    channel_id text not null,
    timestamp text not null,
    contents text,
    attachments text,
    foreign key (channel_id) references channel (id) on delete cascade
);"@,
            Table::ChannelRecipient => "create table channel_recipient (
    id integer not null primary key autoincrement,
    channel_id text not null,
    recipient text not null,
    foreign key (channel_id) references channel (id) on delete cascade
);"@,
            Table::Activity => "create table activity (
    event_id text not null primary key,
    event_type text not null,
    activity_type text not null,
    user_id text not null,
    domain text not null,
    client_send_timestamp text not null,
    client_track_timestamp text not null,
    timestamp text,
    other blob not null,
    foreign key (user_id) references account (id) on delete cascade
);"@,
            Table::AcceptedLanguages => "create table accepted_languages (
    id integer not null primary key autoincrement,
    event_id text not null,
    language text not null,
    foreign key (event_id) references activity (event_id) on delete cascade
);"@,
            Table::AcceptedLanguagesWeighted => "create table accepted_languages_weighted (
    id integer not null primary key autoincrement,
    event_id text not null,
    language text not null,
    foreign key (event_id) references activity (event_id) on delete cascade
);"@,
        }
    }

    /// The statement that drops the table where it exists.
    pub open spec fn drop_text(self) -> Seq<char> {
        "drop table if exists "@ + self.name_text() + ";"@
    }

    /// The statement that creates the table.
    pub fn create_sql(self) -> (sql: &'static str)
        ensures
            sql@ == self.create_text(),
    {
        match self {
            Table::Account => "create table account (
    id text primary key not null,
    username text not null,
    discriminator integer,
    email text not null,
    verified boolean not null,
    avatar_hash text not null,
    has_mobile boolean not null,
    needs_email_verification boolean not null,
    premium_until text,
    flags integer not null,
    phone text,
    temp_banned_until text,
    ip text not null,
    user_profile_metadata_id integer,
    boosting_started_at text,
    premium_started_at text
);",
            Table::Relationship => "create table relationship (
    id integer not null primary key autoincrement,
    account_id text not null,
    relation_type integer not null,
    nickname text,
    username text not null,
    avatar text,
    avatar_decoration text,
    discriminator text not null,
    public_flags integer not null,
    foreign key (account_id) references account (id) on delete cascade
);",
            Table::Server => "create table server (
    id text primary key not null,
    name text not null
);",
            Table::Channel => "create table channel (
    id text primary key not null,
    type integer not null,
    server_id text
);",
            Table::Message => "create table message (
    id text primary key not null,
    channel_id text not null,
    timestamp text not null,
    contents text,
    attachments text,
    foreign key (channel_id) references channel (id) on delete cascade
);",
            Table::ChannelRecipient => "create table channel_recipient (
    id integer not null primary key autoincrement,
    channel_id text not null,
    recipient text not null,
    foreign key (channel_id) references channel (id) on delete cascade
);",
            Table::Activity => "create table activity (
    event_id text not null primary key,
    event_type text not null,
    activity_type text not null,
    user_id text not null,
    domain text not null,
    client_send_timestamp text not null,
    client_track_timestamp text not null,
    timestamp text,
    other blob not null,
    foreign key (user_id) references account (id) on delete cascade
);",
            Table::AcceptedLanguages => "create table accepted_languages (
    id integer not null primary key autoincrement,
    event_id text not null,
    language text not null,
    foreign key (event_id) references activity (event_id) on delete cascade
);",
            Table::AcceptedLanguagesWeighted => "create table accepted_languages_weighted (
    id integer not null primary key autoincrement,
    event_id text not null,
    language text not null,
    foreign key (event_id) references activity (event_id) on delete cascade
);",
        }
    }

    /// The table's name in the store.
    pub fn name(self) -> (name: &'static str)
        ensures
            name@ == self.name_text(),
    {
        match self {
            Table::Account => "account",
            Table::Relationship => "relationship",
            Table::Server => "server",
            Table::Channel => "channel",
            Table::Message => "message",
            Table::ChannelRecipient => "channel_recipient",
            Table::Activity => "activity",
            Table::AcceptedLanguages => "accepted_languages",
            Table::AcceptedLanguagesWeighted => "accepted_languages_weighted",
        }
    }
}

impl Table {
    /// The columns that a load gives a value for, in the order of the values.
    pub fn columns(self) -> (names: Vec<&'static str>)
        ensures
            names@.len() == self.arity(),
            forall|i: int| 0 <= i < names@.len() ==> (#[trigger] names@[i])@ == self.column_texts()[i],
    {
        match self {
            Table::Account => vec![
                "id",
                "username",
                "discriminator",
                "email",
                "verified",
                "avatar_hash",
                "has_mobile",
                "needs_email_verification",
                "premium_until",
                "flags",
                "phone",
                "temp_banned_until",
                "ip",
                "boosting_started_at",
                "premium_started_at",
            ],
            Table::Relationship => vec![
                "account_id",
                "relation_type",
                "nickname",
                "username",
                "avatar",
                "avatar_decoration",
                "discriminator",
                "public_flags",
            ],
            Table::Server => vec!["id", "name"],
            Table::Channel => vec!["id", "type", "server_id"],
            Table::Message => vec!["id", "channel_id", "timestamp", "contents", "attachments"],
            Table::ChannelRecipient => vec!["channel_id", "recipient"],
            Table::Activity => vec![
                "event_id",
                "event_type",
                "activity_type",
                "user_id",
                "domain",
                "client_send_timestamp",
                "client_track_timestamp",
                "timestamp",
                "other",
            ],
            Table::AcceptedLanguages => vec!["event_id", "language"],
            Table::AcceptedLanguagesWeighted => vec!["event_id", "language"],
        }
    }

    /// The place of the table in the order in which a reset creates the tables.
    pub open spec fn create_rank(self) -> int {
        match self {
            Table::Account => 0,
            Table::Relationship => 1,
            Table::Server => 2,
            Table::Channel => 3,
            Table::Message => 4,
            Table::ChannelRecipient => 5,
            Table::Activity => 6,
            Table::AcceptedLanguages => 7,
            Table::AcceptedLanguagesWeighted => 8,
        }
    }

    /// The place of the table in the order in which a reset drops the tables.
    pub open spec fn drop_rank(self) -> int {
        8 - self.create_rank()
    }
}

/// The tables in the order in which a reset creates them.
pub open spec fn create_order() -> Seq<Table> {
    seq![
        Table::Account,
        Table::Relationship,
        Table::Server,
        Table::Channel,
        Table::Message,
        Table::ChannelRecipient,
        Table::Activity,
        Table::AcceptedLanguages,
        Table::AcceptedLanguagesWeighted,
    ]
}

/// The tables in the order in which a reset drops them.
pub open spec fn drop_order() -> Seq<Table> {
    seq![
        Table::AcceptedLanguagesWeighted,
        Table::AcceptedLanguages,
        Table::Activity,
        Table::ChannelRecipient,
        Table::Message,
        Table::Channel,
        Table::Server,
        Table::Relationship,
        Table::Account,
    ]
}

/// A reset drops and creates every table exactly once: each table stands at its rank in
/// either order, and no other table does.
pub proof fn lemma_orders_hold_every_table(t: Table)
    ensures
        0 <= t.create_rank() < 9,
        0 <= t.drop_rank() < 9,
        create_order().len() == 9,
        drop_order().len() == 9,
        create_order()[t.create_rank()] == t,
        drop_order()[t.drop_rank()] == t,
        forall|i: int| 0 <= i < 9 && create_order()[i] == t ==> i == t.create_rank(),
        forall|i: int| 0 <= i < 9 && drop_order()[i] == t ==> i == t.drop_rank(),
{
}

/// A reset creates a table after the table it refers to, and drops it before.
pub proof fn lemma_orders_follow_references(t: Table)
    requires
        t.parent() is Some,
    ensures
        t.parent()->0.create_rank() < t.create_rank(),
        t.drop_rank() < t.parent()->0.drop_rank(),
{
}

/// The statements of a reset: a drop for every table, then a create for every table.
pub open spec fn reset_statements() -> Seq<Seq<char>> {
    Seq::new(9, |i: int| drop_order()[i].drop_text()) + Seq::new(
        9,
        |i: int| create_order()[i].create_text(),
    )
}

/// The script of a reset: its statements, an empty line between each two.
pub open spec fn reset_script() -> Seq<char> {
    joined(reset_statements(), "\n\n"@)
}

/// The tables in the order in which a reset creates them.
pub fn tables_in_create_order() -> (tables: Vec<Table>)
    ensures
        tables@ == create_order(),
{
    let tables = vec![
        Table::Account,
        Table::Relationship,
        Table::Server,
        Table::Channel,
        Table::Message,
        Table::ChannelRecipient,
        Table::Activity,
        Table::AcceptedLanguages,
        Table::AcceptedLanguagesWeighted,
    ];
    assert(tables@ =~= create_order());
    tables
}

/// The script that resets the store: it drops every table that exists, from the tables
/// that refer to others to those referred to, and creates every table anew, in the
/// opposite order.
pub fn drop_create_tables() -> (script: String)
    ensures
        script@ == reset_script(),
{
    let tables = tables_in_create_order();
    let mut statements: Vec<String> = Vec::new();
    let mut i: usize = 0;
    while i < 9
        invariant
            i <= 9,
            tables@ == create_order(),
            statements@.len() == i,
            forall|k: int| 0 <= k < i ==> (#[trigger] statements@[k])@ == drop_order()[k].drop_text(),
        decreases 9 - i,
    {
        let table = tables[8 - i];
        let mut statement = String::from_str("drop table if exists ");
        statement.append(table.name());
        statement.append(";");
        statements.push(statement);
        i += 1;
    }
    let mut k: usize = 0;
    while k < 9
        invariant
            k <= 9,
            tables@ == create_order(),
            statements@.len() == 9 + k,
            forall|j: int| 0 <= j < 9 ==> (#[trigger] statements@[j])@ == drop_order()[j].drop_text(),
            forall|j: int|
                0 <= j < k ==> (#[trigger] statements@[9 + j])@ == create_order()[j].create_text(),
        decreases 9 - k,
    {
        statements.push(String::from_str(tables[k].create_sql()));
        k += 1;
    }
    proof {
        assert forall|j: int| 0 <= j < 18 implies views(statements@)[j] == reset_statements()[j] by {
            if j >= 9 {
                assert(statements@[9 + (j - 9)]@ == create_order()[j - 9].create_text());
            }
        }
        assert(views(statements@) =~= reset_statements());
    }
    join(&statements, "\n\n")
}

} // verus!
