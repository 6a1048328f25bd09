//! The loader: which statements load a parsed export into the store, and in which order.
//!
//! The loader decides the statements; running them against the store, one after the
//! other and stopping at the first that the store refuses, is the caller's part.
use crate::activity::{activity_views, Activity, ActivityType, ActivityView};
use crate::channel::{channel_views, Channel, ChannelView, Message, MessageView};
use crate::json::{object_text, write_object};
use crate::migration::Table;
use crate::parser::{group_views, ParserResult, ParserResultView};
use crate::servers::{server_views, Server, ServerView};
use crate::sql::{
    boolean_value, optional_text_value, row_views, statement_views, value_views, SqlValue,
    SqlValueView, Statement, StatementView,
};
use crate::user::{Relationship, RelationshipView, User, UserView};
use vstd::prelude::*;
use vstd::string::StringExecFns;

verus! {

/// The row of the account.
pub open spec fn account_row(u: UserView) -> Seq<SqlValueView> {
    seq![
        SqlValueView::Text(u.id),
        SqlValueView::Text(u.username),
        SqlValueView::Integer(u.discriminator as i64),
        SqlValueView::Text(u.email),
        boolean_value(u.verified),
        SqlValueView::Text(u.avatar_hash),
        boolean_value(u.has_mobile),
        boolean_value(u.needs_email_verification),
        optional_text_value(u.premium_until),
        SqlValueView::Integer(u.flags),
        optional_text_value(u.phone),
        optional_text_value(u.temp_banned_until),
        SqlValueView::Text(u.ip),
        optional_text_value(u.user_profile_metadata.boosting_started_at),
        optional_text_value(u.user_profile_metadata.premium_started_at),
    ]
}

/// The row of a relationship of the account with the given identifier.
pub open spec fn relationship_row(account_id: Seq<char>, r: RelationshipView) -> Seq<
    SqlValueView,
> {
    seq![
        SqlValueView::Text(account_id),
        SqlValueView::Integer(r.relation_type as i64),
        optional_text_value(r.nickname),
        SqlValueView::Text(r.user.username),
        optional_text_value(r.user.avatar),
        optional_text_value(r.user.avatar_decoration),
        SqlValueView::Text(r.user.discriminator),
        SqlValueView::Integer(r.user.public_flags as i64),
    ]
}

/// The statements that load the account: its own row, then a row for each of its
/// relationships, in their order.
pub open spec fn account_plan(u: UserView) -> Seq<StatementView> {
    seq![StatementView::Insert { table: Table::Account, row: account_row(u) }] + Seq::new(
        u.relationships.len(),
        |i: int|
            StatementView::Insert {
                table: Table::Relationship,
                row: relationship_row(u.id, u.relationships[i]),
            },
    )
}

/// The statements that insert the rows into the table at once: one statement, or none
/// where there is no row.
pub open spec fn batch_plan(table: Table, rows: Seq<Seq<SqlValueView>>) -> Seq<StatementView> {
    if rows.len() == 0 {
        Seq::empty()
    } else {
        seq![StatementView::BulkInsert { table, rows }]
    }
}

/// The row of a server.
pub open spec fn server_row(s: ServerView) -> Seq<SqlValueView> {
    seq![SqlValueView::Text(s.id), SqlValueView::Text(s.name)]
}

/// The statements that load the servers: all rows at once.
pub open spec fn servers_plan(servers: Seq<ServerView>) -> Seq<StatementView> {
    batch_plan(Table::Server, Seq::new(servers.len(), |i: int| server_row(servers[i])))
}

/// The row of a channel. The server is the one the channel belongs to, if any.
pub open spec fn channel_row(c: ChannelView) -> Seq<SqlValueView> {
    seq![
        SqlValueView::Text(c.id),
        SqlValueView::Integer(c.channel_type as i64),
        match c.guild {
            Some(guild) => SqlValueView::Text(guild.id),
            None => SqlValueView::Null,
        },
    ]
}

/// The row of a message of the channel with the given identifier.
pub open spec fn message_row(channel_id: Seq<char>, m: MessageView) -> Seq<SqlValueView> {
    seq![
        SqlValueView::Text(m.id),
        SqlValueView::Text(channel_id),
        SqlValueView::Text(m.timestamp),
        optional_text_value(m.contents),
        optional_text_value(m.attachments),
    ]
}

/// The rows that pair one identifier with each of the texts, in their order.
pub open spec fn pair_rows(id: Seq<char>, texts: Seq<Seq<char>>) -> Seq<Seq<SqlValueView>> {
    Seq::new(texts.len(), |i: int| seq![SqlValueView::Text(id), SqlValueView::Text(texts[i])])
}

/// The rows of the recipients of a channel: none where the channel names none.
pub open spec fn recipient_rows(c: ChannelView) -> Seq<Seq<SqlValueView>> {
    match c.recipients {
        Some(recipients) => pair_rows(c.id, recipients),
        None => Seq::empty(),
    }
}

/// The statements that load one channel: its own row, then a row for each of its
/// messages, in their order, then the rows of its recipients at once.
pub open spec fn channel_plan(c: ChannelView) -> Seq<StatementView> {
    seq![StatementView::Insert { table: Table::Channel, row: channel_row(c) }] + Seq::new(
        c.messages.len(),
        |i: int| StatementView::Insert { table: Table::Message, row: message_row(c.id, c.messages[i]) },
    ) + batch_plan(Table::ChannelRecipient, recipient_rows(c))
}

/// The statements that load the channels, one channel after the other.
pub open spec fn channels_plan(channels: Seq<ChannelView>) -> Seq<StatementView>
    decreases channels.len(),
{
    if channels.len() == 0 {
        Seq::empty()
    } else {
        channels_plan(channels.drop_last()) + channel_plan(channels.last())
    }
}

/// The row of an activity event of the given category. Its last value is the text of
/// one JSON object that holds every member of the event without a field of its own.
pub open spec fn activity_row(category: ActivityType, a: ActivityView) -> Seq<SqlValueView> {
    seq![
        SqlValueView::Text(a.event_id),
        SqlValueView::Text(a.event_type),
        SqlValueView::Text(category.store_text()),
        SqlValueView::Text(a.user_id),
        SqlValueView::Text(a.domain),
        SqlValueView::Text(a.client_send_timestamp),
        SqlValueView::Text(a.client_track_timestamp),
        SqlValueView::Text(a.timestamp),
        SqlValueView::Text(object_text(a.other)),
    ]
}

/// The statements that load one activity event: its own row, then the rows of its
/// accepted languages at once, then those of its weighted accepted languages at once.
pub open spec fn activity_plan(category: ActivityType, a: ActivityView) -> Seq<StatementView> {
    seq![StatementView::Insert { table: Table::Activity, row: activity_row(category, a) }]
        + batch_plan(Table::AcceptedLanguages, pair_rows(a.event_id, a.accepted_languages))
        + batch_plan(
        Table::AcceptedLanguagesWeighted,
        pair_rows(a.event_id, a.accepted_languages_weighted),
    )
}

/// The statements that load the events of one category, one event after the other.
pub open spec fn category_plan(category: ActivityType, activities: Seq<ActivityView>) -> Seq<
    StatementView,
>
    decreases activities.len(),
{
    if activities.len() == 0 {
        Seq::empty()
    } else {
        category_plan(category, activities.drop_last()) + activity_plan(
            category,
            activities.last(),
        )
    }
}

/// The statements that load the events of every category, one category after the other.
pub open spec fn activities_plan(groups: Seq<(ActivityType, Seq<ActivityView>)>) -> Seq<
    StatementView,
>
    decreases groups.len(),
{
    if groups.len() == 0 {
        Seq::empty()
    } else {
        activities_plan(groups.drop_last()) + category_plan(groups.last().0, groups.last().1)
    }
}

/// The statements of a whole load: the reset of the schema, then the account, the
/// servers, the channels and the activity events.
pub open spec fn save_plan(data: ParserResultView) -> Seq<StatementView> {
    seq![StatementView::Reset] + account_plan(data.account) + servers_plan(data.servers)
        + channels_plan(data.channels) + activities_plan(data.activities)
}

/// The rows that pair one identifier with each of the texts, in their order.
fn make_pair_rows(id: &String, texts: &Vec<String>) -> (rows: Vec<Vec<SqlValue>>)
    ensures
        row_views(rows@) == pair_rows(id@, texts.deep_view()),
{
    let mut rows: Vec<Vec<SqlValue>> = Vec::new();
    let mut i: usize = 0;
    while i < texts.len()
        invariant
            i <= texts.len(),
            rows@.len() == i,
            forall|k: int|
                0 <= k < i ==> value_views((#[trigger] rows@[k])@) == seq![
                    SqlValueView::Text(id@),
                    SqlValueView::Text(texts@[k]@),
                ],
        decreases texts.len() - i,
    {
        let row = vec![SqlValue::Text(id.clone()), SqlValue::Text(texts[i].clone())];
        assert(value_views(row@) =~= seq![
            SqlValueView::Text(id@),
            SqlValueView::Text(texts@[i as int]@),
        ]);
        rows.push(row);
        i += 1;
    }
    assert(row_views(rows@) =~= pair_rows(id@, texts.deep_view()));
    rows
}

/// Moves the statements of `more` to the end of `out`.
fn extend(out: &mut Vec<Statement>, more: Vec<Statement>)
    ensures
        statement_views(final(out)@) == statement_views(old(out)@) + statement_views(more@),
{
    let mut more = more;
    let ghost before = out@;
    let ghost added = more@;
    out.append(&mut more);
    assert(statement_views(out@) =~= statement_views(before) + statement_views(added));
}

/// The loader for one destination store.
pub struct Dao {
    db_name: String,
}

impl Dao {
    /// A loader for the store of the given name.
    pub fn new(db_name: &str) -> (dao: Dao)
        ensures
            dao.db_name()@ == db_name@,
    {
        Dao { db_name: String::from_str(db_name) }
    }

    /// The name of the store that the loader is for.
    pub closed spec fn db_name(&self) -> String {
        self.db_name
    }

    /// The name of the store that the loader is for.
    pub fn name(&self) -> (name: &str)
        ensures
            name@ == self.db_name()@,
    {
        self.db_name.as_str()
    }

    /// The statements that load a parsed export, in the order in which they are to run:
    /// the reset of the schema first, then the account with its relationships, the
    /// servers, each channel with its messages and recipients, and each activity event
    /// with its languages.
    pub fn save(&self, data: &ParserResult) -> (plan: Vec<Statement>)
        ensures
            statement_views(plan@) == save_plan(data@),
    {
        let mut plan: Vec<Statement> = Vec::new();
        plan.push(self.drop_create_tables());
        assert(statement_views(plan@) =~= seq![StatementView::Reset]);
        extend(&mut plan, self.save_account(&data.account));
        extend(&mut plan, self.save_servers(&data.servers));
        extend(&mut plan, self.save_channels(&data.channels));
        extend(&mut plan, self.save_activities(&data.activities));
        plan
    }

    /// The statement that resets the schema.
    pub fn drop_create_tables(&self) -> (statement: Statement)
        ensures
            statement@ == StatementView::Reset,
    {
        Statement::Reset
    }

    /// The statements that load the account and its relationships.
    pub fn save_account(&self, account: &User) -> (plan: Vec<Statement>)
        ensures
            statement_views(plan@) == account_plan(account@),
    {
        let row = vec![
            SqlValue::Text(account.id.clone()),
            SqlValue::Text(account.username.clone()),
            SqlValue::Integer(account.discriminator as i64),
            SqlValue::Text(account.email.clone()),
            SqlValue::boolean(account.verified),
            SqlValue::Text(account.avatar_hash.clone()),
            SqlValue::boolean(account.has_mobile),
            SqlValue::boolean(account.needs_email_verification),
            SqlValue::optional_text(&account.premium_until),
            SqlValue::Integer(account.flags),
            SqlValue::optional_text(&account.phone),
            SqlValue::optional_text(&account.temp_banned_until),
            SqlValue::Text(account.ip.clone()),
            SqlValue::optional_text(&account.user_profile_metadata.boosting_started_at),
            SqlValue::optional_text(&account.user_profile_metadata.premium_started_at),
        ];
        assert(value_views(row@) =~= account_row(account@));
        let mut plan: Vec<Statement> = Vec::new();
        plan.push(Statement::Insert { table: Table::Account, row });
        let mut i: usize = 0;
        while i < account.relationships.len()
            invariant
                i <= account.relationships.len(),
                plan@.len() == i + 1,
                plan@[0]@ == (StatementView::Insert {
                    table: Table::Account,
                    row: account_row(account@),
                }),
                forall|k: int|
                    0 <= k < i ==> (#[trigger] plan@[k + 1])@ == (StatementView::Insert {
                        table: Table::Relationship,
                        row: relationship_row(account.id@, account.relationships@[k]@),
                    }),
            decreases account.relationships.len() - i,
        {
            let relationship = &account.relationships[i];
            let row = vec![
                SqlValue::Text(account.id.clone()),
                SqlValue::Integer(relationship.relation_type as i64),
                SqlValue::optional_text(&relationship.nickname),
                SqlValue::Text(relationship.user.username.clone()),
                SqlValue::optional_text(&relationship.user.avatar),
                SqlValue::optional_text(&relationship.user.avatar_decoration),
                SqlValue::Text(relationship.user.discriminator.clone()),
                SqlValue::Integer(relationship.user.public_flags as i64),
            ];
            assert(value_views(row@) =~= relationship_row(account.id@, relationship@));
            plan.push(Statement::Insert { table: Table::Relationship, row });
            i += 1;
        }
        proof {
            let want = account_plan(account@);
            assert(statement_views(plan@).len() == want.len());
            assert forall|k: int| 0 <= k < want.len() implies statement_views(plan@)[k]
                == want[k] by {
                if k > 0 {
                    assert(plan@[(k - 1) + 1]@ == want[k]);
                }
            }
            assert(statement_views(plan@) =~= want);
        }
        plan
    }

    /// The statements that insert the rows into the table at once: one statement, or
    /// none where there is no row.
    pub fn execute_batch(&self, table: Table, rows: Vec<Vec<SqlValue>>) -> (plan: Vec<Statement>)
        ensures
            statement_views(plan@) == batch_plan(table, row_views(rows@)),
    {
        let mut plan: Vec<Statement> = Vec::new();
        if rows.len() > 0 {
            plan.push(Statement::BulkInsert { table, rows });
            assert(statement_views(plan@) =~= batch_plan(table, row_views(rows@)));
        } else {
            assert(statement_views(plan@) =~= batch_plan(table, row_views(rows@)));
        }
        plan
    }

    /// The statements that load the servers.
    pub fn save_servers(&self, servers: &Vec<Server>) -> (plan: Vec<Statement>)
        ensures
            statement_views(plan@) == servers_plan(server_views(servers@)),
    {
        let mut rows: Vec<Vec<SqlValue>> = Vec::new();
        let mut i: usize = 0;
        while i < servers.len()
            invariant
                i <= servers.len(),
                rows@.len() == i,
                forall|k: int|
                    0 <= k < i ==> value_views((#[trigger] rows@[k])@) == server_row(servers@[k]@),
            decreases servers.len() - i,
        {
            let row = vec![
                SqlValue::Text(servers[i].id.clone()),
                SqlValue::Text(servers[i].name.clone()),
            ];
            assert(value_views(row@) =~= server_row(servers@[i as int]@));
            rows.push(row);
            i += 1;
        }
        assert(row_views(rows@) =~= Seq::new(
            server_views(servers@).len(),
            |i: int| server_row(server_views(servers@)[i]),
        ));
        self.execute_batch(Table::Server, rows)
    }

    /// The statements that load one channel.
    pub fn save_channel(&self, channel: &Channel) -> (plan: Vec<Statement>)
        ensures
            statement_views(plan@) == channel_plan(channel@),
    {
        let row = vec![
            SqlValue::Text(channel.id.clone()),
            SqlValue::Integer(channel.channel_type as i64),
            match &channel.guild {
                Some(guild) => SqlValue::Text(guild.id.clone()),
                None => SqlValue::Null,
            },
        ];
        assert(value_views(row@) =~= channel_row(channel@));
        let mut plan: Vec<Statement> = Vec::new();
        plan.push(Statement::Insert { table: Table::Channel, row });
        let mut i: usize = 0;
        while i < channel.messages.len()
            invariant
                i <= channel.messages.len(),
                plan@.len() == i + 1,
                plan@[0]@ == (StatementView::Insert {
                    table: Table::Channel,
                    row: channel_row(channel@),
                }),
                forall|k: int|
                    0 <= k < i ==> (#[trigger] plan@[k + 1])@ == (StatementView::Insert {
                        table: Table::Message,
                        row: message_row(channel.id@, channel.messages@[k]@),
                    }),
            decreases channel.messages.len() - i,
        {
            let message = &channel.messages[i];
            let row = vec![
                SqlValue::Text(message.id.clone()),
                SqlValue::Text(channel.id.clone()),
                SqlValue::Text(message.timestamp.clone()),
                SqlValue::optional_text(&message.contents),
                SqlValue::optional_text(&message.attachments),
            ];
            assert(value_views(row@) =~= message_row(channel.id@, message@));
            plan.push(Statement::Insert { table: Table::Message, row });
            i += 1;
        }
        let ghost head = statement_views(plan@);
        proof {
            let want = seq![
                StatementView::Insert { table: Table::Channel, row: channel_row(channel@) },
            ] + Seq::new(
                channel@.messages.len(),
                |i: int|
                    StatementView::Insert {
                        table: Table::Message,
                        row: message_row(channel@.id, channel@.messages[i]),
                    },
            );
            assert(head.len() == want.len());
            assert forall|k: int| 0 <= k < want.len() implies head[k] == want[k] by {
                if k > 0 {
                    assert(plan@[(k - 1) + 1]@ == want[k]);
                }
            }
            assert(head =~= want);
        }
        let rows = match &channel.recipients {
            Some(recipients) => make_pair_rows(&channel.id, recipients),
            None => Vec::new(),
        };
        assert(row_views(rows@) =~= recipient_rows(channel@));
        extend(&mut plan, self.execute_batch(Table::ChannelRecipient, rows));
        plan
    }

    /// The statements that load the channels.
    pub fn save_channels(&self, channels: &Vec<Channel>) -> (plan: Vec<Statement>)
        ensures
            statement_views(plan@) == channels_plan(channel_views(channels@)),
    {
        let mut plan: Vec<Statement> = Vec::new();
        let mut i: usize = 0;
        assert(statement_views(plan@) =~= Seq::empty());
        while i < channels.len()
            invariant
                i <= channels.len(),
                statement_views(plan@) == channels_plan(channel_views(channels@).take(i as int)),
            decreases channels.len() - i,
        {
            proof {
                let next = channel_views(channels@).take(i + 1);
                assert(next.drop_last() == channel_views(channels@).take(i as int));
                assert(next.last() == channels@[i as int]@);
            }
            extend(&mut plan, self.save_channel(&channels[i]));
            i += 1;
        }
        proof {
            assert(channel_views(channels@).take(channels@.len() as int) == channel_views(
                channels@,
            ));
        }
        plan
    }

    /// The statements that load one activity event of the given category.
    pub fn save_activity(&self, category: ActivityType, activity: &Activity) -> (plan: Vec<
        Statement,
    >)
        ensures
            statement_views(plan@) == activity_plan(category, activity@),
    {
        let row = vec![
            SqlValue::Text(activity.event_id.clone()),
            SqlValue::Text(activity.event_type.clone()),
            SqlValue::text(category.store_name()),
            SqlValue::Text(activity.user_id.clone()),
            SqlValue::Text(activity.domain.clone()),
            SqlValue::Text(activity.client_send_timestamp.clone()),
            SqlValue::Text(activity.client_track_timestamp.clone()),
            SqlValue::Text(activity.timestamp.clone()),
            SqlValue::Text(write_object(&activity.other)),
        ];
        assert(value_views(row@) =~= activity_row(category, activity@));
        let mut plan: Vec<Statement> = Vec::new();
        plan.push(Statement::Insert { table: Table::Activity, row });
        assert(statement_views(plan@) =~= seq![
            StatementView::Insert { table: Table::Activity, row: activity_row(category, activity@) },
        ]);
        let languages = make_pair_rows(&activity.event_id, &activity.accepted_languages);
        extend(&mut plan, self.execute_batch(Table::AcceptedLanguages, languages));
        let weighted = make_pair_rows(&activity.event_id, &activity.accepted_languages_weighted);
        extend(&mut plan, self.execute_batch(Table::AcceptedLanguagesWeighted, weighted));
        plan
    }

    /// The statements that load the activity events of every category.
    pub fn save_activities(&self, activities: &Vec<(ActivityType, Vec<Activity>)>) -> (plan: Vec<
        Statement,
    >)
        ensures
            statement_views(plan@) == activities_plan(group_views(activities@)),
    {
        let mut plan: Vec<Statement> = Vec::new();
        let mut g: usize = 0;
        assert(statement_views(plan@) =~= Seq::empty());
        while g < activities.len()
            invariant
                g <= activities.len(),
                statement_views(plan@) == activities_plan(group_views(activities@).take(g as int)),
            decreases activities.len() - g,
        {
            let category = activities[g].0;
            let events = &activities[g].1;
            let ghost before = statement_views(plan@);
            let mut i: usize = 0;
            assert(before + Seq::<StatementView>::empty() =~= before);
            while i < events.len()
                invariant
                    i <= events.len(),
                    statement_views(plan@) == before + category_plan(
                        category,
                        activity_views(events@).take(i as int),
                    ),
                decreases events.len() - i,
            {
                proof {
                    let next = activity_views(events@).take(i + 1);
                    assert(next.drop_last() == activity_views(events@).take(i as int));
                    assert(next.last() == events@[i as int]@);
                }
                let ghost so_far = category_plan(category, activity_views(events@).take(i as int));
                extend(&mut plan, self.save_activity(category, &events[i]));
                assert(before + so_far + activity_plan(category, events@[i as int]@) =~= before + (
                so_far + activity_plan(category, events@[i as int]@)));
                i += 1;
            }
            proof {
                assert(activity_views(events@).take(events@.len() as int) == activity_views(
                    events@,
                ));
                let next = group_views(activities@).take(g + 1);
                assert(next.drop_last() == group_views(activities@).take(g as int));
                assert(next.last() == (category, activity_views(events@)));
            }
            g += 1;
        }
        proof {
            assert(group_views(activities@).take(activities@.len() as int) == group_views(
                activities@,
            ));
        }
        plan
    }
}

/// Why a load failed: the store refused a statement.
#[derive(Debug)]
pub struct StoreError {
    /// The place of the refused statement among the statements of the load.
    pub statement: usize,
    /// What the store said.
    pub reason: String,
}

/// The mathematical value of a [`StoreError`].
pub struct StoreErrorView {
    pub statement: nat,
    pub reason: Seq<char>,
}

impl View for StoreError {
    type V = StoreErrorView;

    open spec fn view(&self) -> StoreErrorView {
        StoreErrorView { statement: self.statement as nat, reason: self.reason@ }
    }
}

impl StoreError {
    /// A sentence that says what went wrong.
    pub fn message(&self) -> (text: String)
        ensures
            text@ == "the store refused a statement: "@ + self.reason@,
    {
        let mut text = String::from_str("the store refused a statement: ");
        text.append(self.reason.as_str());
        text
    }
}

/// What the store said of the statement that was run last.
#[derive(Debug)]
pub enum Reply {
    Accepted,
    Refused { reason: String },
}

/// What is to be done next in a load.
#[derive(Debug)]
pub enum Step<'a> {
    /// Run this statement, and say what the store replied.
    Run(&'a Statement),
    /// Every statement was accepted: make the load permanent.
    Commit,
    /// A statement was refused: undo what the statements before it did.
    RollBack(&'a StoreError),
}

/// The run of a load: how many of its statements the store has accepted, and whether it
/// has refused one. A load is one unit of work: it ends with the first statement that
/// the store refuses, and is then undone as a whole.
pub struct Load {
    plan: Vec<Statement>,
    accepted: usize,
    failure: Option<StoreError>,
}

/// The mathematical value of a [`Load`].
pub struct LoadView {
    pub plan: Seq<StatementView>,
    pub accepted: nat,
    pub failure: Option<StoreErrorView>,
}

impl LoadView {
    /// Whether a statement is still to be run.
    pub open spec fn running(self) -> bool {
        self.failure is None && self.accepted < self.plan.len()
    }

    /// The load after a reply of the store to the statement that was run last. A reply
    /// to a load that has no statement running changes nothing.
    pub open spec fn after(self, reply: Reply) -> LoadView {
        if !self.running() {
            self
        } else {
            match reply {
                Reply::Accepted => LoadView { accepted: self.accepted + 1, ..self },
                Reply::Refused { reason } => LoadView {
                    failure: Some(StoreErrorView { statement: self.accepted, reason: reason@ }),
                    ..self
                },
            }
        }
    }
}

impl View for Load {
    type V = LoadView;

    closed spec fn view(&self) -> LoadView {
        LoadView {
            plan: statement_views(self.plan@),
            accepted: self.accepted as nat,
            failure: match self.failure {
                Some(e) => Some(e@),
                None => None,
            },
        }
    }
}

impl Load {
    /// The run of the given statements, none of them run yet.
    pub fn new(plan: Vec<Statement>) -> (load: Load)
        ensures
            load@ == (LoadView { plan: statement_views(plan@), accepted: 0, failure: None }),
    {
        Load { plan, accepted: 0, failure: None }
    }

    /// What is to be done next: the first statement that has not been run, as long as
    /// none was refused.
    pub fn next(&self) -> (step: Step<'_>)
        ensures
            match step {
                Step::Run(statement) => self@.running() && statement@
                    == self@.plan[self@.accepted as int],
                Step::Commit => self@.failure is None && self@.accepted >= self@.plan.len(),
                Step::RollBack(e) => self@.failure == Some(e@),
            },
    {
        match &self.failure {
            Some(e) => Step::RollBack(e),
            None => if self.accepted < self.plan.len() {
                Step::Run(&self.plan[self.accepted])
            } else {
                Step::Commit
            },
        }
    }

    /// Takes note of what the store replied to the statement that was run last.
    pub fn reply(&mut self, reply: Reply)
        ensures
            final(self)@ == old(self)@.after(reply),
    {
        if self.failure.is_none() && self.accepted < self.plan.len() {
            match reply {
                Reply::Accepted => {
                    self.accepted = self.accepted + 1;
                },
                Reply::Refused { reason } => {
                    self.failure = Some(StoreError { statement: self.accepted, reason });
                },
            }
        }
    }
}

/// The load after the store has accepted `n` statements in a row.
pub open spec fn after_accepted(load: LoadView, n: nat) -> LoadView
    decreases n,
{
    if n == 0 {
        load
    } else {
        after_accepted(load, (n - 1) as nat).after(Reply::Accepted)
    }
}

/// A load whose statements the store accepts one after the other has run exactly as
/// many statements as it was given replies, in the order of the plan, and asks for the
/// commit when it has run them all, not before.
pub proof fn lemma_accepted_in_order(plan: Seq<StatementView>, n: nat)
    requires
        n <= plan.len(),
    ensures
        after_accepted(LoadView { plan, accepted: 0, failure: None }, n) == (LoadView {
            plan,
            accepted: n,
            failure: None,
        }),
        after_accepted(LoadView { plan, accepted: 0, failure: None }, n).running() <==> n
            < plan.len(),
    decreases n,
{
    if n > 0 {
        lemma_accepted_in_order(plan, (n - 1) as nat);
    }
}

/// Once the store has refused a statement, the load stays failed at that statement,
/// whatever is replied afterwards: no statement after it is run.
pub proof fn lemma_refusal_is_final(load: LoadView, reason: String, later: Reply)
    requires
        load.running(),
    ensures
        load.after(Reply::Refused { reason }).failure == Some(
            StoreErrorView { statement: load.accepted, reason: reason@ },
        ),
        !load.after(Reply::Refused { reason }).running(),
        load.after(Reply::Refused { reason }).after(later) == load.after(
            Reply::Refused { reason },
        ),
{
}

} // verus!
