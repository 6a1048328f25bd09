//! A relational model of the store, and what a load leaves in it.
//!
//! The model holds, for every table that exists, the rows that were inserted into it, in
//! the order of their insertion. It says what the statements of a load do to a store that
//! accepts them; what the store checks of the values of a row (keys, references) is no
//! part of it.
use crate::activity::{ActivityType, ActivityView};
use crate::channel::ChannelView;
use crate::db::{
    account_plan, account_row, activities_plan, activity_plan, activity_row, batch_plan,
    category_plan, channel_plan, channel_row, channels_plan, message_row, pair_rows,
    recipient_rows, relationship_row, save_plan, server_row, servers_plan,
};
use crate::servers::ServerView;
use crate::migration::{
    create_order, drop_order, lemma_orders_hold_every_table, reset_statements, Table,
};
use crate::export::FileView;
use crate::json::{field, JsonModel};
use crate::export::contents_of;
use crate::parser::{
    account_path, channel_at, document_at, messages_path, parse_outcome, ParserResultView,
};
use crate::tabular::{csv_table, message_of};
use crate::user::lemma_relationships_are_kept;
use crate::sql::{SqlValueView, StatementView};
use crate::user::UserView;
use vstd::prelude::*;

verus! {

/// One row: the values of its columns.
pub type Row = Seq<SqlValueView>;

/// The store: the rows of every table that exists, in the order of their insertion.
pub struct Store {
    pub tables: Map<Table, Seq<Row>>,
}

/// The store that holds every table of the schema, and no row.
pub open spec fn empty_store() -> Store {
    Store { tables: Map::new(|t: Table| true, |t: Table| Seq::<Row>::empty()) }
}

/// One step of the reset script.
pub enum SchemaOp {
    /// Drop the table if it exists.
    Drop(Table),
    /// Create the table; an error where it exists.
    Create(Table),
}

/// The steps of the reset script, in the order of its statements.
pub open spec fn reset_ops() -> Seq<SchemaOp> {
    Seq::new(9, |i: int| SchemaOp::Drop(drop_order()[i])) + Seq::new(
        9,
        |i: int| SchemaOp::Create(create_order()[i]),
    )
}

/// The statement of a step.
pub open spec fn op_text(op: SchemaOp) -> Seq<char> {
    match op {
        SchemaOp::Drop(t) => t.drop_text(),
        SchemaOp::Create(t) => t.create_text(),
    }
}

/// The statements of the reset script are those of its steps.
pub proof fn lemma_reset_statements_are_ops()
    ensures
        reset_statements() == Seq::new(18, |i: int| op_text(reset_ops()[i])),
{
    assert(reset_statements() =~= Seq::new(18, |i: int| op_text(reset_ops()[i])));
}

/// What a step makes of a store; `None` where the store refuses it.
pub open spec fn apply_op(store: Store, op: SchemaOp) -> Option<Store> {
    match op {
        SchemaOp::Drop(t) => Some(Store { tables: store.tables.remove(t) }),
        SchemaOp::Create(t) => if store.tables.contains_key(t) {
            None
        } else {
            Some(Store { tables: store.tables.insert(t, Seq::empty()) })
        },
    }
}

/// What a sequence of steps makes of a store; `None` where the store refuses one.
pub open spec fn apply_ops(store: Store, ops: Seq<SchemaOp>) -> Option<Store>
    decreases ops.len(),
{
    if ops.len() == 0 {
        Some(store)
    } else {
        match apply_ops(store, ops.drop_last()) {
            Some(before) => apply_op(before, ops.last()),
            None => None,
        }
    }
}

/// What a statement makes of a store; `None` where the store refuses it: an insert into
/// a table that does not exist, a row with another number of values than the statement
/// names columns, an insert of no row at all.
pub open spec fn run_statement(store: Store, statement: StatementView) -> Option<Store> {
    match statement {
        StatementView::Reset => apply_ops(store, reset_ops()),
        StatementView::Insert { table, row } => if store.tables.contains_key(table) && row.len()
            == table.arity() {
            Some(Store { tables: store.tables.insert(table, store.tables[table].push(row)) })
        } else {
            None
        },
        StatementView::BulkInsert { table, rows } => if store.tables.contains_key(table)
            && rows.len() > 0 && (forall|i: int|
            0 <= i < rows.len() ==> (#[trigger] rows[i]).len() == table.arity()) {
            Some(Store { tables: store.tables.insert(table, store.tables[table] + rows) })
        } else {
            None
        },
    }
}

/// What a sequence of statements makes of a store; `None` where the store refuses one.
pub open spec fn run(store: Store, statements: Seq<StatementView>) -> Option<Store>
    decreases statements.len(),
{
    if statements.len() == 0 {
        Some(store)
    } else {
        match run(store, statements.drop_last()) {
            Some(before) => run_statement(before, statements.last()),
            None => None,
        }
    }
}

/// The rows that a statement inserts into a table.
pub open spec fn rows_in(statement: StatementView, t: Table) -> Seq<Row> {
    match statement {
        StatementView::Reset => Seq::empty(),
        StatementView::Insert { table, row } => if table == t {
            seq![row]
        } else {
            Seq::empty()
        },
        StatementView::BulkInsert { table, rows } => if table == t {
            rows
        } else {
            Seq::empty()
        },
    }
}

/// The rows that a sequence of statements inserts into a table, in their order.
pub open spec fn inserted(statements: Seq<StatementView>, t: Table) -> Seq<Row>
    decreases statements.len(),
{
    if statements.len() == 0 {
        Seq::empty()
    } else {
        inserted(statements.drop_last(), t) + rows_in(statements.last(), t)
    }
}

/// Whether a statement is an insert of at least one row, every row with as many values
/// as the statement names columns.
pub open spec fn well_formed_insert(statement: StatementView) -> bool {
    match statement {
        StatementView::Reset => false,
        StatementView::Insert { table, row } => row.len() == table.arity(),
        StatementView::BulkInsert { table, rows } => rows.len() > 0 && forall|i: int|
            0 <= i < rows.len() ==> (#[trigger] rows[i]).len() == table.arity(),
    }
}

/// Whether every statement is a well-formed insert.
pub open spec fn well_formed_inserts(statements: Seq<StatementView>) -> bool {
    forall|i: int| 0 <= i < statements.len() ==> well_formed_insert(#[trigger] statements[i])
}

/// Whether a store holds every table of the schema.
pub open spec fn has_every_table(store: Store) -> bool {
    forall|t: Table| store.tables.contains_key(t)
}

/// The store with the rows that the statements insert added to every table.
pub open spec fn with_inserted(store: Store, statements: Seq<StatementView>) -> Store {
    Store {
        tables: Map::new(
            |t: Table| true,
            |t: Table| store.tables[t] + inserted(statements, t),
        ),
    }
}

/// Steps run one sequence after the other as they run in one sequence.
pub proof fn lemma_apply_ops_concat(store: Store, a: Seq<SchemaOp>, b: Seq<SchemaOp>)
    ensures
        apply_ops(store, a + b) == match apply_ops(store, a) {
            Some(middle) => apply_ops(middle, b),
            None => None,
        },
    decreases b.len(),
{
    if b.len() == 0 {
        assert(a + b == a);
    } else {
        assert((a + b).drop_last() == a + b.drop_last());
        assert((a + b).last() == b.last());
        lemma_apply_ops_concat(store, a, b.drop_last());
    }
}

/// The first `n` drops of a reset leave no table among those they name, and are never
/// refused.
proof fn lemma_drops(store: Store, n: int)
    requires
        0 <= n <= 9,
    ensures
        apply_ops(store, Seq::new(n as nat, |i: int| SchemaOp::Drop(drop_order()[i]))) is Some,
        forall|t: Table|
            t.drop_rank() < n ==> !apply_ops(
                store,
                Seq::new(n as nat, |i: int| SchemaOp::Drop(drop_order()[i])),
            )->0.tables.contains_key(t),
    decreases n,
{
    let ops = Seq::new(n as nat, |i: int| SchemaOp::Drop(drop_order()[i]));
    if n > 0 {
        let shorter = Seq::new((n - 1) as nat, |i: int| SchemaOp::Drop(drop_order()[i]));
        assert(ops.drop_last() == shorter);
        lemma_drops(store, n - 1);
        assert forall|t: Table| t.drop_rank() < n implies !apply_ops(
            store,
            ops,
        )->0.tables.contains_key(t) by {
            lemma_orders_hold_every_table(t);
        }
    }
}

/// The first `n` creates of a reset, on a store without tables, are never refused and
/// leave exactly the tables they name, each without rows.
proof fn lemma_creates(store: Store, n: int)
    requires
        0 <= n <= 9,
        forall|t: Table| !store.tables.contains_key(t),
    ensures
        apply_ops(store, Seq::new(n as nat, |i: int| SchemaOp::Create(create_order()[i]))) is Some,
        forall|t: Table|
            apply_ops(
                store,
                Seq::new(n as nat, |i: int| SchemaOp::Create(create_order()[i])),
            )->0.tables.contains_key(t) <==> t.create_rank() < n,
        forall|t: Table|
            t.create_rank() < n ==> apply_ops(
                store,
                Seq::new(n as nat, |i: int| SchemaOp::Create(create_order()[i])),
            )->0.tables[t] == Seq::<Row>::empty(),
    decreases n,
{
    let ops = Seq::new(n as nat, |i: int| SchemaOp::Create(create_order()[i]));
    if n > 0 {
        let shorter = Seq::new((n - 1) as nat, |i: int| SchemaOp::Create(create_order()[i]));
        assert(ops.drop_last() == shorter);
        lemma_creates(store, n - 1);
        let before = apply_ops(store, shorter)->0;
        let t_new = create_order()[n - 1];
        lemma_orders_hold_every_table(t_new);
        assert(ops.last() == SchemaOp::Create(t_new));
        assert(!before.tables.contains_key(t_new));
        assert forall|t: Table|
            apply_ops(store, ops)->0.tables.contains_key(t) <==> t.create_rank() < n by {
            lemma_orders_hold_every_table(t);
        }
        assert forall|t: Table| t.create_rank() < n implies apply_ops(store, ops)->0.tables[t]
            == Seq::<Row>::empty() by {
            lemma_orders_hold_every_table(t);
        }
    }
}

/// A reset, run on any store, is never refused and leaves every table of the schema
/// without rows.
pub proof fn lemma_reset_empties(store: Store)
    ensures
        apply_ops(store, reset_ops()) == Some(empty_store()),
        run_statement(store, StatementView::Reset) == Some(empty_store()),
{
    let drops = Seq::new(9, |i: int| SchemaOp::Drop(drop_order()[i]));
    let creates = Seq::new(9, |i: int| SchemaOp::Create(create_order()[i]));
    lemma_drops(store, 9);
    let middle = apply_ops(store, drops)->0;
    assert forall|t: Table| !middle.tables.contains_key(t) by {
        lemma_orders_hold_every_table(t);
    }
    lemma_creates(middle, 9);
    lemma_apply_ops_concat(store, drops, creates);
    let end = apply_ops(middle, creates)->0;
    assert forall|t: Table| #[trigger]
        end.tables.dom().contains(t) && end.tables[t] == Seq::<Row>::empty() by {
        lemma_orders_hold_every_table(t);
        assert(end.tables.contains_key(t));
    }
    assert(end.tables =~= empty_store().tables);
}

/// Two resets in a row leave the store as one reset does: no row is left over, and the
/// second reset is not refused for a table that the first one made.
pub proof fn lemma_reset_idempotent(store: Store)
    ensures
        run(store, seq![StatementView::Reset, StatementView::Reset]) == run(
            store,
            seq![StatementView::Reset],
        ),
        run(store, seq![StatementView::Reset]) == Some(empty_store()),
{
    let twice = seq![StatementView::Reset, StatementView::Reset];
    let once = seq![StatementView::Reset];
    assert(twice.drop_last() == once);
    lemma_reset_empties(store);
    lemma_reset_empties(empty_store());
    lemma_run_single(store, StatementView::Reset);
    assert(run(store, twice) == Some(empty_store()));
}

/// Statements run one sequence after the other as they run in one sequence.
pub proof fn lemma_run_concat(store: Store, a: Seq<StatementView>, b: Seq<StatementView>)
    ensures
        run(store, a + b) == match run(store, a) {
            Some(middle) => run(middle, b),
            None => None,
        },
    decreases b.len(),
{
    if b.len() == 0 {
        assert(a + b == a);
    } else {
        assert((a + b).drop_last() == a + b.drop_last());
        assert((a + b).last() == b.last());
        lemma_run_concat(store, a, b.drop_last());
    }
}

/// The rows that two sequences of statements insert, one after the other.
pub proof fn lemma_inserted_concat(a: Seq<StatementView>, b: Seq<StatementView>, t: Table)
    ensures
        inserted(a + b, t) == inserted(a, t) + inserted(b, t),
    decreases b.len(),
{
    if b.len() == 0 {
        assert(a + b == a);
        assert(inserted(a, t) + Seq::<Row>::empty() == inserted(a, t));
    } else {
        assert((a + b).drop_last() == a + b.drop_last());
        assert((a + b).last() == b.last());
        lemma_inserted_concat(a, b.drop_last(), t);
        assert(inserted(a, t) + inserted(b.drop_last(), t) + rows_in(b.last(), t) == inserted(a, t)
            + (inserted(b.drop_last(), t) + rows_in(b.last(), t)));
    }
}

/// Well-formed inserts are never refused by a store that holds every table, and leave
/// in every table the rows it held, followed by the rows they insert into it, in the
/// order of the statements.
pub proof fn lemma_run_inserts(store: Store, statements: Seq<StatementView>)
    requires
        has_every_table(store),
        well_formed_inserts(statements),
    ensures
        run(store, statements) == Some(with_inserted(store, statements)),
    decreases statements.len(),
{
    if statements.len() == 0 {
        assert forall|t: Table| store.tables[t] + inserted(statements, t) == store.tables[t] by {
            assert(store.tables[t] + Seq::<Row>::empty() == store.tables[t]);
        }
        assert(store.tables.contains_key(Table::Account));
        assert(with_inserted(store, statements).tables =~= store.tables);
    } else {
        let shorter = statements.drop_last();
        let last = statements.last();
        assert(well_formed_inserts(shorter)) by {
            assert forall|i: int| 0 <= i < shorter.len() implies well_formed_insert(
                #[trigger] shorter[i],
            ) by {
                assert(shorter[i] == statements[i]);
            }
        }
        lemma_run_inserts(store, shorter);
        let before = with_inserted(store, shorter);
        assert(well_formed_insert(last));
        let after = run_statement(before, last)->0;
        assert(run_statement(before, last) is Some);
        assert forall|t: Table| after.tables.contains_key(t) && #[trigger] after.tables[t]
            == store.tables[t] + inserted(statements, t) by {
            assert(before.tables[t] == store.tables[t] + inserted(shorter, t));
            assert(store.tables[t] + inserted(shorter, t) + rows_in(last, t) == store.tables[t] + (
            inserted(shorter, t) + rows_in(last, t)));
            match last {
                StatementView::Reset => {},
                StatementView::Insert { table, row } => {
                    if table == t {
                        assert(before.tables[t].push(row) == before.tables[t] + seq![row]);
                    } else {
                        assert(before.tables[t] + Seq::<Row>::empty() == before.tables[t]);
                    }
                },
                StatementView::BulkInsert { table, rows } => {
                    if table != t {
                        assert(before.tables[t] + Seq::<Row>::empty() == before.tables[t]);
                    }
                },
            }
        }
        assert(after.tables =~= with_inserted(store, statements).tables);
    }
}

/// The rows that a single statement inserts.
pub proof fn lemma_inserted_single(statement: StatementView, t: Table)
    ensures
        inserted(seq![statement], t) == rows_in(statement, t),
{
    let one = seq![statement];
    assert(one.drop_last() == Seq::<StatementView>::empty());
    assert(inserted(one.drop_last(), t) == Seq::<Row>::empty());
    assert(one.last() == statement);
    assert(Seq::<Row>::empty() + rows_in(statement, t) == rows_in(statement, t));
}

/// What a single statement makes of a store.
pub proof fn lemma_run_single(store: Store, statement: StatementView)
    ensures
        run(store, seq![statement]) == run_statement(store, statement),
{
    let one = seq![statement];
    assert(one.drop_last() == Seq::<StatementView>::empty());
    assert(run(store, one.drop_last()) == Some(store));
    assert(one.last() == statement);
}

/// The rows that one insert for each of the given rows puts into a table.
pub proof fn lemma_inserted_one_by_one(table: Table, rows: Seq<Row>, t: Table)
    ensures
        inserted(Seq::new(rows.len(), |i: int| StatementView::Insert { table, row: rows[i] }), t)
            == if t == table {
            rows
        } else {
            Seq::empty()
        },
    decreases rows.len(),
{
    let statements = Seq::new(rows.len(), |i: int| StatementView::Insert { table, row: rows[i] });
    if rows.len() > 0 {
        let shorter = rows.drop_last();
        lemma_inserted_one_by_one(table, shorter, t);
        assert(statements.drop_last() == Seq::new(
            shorter.len(),
            |i: int| StatementView::Insert { table, row: shorter[i] },
        ));
        if t == table {
            assert(shorter + seq![rows.last()] == rows);
        } else {
            assert(Seq::<Row>::empty() + Seq::<Row>::empty() == Seq::<Row>::empty());
        }
    }
}

/// The rows that an insert of all the given rows at once puts into a table.
pub proof fn lemma_inserted_batch(table: Table, rows: Seq<Row>, t: Table)
    ensures
        inserted(batch_plan(table, rows), t) == if t == table {
            rows
        } else {
            Seq::empty()
        },
{
    let plan = batch_plan(table, rows);
    if rows.len() > 0 {
        assert(plan.drop_last() == Seq::<StatementView>::empty());
        assert(inserted(plan.drop_last(), t) == Seq::<Row>::empty());
        assert(Seq::<Row>::empty() + rows_in(plan.last(), t) == rows_in(plan.last(), t));
    } else {
        assert(rows == Seq::<Row>::empty());
    }
}

/// The rows of the relationships of an account.
pub open spec fn relationship_rows(u: UserView) -> Seq<Row> {
    Seq::new(u.relationships.len(), |i: int| relationship_row(u.id, u.relationships[i]))
}

/// The rows that the load of an account leaves in a table.
pub open spec fn account_rows(u: UserView, t: Table) -> Seq<Row> {
    match t {
        Table::Account => seq![account_row(u)],
        Table::Relationship => relationship_rows(u),
        _ => Seq::empty(),
    }
}

/// The rows of the servers.
pub open spec fn server_rows(servers: Seq<ServerView>, t: Table) -> Seq<Row> {
    match t {
        Table::Server => Seq::new(servers.len(), |i: int| server_row(servers[i])),
        _ => Seq::empty(),
    }
}

/// The rows of the messages of a channel, in the order of the messages.
pub open spec fn message_rows(c: ChannelView) -> Seq<Row> {
    Seq::new(c.messages.len(), |i: int| message_row(c.id, c.messages[i]))
}

/// The rows that the load of one channel leaves in a table.
pub open spec fn channel_rows(c: ChannelView, t: Table) -> Seq<Row> {
    match t {
        Table::Channel => seq![channel_row(c)],
        Table::Message => message_rows(c),
        Table::ChannelRecipient => recipient_rows(c),
        _ => Seq::empty(),
    }
}

/// The rows that the load of the channels leaves in a table: those of the first
/// channel, then those of the second, and so on.
pub open spec fn channels_rows(channels: Seq<ChannelView>, t: Table) -> Seq<Row>
    decreases channels.len(),
{
    if channels.len() == 0 {
        Seq::empty()
    } else {
        channels_rows(channels.drop_last(), t) + channel_rows(channels.last(), t)
    }
}

/// The rows that the load of one activity event leaves in a table.
pub open spec fn activity_rows(category: ActivityType, a: ActivityView, t: Table) -> Seq<Row> {
    match t {
        Table::Activity => seq![activity_row(category, a)],
        Table::AcceptedLanguages => pair_rows(a.event_id, a.accepted_languages),
        Table::AcceptedLanguagesWeighted => pair_rows(a.event_id, a.accepted_languages_weighted),
        _ => Seq::empty(),
    }
}

/// The rows that the load of the events of one category leaves in a table.
pub open spec fn category_rows(
    category: ActivityType,
    activities: Seq<ActivityView>,
    t: Table,
) -> Seq<Row>
    decreases activities.len(),
{
    if activities.len() == 0 {
        Seq::empty()
    } else {
        category_rows(category, activities.drop_last(), t) + activity_rows(
            category,
            activities.last(),
            t,
        )
    }
}

/// The rows that the load of the events of every category leaves in a table.
pub open spec fn activities_rows(groups: Seq<(ActivityType, Seq<ActivityView>)>, t: Table) -> Seq<
    Row,
>
    decreases groups.len(),
{
    if groups.len() == 0 {
        Seq::empty()
    } else {
        activities_rows(groups.drop_last(), t) + category_rows(
            groups.last().0,
            groups.last().1,
            t,
        )
    }
}

/// The rows that a whole load leaves in a table.
pub open spec fn loaded_rows(data: ParserResultView, t: Table) -> Seq<Row> {
    account_rows(data.account, t) + server_rows(data.servers, t) + channels_rows(
        data.channels,
        t,
    ) + activities_rows(data.activities, t)
}

/// The store after a load: every table of the schema, with the rows of the load.
pub open spec fn loaded_store(data: ParserResultView) -> Store {
    Store { tables: Map::new(|t: Table| true, |t: Table| loaded_rows(data, t)) }
}

/// The statements of a load after the reset.
pub open spec fn insert_plan(data: ParserResultView) -> Seq<StatementView> {
    account_plan(data.account) + servers_plan(data.servers) + channels_plan(data.channels)
        + activities_plan(data.activities)
}

/// The statements of the account insert the rows of the account.
proof fn lemma_account_plan(u: UserView, t: Table)
    ensures
        inserted(account_plan(u), t) == account_rows(u, t),
        well_formed_inserts(account_plan(u)),
{
    let head = seq![StatementView::Insert { table: Table::Account, row: account_row(u) }];
    let rows = relationship_rows(u);
    let tail = Seq::new(
        rows.len(),
        |i: int| StatementView::Insert { table: Table::Relationship, row: rows[i] },
    );
    assert(account_plan(u) =~= head + tail);
    lemma_inserted_concat(head, tail, t);
    lemma_inserted_one_by_one(Table::Relationship, rows, t);
    lemma_inserted_single(head[0], t);
    assert(inserted(account_plan(u), t) =~= account_rows(u, t));
}

/// An insert of rows at once is well formed where every row has the table's number of
/// values.
proof fn lemma_batch_well_formed(table: Table, rows: Seq<Row>)
    requires
        forall|i: int| 0 <= i < rows.len() ==> (#[trigger] rows[i]).len() == table.arity(),
    ensures
        well_formed_inserts(batch_plan(table, rows)),
{
}

/// The statements of the servers insert the rows of the servers.
proof fn lemma_servers_plan(servers: Seq<ServerView>, t: Table)
    ensures
        inserted(servers_plan(servers), t) == server_rows(servers, t),
        well_formed_inserts(servers_plan(servers)),
{
    let rows = Seq::new(servers.len(), |i: int| server_row(servers[i]));
    lemma_inserted_batch(Table::Server, rows, t);
    lemma_batch_well_formed(Table::Server, rows);
}

/// Well-formed inserts, one sequence after the other, are well-formed inserts.
proof fn lemma_well_formed_concat(a: Seq<StatementView>, b: Seq<StatementView>)
    requires
        well_formed_inserts(a),
        well_formed_inserts(b),
    ensures
        well_formed_inserts(a + b),
{
    assert forall|i: int| 0 <= i < (a + b).len() implies well_formed_insert(
        #[trigger] (a + b)[i],
    ) by {
        if i < a.len() {
            assert((a + b)[i] == a[i]);
        } else {
            assert((a + b)[i] == b[i - a.len()]);
        }
    }
}

/// The statements of one channel insert the rows of the channel.
proof fn lemma_channel_plan(c: ChannelView, t: Table)
    ensures
        inserted(channel_plan(c), t) == channel_rows(c, t),
        well_formed_inserts(channel_plan(c)),
{
    let head = seq![StatementView::Insert { table: Table::Channel, row: channel_row(c) }];
    let rows = message_rows(c);
    let middle = Seq::new(
        rows.len(),
        |i: int| StatementView::Insert { table: Table::Message, row: rows[i] },
    );
    let tail = batch_plan(Table::ChannelRecipient, recipient_rows(c));
    assert(channel_plan(c) =~= head + middle + tail);
    lemma_inserted_concat(head, middle, t);
    lemma_inserted_concat(head + middle, tail, t);
    lemma_inserted_one_by_one(Table::Message, rows, t);
    lemma_inserted_batch(Table::ChannelRecipient, recipient_rows(c), t);
    lemma_inserted_single(head[0], t);
    assert(inserted(channel_plan(c), t) =~= channel_rows(c, t));
    lemma_batch_well_formed(Table::ChannelRecipient, recipient_rows(c));
    lemma_well_formed_concat(head, middle);
    lemma_well_formed_concat(head + middle, tail);
}

/// The statements of the channels insert the rows of the channels.
proof fn lemma_channels_plan(channels: Seq<ChannelView>, t: Table)
    ensures
        inserted(channels_plan(channels), t) == channels_rows(channels, t),
        well_formed_inserts(channels_plan(channels)),
    decreases channels.len(),
{
    if channels.len() > 0 {
        lemma_channels_plan(channels.drop_last(), t);
        lemma_channel_plan(channels.last(), t);
        lemma_inserted_concat(
            channels_plan(channels.drop_last()),
            channel_plan(channels.last()),
            t,
        );
        lemma_well_formed_concat(
            channels_plan(channels.drop_last()),
            channel_plan(channels.last()),
        );
    }
}

/// The statements of one activity event insert the rows of the event.
proof fn lemma_activity_plan(category: ActivityType, a: ActivityView, t: Table)
    ensures
        inserted(activity_plan(category, a), t) == activity_rows(category, a, t),
        well_formed_inserts(activity_plan(category, a)),
{
    let head = seq![
        StatementView::Insert { table: Table::Activity, row: activity_row(category, a) },
    ];
    let middle = batch_plan(Table::AcceptedLanguages, pair_rows(a.event_id, a.accepted_languages));
    let tail = batch_plan(
        Table::AcceptedLanguagesWeighted,
        pair_rows(a.event_id, a.accepted_languages_weighted),
    );
    assert(activity_plan(category, a) =~= head + middle + tail);
    lemma_inserted_concat(head, middle, t);
    lemma_inserted_concat(head + middle, tail, t);
    lemma_inserted_batch(Table::AcceptedLanguages, pair_rows(a.event_id, a.accepted_languages), t);
    lemma_inserted_batch(
        Table::AcceptedLanguagesWeighted,
        pair_rows(a.event_id, a.accepted_languages_weighted),
        t,
    );
    lemma_inserted_single(head[0], t);
    assert(inserted(activity_plan(category, a), t) =~= activity_rows(category, a, t));
    lemma_batch_well_formed(
        Table::AcceptedLanguages,
        pair_rows(a.event_id, a.accepted_languages),
    );
    lemma_batch_well_formed(
        Table::AcceptedLanguagesWeighted,
        pair_rows(a.event_id, a.accepted_languages_weighted),
    );
    lemma_well_formed_concat(head, middle);
    lemma_well_formed_concat(head + middle, tail);
}

/// The statements of the events of one category insert the rows of these events.
proof fn lemma_category_plan(category: ActivityType, activities: Seq<ActivityView>, t: Table)
    ensures
        inserted(category_plan(category, activities), t) == category_rows(category, activities, t),
        well_formed_inserts(category_plan(category, activities)),
    decreases activities.len(),
{
    if activities.len() > 0 {
        lemma_category_plan(category, activities.drop_last(), t);
        lemma_activity_plan(category, activities.last(), t);
        lemma_inserted_concat(
            category_plan(category, activities.drop_last()),
            activity_plan(category, activities.last()),
            t,
        );
        lemma_well_formed_concat(
            category_plan(category, activities.drop_last()),
            activity_plan(category, activities.last()),
        );
    }
}

/// The statements of the events of every category insert the rows of all events.
proof fn lemma_activities_plan(groups: Seq<(ActivityType, Seq<ActivityView>)>, t: Table)
    ensures
        inserted(activities_plan(groups), t) == activities_rows(groups, t),
        well_formed_inserts(activities_plan(groups)),
    decreases groups.len(),
{
    if groups.len() > 0 {
        lemma_activities_plan(groups.drop_last(), t);
        lemma_category_plan(groups.last().0, groups.last().1, t);
        lemma_inserted_concat(
            activities_plan(groups.drop_last()),
            category_plan(groups.last().0, groups.last().1),
            t,
        );
        lemma_well_formed_concat(
            activities_plan(groups.drop_last()),
            category_plan(groups.last().0, groups.last().1),
        );
    }
}

/// The statements of a load after the reset are well-formed inserts, and the rows they
/// insert into a table are the rows of the load.
pub proof fn lemma_insert_plan(data: ParserResultView, t: Table)
    ensures
        inserted(insert_plan(data), t) == loaded_rows(data, t),
        well_formed_inserts(insert_plan(data)),
{
    let a = account_plan(data.account);
    let b = servers_plan(data.servers);
    let c = channels_plan(data.channels);
    let d = activities_plan(data.activities);
    lemma_account_plan(data.account, t);
    lemma_servers_plan(data.servers, t);
    lemma_channels_plan(data.channels, t);
    lemma_activities_plan(data.activities, t);
    lemma_inserted_concat(a, b, t);
    lemma_inserted_concat(a + b, c, t);
    lemma_inserted_concat(a + b + c, d, t);
    lemma_well_formed_concat(a, b);
    lemma_well_formed_concat(a + b, c);
    lemma_well_formed_concat(a + b + c, d);
}

/// A whole load, run on any store that accepts its statements as the model describes,
/// is never refused for the shape of a statement, and leaves in every table exactly the
/// rows of the load, in the order of the records: nothing that the store held before
/// stays.
pub proof fn lemma_save_outcome(store: Store, data: ParserResultView)
    ensures
        run(store, save_plan(data)) == Some(loaded_store(data)),
{
    let reset = seq![StatementView::Reset];
    let inserts = insert_plan(data);
    assert(save_plan(data) =~= reset + inserts);
    lemma_run_concat(store, reset, inserts);
    lemma_run_single(store, StatementView::Reset);
    lemma_reset_empties(store);
    assert(run(store, reset) == Some(empty_store()));
    lemma_insert_plan(data, Table::Account);
    lemma_run_inserts(empty_store(), inserts);
    assert forall|t: Table| #[trigger]
        with_inserted(empty_store(), inserts).tables[t] == loaded_rows(data, t) by {
        lemma_insert_plan(data, t);
        assert(Seq::<Row>::empty() + inserted(inserts, t) == inserted(inserts, t));
    }
    assert(with_inserted(empty_store(), inserts).tables =~= loaded_store(data).tables);
}

/// The load of the channels leaves rows in the tables of the channels alone.
pub proof fn lemma_channels_rows_elsewhere(channels: Seq<ChannelView>, t: Table)
    requires
        t != Table::Channel,
        t != Table::Message,
        t != Table::ChannelRecipient,
    ensures
        channels_rows(channels, t) == Seq::<Row>::empty(),
    decreases channels.len(),
{
    if channels.len() > 0 {
        lemma_channels_rows_elsewhere(channels.drop_last(), t);
        assert(Seq::<Row>::empty() + Seq::<Row>::empty() == Seq::<Row>::empty());
    }
}

/// The load of the events of one category leaves rows in the tables of the events alone.
pub proof fn lemma_category_rows_elsewhere(
    category: ActivityType,
    activities: Seq<ActivityView>,
    t: Table,
)
    requires
        t != Table::Activity,
        t != Table::AcceptedLanguages,
        t != Table::AcceptedLanguagesWeighted,
    ensures
        category_rows(category, activities, t) == Seq::<Row>::empty(),
    decreases activities.len(),
{
    if activities.len() > 0 {
        lemma_category_rows_elsewhere(category, activities.drop_last(), t);
        assert(Seq::<Row>::empty() + Seq::<Row>::empty() == Seq::<Row>::empty());
    }
}

/// The load of the events leaves rows in the tables of the events alone.
pub proof fn lemma_activities_rows_elsewhere(
    groups: Seq<(ActivityType, Seq<ActivityView>)>,
    t: Table,
)
    requires
        t != Table::Activity,
        t != Table::AcceptedLanguages,
        t != Table::AcceptedLanguagesWeighted,
    ensures
        activities_rows(groups, t) == Seq::<Row>::empty(),
    decreases groups.len(),
{
    if groups.len() > 0 {
        lemma_activities_rows_elsewhere(groups.drop_last(), t);
        lemma_category_rows_elsewhere(groups.last().0, groups.last().1, t);
        assert(Seq::<Row>::empty() + Seq::<Row>::empty() == Seq::<Row>::empty());
    }
}

/// After a load, on whatever store it ran, the table of accounts holds one row, that of
/// the account, and the table of relationships holds one row for each relationship of
/// the account, in their order, each with the identifier of the account in its column
/// `account_id`.
pub proof fn lemma_account_round_trip(store: Store, data: ParserResultView)
    ensures
        run(store, save_plan(data)) is Some,
        run(store, save_plan(data))->0.tables[Table::Account] == seq![account_row(data.account)],
        run(store, save_plan(data))->0.tables[Table::Relationship] == relationship_rows(
            data.account,
        ),
        relationship_rows(data.account).len() == data.account.relationships.len(),
        Table::Relationship.column_texts()[0] == "account_id"@,
        Table::Account.column_texts()[0] == "id"@,
        account_row(data.account)[0] == SqlValueView::Text(data.account.id),
        forall|i: int|
            0 <= i < data.account.relationships.len() ==> (#[trigger] relationship_rows(
                data.account,
            )[i])[0] == SqlValueView::Text(data.account.id),
{
    lemma_save_outcome(store, data);
    lemma_channels_rows_elsewhere(data.channels, Table::Account);
    lemma_channels_rows_elsewhere(data.channels, Table::Relationship);
    lemma_activities_rows_elsewhere(data.activities, Table::Account);
    lemma_activities_rows_elsewhere(data.activities, Table::Relationship);
    assert(loaded_rows(data, Table::Account) =~= seq![account_row(data.account)]);
    assert(loaded_rows(data, Table::Relationship) =~= relationship_rows(data.account));
}

/// The number of messages in the first `k` channels.
pub open spec fn messages_before(channels: Seq<ChannelView>, k: int) -> int
    decreases k,
{
    if k <= 0 {
        0
    } else {
        messages_before(channels, k - 1) + channels[k - 1].messages.len()
    }
}

/// The message rows of the channels hold, from the place after the messages of the
/// channels before it, the rows of the messages of channel `k`, in their order.
pub proof fn lemma_channel_messages_in_order(channels: Seq<ChannelView>, k: int)
    requires
        0 <= k < channels.len(),
    ensures
        channels_rows(channels, Table::Message).len() == messages_before(
            channels,
            channels.len() as int,
        ),
        0 <= messages_before(channels, k),
        messages_before(channels, k) + channels[k].messages.len() <= channels_rows(
            channels,
            Table::Message,
        ).len(),
        channels_rows(channels, Table::Message).subrange(
            messages_before(channels, k),
            messages_before(channels, k) + channels[k].messages.len(),
        ) == message_rows(channels[k]),
    decreases channels.len(),
{
    let shorter = channels.drop_last();
    let n = channels.len() as int;
    lemma_messages_before_prefix(channels, n - 1);
    lemma_messages_total(shorter);
    lemma_messages_total(channels);
    lemma_messages_before_nonnegative(channels, k);
    let all = channels_rows(channels, Table::Message);
    let front = channels_rows(shorter, Table::Message);
    if k == n - 1 {
        assert(all.subrange(front.len() as int, all.len() as int) =~= message_rows(channels[k]));
    } else {
        lemma_channel_messages_in_order(shorter, k);
        lemma_messages_before_prefix(channels, k);
        let from = messages_before(shorter, k);
        let to = from + shorter[k].messages.len();
        assert(all.subrange(from, to) =~= front.subrange(from, to));
    }
}

/// The number of messages in the first channels is not negative.
proof fn lemma_messages_before_nonnegative(channels: Seq<ChannelView>, k: int)
    ensures
        0 <= messages_before(channels, k),
    decreases k,
{
    if k > 0 {
        lemma_messages_before_nonnegative(channels, k - 1);
    }
}

/// The number of messages in the first `k` channels does not depend on the channels after
/// them.
proof fn lemma_messages_before_prefix(channels: Seq<ChannelView>, k: int)
    requires
        0 <= k < channels.len(),
    ensures
        messages_before(channels.drop_last(), k) == messages_before(channels, k),
    decreases k,
{
    if k > 0 {
        lemma_messages_before_prefix(channels, k - 1);
    }
}

/// The channels have as many message rows as they have messages.
proof fn lemma_messages_total(channels: Seq<ChannelView>)
    ensures
        channels_rows(channels, Table::Message).len() == messages_before(
            channels,
            channels.len() as int,
        ),
    decreases channels.len(),
{
    if channels.len() > 0 {
        lemma_messages_total(channels.drop_last());
        lemma_messages_before_prefix(channels, channels.len() - 1);
    }
}

/// After a load, the table of messages holds the rows of the messages alone: those of
/// the first channel in the order of its messages, then those of the second, and so on.
/// For an export of one channel these are the rows of its messages, in their order.
pub proof fn lemma_message_order(store: Store, data: ParserResultView)
    ensures
        run(store, save_plan(data)) is Some,
        run(store, save_plan(data))->0.tables[Table::Message] == channels_rows(
            data.channels,
            Table::Message,
        ),
        data.channels.len() == 1 ==> run(store, save_plan(data))->0.tables[Table::Message]
            == message_rows(data.channels[0]),
{
    lemma_save_outcome(store, data);
    lemma_activities_rows_elsewhere(data.activities, Table::Message);
    assert(loaded_rows(data, Table::Message) =~= channels_rows(data.channels, Table::Message));
    if data.channels.len() == 1 {
        assert(data.channels.drop_last() == Seq::<ChannelView>::empty());
        assert(channels_rows(data.channels.drop_last(), Table::Message) == Seq::<Row>::empty());
        assert(Seq::<Row>::empty() + message_rows(data.channels[0]) == message_rows(
            data.channels[0],
        ));
    }
}

/// The load of channels that name no recipients leaves no row of recipients.
pub proof fn lemma_no_recipients_no_rows(channels: Seq<ChannelView>)
    requires
        forall|i: int| 0 <= i < channels.len() ==> (#[trigger] channels[i]).recipients is None,
    ensures
        channels_rows(channels, Table::ChannelRecipient) == Seq::<Row>::empty(),
    decreases channels.len(),
{
    if channels.len() > 0 {
        let shorter = channels.drop_last();
        assert forall|i: int| 0 <= i < shorter.len() implies (#[trigger] shorter[i]).recipients
            is None by {
            assert(shorter[i] == channels[i]);
        }
        lemma_no_recipients_no_rows(shorter);
        assert(channels.last() == channels[channels.len() - 1]);
        assert(Seq::<Row>::empty() + Seq::<Row>::empty() == Seq::<Row>::empty());
    }
}

/// A load is never refused for a field that is left out. Where no channel names
/// recipients, the table of recipients stays without rows; a message without contents
/// gets a row whose column `contents` holds the null value.
pub proof fn lemma_optional_fields(store: Store, data: ParserResultView)
    ensures
        run(store, save_plan(data)) is Some,
        (forall|i: int| 0 <= i < data.channels.len() ==> (#[trigger] data.channels[i]).recipients
            is None) ==> run(store, save_plan(data))->0.tables[Table::ChannelRecipient]
            == Seq::<Row>::empty(),
        Table::Message.column_texts()[3] == "contents"@,
        forall|c: ChannelView, i: int|
            0 <= i < c.messages.len() && c.messages[i].contents is None ==> (
            #[trigger] message_rows(c)[i])[3] == SqlValueView::Null,
        forall|c: ChannelView|
            c.recipients is None ==> #[trigger] channel_rows(c, Table::ChannelRecipient)
                == Seq::<Row>::empty(),
{
    lemma_save_outcome(store, data);
    lemma_activities_rows_elsewhere(data.activities, Table::ChannelRecipient);
    assert(loaded_rows(data, Table::ChannelRecipient) =~= channels_rows(
        data.channels,
        Table::ChannelRecipient,
    ));
    if forall|i: int| 0 <= i < data.channels.len() ==> (#[trigger] data.channels[i]).recipients
        is None {
        lemma_no_recipients_no_rows(data.channels);
    }
}

/// Whether every row of `children` holds, in its column `column`, a value that some row
/// of `parents` holds in its column `key`.
pub open spec fn refers(children: Seq<Row>, column: int, parents: Seq<Row>, key: int) -> bool {
    forall|i: int|
        0 <= i < children.len() ==> holds_key(parents, key, (#[trigger] children[i])[column])
}

/// Whether some row holds the value in its column `key`.
pub open spec fn holds_key(rows: Seq<Row>, key: int, value: SqlValueView) -> bool {
    exists|k: int| 0 <= k < rows.len() && (#[trigger] rows[k])[key] == value
}

/// Rows that refer to rows, followed by rows that refer to other rows, refer to the rows
/// of both.
proof fn lemma_refers_concat(
    a: Seq<Row>,
    b: Seq<Row>,
    column: int,
    p: Seq<Row>,
    q: Seq<Row>,
    key: int,
)
    requires
        refers(a, column, p, key),
        refers(b, column, q, key),
    ensures
        refers(a + b, column, p + q, key),
{
    assert forall|i: int| 0 <= i < (a + b).len() implies holds_key(
        p + q,
        key,
        (#[trigger] (a + b)[i])[column],
    ) by {
        if i < a.len() {
            assert((a + b)[i] == a[i]);
            assert(holds_key(p, key, a[i][column]));
            let k = choose|k: int| 0 <= k < p.len() && (#[trigger] p[k])[key] == a[i][column];
            assert((p + q)[k] == p[k]);
        } else {
            assert((a + b)[i] == b[i - a.len()]);
            assert(holds_key(q, key, b[i - a.len()][column]));
            let k = choose|k: int|
                0 <= k < q.len() && (#[trigger] q[k])[key] == b[i - a.len()][column];
            assert((p + q)[p.len() + k] == q[k]);
        }
    }
}

/// The rows of the messages and recipients of a channel refer to the row of the channel.
proof fn lemma_channel_refers(c: ChannelView)
    ensures
        refers(channel_rows(c, Table::Message), 1, channel_rows(c, Table::Channel), 0),
        refers(channel_rows(c, Table::ChannelRecipient), 0, channel_rows(c, Table::Channel), 0),
{
    let parents = channel_rows(c, Table::Channel);
    assert(parents[0][0] == SqlValueView::Text(c.id));
    assert forall|i: int| 0 <= i < message_rows(c).len() implies holds_key(
        parents,
        0,
        (#[trigger] message_rows(c)[i])[1],
    ) by {
        assert(parents[0][0] == message_rows(c)[i][1]);
    }
    assert forall|i: int| 0 <= i < recipient_rows(c).len() implies holds_key(
        parents,
        0,
        (#[trigger] recipient_rows(c)[i])[0],
    ) by {
        assert(parents[0][0] == recipient_rows(c)[i][0]);
    }
}

/// The rows of the messages and recipients of the channels refer to the rows of the
/// channels.
proof fn lemma_channels_refer(channels: Seq<ChannelView>)
    ensures
        refers(
            channels_rows(channels, Table::Message),
            1,
            channels_rows(channels, Table::Channel),
            0,
        ),
        refers(
            channels_rows(channels, Table::ChannelRecipient),
            0,
            channels_rows(channels, Table::Channel),
            0,
        ),
    decreases channels.len(),
{
    if channels.len() > 0 {
        let shorter = channels.drop_last();
        let c = channels.last();
        lemma_channels_refer(shorter);
        lemma_channel_refers(c);
        lemma_refers_concat(
            channels_rows(shorter, Table::Message),
            channel_rows(c, Table::Message),
            1,
            channels_rows(shorter, Table::Channel),
            channel_rows(c, Table::Channel),
            0,
        );
        lemma_refers_concat(
            channels_rows(shorter, Table::ChannelRecipient),
            channel_rows(c, Table::ChannelRecipient),
            0,
            channels_rows(shorter, Table::Channel),
            channel_rows(c, Table::Channel),
            0,
        );
    }
}

/// The rows of the languages of an activity event refer to the row of the event.
proof fn lemma_activity_refers(category: ActivityType, a: ActivityView)
    ensures
        refers(
            activity_rows(category, a, Table::AcceptedLanguages),
            0,
            activity_rows(category, a, Table::Activity),
            0,
        ),
        refers(
            activity_rows(category, a, Table::AcceptedLanguagesWeighted),
            0,
            activity_rows(category, a, Table::Activity),
            0,
        ),
{
    let parents = activity_rows(category, a, Table::Activity);
    assert(parents[0][0] == SqlValueView::Text(a.event_id));
    let plain = pair_rows(a.event_id, a.accepted_languages);
    let weighted = pair_rows(a.event_id, a.accepted_languages_weighted);
    assert forall|i: int| 0 <= i < plain.len() implies holds_key(
        parents,
        0,
        (#[trigger] plain[i])[0],
    ) by {
        assert(parents[0][0] == plain[i][0]);
    }
    assert forall|i: int| 0 <= i < weighted.len() implies holds_key(
        parents,
        0,
        (#[trigger] weighted[i])[0],
    ) by {
        assert(parents[0][0] == weighted[i][0]);
    }
}

/// The rows of the languages of the events of one category refer to the rows of these
/// events.
proof fn lemma_category_refers(category: ActivityType, activities: Seq<ActivityView>)
    ensures
        refers(
            category_rows(category, activities, Table::AcceptedLanguages),
            0,
            category_rows(category, activities, Table::Activity),
            0,
        ),
        refers(
            category_rows(category, activities, Table::AcceptedLanguagesWeighted),
            0,
            category_rows(category, activities, Table::Activity),
            0,
        ),
    decreases activities.len(),
{
    if activities.len() > 0 {
        let shorter = activities.drop_last();
        let a = activities.last();
        lemma_category_refers(category, shorter);
        lemma_activity_refers(category, a);
        lemma_refers_concat(
            category_rows(category, shorter, Table::AcceptedLanguages),
            activity_rows(category, a, Table::AcceptedLanguages),
            0,
            category_rows(category, shorter, Table::Activity),
            activity_rows(category, a, Table::Activity),
            0,
        );
        lemma_refers_concat(
            category_rows(category, shorter, Table::AcceptedLanguagesWeighted),
            activity_rows(category, a, Table::AcceptedLanguagesWeighted),
            0,
            category_rows(category, shorter, Table::Activity),
            activity_rows(category, a, Table::Activity),
            0,
        );
    }
}

/// The rows of the languages of all events refer to the rows of the events.
proof fn lemma_activities_refer(groups: Seq<(ActivityType, Seq<ActivityView>)>)
    ensures
        refers(
            activities_rows(groups, Table::AcceptedLanguages),
            0,
            activities_rows(groups, Table::Activity),
            0,
        ),
        refers(
            activities_rows(groups, Table::AcceptedLanguagesWeighted),
            0,
            activities_rows(groups, Table::Activity),
            0,
        ),
    decreases groups.len(),
{
    if groups.len() > 0 {
        let shorter = groups.drop_last();
        let g = groups.last();
        lemma_activities_refer(shorter);
        lemma_category_refers(g.0, g.1);
        lemma_refers_concat(
            activities_rows(shorter, Table::AcceptedLanguages),
            category_rows(g.0, g.1, Table::AcceptedLanguages),
            0,
            activities_rows(shorter, Table::Activity),
            category_rows(g.0, g.1, Table::Activity),
            0,
        );
        lemma_refers_concat(
            activities_rows(shorter, Table::AcceptedLanguagesWeighted),
            category_rows(g.0, g.1, Table::AcceptedLanguagesWeighted),
            0,
            activities_rows(shorter, Table::Activity),
            category_rows(g.0, g.1, Table::Activity),
            0,
        );
    }
}

/// After a load, every row that belongs to a record refers to the row of that record:
/// a relationship to the account, a message and a recipient to their channel, an
/// accepted language to its activity event. The column that refers and the column
/// referred to hold the same identifier.
pub proof fn lemma_rows_refer_to_their_parents(data: ParserResultView)
    ensures
        refers(loaded_rows(data, Table::Relationship), 0, loaded_rows(data, Table::Account), 0),
        refers(loaded_rows(data, Table::Message), 1, loaded_rows(data, Table::Channel), 0),
        refers(loaded_rows(data, Table::ChannelRecipient), 0, loaded_rows(data, Table::Channel), 0),
        refers(loaded_rows(data, Table::AcceptedLanguages), 0, loaded_rows(data, Table::Activity), 0),
        refers(
            loaded_rows(data, Table::AcceptedLanguagesWeighted),
            0,
            loaded_rows(data, Table::Activity),
            0,
        ),
        Table::Relationship.column_texts()[0] == "account_id"@,
        Table::Account.column_texts()[0] == "id"@,
        Table::Message.column_texts()[1] == "channel_id"@,
        Table::ChannelRecipient.column_texts()[0] == "channel_id"@,
        Table::Channel.column_texts()[0] == "id"@,
        Table::AcceptedLanguages.column_texts()[0] == "event_id"@,
        Table::AcceptedLanguagesWeighted.column_texts()[0] == "event_id"@,
        Table::Activity.column_texts()[0] == "event_id"@,
{
    lemma_channels_rows_elsewhere(data.channels, Table::Account);
    lemma_channels_rows_elsewhere(data.channels, Table::Relationship);
    lemma_channels_rows_elsewhere(data.channels, Table::Activity);
    lemma_channels_rows_elsewhere(data.channels, Table::AcceptedLanguages);
    lemma_channels_rows_elsewhere(data.channels, Table::AcceptedLanguagesWeighted);
    lemma_activities_rows_elsewhere(data.activities, Table::Account);
    lemma_activities_rows_elsewhere(data.activities, Table::Relationship);
    lemma_activities_rows_elsewhere(data.activities, Table::Channel);
    lemma_activities_rows_elsewhere(data.activities, Table::Message);
    lemma_activities_rows_elsewhere(data.activities, Table::ChannelRecipient);
    lemma_channels_refer(data.channels);
    lemma_activities_refer(data.activities);
    assert(loaded_rows(data, Table::Account) =~= seq![account_row(data.account)]);
    assert(loaded_rows(data, Table::Relationship) =~= relationship_rows(data.account));
    assert(loaded_rows(data, Table::Channel) =~= channels_rows(data.channels, Table::Channel));
    assert(loaded_rows(data, Table::Message) =~= channels_rows(data.channels, Table::Message));
    assert(loaded_rows(data, Table::ChannelRecipient) =~= channels_rows(
        data.channels,
        Table::ChannelRecipient,
    ));
    assert(loaded_rows(data, Table::Activity) =~= activities_rows(
        data.activities,
        Table::Activity,
    ));
    assert(loaded_rows(data, Table::AcceptedLanguages) =~= activities_rows(
        data.activities,
        Table::AcceptedLanguages,
    ));
    assert(loaded_rows(data, Table::AcceptedLanguagesWeighted) =~= activities_rows(
        data.activities,
        Table::AcceptedLanguagesWeighted,
    ));
    let accounts = loaded_rows(data, Table::Account);
    assert forall|i: int| 0 <= i < relationship_rows(data.account).len() implies holds_key(
        accounts,
        0,
        (#[trigger] relationship_rows(data.account)[i])[0],
    ) by {
        assert(accounts[0][0] == relationship_rows(data.account)[i][0]);
    }
}

/// From the files of an export to the rows of the store: where an export parses, the
/// load of what was parsed, on whatever store it runs, leaves one row in the table of
/// accounts and as many rows in the table of relationships as the array `relationships`
/// of the account's file has items, each with the identifier of the account in its
/// column `account_id`.
pub proof fn lemma_export_round_trip(files: Seq<FileView>, root: Seq<char>, store: Store)
    requires
        parse_outcome(files, root) is Ok,
    ensures
        document_at(files, account_path(root)) matches Ok(m) && field(m, "relationships"@)
            matches Some(JsonModel::Array(items)) && run(
            store,
            save_plan(parse_outcome(files, root)->Ok_0),
        ) matches Some(after) && after.tables[Table::Account].len() == 1
            && after.tables[Table::Relationship].len() == items.len() && forall|i: int|
            0 <= i < items.len() ==> (#[trigger] after.tables[Table::Relationship][i])[0]
                == after.tables[Table::Account][0][0],
{
    let data = parse_outcome(files, root)->Ok_0;
    let m = document_at(files, account_path(root))->Ok_0;
    lemma_relationships_are_kept(m);
    lemma_account_round_trip(store, data);
    let after = run(store, save_plan(data))->0;
    assert forall|i: int| 0 <= i < data.account.relationships.len() implies (
    #[trigger] after.tables[Table::Relationship][i])[0] == after.tables[Table::Account][0][0] by {
        assert(relationship_rows(data.account)[i][0] == SqlValueView::Text(data.account.id));
    }
}

/// From the message table of a channel to the rows of its messages: where a channel can
/// be read, its table has a header, or no record at all, and the channel gets one row
/// for each record after the header, in the order of the records, each row from the
/// message that its record holds.
pub proof fn lemma_message_rows_follow_table(
    files: Seq<FileView>,
    root: Seq<char>,
    id: Seq<char>,
    name: Option<Seq<char>>,
)
    requires
        channel_at(files, root, id, name) is Ok,
    ensures
        contents_of(files, messages_path(root, id)) matches Some(bytes) && csv_table(bytes)
            matches Some(table) && channel_at(files, root, id, name) matches Ok(c) && (table.len()
            == 0 ==> message_rows(c).len() == 0) && (table.len() > 0 ==> message_rows(c).len()
            == table.len() - 1) && forall|i: int|
            0 <= i < message_rows(c).len() ==> message_of(table[0], table[i + 1]) is Some
                && #[trigger] message_rows(c)[i] == message_row(
                c.id,
                message_of(table[0], table[i + 1])->0,
            ),
{
    let c = channel_at(files, root, id, name)->Ok_0;
    let bytes = contents_of(files, messages_path(root, id))->0;
    let table = csv_table(bytes)->0;
    if table.len() > 0 {
        assert forall|i: int| 0 <= i < message_rows(c).len() implies message_of(
            table[0],
            table[i + 1],
        ) is Some && #[trigger] message_rows(c)[i] == message_row(
            c.id,
            message_of(table[0], table[i + 1])->0,
        ) by {
            assert(message_of(table[0], table[i + 1]) is Some);
        }
    }
}

} // verus!
