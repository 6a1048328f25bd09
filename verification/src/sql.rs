//! Values and text literals of the store's statement language.
use crate::migration::{drop_create_tables, reset_script, Table};
use crate::text::{decimal, decimal_text, integer, integer_text, join, joined, push_char, views};
use vstd::prelude::*;
use vstd::string::StringExecFns;

verus! {

/// The text with every `'` written twice.
pub open spec fn double_quotes(s: Seq<char>) -> Seq<char>
    decreases s.len(),
{
    if s.len() == 0 {
        Seq::empty()
    } else if s.last() == '\'' {
        double_quotes(s.drop_last()).push('\'').push('\'')
    } else {
        double_quotes(s.drop_last()).push(s.last())
    }
}

/// The text literal that stands for `s` in a statement: `s` between two `'`, every `'`
/// inside it written twice.
pub open spec fn text_literal(s: Seq<char>) -> Seq<char> {
    seq!['\''] + double_quotes(s) + seq!['\'']
}

/// The text that a run of literal characters stands for: every `''` read as one `'`.
/// A `'` that stands alone ends a literal, so a run that holds one stands for nothing.
pub open spec fn undouble_quotes(t: Seq<char>) -> Option<Seq<char>>
    decreases t.len(),
{
    if t.len() == 0 {
        Some(Seq::empty())
    } else if t.last() != '\'' {
        match undouble_quotes(t.drop_last()) {
            Some(s) => Some(s.push(t.last())),
            None => None,
        }
    } else if t.len() >= 2 && t[t.len() - 2] == '\'' {
        match undouble_quotes(t.drop_last().drop_last()) {
            Some(s) => Some(s.push('\'')),
            None => None,
        }
    } else {
        None
    }
}

/// The text that a literal stands for, if `lit` is one.
pub open spec fn literal_text(lit: Seq<char>) -> Option<Seq<char>> {
    if lit.len() >= 2 && lit[0] == '\'' && lit.last() == '\'' {
        undouble_quotes(lit.subrange(1, lit.len() - 1))
    } else {
        None
    }
}

/// Doubling the quotes of a text and reading doubled quotes back gives the text.
pub proof fn lemma_undouble_double(s: Seq<char>)
    ensures
        undouble_quotes(double_quotes(s)) == Some(s),
    decreases s.len(),
{
    if s.len() > 0 {
        lemma_undouble_double(s.drop_last());
        let d = double_quotes(s.drop_last());
        if s.last() == '\'' {
            let t = d.push('\'').push('\'');
            assert(t.drop_last().drop_last() == d);
            assert(s.drop_last().push('\'') == s);
        } else {
            let t = d.push(s.last());
            assert(t.drop_last() == d);
            assert(s.drop_last().push(s.last()) == s);
        }
    }
}

/// A text literal is read back as the exact text it was written for, whatever quote
/// characters the text holds.
pub proof fn lemma_literal_round_trip(s: Seq<char>)
    ensures
        literal_text(text_literal(s)) == Some(s),
{
    let lit = text_literal(s);
    assert(lit.subrange(1, lit.len() - 1) == double_quotes(s));
    lemma_undouble_double(s);
}

/// Two texts with the same literal are the same text.
pub proof fn lemma_literal_injective(a: Seq<char>, b: Seq<char>)
    requires
        text_literal(a) == text_literal(b),
    ensures
        a == b,
{
    lemma_literal_round_trip(a);
    lemma_literal_round_trip(b);
}

/// Doubles every `'` of a text.
pub fn escape_quotes(val: &str) -> (out: String)
    ensures
        out@ == double_quotes(val@),
{
    let mut out = String::new();
    for c in it: val.chars()
        invariant
            it.seq() == val@,
            out@ == double_quotes(val@.take(it.index())),
    {
        proof {
            let next = val@.take(it.index() + 1);
            assert(next.drop_last() == val@.take(it.index()));
            assert(next.last() == c);
        }
        if c == '\'' {
            push_char(&mut out, '\'');
            push_char(&mut out, '\'');
        } else {
            push_char(&mut out, c);
        }
    }
    proof {
        assert(val@.take(val@.len() as int) == val@);
    }
    out
}

/// Writes a text as a literal of the statement language.
pub fn str_to_sql_str(val: &str) -> (out: String)
    ensures
        out@ == text_literal(val@),
        literal_text(out@) == Some(val@),
{
    let mut out = String::new();
    push_char(&mut out, '\'');
    let body = escape_quotes(val);
    out.append(body.as_str());
    push_char(&mut out, '\'');
    proof {
        assert(out@ == text_literal(val@));
        lemma_literal_round_trip(val@);
    }
    out
}

/// One value of a row.
#[derive(Debug)]
pub enum SqlValue {
    Null,
    Integer(i64),
    Text(String),
}

/// The mathematical value of a [`SqlValue`].
pub enum SqlValueView {
    Null,
    Integer(i64),
    Text(Seq<char>),
}

impl View for SqlValue {
    type V = SqlValueView;

    open spec fn view(&self) -> SqlValueView {
        match self {
            SqlValue::Null => SqlValueView::Null,
            SqlValue::Integer(n) => SqlValueView::Integer(*n),
            SqlValue::Text(s) => SqlValueView::Text(s@),
        }
    }
}

/// The values of a row.
pub open spec fn value_views(row: Seq<SqlValue>) -> Seq<SqlValueView> {
    Seq::new(row.len(), |i: int| row[i]@)
}

/// The values of a sequence of rows.
pub open spec fn row_views(rows: Seq<Vec<SqlValue>>) -> Seq<Seq<SqlValueView>> {
    Seq::new(rows.len(), |i: int| value_views(rows[i]@))
}

impl SqlValue {
    /// A text value.
    pub fn text(s: &str) -> (v: SqlValue)
        ensures
            v@ == SqlValueView::Text(s@),
    {
        SqlValue::Text(String::from_str(s))
    }

    /// A text value, or the null value for `None`.
    pub fn optional_text(s: &Option<String>) -> (v: SqlValue)
        ensures
            v@ == optional_text_value(s.deep_view()),
    {
        match s {
            Some(s) => SqlValue::Text(s.clone()),
            None => SqlValue::Null,
        }
    }

    /// The integer 1 for `true`, 0 for `false`.
    pub fn boolean(b: bool) -> (v: SqlValue)
        ensures
            v@ == boolean_value(b),
    {
        if b {
            SqlValue::Integer(1)
        } else {
            SqlValue::Integer(0)
        }
    }

    /// A value equal to this one.
    pub fn copy(&self) -> (v: SqlValue)
        ensures
            v@ == self@,
    {
        match self {
            SqlValue::Null => SqlValue::Null,
            SqlValue::Integer(n) => SqlValue::Integer(*n),
            SqlValue::Text(s) => SqlValue::Text(s.clone()),
        }
    }

    /// Writes the value as a literal of the statement language.
    pub fn literal(&self) -> (out: String)
        ensures
            out@ == value_literal(self@),
    {
        match self {
            SqlValue::Null => String::from_str("null"),
            SqlValue::Integer(n) => integer_text(*n),
            SqlValue::Text(s) => str_to_sql_str(s.as_str()),
        }
    }
}

/// The value that stands for a text that may be missing.
pub open spec fn optional_text_value(s: Option<Seq<char>>) -> SqlValueView {
    match s {
        Some(s) => SqlValueView::Text(s),
        None => SqlValueView::Null,
    }
}

/// The value that stands for a boolean.
pub open spec fn boolean_value(b: bool) -> SqlValueView {
    SqlValueView::Integer(
        if b {
            1
        } else {
            0
        },
    )
}

/// The literal that stands for a value in a statement.
pub open spec fn value_literal(v: SqlValueView) -> Seq<char> {
    match v {
        SqlValueView::Null => "null"@,
        SqlValueView::Integer(n) => integer(n as int),
        SqlValueView::Text(s) => text_literal(s),
    }
}

/// A row written out in a statement: the literals of its values in parentheses.
pub open spec fn row_literal(row: Seq<SqlValueView>) -> Seq<char> {
    "("@ + joined(Seq::new(row.len(), |i: int| value_literal(row[i])), ", "@) + ")"@
}

/// A row of `n` parameters: `(?1, ?2, ...)`.
pub open spec fn parameter_list(n: nat) -> Seq<char> {
    "("@ + joined(Seq::new(n, |i: int| "?"@ + decimal((i + 1) as nat)), ", "@) + ")"@
}

/// The start of an insert into a table, up to the rows.
pub open spec fn insert_head(table: Table) -> Seq<char> {
    "insert into "@ + table.name_text() + " ("@ + joined(table.column_texts(), ", "@)
        + ") values "@
}

/// One statement of a load.
#[derive(Debug)]
pub enum Statement {
    /// The script that drops and creates every table.
    Reset,
    /// An insert of one row, whose values are bound as parameters.
    Insert { table: Table, row: Vec<SqlValue> },
    /// An insert of several rows, whose values are written out in the statement.
    BulkInsert { table: Table, rows: Vec<Vec<SqlValue>> },
}

/// The mathematical value of a [`Statement`].
pub enum StatementView {
    Reset,
    Insert { table: Table, row: Seq<SqlValueView> },
    BulkInsert { table: Table, rows: Seq<Seq<SqlValueView>> },
}

impl View for Statement {
    type V = StatementView;

    open spec fn view(&self) -> StatementView {
        match self {
            Statement::Reset => StatementView::Reset,
            Statement::Insert { table, row } => StatementView::Insert {
                table: *table,
                row: value_views(row@),
            },
            Statement::BulkInsert { table, rows } => StatementView::BulkInsert {
                table: *table,
                rows: row_views(rows@),
            },
        }
    }
}

/// The values of a sequence of statements.
pub open spec fn statement_views(statements: Seq<Statement>) -> Seq<StatementView> {
    Seq::new(statements.len(), |i: int| statements[i]@)
}

/// The text of a statement.
pub open spec fn statement_text(statement: StatementView) -> Seq<char> {
    match statement {
        StatementView::Reset => reset_script(),
        StatementView::Insert { table, row } => insert_head(table) + parameter_list(row.len())
            + ";"@,
        StatementView::BulkInsert { table, rows } => insert_head(table) + joined(
            Seq::new(rows.len(), |i: int| row_literal(rows[i])),
            ", "@,
        ) + ";"@,
    }
}

/// The values that a statement binds to its parameters, in their order.
pub open spec fn statement_params(statement: StatementView) -> Seq<SqlValueView> {
    match statement {
        StatementView::Insert { table, row } => row,
        _ => Seq::empty(),
    }
}

/// Writes the start of an insert into a table, up to the rows.
fn write_insert_head(table: Table) -> (out: String)
    ensures
        out@ == insert_head(table),
{
    let names = table.columns();
    let mut columns: Vec<String> = Vec::new();
    let mut i: usize = 0;
    while i < names.len()
        invariant
            i <= names.len(),
            columns@.len() == i,
            names@.len() == table.arity(),
            forall|k: int|
                0 <= k < names@.len() ==> (#[trigger] names@[k])@ == table.column_texts()[k],
            forall|k: int| 0 <= k < i ==> (#[trigger] columns@[k])@ == table.column_texts()[k],
        decreases names.len() - i,
    {
        columns.push(String::from_str(names[i]));
        i += 1;
    }
    assert(views(columns@) =~= table.column_texts());
    let mut out = String::from_str("insert into ");
    out.append(table.name());
    out.append(" (");
    let list = join(&columns, ", ");
    out.append(list.as_str());
    out.append(") values ");
    out
}

/// Writes a row of `n` parameters.
fn write_parameters(n: usize) -> (out: String)
    ensures
        out@ == parameter_list(n as nat),
{
    let mut pieces: Vec<String> = Vec::new();
    let mut i: usize = 0;
    while i < n
        invariant
            i <= n,
            pieces@.len() == i,
            forall|k: int| 0 <= k < i ==> (#[trigger] pieces@[k])@ == "?"@ + decimal((k + 1) as nat),
        decreases n - i,
    {
        let mut piece = String::from_str("?");
        let number = decimal_text(i as u64 + 1);
        piece.append(number.as_str());
        pieces.push(piece);
        i += 1;
    }
    assert(views(pieces@) =~= Seq::new(n as nat, |i: int| "?"@ + decimal((i + 1) as nat)));
    let mut out = String::from_str("(");
    let list = join(&pieces, ", ");
    out.append(list.as_str());
    out.append(")");
    out
}

/// Writes a row out as literals.
fn write_row(row: &Vec<SqlValue>) -> (out: String)
    ensures
        out@ == row_literal(value_views(row@)),
{
    let mut pieces: Vec<String> = Vec::new();
    let mut i: usize = 0;
    while i < row.len()
        invariant
            i <= row.len(),
            pieces@.len() == i,
            forall|k: int| 0 <= k < i ==> (#[trigger] pieces@[k])@ == value_literal(row@[k]@),
        decreases row.len() - i,
    {
        pieces.push(row[i].literal());
        i += 1;
    }
    assert(views(pieces@) =~= Seq::new(
        value_views(row@).len(),
        |i: int| value_literal(value_views(row@)[i]),
    ));
    let mut out = String::from_str("(");
    let list = join(&pieces, ", ");
    out.append(list.as_str());
    out.append(")");
    out
}

impl Statement {
    /// Writes the statement's text.
    pub fn sql(&self) -> (out: String)
        ensures
            out@ == statement_text(self@),
    {
        match self {
            Statement::Reset => drop_create_tables(),
            Statement::Insert { table, row } => {
                let mut out = write_insert_head(*table);
                let values = write_parameters(row.len());
                out.append(values.as_str());
                out.append(";");
                out
            },
            Statement::BulkInsert { table, rows } => {
                let mut pieces: Vec<String> = Vec::new();
                let mut i: usize = 0;
                while i < rows.len()
                    invariant
                        i <= rows.len(),
                        pieces@.len() == i,
                        forall|k: int|
                            0 <= k < i ==> (#[trigger] pieces@[k])@ == row_literal(
                                value_views(rows@[k]@),
                            ),
                    decreases rows.len() - i,
                {
                    pieces.push(write_row(&rows[i]));
                    i += 1;
                }
                assert(views(pieces@) =~= Seq::new(
                    row_views(rows@).len(),
                    |i: int| row_literal(row_views(rows@)[i]),
                ));
                let mut out = write_insert_head(*table);
                let list = join(&pieces, ", ");
                out.append(list.as_str());
                out.append(";");
                out
            },
        }
    }

    /// The values that the statement binds to its parameters, in their order.
    pub fn params(&self) -> (out: Vec<SqlValue>)
        ensures
            value_views(out@) == statement_params(self@),
    {
        let mut out: Vec<SqlValue> = Vec::new();
        match self {
            Statement::Insert { table, row } => {
                let mut i: usize = 0;
                while i < row.len()
                    invariant
                        i <= row.len(),
                        out@.len() == i,
                        forall|k: int| 0 <= k < i ==> (#[trigger] out@[k])@ == row@[k]@,
                    decreases row.len() - i,
                {
                    out.push(row[i].copy());
                    i += 1;
                }
                assert(value_views(out@) =~= value_views(row@));
            },
            _ => {
                assert(value_views(out@) =~= Seq::empty());
            },
        }
        out
    }
}

} // verus!
