use crate::error::EngineError;
use crate::exec::freq::freq::{freq_of_memory, freq_of_pipelines, freq_of_pipelines_new, Freq};
use crate::exec::freq::memory::{
    memory_fault, memory_histogram_of, memory_rows_table, MEMORY_COLUMN,
};
use crate::exec::freq::model::{histogram_of, request_fault, rows_table};
use crate::exec::freq::rel_freq::rel_freq_with_pipelines;
use crate::exec::basic::analyze::{
    concat, concat_fault, concat_record_batches, select_columns, select_fault, tables_view,
};
use crate::utils::record_batch_util::{trace_schema, DataType, Table, TableView};
use crate::utils::sequences::{indices, texts};
use sqlparser::ast::{Expr, SelectItem, SetExpr, Statement};
use sqlparser::dialect::GenericDialect;
use sqlparser::parser::Parser;
use vstd::prelude::*;

verus! {

/// The charts that a query can ask for.
#[derive(Clone, Copy, Debug, PartialEq, Eq, Structural)]
pub enum Chart {
    /// The dense histogram of absolute frequencies.
    AbsoluteFrequency,
    /// The dense histogram of relative frequencies.
    RelativeFrequency,
    /// The sparse histogram of absolute frequencies.
    SparseFrequency,
    /// The memory histogram.
    Memory,
}

impl Chart {
    /// The chart that a code number stands for, as the host passes it.
    pub open spec fn of_code(code: u8) -> Option<Chart> {
        if code == 0 {
            Some(Chart::AbsoluteFrequency)
        } else if code == 1 {
            Some(Chart::RelativeFrequency)
        } else if code == 2 {
            Some(Chart::SparseFrequency)
        } else if code == 3 {
            Some(Chart::Memory)
        } else {
            None
        }
    }

    /// The chart that a code number stands for, if any.
    pub fn from_code(code: u8) -> (chart: Option<Chart>)
        ensures
            chart == Self::of_code(code),
    {
        match code {
            0 => Some(Chart::AbsoluteFrequency),
            1 => Some(Chart::RelativeFrequency),
            2 => Some(Chart::SparseFrequency),
            3 => Some(Chart::Memory),
            _ => None,
        }
    }
}

/// A resolved query: the chart, the columns that it reads, the bucket size,
/// the allow-lists and the window. Times and sizes are decimals, counted in
/// hundredths.
pub struct Query {
    pub chart: Chart,
    pub operator_column: usize,
    pub time_column: usize,
    pub bucket_size: i64,
    pub pipelines: Vec<String>,
    pub operators: Vec<String>,
    pub from: i64,
    pub to: i64,
}

/// What a `Query` stands for.
pub struct QueryView {
    pub chart: Chart,
    pub operator_column: int,
    pub time_column: int,
    pub bucket_size: int,
    pub pipelines: Seq<Seq<char>>,
    pub operators: Seq<Seq<char>>,
    pub from: int,
    pub to: int,
}

impl View for Query {
    type V = QueryView;

    open spec fn view(&self) -> QueryView {
        QueryView {
            chart: self.chart,
            operator_column: self.operator_column as int,
            time_column: self.time_column as int,
            bucket_size: self.bucket_size as int,
            pipelines: texts(self.pipelines@),
            operators: texts(self.operators@),
            from: self.from as int,
            to: self.to as int,
        }
    }
}

impl QueryView {
    /// Which error, if any, the query meets on `table`.
    pub open spec fn fault(self, table: TableView) -> Option<EngineError> {
        match self.chart {
            Chart::Memory => memory_fault(
                table,
                self.operator_column,
                self.time_column,
                self.bucket_size,
                self.from,
                self.to,
            ),
            _ => request_fault(
                table,
                self.operator_column,
                self.time_column,
                self.bucket_size,
                self.from,
                self.to,
            ),
        }
    }

    /// The chart of `table` that the query asks for.
    pub open spec fn chart_of(self, table: TableView) -> TableView {
        let name = table.fields[self.operator_column].name;
        let events = histogram_of(
            table,
            self.operator_column,
            self.time_column,
            self.bucket_size,
            self.pipelines,
            self.operators,
            self.from,
            self.to,
        );
        match self.chart {
            Chart::AbsoluteFrequency => rows_table(name, events.dense(Freq::ABS), Freq::ABS),
            Chart::RelativeFrequency => rows_table(name, events.dense(Freq::REL), Freq::REL),
            Chart::SparseFrequency => rows_table(name, events.sparse(Freq::ABS), Freq::ABS),
            Chart::Memory => memory_rows_table(
                name,
                memory_histogram_of(
                    table,
                    self.operator_column,
                    self.time_column,
                    self.bucket_size,
                    self.from,
                    self.to,
                ).memory_rows(table.columns[MEMORY_COLUMN as int].numbers()),
            ),
        }
    }

    /// What the query gives on `table`: its chart, or the error that it meets.
    pub open spec fn answer(self, table: TableView) -> Result<TableView, EngineError> {
        match self.fault(table) {
            Some(e) => Err(e),
            None => Ok(self.chart_of(table)),
        }
    }
}

/// A copy of a list of strings.
fn copy_list(values: &Vec<String>) -> (out: Vec<String>)
    ensures
        texts(out@) == texts(values@),
{
    let mut out: Vec<String> = Vec::new();
    let mut i: usize = 0;
    while i < values.len()
        invariant
            i <= values@.len(),
            out@.len() == i,
            forall|j: int| 0 <= j < i ==> out@[j]@ == values@[j]@,
        decreases values@.len() - i,
    {
        out.push(values[i].clone());
        i += 1;
    }
    assert(texts(out@) =~= texts(values@));
    out
}

impl Query {
    /// Computes the chart that the query asks for.
    pub fn run(&self, batch: &Table) -> (made: Result<Table, EngineError>)
        requires
            batch.wf(),
        ensures
            match made {
                Ok(table) => table.wf() && self@.answer(batch@) == Ok::<TableView, EngineError>(
                    table@,
                ),
                Err(e) => self@.answer(batch@) == Err::<TableView, EngineError>(e),
            },
    {
        match self.chart {
            Chart::AbsoluteFrequency => freq_of_pipelines(
                batch,
                Freq::ABS,
                self.operator_column,
                self.time_column,
                self.bucket_size,
                copy_list(&self.pipelines),
                copy_list(&self.operators),
                self.from,
                self.to,
            ),
            Chart::RelativeFrequency => rel_freq_with_pipelines(
                batch,
                self.operator_column,
                self.time_column,
                self.bucket_size,
                copy_list(&self.pipelines),
                copy_list(&self.operators),
                self.from,
                self.to,
            ),
            Chart::SparseFrequency => freq_of_pipelines_new(
                batch,
                Freq::ABS,
                self.operator_column,
                self.time_column,
                self.bucket_size,
                copy_list(&self.pipelines),
                copy_list(&self.operators),
                self.from,
                self.to,
            ),
            Chart::Memory => freq_of_memory(
                batch,
                self.operator_column,
                self.time_column,
                self.bucket_size,
                self.from,
                self.to,
            ),
        }
    }
}

/// The columns that a query can name: for each name the number of its
/// column in the table of a loaded file, and the kind of its values.
pub open spec fn column_of(name: Seq<char>) -> Option<(int, DataType)> {
    if name == "operator"@ {
        Some((0, DataType::Utf8))
    } else if name == "ev_name"@ {
        Some((1, DataType::Utf8))
    } else if name == "time"@ {
        Some((2, DataType::Decimal))
    } else if name == "pipeline"@ {
        Some((3, DataType::Utf8))
    } else {
        None
    }
}

/// The columns that a query can name, in the order of their numbers.
pub fn get_dict() -> (dict: Vec<(String, (usize, DataType))>)
    ensures
        dict@.len() == 4,
        forall|i: int|
            0 <= i < 4 ==> column_of((#[trigger] dict@[i]).0@) == Some(
                (dict@[i].1.0 as int, dict@[i].1.1),
            ) && dict@[i].1.0 == i,
{
    let mut dict: Vec<(String, (usize, DataType))> = Vec::new();
    dict.push(("operator".to_owned(), (0, DataType::Utf8)));
    dict.push(("ev_name".to_owned(), (1, DataType::Utf8)));
    dict.push(("time".to_owned(), (2, DataType::Decimal)));
    dict.push(("pipeline".to_owned(), (3, DataType::Utf8)));
    proof {
        lemma_names_differ();
    }
    dict
}

/// The four names differ from one another.
proof fn lemma_names_differ()
    ensures
        "operator"@ != "ev_name"@,
        "operator"@ != "time"@,
        "operator"@ != "pipeline"@,
        "ev_name"@ != "time"@,
        "ev_name"@ != "pipeline"@,
        "time"@ != "pipeline"@,
{
    reveal_strlit("operator");
    reveal_strlit("ev_name");
    reveal_strlit("time");
    reveal_strlit("pipeline");
    assert("operator"@.len() == 8);
    assert("ev_name"@.len() == 7);
    assert("time"@.len() == 4);
    assert("pipeline"@.len() == 8);
    assert("operator"@[0] == 'o');
    assert("pipeline"@[0] == 'p');
}

/// The column and kind that a name stands for, if any.
pub fn lookup_column(name: &str) -> (found: Option<(usize, DataType)>)
    ensures
        match found {
            Some((number, kind)) => column_of(name@) == Some((number as int, kind)),
            None => column_of(name@) is None,
        },
{
    let name = name.to_owned();
    if name == "operator".to_owned() {
        Some((0, DataType::Utf8))
    } else if name == "ev_name".to_owned() {
        Some((1, DataType::Utf8))
    } else if name == "time".to_owned() {
        Some((2, DataType::Decimal))
    } else if name == "pipeline".to_owned() {
        Some((3, DataType::Utf8))
    } else {
        None
    }
}

/// The number of the column that `name` stands for.
pub fn get_column_num(name: &str) -> (number: usize)
    requires
        column_of(name@) is Some,
    ensures
        number == column_of(name@)->Some_0.0,
{
    match lookup_column(name) {
        Some((number, _)) => number,
        None => 0,
    }
}

/// The kind of the values of the column that `name` stands for.
pub fn get_data_type(name: &str) -> (kind: DataType)
    requires
        column_of(name@) is Some,
    ensures
        kind == column_of(name@)->Some_0.1,
{
    match lookup_column(name) {
        Some((_, kind)) => kind,
        None => DataType::Utf8,
    }
}

/// What the items of a projection name: for each item its identifier, or
/// nothing where the item is anything but an identifier.
pub open spec fn names_view(names: Seq<Option<String>>) -> Seq<Option<Seq<char>>> {
    Seq::new(
        names.len(),
        |i: int|
            match names[i] {
                Some(name) => Some(name@),
                None => None,
            },
    )
}

/// Whether every item of a projection names a known column.
pub open spec fn resolvable(names: Seq<Option<Seq<char>>>) -> bool {
    forall|i: int|
        0 <= i < names.len() ==> (#[trigger] names[i]) is Some && column_of(
            names[i]->Some_0,
        ) is Some
}

/// The column numbers that the items of a projection name.
pub open spec fn resolved(names: Seq<Option<Seq<char>>>) -> Seq<int> {
    Seq::new(names.len(), |i: int| column_of(names[i]->Some_0)->Some_0.0)
}

/// The column numbers that the items of a projection name; `UnsupportedQuery`
/// where an item is no identifier or names no known column.
pub fn resolve_projection(names: &Vec<Option<String>>) -> (made: Result<Vec<usize>, EngineError>)
    ensures
        match made {
            Ok(numbers) => resolvable(names_view(names@)) && indices(numbers@) == resolved(
                names_view(names@),
            ),
            Err(e) => !resolvable(names_view(names@)) && e == EngineError::UnsupportedQuery,
        },
{
    let mut numbers: Vec<usize> = Vec::new();
    let mut i: usize = 0;
    while i < names.len()
        invariant
            i <= names@.len(),
            numbers@.len() == i,
            forall|j: int|
                0 <= j < i ==> (#[trigger] names_view(names@)[j]) is Some && column_of(
                    names_view(names@)[j]->Some_0,
                ) == Some((numbers@[j] as int, column_of(names_view(names@)[j]->Some_0)->Some_0.1)),
        decreases names@.len() - i,
    {
        let found = match &names[i] {
            Some(name) => lookup_column(name.as_str()),
            None => None,
        };
        match found {
            Some((number, _)) => {
                numbers.push(number);
            },
            None => {
                assert(!(names_view(names@)[i as int] is Some && column_of(
                    names_view(names@)[i as int]->Some_0,
                ) is Some));
                return Err(EngineError::UnsupportedQuery);
            },
        }
        i += 1;
    }
    assert(indices(numbers@) =~= resolved(names_view(names@)));
    Ok(numbers)
}

/// What a projection gives on fragments: `UnsupportedQuery` where an item
/// names no column; else the error of the concatenation or of the
/// selection of columns, if there is one; else the named columns of the
/// concatenation of the fragments.
pub open spec fn projected(fragments: Seq<TableView>, names: Seq<Option<Seq<char>>>) -> Result<
    TableView,
    EngineError,
> {
    if !resolvable(names) {
        Err(EngineError::UnsupportedQuery)
    } else if concat_fault(fragments) is Some {
        Err(concat_fault(fragments)->Some_0)
    } else if select_fault(concat(fragments), resolved(names)) is Some {
        Err(select_fault(concat(fragments), resolved(names))->Some_0)
    } else {
        Ok(concat(fragments).select(resolved(names)))
    }
}

/// What a result stands for.
pub open spec fn outcome_view(made: Result<Table, EngineError>) -> Result<TableView, EngineError> {
    match made {
        Ok(table) => Ok(table@),
        Err(e) => Err(e),
    }
}

/// Carries out the projection of a statement on the fragments of a table:
/// the columns that its items name, of the concatenation of the fragments.
/// Each item has to be the identifier of a known column.
pub fn execute_projections(batches: Vec<Table>, projections: &Vec<Option<String>>) -> (made: Result<
    Table,
    EngineError,
>)
    requires
        forall|i: int| 0 <= i < batches@.len() ==> (#[trigger] batches@[i]).wf(),
    ensures
        made matches Ok(table) ==> table.wf(),
        outcome_view(made) == projected(tables_view(batches@), names_view(projections@)),
{
    let numbers = resolve_projection(projections)?;
    let whole = concat_record_batches(batches)?;
    select_columns(&whole, &numbers)
}

/// Checks the selection of a statement, of which `selection` says whether
/// it is an operation on two operands, or nothing where the statement has
/// no selection: a selection that is no such operation is
/// `UnsupportedQuery`.
pub fn execute_selections(selection: Option<bool>) -> (done: Result<(), EngineError>)
    ensures
        done is Ok <==> selection != Some(false),
        done is Err ==> done->Err_0 == EngineError::UnsupportedQuery,
{
    match selection {
        Some(false) => Err(EngineError::UnsupportedQuery),
        _ => Ok(()),
    }
}

/// Computes what a statement asks for beyond its projection and its
/// selection. A statement that the engine carries out asks for nothing
/// more, so that nothing is done.
pub fn execute_computations() {
}

/// Carries out one plain `SELECT` on the fragments of a table: its
/// projection, once its selection is found to be supported. Nothing is
/// computed for a statement that is not supported.
pub fn execute_query(
    batches: Vec<Table>,
    projections: &Vec<Option<String>>,
    selection: Option<bool>,
) -> (made: Result<Table, EngineError>)
    requires
        forall|i: int| 0 <= i < batches@.len() ==> (#[trigger] batches@[i]).wf(),
    ensures
        made matches Ok(table) ==> table.wf(),
        outcome_view(made) == statement_answer(
            tables_view(batches@),
            Some(ShapeView { projection: names_view(projections@), selection }),
        ),
{
    execute_selections(selection)?;
    let made = execute_projections(batches, projections);
    execute_computations();
    made
}

/// Copies of tables.
fn copy_tables(batches: &Vec<Table>) -> (out: Vec<Table>)
    requires
        forall|i: int| 0 <= i < batches@.len() ==> (#[trigger] batches@[i]).wf(),
    ensures
        tables_view(out@) == tables_view(batches@),
        forall|i: int| 0 <= i < out@.len() ==> (#[trigger] out@[i]).wf(),
{
    let mut out: Vec<Table> = Vec::new();
    let mut i: usize = 0;
    while i < batches.len()
        invariant
            i <= batches@.len(),
            out@.len() == i,
            forall|i: int| 0 <= i < batches@.len() ==> (#[trigger] batches@[i]).wf(),
            forall|j: int| 0 <= j < i ==> (#[trigger] out@[j]).wf() && out@[j]@ == batches@[j]@,
        decreases batches@.len() - i,
    {
        out.push(batches[i].copy());
        i += 1;
    }
    assert(tables_view(out@) =~= tables_view(batches@));
    out
}

/// What the engine reads of one statement that is a plain `SELECT`: for
/// each item of its projection the identifier that the item consists of,
/// or nothing where the item is anything else; and of its selection
/// whether it is an operation on two operands, or nothing where the
/// statement has no selection.
pub struct SelectShape {
    pub projection: Vec<Option<String>>,
    pub selection: Option<bool>,
}

/// What a `SelectShape` stands for.
pub struct ShapeView {
    pub projection: Seq<Option<Seq<char>>>,
    pub selection: Option<bool>,
}

impl View for SelectShape {
    type V = ShapeView;

    open spec fn view(&self) -> ShapeView {
        ShapeView { projection: names_view(self.projection@), selection: self.selection }
    }
}

/// What the shape of a statement stands for; a statement that is no plain
/// `SELECT` has no shape.
pub open spec fn shape_view(shape: Option<SelectShape>) -> Option<ShapeView> {
    match shape {
        Some(shape) => Some(shape@),
        None => None,
    }
}

/// What the shapes of statements stand for.
pub open spec fn shapes_view(shapes: Seq<Option<SelectShape>>) -> Seq<Option<ShapeView>> {
    Seq::new(shapes.len(), |i: int| shape_view(shapes[i]))
}

/// What a parsed text stands for; a text that does not parse has no statements.
pub open spec fn parse_view(parsed: Option<Vec<Option<SelectShape>>>) -> Option<
    Seq<Option<ShapeView>>,
> {
    match parsed {
        Some(shapes) => Some(shapes_view(shapes@)),
        None => None,
    }
}

/// What sqlparser's generic dialect reads in a text of SQL: the shapes of
/// its statements, in the order of the text, or nothing where the text
/// does not parse. What it reads in which text is the parser's to say.
pub uninterp spec fn parsed_sql(sql: Seq<char>) -> Option<Seq<Option<ShapeView>>>;

/// The shapes of the statements of a text of SQL. This is `Parser::parse_sql`
/// of sqlparser with its generic dialect; of each statement that it
/// returns, the body keeps what a `SelectShape` holds: of a query whose
/// body is a plain `SELECT`, for each item of the projection the
/// identifier that the item consists of, and of the selection whether it
/// is an operation on two operands. The contract claims of it only that
/// the result depends on the text alone, which gives it the name
/// `parsed_sql`; it claims nothing of what is read in any text.
#[verifier::external_body]
fn parse_shapes(sql: &str) -> (parsed: Option<Vec<Option<SelectShape>>>)
    ensures
        parse_view(parsed) == parsed_sql(sql@),
{
    let statements = Parser::parse_sql(&GenericDialect {}, sql).ok()?;
    Some(statements.iter().map(|statement| match statement {
        Statement::Query(query) => match query.body.as_ref() {
            SetExpr::Select(select) => Some(SelectShape {
                projection: select.projection.iter().map(|item| match item {
                    SelectItem::UnnamedExpr(Expr::Identifier(ident)) => Some(ident.value.clone()),
                    _ => None,
                }).collect(),
                selection: select.selection.as_ref().map(|e| matches!(e, Expr::BinaryOp { .. })),
            }),
            _ => None,
        },
        _ => None,
    }).collect())
}

/// What one statement gives on fragments: `UnsupportedQuery` where it is
/// no plain `SELECT` or has a selection that is no operation on two
/// operands; else what its projection gives.
pub open spec fn statement_answer(fragments: Seq<TableView>, shape: Option<ShapeView>) -> Result<
    TableView,
    EngineError,
> {
    match shape {
        None => Err(EngineError::UnsupportedQuery),
        Some(shape) => if shape.selection == Some(false) {
            Err(EngineError::UnsupportedQuery)
        } else {
            projected(fragments, shape.projection)
        },
    }
}

/// What the first `n` statements give on fragments: the result of each, in
/// their order, or the error of the first that has one.
pub open spec fn answers_upto(
    fragments: Seq<TableView>,
    shapes: Seq<Option<ShapeView>>,
    n: nat,
) -> Result<Seq<TableView>, EngineError>
    decreases n,
{
    if n == 0 {
        Ok(Seq::empty())
    } else {
        match answers_upto(fragments, shapes, (n - 1) as nat) {
            Err(e) => Err(e),
            Ok(tables) => match statement_answer(fragments, shapes[n - 1]) {
                Err(e) => Err(e),
                Ok(table) => Ok(tables.push(table)),
            },
        }
    }
}

/// What a parsed text gives on fragments: `UnsupportedQuery` where the
/// text does not parse; else the result of each statement, in their order,
/// or the error of the first statement that has one.
pub open spec fn query_answer(
    fragments: Seq<TableView>,
    parsed: Option<Seq<Option<ShapeView>>>,
) -> Result<Seq<TableView>, EngineError> {
    match parsed {
        None => Err(EngineError::UnsupportedQuery),
        Some(shapes) => answers_upto(fragments, shapes, shapes.len()),
    }
}

/// What results stand for.
pub open spec fn results_view(made: Result<Vec<Table>, EngineError>) -> Result<
    Seq<TableView>,
    EngineError,
> {
    match made {
        Ok(tables) => Ok(tables_view(tables@)),
        Err(e) => Err(e),
    }
}

/// Carries out one statement of the given shape on the fragments of a table.
pub fn run_statement(batches: &Vec<Table>, shape: &Option<SelectShape>) -> (made: Result<
    Table,
    EngineError,
>)
    requires
        forall|i: int| 0 <= i < batches@.len() ==> (#[trigger] batches@[i]).wf(),
    ensures
        made matches Ok(table) ==> table.wf(),
        outcome_view(made) == statement_answer(tables_view(batches@), shape_view(*shape)),
{
    match shape {
        None => Err(EngineError::UnsupportedQuery),
        Some(shape) => execute_query(copy_tables(batches), &shape.projection, shape.selection),
    }
}

/// Carries out statements of the given shapes on the fragments of a table:
/// one result for each statement, in their order, or the error of the
/// first statement that has one, and then no result at all.
pub fn run_statements(batches: &Vec<Table>, shapes: &Vec<Option<SelectShape>>) -> (made: Result<
    Vec<Table>,
    EngineError,
>)
    requires
        forall|i: int| 0 <= i < batches@.len() ==> (#[trigger] batches@[i]).wf(),
    ensures
        made matches Ok(tables) ==> forall|s: int|
            0 <= s < tables@.len() ==> (#[trigger] tables@[s]).wf(),
        results_view(made) == answers_upto(
            tables_view(batches@),
            shapes_view(shapes@),
            shapes@.len(),
        ),
{
    let ghost fragments = tables_view(batches@);
    let ghost views = shapes_view(shapes@);
    let mut tables: Vec<Table> = Vec::new();
    let mut s: usize = 0;
    assert(tables_view(tables@) =~= Seq::empty());
    while s < shapes.len()
        invariant
            s <= shapes@.len(),
            fragments == tables_view(batches@),
            views == shapes_view(shapes@),
            forall|i: int| 0 <= i < batches@.len() ==> (#[trigger] batches@[i]).wf(),
            forall|t: int| 0 <= t < tables@.len() ==> (#[trigger] tables@[t]).wf(),
            answers_upto(fragments, views, s as nat) == Ok::<Seq<TableView>, EngineError>(
                tables_view(tables@),
            ),
        decreases shapes@.len() - s,
    {
        let ghost before = tables_view(tables@);
        let made = run_statement(batches, &shapes[s]);
        proof {
            assert(shape_view(shapes@[s as int]) == views[s as int]);
        }
        match made {
            Ok(table) => {
                tables.push(table);
                proof {
                    assert(tables_view(tables@) =~= before.push(table@));
                }
            },
            Err(e) => {
                proof {
                    lemma_error_stays(fragments, views, (s + 1) as nat, shapes@.len());
                }
                return Err(e);
            },
        }
        s += 1;
    }
    Ok(tables)
}

/// Once a statement has an error, that error is what any longer run of the
/// statements gives.
proof fn lemma_error_stays(
    fragments: Seq<TableView>,
    shapes: Seq<Option<ShapeView>>,
    short: nat,
    long: nat,
)
    requires
        short <= long,
        answers_upto(fragments, shapes, short) is Err,
    ensures
        answers_upto(fragments, shapes, long) == answers_upto(fragments, shapes, short),
    decreases long - short,
{
    if short < long {
        lemma_error_stays(fragments, shapes, short, (long - 1) as nat);
    }
}

/// Carries out the statements of a text of SQL on the fragments of a
/// table, one result for each statement. Each statement has to be a plain
/// `SELECT` of known columns, with no selection or one that is an operation
/// on two operands; a text that does not parse, or any other statement, is
/// `UnsupportedQuery`, and then no result is returned at all.
pub fn query(batches: &Vec<Table>, sql_query: &str) -> (made: Result<Vec<Table>, EngineError>)
    requires
        forall|i: int| 0 <= i < batches@.len() ==> (#[trigger] batches@[i]).wf(),
    ensures
        made matches Ok(tables) ==> forall|s: int|
            0 <= s < tables@.len() ==> (#[trigger] tables@[s]).wf(),
        results_view(made) == query_answer(tables_view(batches@), parsed_sql(sql_query@)),
{
    match parse_shapes(sql_query) {
        None => Err(EngineError::UnsupportedQuery),
        Some(shapes) => run_statements(batches, &shapes),
    }
}

/// The columns of a trace in its text form that become the columns of a
/// loaded file, in their order.
pub open spec fn file_projection() -> Seq<int> {
    seq![0, 5, 13, 20]
}

/// The columns of a trace in its text form that become the columns of a
/// loaded file.
pub fn init_projection() -> (projection: Vec<usize>)
    ensures
        indices(projection@) == file_projection(),
{
    let mut projection: Vec<usize> = Vec::new();
    projection.push(0);
    projection.push(5);
    projection.push(13);
    projection.push(20);
    assert(indices(projection@) =~= file_projection());
    projection
}

/// The names that a query can use are the names of the projected columns of
/// a trace, each with the number that the column has after the projection
/// and with its kind.
pub proof fn lemma_dict_matches_schema(k: int)
    requires
        0 <= k < file_projection().len(),
    ensures
        column_of(trace_schema()[file_projection()[k]].name) == Some(
            (k, trace_schema()[file_projection()[k]].data_type),
        ),
{
    lemma_names_differ();
}

} // verus!
