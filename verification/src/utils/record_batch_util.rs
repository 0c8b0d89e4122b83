use crate::error::EngineError;
use crate::exec::basic::analyze::{
    concat, concat_fault, concat_record_batches, tables_view, total_rows,
};
use crate::utils::sequences::{gather, indices, texts, within};
use vstd::prelude::*;

verus! {

/// The kind of values that a column holds.
#[derive(Clone, Copy, Debug, PartialEq, Eq, Structural)]
pub enum DataType {
    /// Text.
    Utf8,
    /// Fixed-point numbers with two fractional digits, held as a count of
    /// hundredths: times, bucket sizes, fractions.
    Decimal,
    /// Signed integers.
    Int64,
    /// Counts.
    UInt64,
}

/// How many hundredths make one unit of a `Decimal`.
pub const DECIMAL_ONE: i64 = 100;

/// The name and kind of one column.
pub struct Field {
    pub name: String,
    pub data_type: DataType,
}

/// What a `Field` stands for.
pub struct FieldView {
    pub name: Seq<char>,
    pub data_type: DataType,
}

impl View for Field {
    type V = FieldView;

    open spec fn view(&self) -> FieldView {
        FieldView { name: self.name@, data_type: self.data_type }
    }
}

impl Field {
    /// A field with the given name and kind.
    pub fn new(name: &str, data_type: DataType) -> (field: Field)
        ensures
            field@ == (FieldView { name: name@, data_type }),
    {
        Field { name: name.to_owned(), data_type }
    }

    /// A field equal to this one.
    pub fn copy(&self) -> (field: Field)
        ensures
            field@ == self@,
    {
        Field { name: self.name.clone(), data_type: self.data_type }
    }

    /// Whether two fields have the same name and kind.
    pub fn same(&self, other: &Field) -> (equal: bool)
        ensures
            equal == (self@ == other@),
    {
        self.name == other.name && self.data_type == other.data_type
    }
}

/// The order of texts: a text comes before another where it is a proper
/// prefix of it, or where at the first place at which they differ its
/// character has the lower code point.
pub open spec fn text_before(a: Seq<char>, b: Seq<char>) -> bool
    decreases a.len(),
{
    if b.len() == 0 {
        false
    } else if a.len() == 0 {
        true
    } else if a[0] != b[0] {
        (a[0] as u32) < (b[0] as u32)
    } else {
        text_before(a.drop_first(), b.drop_first())
    }
}

/// Of two texts at most one comes before the other.
pub proof fn lemma_text_before_asymmetric(a: Seq<char>, b: Seq<char>)
    ensures
        !(text_before(a, b) && text_before(b, a)),
    decreases a.len(),
{
    if a.len() > 0 && b.len() > 0 && a[0] == b[0] {
        lemma_text_before_asymmetric(a.drop_first(), b.drop_first());
    }
}

/// The values of one column, one per row.
pub enum Column {
    Utf8(Vec<String>),
    Decimal(Vec<i64>),
    Int64(Vec<i64>),
    UInt64(Vec<u64>),
}

/// What a `Column` stands for.
pub enum ColumnView {
    Utf8(Seq<Seq<char>>),
    Decimal(Seq<i64>),
    Int64(Seq<i64>),
    UInt64(Seq<u64>),
}

impl ColumnView {
    /// The number of rows.
    pub open spec fn len(self) -> nat {
        match self {
            ColumnView::Utf8(v) => v.len(),
            ColumnView::Decimal(v) => v.len(),
            ColumnView::Int64(v) => v.len(),
            ColumnView::UInt64(v) => v.len(),
        }
    }

    /// The kind of the values.
    pub open spec fn data_type(self) -> DataType {
        match self {
            ColumnView::Utf8(_) => DataType::Utf8,
            ColumnView::Decimal(_) => DataType::Decimal,
            ColumnView::Int64(_) => DataType::Int64,
            ColumnView::UInt64(_) => DataType::UInt64,
        }
    }

    /// The texts of a text column; of any other, none.
    pub open spec fn text(self) -> Seq<Seq<char>> {
        match self {
            ColumnView::Utf8(v) => v,
            _ => Seq::empty(),
        }
    }

    /// The numbers of a column of decimals or of integers; of any other, none.
    pub open spec fn numbers(self) -> Seq<i64> {
        match self {
            ColumnView::Decimal(v) => v,
            ColumnView::Int64(v) => v,
            _ => Seq::empty(),
        }
    }

    /// The counts of a column of counts; of any other, none.
    pub open spec fn counts(self) -> Seq<u64> {
        match self {
            ColumnView::UInt64(v) => v,
            _ => Seq::empty(),
        }
    }

    /// Whether the value of row `a` comes before that of row `b` in the
    /// order of the column's kind: numbers by size, texts by `text_before`.
    pub open spec fn before(self, a: int, b: int) -> bool {
        match self {
            ColumnView::Utf8(v) => text_before(v[a], v[b]),
            ColumnView::Decimal(v) => v[a] < v[b],
            ColumnView::Int64(v) => v[a] < v[b],
            ColumnView::UInt64(v) => v[a] < v[b],
        }
    }

    /// The column made of the rows that `rows` lists, in that order.
    pub open spec fn take(self, rows: Seq<int>) -> ColumnView {
        match self {
            ColumnView::Utf8(v) => ColumnView::Utf8(gather(v, rows)),
            ColumnView::Decimal(v) => ColumnView::Decimal(gather(v, rows)),
            ColumnView::Int64(v) => ColumnView::Int64(gather(v, rows)),
            ColumnView::UInt64(v) => ColumnView::UInt64(gather(v, rows)),
        }
    }

    /// This column followed by the rows of `other`, which is of the same kind.
    pub open spec fn append(self, other: ColumnView) -> ColumnView {
        match (self, other) {
            (ColumnView::Utf8(a), ColumnView::Utf8(b)) => ColumnView::Utf8(a + b),
            (ColumnView::Decimal(a), ColumnView::Decimal(b)) => ColumnView::Decimal(a + b),
            (ColumnView::Int64(a), ColumnView::Int64(b)) => ColumnView::Int64(a + b),
            (ColumnView::UInt64(a), ColumnView::UInt64(b)) => ColumnView::UInt64(a + b),
            _ => self,
        }
    }
}

impl View for Column {
    type V = ColumnView;

    open spec fn view(&self) -> ColumnView {
        match self {
            Column::Utf8(v) => ColumnView::Utf8(texts(v@)),
            Column::Decimal(v) => ColumnView::Decimal(v@),
            Column::Int64(v) => ColumnView::Int64(v@),
            Column::UInt64(v) => ColumnView::UInt64(v@),
        }
    }
}

/// The strings at the places that `rows` lists.
pub fn gather_text(values: &Vec<String>, rows: &Vec<usize>) -> (out: Vec<String>)
    requires
        within(indices(rows@), values@.len()),
    ensures
        texts(out@) == gather(texts(values@), indices(rows@)),
{
    let mut out: Vec<String> = Vec::new();
    let mut i: usize = 0;
    while i < rows.len()
        invariant
            i <= rows.len(),
            within(indices(rows@), values@.len()),
            out@.len() == i,
            forall|j: int| 0 <= j < i ==> out@[j]@ == values@[rows@[j] as int]@,
        decreases rows.len() - i,
    {
        assert(0 <= indices(rows@)[i as int] < values@.len());
        out.push(values[rows[i]].clone());
        i += 1;
    }
    assert(texts(out@) =~= gather(texts(values@), indices(rows@)));
    out
}

/// The numbers at the places that `rows` lists.
pub fn gather_values<T: Copy>(values: &Vec<T>, rows: &Vec<usize>) -> (out: Vec<T>)
    requires
        within(indices(rows@), values@.len()),
    ensures
        out@ == gather(values@, indices(rows@)),
{
    let mut out: Vec<T> = Vec::new();
    let mut i: usize = 0;
    while i < rows.len()
        invariant
            i <= rows.len(),
            within(indices(rows@), values@.len()),
            out@.len() == i,
            forall|j: int| 0 <= j < i ==> out@[j] == values@[rows@[j] as int],
        decreases rows.len() - i,
    {
        assert(0 <= indices(rows@)[i as int] < values@.len());
        out.push(values[rows[i]]);
        i += 1;
    }
    assert(out@ =~= gather(values@, indices(rows@)));
    out
}

/// The row numbers from zero up to `n`, each at its own place.
pub fn all_rows(n: usize) -> (rows: Vec<usize>)
    ensures
        indices(rows@) == Seq::new(n as nat, |i: int| i),
{
    let mut rows: Vec<usize> = Vec::new();
    let mut i: usize = 0;
    while i < n
        invariant
            i <= n,
            rows@.len() == i,
            forall|j: int| 0 <= j < i ==> rows@[j] == j,
        decreases n - i,
    {
        rows.push(i);
        i += 1;
    }
    assert(indices(rows@) =~= Seq::new(n as nat, |i: int| i));
    rows
}

impl Column {
    /// The number of rows.
    pub fn len(&self) -> (n: usize)
        ensures
            n == self@.len(),
    {
        match self {
            Column::Utf8(v) => v.len(),
            Column::Decimal(v) => v.len(),
            Column::Int64(v) => v.len(),
            Column::UInt64(v) => v.len(),
        }
    }

    /// The kind of the values.
    pub fn data_type(&self) -> (kind: DataType)
        ensures
            kind == self@.data_type(),
    {
        match self {
            Column::Utf8(_) => DataType::Utf8,
            Column::Decimal(_) => DataType::Decimal,
            Column::Int64(_) => DataType::Int64,
            Column::UInt64(_) => DataType::UInt64,
        }
    }

    /// The column made of the rows that `rows` lists, in that order.
    pub fn take(&self, rows: &Vec<usize>) -> (out: Column)
        requires
            within(indices(rows@), self@.len()),
        ensures
            out@ == self@.take(indices(rows@)),
    {
        match self {
            Column::Utf8(v) => Column::Utf8(gather_text(v, rows)),
            Column::Decimal(v) => Column::Decimal(gather_values(v, rows)),
            Column::Int64(v) => Column::Int64(gather_values(v, rows)),
            Column::UInt64(v) => Column::UInt64(gather_values(v, rows)),
        }
    }

    /// A column equal to this one.
    pub fn copy(&self) -> (out: Column)
        ensures
            out@ == self@,
    {
        let rows = all_rows(self.len());
        let out = self.take(&rows);
        proof {
            lemma_take_all(self@);
        }
        out
    }
}

/// Taking every row in order gives the column itself.
pub proof fn lemma_take_all(column: ColumnView)
    ensures
        column.take(Seq::new(column.len(), |i: int| i)) == column,
{
    let rows = Seq::new(column.len(), |i: int| i);
    match column {
        ColumnView::Utf8(v) => {
            assert(gather(v, rows) =~= v);
        },
        ColumnView::Decimal(v) => {
            assert(gather(v, rows) =~= v);
        },
        ColumnView::Int64(v) => {
            assert(gather(v, rows) =~= v);
        },
        ColumnView::UInt64(v) => {
            assert(gather(v, rows) =~= v);
        },
    }
}

/// What a list of fields stands for.
pub open spec fn fields_view(fields: Seq<Field>) -> Seq<FieldView> {
    Seq::new(fields.len(), |i: int| fields[i]@)
}

/// What a list of columns stands for.
pub open spec fn columns_view(columns: Seq<Column>) -> Seq<ColumnView> {
    Seq::new(columns.len(), |i: int| columns[i]@)
}

/// What a `Table` stands for: its schema and its columns.
pub struct TableView {
    pub fields: Seq<FieldView>,
    pub columns: Seq<ColumnView>,
}

impl TableView {
    /// The number of rows, which every column has.
    pub open spec fn rows(self) -> nat {
        self.columns[0].len()
    }

    /// A table has at least one column, one field for each column, and in
    /// each column values of the field's kind, as many as in every other.
    pub open spec fn wf(self) -> bool {
        &&& self.columns.len() >= 1
        &&& self.fields.len() == self.columns.len()
        &&& forall|c: int|
            0 <= c < self.columns.len() ==> {
                &&& (#[trigger] self.columns[c]).data_type() == self.fields[c].data_type
                &&& self.columns[c].len() == self.columns[0].len()
            }
    }

    /// The table made of the rows that `rows` lists, in that order.
    pub open spec fn take_rows(self, rows: Seq<int>) -> TableView {
        TableView {
            fields: self.fields,
            columns: Seq::new(self.columns.len(), |c: int| self.columns[c].take(rows)),
        }
    }

    /// The table made of the columns that `picks` lists, in that order.
    pub open spec fn select(self, picks: Seq<int>) -> TableView {
        TableView { fields: gather(self.fields, picks), columns: gather(self.columns, picks) }
    }

    /// This table followed by the rows of `other`, which has the same schema.
    pub open spec fn append(self, other: TableView) -> TableView {
        TableView {
            fields: self.fields,
            columns: Seq::new(
                self.columns.len(),
                |c: int| self.columns[c].append(other.columns[c]),
            ),
        }
    }
}

/// Named, typed columns of equal length.
pub struct Table {
    fields: Vec<Field>,
    columns: Vec<Column>,
}

impl View for Table {
    type V = TableView;

    closed spec fn view(&self) -> TableView {
        TableView { fields: fields_view(self.fields@), columns: columns_view(self.columns@) }
    }
}

impl Table {
    /// Whether the columns fit the schema and each other.
    pub open spec fn wf(&self) -> bool {
        self@.wf()
    }

    /// The fields, one for each column.
    pub fn schema(&self) -> (fields: &Vec<Field>)
        ensures
            fields_view(fields@) == self@.fields,
    {
        &self.fields
    }

    /// The columns.
    pub fn columns(&self) -> (columns: &Vec<Column>)
        ensures
            columns_view(columns@) == self@.columns,
    {
        &self.columns
    }

    /// The number of columns.
    pub fn num_columns(&self) -> (n: usize)
        ensures
            n == self@.columns.len(),
    {
        self.columns.len()
    }

    /// The number of rows.
    pub fn num_rows(&self) -> (n: usize)
        requires
            self.wf(),
        ensures
            n == self@.rows(),
    {
        self.columns[0].len()
    }

    /// The column at `index`.
    pub fn column(&self, index: usize) -> (column: &Column)
        requires
            index < self@.columns.len(),
        ensures
            column@ == self@.columns[index as int],
    {
        &self.columns[index]
    }

    /// The field at `index`.
    pub fn field(&self, index: usize) -> (field: &Field)
        requires
            index < self@.fields.len(),
        ensures
            field@ == self@.fields[index as int],
    {
        &self.fields[index]
    }

    /// The table made of the rows that `rows` lists, in that order.
    pub fn take_rows(&self, rows: &Vec<usize>) -> (table: Table)
        requires
            self.wf(),
            within(indices(rows@), self@.rows()),
        ensures
            table.wf(),
            table@ == self@.take_rows(indices(rows@)),
    {
        let fields = copy_schema(&self.fields);
        let mut columns: Vec<Column> = Vec::new();
        let mut c: usize = 0;
        while c < self.columns.len()
            invariant
                c <= self.columns@.len(),
                self.wf(),
                within(indices(rows@), self@.rows()),
                columns@.len() == c,
                forall|d: int|
                    0 <= d < c ==> (#[trigger] columns@[d])@ == self.columns@[d]@.take(
                        indices(rows@),
                    ),
            decreases self.columns@.len() - c,
        {
            assert(self@.columns[c as int].len() == self@.rows());
            columns.push(self.columns[c].take(rows));
            c += 1;
        }
        let table = Table { fields, columns };
        proof {
            assert(table@.columns =~= self@.take_rows(indices(rows@)).columns);
            assert(table@.fields =~= self@.fields);
            assert forall|d: int| 0 <= d < table@.columns.len() implies (
            #[trigger] table@.columns[d]).data_type() == table@.fields[d].data_type
                && table@.columns[d].len() == table@.columns[0].len() by {
                assert(self@.columns[d].data_type() == self@.fields[d].data_type);
            }
        }
        table
    }

    /// A table equal to this one.
    pub fn copy(&self) -> (table: Table)
        requires
            self.wf(),
        ensures
            table.wf(),
            table@ == self@,
    {
        let rows = all_rows(self.num_rows());
        let table = self.take_rows(&rows);
        proof {
            assert forall|c: int| 0 <= c < self@.columns.len() implies table@.columns[c]
                == self@.columns[c] by {
                assert(self@.columns[c].len() == self@.rows());
                lemma_take_all(self@.columns[c]);
            }
            assert(table@.columns =~= self@.columns);
        }
        table
    }
}

/// A copy of a schema.
pub fn copy_schema(fields: &Vec<Field>) -> (out: Vec<Field>)
    ensures
        fields_view(out@) == fields_view(fields@),
{
    let mut out: Vec<Field> = Vec::new();
    let mut i: usize = 0;
    while i < fields.len()
        invariant
            i <= fields.len(),
            out@.len() == i,
            forall|j: int| 0 <= j < i ==> out@[j]@ == fields@[j]@,
        decreases fields.len() - i,
    {
        out.push(fields[i].copy());
        i += 1;
    }
    assert(fields_view(out@) =~= fields_view(fields@));
    out
}

/// Makes a table of a schema and columns. Fails with `SchemaMismatch` unless
/// there is at least one column, one field for each, and every column holds
/// values of its field's kind, as many as the first.
pub fn create_record_batch(schema: Vec<Field>, columns: Vec<Column>) -> (made: Result<
    Table,
    EngineError,
>)
    ensures
        made is Ok <==> (TableView {
            fields: fields_view(schema@),
            columns: columns_view(columns@),
        }).wf(),
        made is Ok ==> made->Ok_0@ == (TableView {
            fields: fields_view(schema@),
            columns: columns_view(columns@),
        }) && made->Ok_0.wf(),
        made is Err ==> made->Err_0 == EngineError::SchemaMismatch,
{
    let ghost view = TableView {
        fields: fields_view(schema@),
        columns: columns_view(columns@),
    };
    if columns.len() == 0 || schema.len() != columns.len() {
        return Err(EngineError::SchemaMismatch);
    }
    let rows = columns[0].len();
    let mut c: usize = 0;
    while c < columns.len()
        invariant
            c <= columns.len(),
            schema.len() == columns.len(),
            columns.len() >= 1,
            rows == columns@[0]@.len(),
            view == (TableView {
                fields: fields_view(schema@),
                columns: columns_view(columns@),
            }),
            forall|d: int|
                0 <= d < c ==> {
                    &&& (#[trigger] view.columns[d]).data_type() == view.fields[d].data_type
                    &&& view.columns[d].len() == view.columns[0].len()
                },
        decreases columns.len() - c,
    {
        if columns[c].data_type() != schema[c].data_type || columns[c].len() != rows {
            assert(!((view.columns[c as int]).data_type() == view.fields[c as int].data_type
                && view.columns[c as int].len() == view.columns[0].len()));
            return Err(EngineError::SchemaMismatch);
        }
        c += 1;
    }
    Ok(Table { fields: schema, columns })
}

/// Makes one table of the fragments that a decoder delivered: their
/// concatenation.
pub fn convert(batches: Vec<Table>) -> (made: Result<Table, EngineError>)
    requires
        forall|i: int| 0 <= i < batches@.len() ==> (#[trigger] batches@[i]).wf(),
    ensures
        match made {
            Ok(table) => {
                &&& concat_fault(tables_view(batches@)) is None
                &&& table.wf()
                &&& table@ == concat(tables_view(batches@))
                &&& table@.fields == batches@[0]@.fields
                &&& table@.rows() == total_rows(tables_view(batches@), batches@.len())
            },
            Err(e) => concat_fault(tables_view(batches@)) == Some(e),
        },
{
    concat_record_batches(batches)
}

/// The schema of a trace in its text form: the name and kind of each of
/// its columns, in the order of the columns.
pub open spec fn trace_schema() -> Seq<FieldView> {
    seq![
        FieldView { name: "operator"@, data_type: DataType::Utf8 },
        FieldView { name: "uir_code"@, data_type: DataType::Utf8 },
        FieldView { name: "srcline"@, data_type: DataType::Utf8 },
        FieldView { name: "comm"@, data_type: DataType::Utf8 },
        FieldView { name: "dso"@, data_type: DataType::Utf8 },
        FieldView { name: "ev_name"@, data_type: DataType::Utf8 },
        FieldView { name: "symbol"@, data_type: DataType::Utf8 },
        FieldView { name: "brstack"@, data_type: DataType::Utf8 },
        FieldView { name: "brstacksym"@, data_type: DataType::Utf8 },
        FieldView { name: "callchain"@, data_type: DataType::Utf8 },
        FieldView { name: "ip"@, data_type: DataType::Utf8 },
        FieldView { name: "pid"@, data_type: DataType::Int64 },
        FieldView { name: "datasrc"@, data_type: DataType::Int64 },
        FieldView { name: "time"@, data_type: DataType::Decimal },
        FieldView { name: "period"@, data_type: DataType::Int64 },
        FieldView { name: "tid"@, data_type: DataType::Int64 },
        FieldView { name: "cpu"@, data_type: DataType::Int64 },
        FieldView { name: "iregs"@, data_type: DataType::Int64 },
        FieldView { name: "mapping_via"@, data_type: DataType::Utf8 },
        FieldView { name: "dump_linenr"@, data_type: DataType::Int64 },
        FieldView { name: "pipeline"@, data_type: DataType::Utf8 },
        FieldView { name: "addr"@, data_type: DataType::Int64 },
        FieldView { name: "phys_addr"@, data_type: DataType::Int64 },
        FieldView { name: "time_delta"@, data_type: DataType::Int64 },
    ]
}

/// The schema of a trace in its text form.
pub fn init_schema() -> (schema: Vec<Field>)
    ensures
        fields_view(schema@) == trace_schema(),
{
    let mut schema: Vec<Field> = Vec::new();
    schema.push(Field::new("operator", DataType::Utf8));
    schema.push(Field::new("uir_code", DataType::Utf8));
    schema.push(Field::new("srcline", DataType::Utf8));
    schema.push(Field::new("comm", DataType::Utf8));
    schema.push(Field::new("dso", DataType::Utf8));
    schema.push(Field::new("ev_name", DataType::Utf8));
    schema.push(Field::new("symbol", DataType::Utf8));
    schema.push(Field::new("brstack", DataType::Utf8));
    schema.push(Field::new("brstacksym", DataType::Utf8));
    schema.push(Field::new("callchain", DataType::Utf8));
    schema.push(Field::new("ip", DataType::Utf8));
    schema.push(Field::new("pid", DataType::Int64));
    schema.push(Field::new("datasrc", DataType::Int64));
    schema.push(Field::new("time", DataType::Decimal));
    schema.push(Field::new("period", DataType::Int64));
    schema.push(Field::new("tid", DataType::Int64));
    schema.push(Field::new("cpu", DataType::Int64));
    schema.push(Field::new("iregs", DataType::Int64));
    schema.push(Field::new("mapping_via", DataType::Utf8));
    schema.push(Field::new("dump_linenr", DataType::Int64));
    schema.push(Field::new("pipeline", DataType::Utf8));
    schema.push(Field::new("addr", DataType::Int64));
    schema.push(Field::new("phys_addr", DataType::Int64));
    schema.push(Field::new("time_delta", DataType::Int64));
    assert(fields_view(schema@) =~= trace_schema());
    schema
}

} // verus!
