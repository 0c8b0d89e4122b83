use crate::error::EngineError;
use crate::exec::freq::model::{column_fault, grid_fault, grid_start, Histogram};
use crate::utils::record_batch_util::{ColumnView, DataType, FieldView, TableView};
use crate::utils::sequences::{
    distinct, first_position, lemma_distinct, lemma_distinct_push, lemma_first_position,
    lemma_occurrences_absent, lemma_occurrences_push, lemma_positions, occurrences, positions,
    texts,
};
use vstd::prelude::*;

verus! {

/// The column in which a table holds the memory of each row.
pub const MEMORY_COLUMN: usize = 4;

/// How much memory makes one memory class.
pub const MEMORY_SCALE: i64 = 100_000_000;

/// The memory class of an amount of memory: the amount in units of
/// `MEMORY_SCALE`, cut off towards zero.
pub open spec fn memory_class(memory: int) -> int {
    if memory >= 0 {
        memory / (MEMORY_SCALE as int)
    } else {
        -((-memory) / (MEMORY_SCALE as int))
    }
}

/// The memory class of an amount of memory.
pub fn class_of(memory: i64) -> (class: i64)
    ensures
        class == memory_class(memory as int),
{
    memory / MEMORY_SCALE
}

/// One row of a memory histogram.
pub struct MemoryRow {
    /// The start of the bucket.
    pub bucket: int,
    /// The operator.
    pub operator: Seq<char>,
    /// The memory class.
    pub class: i64,
    /// How many rows of the operator fall into the bucket with this class.
    pub count: nat,
}

impl Histogram {
    /// The memory classes of those among the first `n` rows that fall into
    /// bucket `k` with operator `op`, in the order of the rows.
    pub open spec fn cell_classes(self, memory: Seq<i64>, n: nat, k: int, op: Seq<char>) -> Seq<
        i64,
    > {
        let rows = positions(n, self.hit(k, op));
        Seq::new(rows.len(), |x: int| memory_class(memory[rows[x]] as int) as i64)
    }

    /// The histogram of bucket `k` and operator `op`: a row for each memory
    /// class that occurs there, in the order of first occurrence, with the
    /// number of its occurrences.
    pub open spec fn cell_histogram(self, memory: Seq<i64>, k: int, op: Seq<char>) -> Seq<
        MemoryRow,
    > {
        let classes = self.cell_classes(memory, self.rows(), k, op);
        Seq::new(
            distinct(classes).len(),
            |x: int|
                MemoryRow {
                    bucket: self.bucket_start(k),
                    operator: op,
                    class: distinct(classes)[x],
                    count: occurrences(classes, distinct(classes)[x]),
                },
        )
    }

    /// The rows of bucket `k` for the first `m` operators of the universe.
    pub open spec fn memory_bucket_upto(self, memory: Seq<i64>, k: int, m: nat) -> Seq<MemoryRow>
        decreases m,
    {
        if m == 0 {
            Seq::empty()
        } else {
            self.memory_bucket_upto(memory, k, (m - 1) as nat) + self.cell_histogram(
                memory,
                k,
                self.universe()[m - 1],
            )
        }
    }

    /// The rows of the first `n` buckets.
    pub open spec fn memory_upto(self, memory: Seq<i64>, n: nat) -> Seq<MemoryRow>
        decreases n,
    {
        if n == 0 {
            Seq::empty()
        } else {
            self.memory_upto(memory, (n - 1) as nat) + self.memory_bucket_upto(
                memory,
                n - 1,
                self.universe().len(),
            )
        }
    }

    /// The memory histogram: bucket after bucket, within a bucket operator
    /// after operator of the universe, the histogram of each.
    pub open spec fn memory_rows(self, memory: Seq<i64>) -> Seq<MemoryRow> {
        self.memory_upto(memory, self.buckets())
    }

    /// One row further, the classes of a cell gain the class of that row
    /// exactly where the row falls into the cell.
    pub proof fn lemma_cell_classes_step(self, memory: Seq<i64>, n: nat, k: int, op: Seq<char>)
        ensures
            self.cell_classes(memory, n + 1, k, op) == if self.in_bucket(n as int, k)
                && self.operators[n as int] == op {
                self.cell_classes(memory, n, k, op).push(
                    memory_class(memory[n as int] as int) as i64,
                )
            } else {
                self.cell_classes(memory, n, k, op)
            },
            self.cell_classes(memory, n, k, op).len() <= n,
    {
        lemma_positions(n, self.hit(k, op));
        let hit = self.in_bucket(n as int, k) && self.operators[n as int] == op;
        assert(self.hit(k, op)(n as int) == hit);
        if hit {
            assert(self.cell_classes(memory, n + 1, k, op) =~= self.cell_classes(
                memory,
                n,
                k,
                op,
            ).push(memory_class(memory[n as int] as int) as i64));
        } else {
            assert(self.cell_classes(memory, n + 1, k, op) =~= self.cell_classes(memory, n, k, op));
        }
    }
}

/// The histogram of the memory classes of one bucket and operator: the
/// classes in the order of first occurrence, and how often each occurred.
pub struct MemoryCell {
    pub classes: Vec<i64>,
    pub counts: Vec<u64>,
}

impl MemoryCell {
    /// Whether the cell is the histogram of the classes `seen`.
    pub open spec fn holds(&self, seen: Seq<i64>) -> bool {
        &&& self.classes@ == distinct(seen)
        &&& self.counts@.len() == self.classes@.len()
        &&& forall|x: int|
            0 <= x < self.classes@.len() ==> (#[trigger] self.counts@[x]) == occurrences(
                seen,
                self.classes@[x],
            )
    }

    /// The histogram of nothing.
    pub fn new() -> (cell: MemoryCell)
        ensures
            cell.holds(Seq::empty()),
    {
        MemoryCell { classes: Vec::new(), counts: Vec::new() }
    }

    /// The classes and counts after one more occurrence of `class`: its
    /// count is one higher, or it is a new class at the end with the count one.
    pub open spec fn recorded(&self, class: i64) -> (Seq<i64>, Seq<u64>) {
        let at = first_position(self.classes@, class);
        if at < self.classes@.len() {
            (self.classes@, self.counts@.update(at, (self.counts@[at] + 1) as u64))
        } else {
            (self.classes@.push(class), self.counts@.push(1))
        }
    }

    /// Counts one more occurrence of `class`.
    pub fn record(&mut self, class: i64)
        requires
            old(self).counts@.len() == old(self).classes@.len(),
            forall|x: int| 0 <= x < old(self).counts@.len() ==> old(self).counts@[x] < u64::MAX,
        ensures
            (final(self).classes@, final(self).counts@) == old(self).recorded(class),
    {
        let at = find_class(&self.classes, class);
        if at < self.classes.len() {
            let raised = self.counts[at] + 1;
            self.counts.set(at, raised);
        } else {
            self.classes.push(class);
            self.counts.push(1);
        }
    }

    /// A histogram of `seen` in which one more occurrence of `class` was
    /// counted is the histogram of `seen` followed by `class`.
    pub proof fn lemma_recorded(&self, after: MemoryCell, class: i64, seen: Seq<i64>)
        requires
            self.holds(seen),
            seen.len() < u64::MAX,
            (after.classes@, after.counts@) == self.recorded(class),
        ensures
            after.holds(seen.push(class)),
    {
        let at = first_position(self.classes@, class);
        lemma_first_position(self.classes@, class);
        lemma_distinct_push(seen, class);
        lemma_distinct(seen);
        if at < self.classes@.len() {
            assert forall|x: int| 0 <= x < after.classes@.len() implies (
            #[trigger] after.counts@[x]) == occurrences(seen.push(class), after.classes@[x]) by {
                lemma_occurrences_push(seen, class, after.classes@[x]);
                assert(self.counts@[x] == occurrences(seen, self.classes@[x]));
                if x != at {
                    assert(self.classes@[x] != self.classes@[at]);
                }
            }
        } else {
            assert(!seen.contains(class));
            lemma_occurrences_absent(seen, class);
            assert forall|x: int| 0 <= x < after.classes@.len() implies (
            #[trigger] after.counts@[x]) == occurrences(seen.push(class), after.classes@[x]) by {
                lemma_occurrences_push(seen, class, after.classes@[x]);
                if x < self.classes@.len() {
                    assert(self.counts@[x] == occurrences(seen, self.classes@[x]));
                    assert(self.classes@.contains(self.classes@[x]));
                }
            }
        }
    }

    /// No count of a histogram exceeds the number of values seen.
    pub proof fn lemma_counts_bounded(&self, seen: Seq<i64>)
        requires
            self.holds(seen),
        ensures
            forall|x: int| 0 <= x < self.counts@.len() ==> #[trigger] self.counts@[x] <= seen.len(),
    {
        assert forall|x: int| 0 <= x < self.counts@.len() implies #[trigger] self.counts@[x]
            <= seen.len() by {
            lemma_occurrences_push(seen, 0i64, self.classes@[x]);
        }
    }
}

/// The first place at which `class` stands in `classes`, or their number.
pub fn find_class(classes: &Vec<i64>, class: i64) -> (at: usize)
    ensures
        at == first_position(classes@, class),
        at <= classes.len(),
{
    let mut i: usize = 0;
    while i < classes.len()
        invariant
            i <= classes.len(),
            forall|j: int| 0 <= j < i ==> classes@[j] != class,
        decreases classes.len() - i,
    {
        if classes[i] == class {
            proof {
                crate::utils::sequences::lemma_first_position_is(classes@, class, i as int);
            }
            return i;
        }
        i += 1;
    }
    proof {
        crate::utils::sequences::lemma_first_position_is(classes@, class, i as int);
    }
    i
}

/// The memory histograms of one bucket, one cell for each operator.
pub struct MemoryBucket {
    pub cells: Vec<MemoryCell>,
}

impl MemoryBucket {
    /// A bucket of `operators` empty cells.
    pub fn new(operators: usize) -> (bucket: MemoryBucket)
        ensures
            bucket.cells@.len() == operators,
            forall|j: int| 0 <= j < operators ==> (#[trigger] bucket.cells@[j]).holds(Seq::empty()),
    {
        let mut cells: Vec<MemoryCell> = Vec::new();
        let mut j: usize = 0;
        while j < operators
            invariant
                j <= operators,
                cells@.len() == j,
                forall|i: int| 0 <= i < j ==> (#[trigger] cells@[i]).holds(Seq::empty()),
            decreases operators - j,
        {
            cells.push(MemoryCell::new());
            j += 1;
        }
        MemoryBucket { cells }
    }

    /// Counts one more occurrence of `class` in the cell of `operator`.
    pub fn record(&mut self, operator: usize, class: i64)
        requires
            operator < old(self).cells@.len(),
            old(self).cells@[operator as int].counts@.len() == old(
                self,
            ).cells@[operator as int].classes@.len(),
            forall|x: int|
                0 <= x < old(self).cells@[operator as int].counts@.len() ==> old(
                    self,
                ).cells@[operator as int].counts@[x] < u64::MAX,
        ensures
            final(self).cells@.len() == old(self).cells@.len(),
            (
                final(self).cells@[operator as int].classes@,
                final(self).cells@[operator as int].counts@,
            ) == old(self).cells@[operator as int].recorded(class),
            forall|j: int|
                0 <= j < old(self).cells@.len() && j != operator ==> final(self).cells@[j] == old(
                    self,
                ).cells@[j],
    {
        self.cells[operator].record(class);
    }
}

/// Whether a bucket holds, for every operator, the histogram of the rows
/// among the first `n` that fall into bucket `k`.
pub open spec fn bucket_recorded(
    bucket: MemoryBucket,
    h: Histogram,
    memory: Seq<i64>,
    n: nat,
    k: int,
) -> bool {
    &&& bucket.cells@.len() == h.universe().len()
    &&& forall|j: int|
        0 <= j < h.universe().len() ==> (#[trigger] bucket.cells@[j]).holds(
            h.cell_classes(memory, n, k, h.universe()[j]),
        )
}

/// Whether a grid holds the histograms of every bucket over the first `n` rows.
pub open spec fn grid_recorded(
    grid: Seq<MemoryBucket>,
    h: Histogram,
    memory: Seq<i64>,
    n: nat,
) -> bool {
    &&& grid.len() == h.buckets()
    &&& forall|k: int| 0 <= k < grid.len() ==> bucket_recorded(#[trigger] grid[k], h, memory, n, k)
}

/// The name and kind of each column of a memory histogram.
pub open spec fn memory_fields(operator_name: Seq<char>) -> Seq<FieldView> {
    seq![
        FieldView { name: "bucket"@, data_type: DataType::Decimal },
        FieldView { name: operator_name, data_type: DataType::Utf8 },
        FieldView { name: "mem"@, data_type: DataType::Int64 },
        FieldView { name: "freq"@, data_type: DataType::UInt64 },
    ]
}

/// The table of a memory histogram: the bucket, the operator under the name
/// `operator_name`, the memory class and the count.
pub open spec fn memory_table(
    operator_name: Seq<char>,
    buckets: Seq<i64>,
    operators: Seq<Seq<char>>,
    classes: Seq<i64>,
    counts: Seq<u64>,
) -> TableView {
    TableView {
        fields: memory_fields(operator_name),
        columns: seq![
            ColumnView::Decimal(buckets),
            ColumnView::Utf8(operators),
            ColumnView::Int64(classes),
            ColumnView::UInt64(counts),
        ],
    }
}

/// The table of a memory histogram with the given rows.
pub open spec fn memory_rows_table(operator_name: Seq<char>, rows: Seq<MemoryRow>) -> TableView {
    memory_table(
        operator_name,
        Seq::new(rows.len(), |r: int| rows[r].bucket as i64),
        Seq::new(rows.len(), |r: int| rows[r].operator),
        Seq::new(rows.len(), |r: int| rows[r].class),
        Seq::new(rows.len(), |r: int| rows[r].count as u64),
    )
}

/// Whether four columns hold exactly the given rows.
pub open spec fn holds_memory_rows(
    buckets: Seq<i64>,
    operators: Seq<Seq<char>>,
    classes: Seq<i64>,
    counts: Seq<u64>,
    rows: Seq<MemoryRow>,
) -> bool {
    &&& buckets.len() == rows.len()
    &&& operators.len() == rows.len()
    &&& classes.len() == rows.len()
    &&& counts.len() == rows.len()
    &&& forall|r: int|
        0 <= r < rows.len() ==> {
            &&& buckets[r] == (#[trigger] rows[r]).bucket
            &&& operators[r] == rows[r].operator
            &&& classes[r] == rows[r].class
            &&& counts[r] == rows[r].count
        }
}

/// Columns that hold the rows make the table of those rows.
pub proof fn lemma_memory_rows_table(
    operator_name: Seq<char>,
    buckets: Seq<i64>,
    operators: Seq<Seq<char>>,
    classes: Seq<i64>,
    counts: Seq<u64>,
    rows: Seq<MemoryRow>,
)
    requires
        holds_memory_rows(buckets, operators, classes, counts, rows),
    ensures
        memory_table(operator_name, buckets, operators, classes, counts) == memory_rows_table(
            operator_name,
            rows,
        ),
{
    assert(buckets =~= Seq::new(rows.len(), |r: int| rows[r].bucket as i64));
    assert(operators =~= Seq::new(rows.len(), |r: int| rows[r].operator));
    assert(classes =~= Seq::new(rows.len(), |r: int| rows[r].class));
    assert(counts =~= Seq::new(rows.len(), |r: int| rows[r].count as u64));
}

/// Which error, if any, a memory request meets on a table: the first of
/// those of the operator column, the time column, the memory column and the
/// grid.
pub open spec fn memory_fault(
    table: TableView,
    column_for_operator: int,
    column_for_time: int,
    bucket_size: int,
    from: int,
    to: int,
) -> Option<EngineError> {
    if column_fault(table, column_for_operator, DataType::Utf8) is Some {
        column_fault(table, column_for_operator, DataType::Utf8)
    } else if column_fault(table, column_for_time, DataType::Decimal) is Some {
        column_fault(table, column_for_time, DataType::Decimal)
    } else if column_fault(table, MEMORY_COLUMN as int, DataType::Int64) is Some {
        column_fault(table, MEMORY_COLUMN as int, DataType::Int64)
    } else {
        grid_fault(bucket_size, from, to)
    }
}

/// The events of `table` under a memory request, which has no allow-lists:
/// every row in the window counts.
pub open spec fn memory_histogram_of(
    table: TableView,
    column_for_operator: int,
    column_for_time: int,
    bucket_size: int,
    from: int,
    to: int,
) -> Histogram {
    Histogram {
        operators: table.columns[column_for_operator].text(),
        times: table.columns[column_for_time].numbers(),
        pipelines: table.columns[column_for_operator].text(),
        allowed_operators: Seq::empty(),
        allowed_pipelines: Seq::empty(),
        start: grid_start(from),
        to,
        size: bucket_size,
    }
}

/// The four columns of a memory histogram while they are written.
pub(crate) struct MemoryColumns {
    pub buckets: Vec<i64>,
    pub operators: Vec<String>,
    pub classes: Vec<i64>,
    pub counts: Vec<u64>,
}

impl MemoryColumns {
    /// Whether the columns hold exactly `rows`.
    pub(crate) open spec fn holds(&self, rows: Seq<MemoryRow>) -> bool {
        holds_memory_rows(self.buckets@, texts(self.operators@), self.classes@, self.counts@, rows)
    }

    /// Columns without rows.
    pub(crate) fn new() -> (out: MemoryColumns)
        ensures
            out.holds(Seq::empty()),
    {
        MemoryColumns {
            buckets: Vec::new(),
            operators: Vec::new(),
            classes: Vec::new(),
            counts: Vec::new(),
        }
    }

    /// Appends the rows of one cell: a row for each of its classes.
    pub(crate) fn write_cell(
        &mut self,
        cell: &MemoryCell,
        bucket: i64,
        operator: &String,
        Ghost(rows): Ghost<Seq<MemoryRow>>,
        Ghost(more): Ghost<Seq<MemoryRow>>,
    )
        requires
            old(self).holds(rows),
            cell.counts@.len() == cell.classes@.len(),
            more.len() == cell.classes@.len(),
            forall|x: int|
                0 <= x < more.len() ==> (#[trigger] more[x]) == (MemoryRow {
                    bucket: bucket as int,
                    operator: operator@,
                    class: cell.classes@[x],
                    count: cell.counts@[x] as nat,
                }),
        ensures
            final(self).holds(rows + more),
    {
        let mut x: usize = 0;
        assert(rows + more.take(0) =~= rows);
        while x < cell.classes.len()
            invariant
                x <= cell.classes@.len(),
                cell.counts@.len() == cell.classes@.len(),
                more.len() == cell.classes@.len(),
                forall|x: int|
                    0 <= x < more.len() ==> (#[trigger] more[x]) == (MemoryRow {
                        bucket: bucket as int,
                        operator: operator@,
                        class: cell.classes@[x],
                        count: cell.counts@[x] as nat,
                    }),
                self.holds(rows + more.take(x as int)),
            decreases cell.classes@.len() - x,
        {
            let ghost names = texts(self.operators@);
            self.buckets.push(bucket);
            self.operators.push(operator.clone());
            self.classes.push(cell.classes[x]);
            self.counts.push(cell.counts[x]);
            proof {
                let before = rows + more.take(x as int);
                let after = rows + more.take(x + 1);
                assert(texts(self.operators@) =~= names.push(operator@));
                assert(after =~= before.push(more[x as int]));
                assert forall|r: int| 0 <= r < after.len() implies {
                    &&& self.buckets@[r] == (#[trigger] after[r]).bucket
                    &&& texts(self.operators@)[r] == after[r].operator
                    &&& self.classes@[r] == after[r].class
                    &&& self.counts@[r] == after[r].count
                } by {
                    if r < before.len() {
                        assert(after[r] == before[r]);
                    }
                }
            }
            x += 1;
        }
        assert(more.take(x as int) =~= more);
    }
}

} // verus!
