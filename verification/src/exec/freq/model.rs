use crate::error::EngineError;
use crate::exec::freq::freq::Freq;
use crate::utils::record_batch_util::{ColumnView, DataType, FieldView, TableView, DECIMAL_ONE};
use crate::utils::sequences::{
    count, distinct, first_position, gather, lemma_count_step, lemma_distinct,
    lemma_first_position, lemma_sum_bump, lemma_sum_congruent, positions, sum,
};
use vstd::prelude::*;

verus! {

/// The rule of an allow-list: an empty list and the list of the one word
/// `All` allow every value, any other list allows its members.
pub open spec fn allows(allowed: Seq<Seq<char>>, value: Seq<char>) -> bool {
    ||| allowed.len() == 0
    ||| (allowed.len() == 1 && allowed[0] == "All"@)
    ||| allowed.contains(value)
}

/// The events of a table and the request that buckets them. Times, the
/// window and the bucket size are decimals, counted in hundredths.
pub struct Histogram {
    /// The operator of each row.
    pub operators: Seq<Seq<char>>,
    /// The time of each row.
    pub times: Seq<i64>,
    /// The pipeline of each row.
    pub pipelines: Seq<Seq<char>>,
    /// The operators whose rows count.
    pub allowed_operators: Seq<Seq<char>>,
    /// The pipelines whose rows count.
    pub allowed_pipelines: Seq<Seq<char>>,
    /// Where the first bucket starts.
    pub start: int,
    /// Where the window ends; the grid covers the times from `start` up to it.
    pub to: int,
    /// The width of a bucket.
    pub size: int,
}

impl Histogram {
    /// Every row has an operator, a time and a pipeline; buckets have a
    /// positive width; the window does not end before it starts.
    pub open spec fn wf(self) -> bool {
        &&& self.operators.len() == self.times.len()
        &&& self.pipelines.len() == self.times.len()
        &&& self.size > 0
        &&& self.start <= self.to
    }

    /// The number of rows.
    pub open spec fn rows(self) -> nat {
        self.times.len()
    }

    /// The number of buckets: as many steps of `size` as it takes to cover
    /// the window, the last bucket reaching beyond `to` where the window is
    /// no multiple of `size`.
    pub open spec fn buckets(self) -> nat {
        grid_len(self.start, self.to, self.size)
    }

    /// The operators that the table holds, each once, in the order in which
    /// they first occur.
    pub open spec fn universe(self) -> Seq<Seq<char>> {
        distinct(self.operators)
    }

    /// Where bucket `k` starts.
    pub open spec fn bucket_start(self, k: int) -> int {
        self.start + k * self.size
    }

    /// Whether `row` passes both allow-lists and lies in the window.
    pub open spec fn counted(self, row: int) -> bool {
        &&& allows(self.allowed_operators, self.operators[row])
        &&& allows(self.allowed_pipelines, self.pipelines[row])
        &&& self.start <= self.times[row] < self.to
    }

    /// Whether `row` is counted and its time falls into bucket `k`.
    pub open spec fn in_bucket(self, row: int, k: int) -> bool {
        &&& self.counted(row)
        &&& self.bucket_start(k) <= self.times[row] < self.bucket_start(k + 1)
    }

    /// The test for a row that falls into bucket `k` with operator `op`.
    pub open spec fn hit(self, k: int, op: Seq<char>) -> spec_fn(int) -> bool {
        |row: int| self.in_bucket(row, k) && self.operators[row] == op
    }

    /// The test for a row that falls into bucket `k`.
    pub open spec fn falls(self, k: int) -> spec_fn(int) -> bool {
        |row: int| self.in_bucket(row, k)
    }

    /// Among the first `n` rows, how many fall into bucket `k` with operator `op`.
    pub open spec fn tally_upto(self, n: nat, k: int, op: Seq<char>) -> nat {
        count(n, self.hit(k, op))
    }

    /// How many rows fall into bucket `k` with operator `op`.
    pub open spec fn tally(self, k: int, op: Seq<char>) -> nat {
        self.tally_upto(self.rows(), k, op)
    }

    /// Among the first `n` rows, how many fall into bucket `k`.
    pub open spec fn total_upto(self, n: nat, k: int) -> nat {
        count(n, self.falls(k))
    }

    /// How many rows fall into bucket `k`: the total of a relative
    /// frequency. Rows that an allow-list excludes are not in it.
    pub open spec fn total(self, k: int) -> nat {
        self.total_upto(self.rows(), k)
    }

    /// What the histogram reports for operator `op` in bucket `k`.
    pub open spec fn value(self, freq: Freq, k: int, op: Seq<char>) -> nat {
        bucket_value(freq, self.tally(k, op), self.total(k))
    }

    /// The rows of bucket `k`: one for each operator of the universe.
    pub open spec fn bucket_rows(self, freq: Freq, k: int) -> Seq<FreqRow> {
        Seq::new(
            self.universe().len(),
            |j: int|
                FreqRow {
                    bucket: self.bucket_start(k),
                    operator: self.universe()[j],
                    value: self.value(freq, k, self.universe()[j]),
                },
        )
    }

    /// The dense rows of the first `n` buckets, bucket after bucket.
    pub open spec fn dense_upto(self, freq: Freq, n: nat) -> Seq<FreqRow>
        decreases n,
    {
        if n == 0 {
            Seq::empty()
        } else {
            self.dense_upto(freq, (n - 1) as nat) + self.bucket_rows(freq, n - 1)
        }
    }

    /// The dense histogram: a row for every bucket of the grid and every
    /// operator of the universe, also where nothing was counted.
    pub open spec fn dense(self, freq: Freq) -> Seq<FreqRow> {
        self.dense_upto(freq, self.buckets())
    }

    /// The test for an operator of the universe that was counted in bucket `k`.
    pub open spec fn occupied(self, k: int) -> spec_fn(int) -> bool {
        |j: int| self.tally(k, self.universe()[j]) > 0
    }

    /// The rows of bucket `k` for the operators that were counted there.
    pub open spec fn occupied_rows(self, freq: Freq, k: int) -> Seq<FreqRow> {
        gather(
            self.bucket_rows(freq, k),
            positions(self.universe().len(), self.occupied(k)),
        )
    }

    /// The sparse rows of the first `n` buckets, bucket after bucket.
    pub open spec fn sparse_upto(self, freq: Freq, n: nat) -> Seq<FreqRow>
        decreases n,
    {
        if n == 0 {
            Seq::empty()
        } else {
            self.sparse_upto(freq, (n - 1) as nat) + self.occupied_rows(freq, n - 1)
        }
    }

    /// The sparse histogram: the rows of the dense one whose operator was
    /// counted in their bucket.
    pub open spec fn sparse(self, freq: Freq) -> Seq<FreqRow> {
        self.sparse_upto(freq, self.buckets())
    }
}

/// A fraction in hundredths, cut off after the second decimal; zero where
/// the total is zero.
pub open spec fn fraction(part: nat, total: nat) -> nat {
    if total == 0 {
        0
    } else {
        (part * 100 / total) as nat
    }
}

/// What a histogram reports for a count within a bucket's total.
pub open spec fn bucket_value(freq: Freq, part: nat, total: nat) -> nat {
    match freq {
        Freq::ABS => part,
        Freq::REL => fraction(part, total),
    }
}

/// One row of a frequency histogram.
pub struct FreqRow {
    /// The start of the bucket.
    pub bucket: int,
    /// The operator.
    pub operator: Seq<char>,
    /// The count, or the fraction in hundredths.
    pub value: nat,
}

/// The name of the column that holds the values.
pub open spec fn value_name(freq: Freq) -> Seq<char> {
    match freq {
        Freq::ABS => "absfreq"@,
        Freq::REL => "relfreq"@,
    }
}

/// The column that holds the values: counts, or fractions as decimals.
pub open spec fn value_column(freq: Freq, values: Seq<u64>) -> ColumnView {
    match freq {
        Freq::ABS => ColumnView::UInt64(values),
        Freq::REL => ColumnView::Decimal(Seq::new(values.len(), |r: int| values[r] as i64)),
    }
}

/// The kind of the column that holds the values.
pub open spec fn value_type(freq: Freq) -> DataType {
    match freq {
        Freq::ABS => DataType::UInt64,
        Freq::REL => DataType::Decimal,
    }
}

/// The table of a frequency histogram: the bucket, the operator under the
/// name `operator_name`, and the value.
pub open spec fn freq_table(
    operator_name: Seq<char>,
    buckets: Seq<i64>,
    operators: Seq<Seq<char>>,
    values: Seq<u64>,
    freq: Freq,
) -> TableView {
    TableView {
        fields: seq![
            FieldView { name: "bucket"@, data_type: DataType::Decimal },
            FieldView { name: operator_name, data_type: DataType::Utf8 },
            FieldView { name: value_name(freq), data_type: value_type(freq) },
        ],
        columns: seq![
            ColumnView::Decimal(buckets),
            ColumnView::Utf8(operators),
            value_column(freq, values),
        ],
    }
}

/// Whether three columns hold exactly the given rows.
pub open spec fn holds_rows(
    buckets: Seq<i64>,
    operators: Seq<Seq<char>>,
    values: Seq<u64>,
    rows: Seq<FreqRow>,
) -> bool {
    &&& buckets.len() == rows.len()
    &&& operators.len() == rows.len()
    &&& values.len() == rows.len()
    &&& forall|r: int|
        0 <= r < rows.len() ==> {
            &&& buckets[r] == (#[trigger] rows[r]).bucket
            &&& operators[r] == rows[r].operator
            &&& values[r] == rows[r].value
        }
}

impl Histogram {
    /// The bucket into which the time of `row` falls.
    pub open spec fn bucket_of(self, row: int) -> int {
        (self.times[row] - self.start) / self.size
    }

    /// One row further, a tally is one higher exactly where that row falls
    /// into the bucket with the operator; no tally exceeds the number of rows.
    pub proof fn lemma_tally_step(self, n: nat, k: int, op: Seq<char>)
        ensures
            self.tally_upto(n + 1, k, op) == self.tally_upto(n, k, op) + if self.in_bucket(
                n as int,
                k,
            ) && self.operators[n as int] == op {
                1nat
            } else {
                0nat
            },
            self.tally_upto(n, k, op) <= n,
    {
        lemma_count_step(n, self.hit(k, op));
    }

    /// One row further, a total is one higher exactly where that row falls
    /// into the bucket; no total exceeds the number of rows.
    pub proof fn lemma_total_step(self, n: nat, k: int)
        ensures
            self.total_upto(n + 1, k) == self.total_upto(n, k) + if self.in_bucket(n as int, k) {
                1nat
            } else {
                0nat
            },
            self.total_upto(n, k) <= n,
    {
        lemma_count_step(n, self.falls(k));
    }

    /// No tally exceeds the total of its bucket.
    pub proof fn lemma_tally_within_total(self, n: nat, k: int, op: Seq<char>)
        ensures
            self.tally_upto(n, k, op) <= self.total_upto(n, k),
        decreases n,
    {
        if n > 0 {
            self.lemma_tally_within_total((n - 1) as nat, k, op);
            self.lemma_tally_step((n - 1) as nat, k, op);
            self.lemma_total_step((n - 1) as nat, k);
        }
    }

    /// A counted row falls into exactly one bucket, which is a bucket of the grid.
    pub proof fn lemma_bucket_of(self, row: int, k: int)
        requires
            self.wf(),
            self.counted(row),
        ensures
            self.in_bucket(row, k) <==> k == self.bucket_of(row),
            0 <= self.bucket_of(row) < self.buckets(),
    {
        let d = self.times[row] - self.start;
        let w = self.to - self.start;
        let s = self.size;
        let q = d / s;
        assert(q * s <= d < (q + 1) * s && q >= 0) by (nonlinear_arith)
            requires
                q == d / s,
                d >= 0,
                s > 0,
        ;
        assert(k * s <= d < (k + 1) * s ==> k == q) by (nonlinear_arith)
            requires
                q * s <= d < (q + 1) * s,
                s > 0,
        ;
        assert(q < (w + s - 1) / s) by (nonlinear_arith)
            requires
                q * s <= d,
                d < w,
                s > 0,
                q >= 0,
        ;
    }

    /// Every bucket of the grid starts within the window.
    pub proof fn lemma_bucket_start(self, k: int)
        requires
            self.wf(),
            0 <= k < self.buckets(),
        ensures
            self.start <= self.bucket_start(k) < self.to,
    {
        let w = self.to - self.start;
        let s = self.size;
        assert(k * s >= 0 && k * s < w) by (nonlinear_arith)
            requires
                0 <= k < (w + s - 1) / s,
                s > 0,
                w > 0,
        ;
    }
}

/// The table of a frequency histogram with the given rows.
pub open spec fn rows_table(operator_name: Seq<char>, rows: Seq<FreqRow>, freq: Freq) -> TableView {
    freq_table(
        operator_name,
        Seq::new(rows.len(), |r: int| rows[r].bucket as i64),
        Seq::new(rows.len(), |r: int| rows[r].operator),
        Seq::new(rows.len(), |r: int| rows[r].value as u64),
        freq,
    )
}

/// Columns that hold the rows make the table of those rows.
pub proof fn lemma_rows_table(
    operator_name: Seq<char>,
    buckets: Seq<i64>,
    operators: Seq<Seq<char>>,
    values: Seq<u64>,
    rows: Seq<FreqRow>,
    freq: Freq,
)
    requires
        holds_rows(buckets, operators, values, rows),
    ensures
        freq_table(operator_name, buckets, operators, values, freq) == rows_table(
            operator_name,
            rows,
            freq,
        ),
{
    assert(buckets =~= Seq::new(rows.len(), |r: int| rows[r].bucket as i64));
    assert(operators =~= Seq::new(rows.len(), |r: int| rows[r].operator));
    assert(values =~= Seq::new(rows.len(), |r: int| rows[r].value as u64));
}

/// The column in which a table holds the pipeline of each row.
pub const PIPELINE_COLUMN: usize = 3;

/// Which error, if any, a column reference meets: `InvalidParameter` where
/// the table has no such column, `ColumnTypeMismatch` where the column is of
/// another kind than `kind`.
pub open spec fn column_fault(table: TableView, column: int, kind: DataType) -> Option<
    EngineError,
> {
    if !(0 <= column < table.columns.len()) {
        Some(EngineError::InvalidParameter)
    } else if table.columns[column].data_type() != kind {
        Some(EngineError::ColumnTypeMismatch)
    } else {
        None
    }
}

/// Which error, if any, the grid of a request meets: `InvalidBucketSize`
/// where the bucket size is not positive, `InvalidParameter` where the window
/// ends before the grid starts or the grid has more buckets than the machine
/// can number.
pub open spec fn grid_fault(bucket_size: int, from: int, to: int) -> Option<EngineError> {
    if bucket_size <= 0 {
        Some(EngineError::InvalidBucketSize)
    } else if to < grid_start(from) {
        Some(EngineError::InvalidParameter)
    } else if grid_len(grid_start(from), to, bucket_size) > usize::MAX {
        Some(EngineError::InvalidParameter)
    } else {
        None
    }
}

/// Which error, if any, a frequency request meets on a table: the first of
/// those of the operator column, the time column, the pipeline column and
/// the grid.
pub open spec fn request_fault(
    table: TableView,
    column_for_operator: int,
    column_for_time: int,
    bucket_size: int,
    from: int,
    to: int,
) -> Option<EngineError> {
    if column_fault(table, column_for_operator, DataType::Utf8) is Some {
        column_fault(table, column_for_operator, DataType::Utf8)
    } else if column_fault(table, column_for_time, DataType::Decimal) is Some {
        column_fault(table, column_for_time, DataType::Decimal)
    } else if column_fault(table, PIPELINE_COLUMN as int, DataType::Utf8) is Some {
        column_fault(table, PIPELINE_COLUMN as int, DataType::Utf8)
    } else {
        grid_fault(bucket_size, from, to)
    }
}

/// A decimal cut down to whole units, towards zero.
pub open spec fn truncate(x: int) -> int {
    if x >= 0 {
        x - x % (DECIMAL_ONE as int)
    } else {
        -((-x) - (-x) % (DECIMAL_ONE as int))
    }
}

/// Where the bucket grid starts: at zero where `from` is minus one, the
/// mark of an open window, else at `from` cut down to whole units.
pub open spec fn grid_start(from: int) -> int {
    if from == -DECIMAL_ONE {
        0
    } else {
        truncate(from)
    }
}

/// How many buckets of width `size` it takes to cover the times from `start` up to `to`.
pub open spec fn grid_len(start: int, to: int, size: int) -> nat {
    if to <= start {
        0
    } else {
        ((to - start + size - 1) / size) as nat
    }
}

/// The events of `table` under a frequency request.
pub open spec fn histogram_of(
    table: TableView,
    column_for_operator: int,
    column_for_time: int,
    bucket_size: int,
    pipelines: Seq<Seq<char>>,
    operators: Seq<Seq<char>>,
    from: int,
    to: int,
) -> Histogram {
    Histogram {
        operators: table.columns[column_for_operator].text(),
        times: table.columns[column_for_time].numbers(),
        pipelines: table.columns[PIPELINE_COLUMN as int].text(),
        allowed_operators: operators,
        allowed_pipelines: pipelines,
        start: grid_start(from),
        to,
        size: bucket_size,
    }
}

impl Histogram {
    /// The tally of each operator of the universe in bucket `k` over the first `n` rows.
    pub open spec fn tallies(self, n: nat, k: int) -> spec_fn(int) -> int {
        |j: int| self.tally_upto(n, k, self.universe()[j]) as int
    }

    /// The relative frequency of each operator of the universe in bucket `k`.
    pub open spec fn fractions(self, k: int) -> spec_fn(int) -> int {
        |j: int| self.value(Freq::REL, k, self.universe()[j]) as int
    }

    /// The sum of the relative frequencies of bucket `k` over the universe.
    pub open spec fn fraction_sum(self, k: int) -> int {
        sum(self.universe().len(), self.fractions(k))
    }

    /// The tallies of a bucket over the universe add up to its total: every
    /// counted row has exactly one operator of the universe.
    pub proof fn lemma_tallies_sum(self, n: nat, k: int)
        requires
            n <= self.rows(),
            self.operators.len() == self.rows(),
        ensures
            sum(self.universe().len(), self.tallies(n, k)) == self.total_upto(n, k),
        decreases n,
    {
        let m = self.universe().len();
        if n == 0 {
            assert(self.total_upto(0, k) == 0);
            lemma_sum_congruent(m, |j: int| 0int, self.tallies(0, k));
            lemma_sum_zero(m);
        } else {
            let before = (n - 1) as nat;
            self.lemma_tallies_sum(before, k);
            self.lemma_total_step(before, k);
            let op = self.operators[before as int];
            lemma_distinct(self.operators);
            assert(self.operators.contains(op));
            lemma_first_position(self.universe(), op);
            let at = first_position(self.universe(), op);
            if self.in_bucket(before as int, k) {
                assert forall|j: int| 0 <= j < m implies #[trigger] self.tallies(n, k)(j)
                    == self.tallies(before, k)(j) + if j == at {
                    1int
                } else {
                    0int
                } by {
                    self.lemma_tally_step(before, k, self.universe()[j]);
                    if j != at {
                        assert(self.universe()[j] != self.universe()[at]);
                    }
                }
                lemma_sum_bump(m, self.tallies(before, k), self.tallies(n, k), at);
            } else {
                assert forall|j: int| 0 <= j < m implies #[trigger] self.tallies(n, k)(j)
                    == self.tallies(before, k)(j) by {
                    self.lemma_tally_step(before, k, self.universe()[j]);
                }
                lemma_sum_congruent(m, self.tallies(before, k), self.tallies(n, k));
            }
        }
    }

    /// The relative frequencies of a bucket with rows add up to one, short
    /// of it by less than a hundredth for each operator, which is what
    /// cutting off the fractions loses; those of a bucket without rows are
    /// zero for every operator.
    pub proof fn lemma_relative_fractions(self, k: int)
        requires
            self.operators.len() == self.rows(),
        ensures
            self.total(k) > 0 ==> 100 - self.universe().len() < self.fraction_sum(k) <= 100,
            self.total(k) == 0 ==> forall|j: int|
                0 <= j < self.universe().len() ==> self.value(
                    Freq::REL,
                    k,
                    #[trigger] self.universe()[j],
                ) == 0,
    {
        let m = self.universe().len();
        let total = self.total(k);
        if total > 0 {
            self.lemma_tallies_sum(self.rows(), k);
            self.lemma_fraction_bounds(k, m);
            let fractions = self.fraction_sum(k);
            let tallies = sum(m, self.tallies(self.rows(), k));
            assert(fractions <= 100 && 100 - m < fractions) by (nonlinear_arith)
                requires
                    total > 0,
                    tallies == total,
                    total * fractions <= 100 * tallies,
                    total * fractions + m * total >= 100 * tallies + m,
                    m >= 0,
                    m == 0 ==> tallies == 0,
            ;
        }
    }

    /// Over the first `m` operators, the fractions times the total lie
    /// between a hundred times the tallies, less the total for each
    /// operator, and a hundred times the tallies.
    proof fn lemma_fraction_bounds(self, k: int, m: nat)
        requires
            self.total(k) > 0,
        ensures
            self.total(k) * sum(m, self.fractions(k)) <= 100 * sum(
                m,
                self.tallies(self.rows(), k),
            ),
            self.total(k) * sum(m, self.fractions(k)) + m * self.total(k) >= 100 * sum(
                m,
                self.tallies(self.rows(), k),
            ) + m,
            m == 0 ==> sum(m, self.tallies(self.rows(), k)) == 0,
        decreases m,
    {
        if m > 0 {
            self.lemma_fraction_bounds(k, (m - 1) as nat);
            let total = self.total(k) as int;
            let part = self.tally(k, self.universe()[m - 1]) as int;
            let share = self.fractions(k)(m - 1);
            assert(share == part * 100 / total);
            let f = sum((m - 1) as nat, self.fractions(k));
            let t = sum((m - 1) as nat, self.tallies(self.rows(), k));
            assert(self.tallies(self.rows(), k)(m - 1) == part);
            assert(total * share <= 100 * part && total * share + total >= 100 * part + 1)
                by (nonlinear_arith)
                requires
                    share == part * 100 / total,
                    total > 0,
                    part >= 0,
            ;
            assert(total * (f + share) == total * f + total * share) by (nonlinear_arith);
            assert(m * total == (m - 1) * total + total) by (nonlinear_arith);
        }
    }
}

/// The sum of zeros is zero.
proof fn lemma_sum_zero(n: nat)
    ensures
        sum(n, |j: int| 0int) == 0,
    decreases n,
{
    if n > 0 {
        lemma_sum_zero((n - 1) as nat);
    }
}

impl Histogram {
    /// The dense histogram is a full rectangle: it has a row for every
    /// bucket of the grid and every operator of the universe, the row of
    /// bucket `k` and of the operator at place `j` of the universe standing
    /// at place `k` times the number of operators plus `j`.
    pub proof fn lemma_dense_shape(self, freq: Freq, n: nat)
        ensures
            self.dense_upto(freq, n).len() == n * self.universe().len(),
            forall|k: int, j: int|
                0 <= k < n && 0 <= j < self.universe().len() ==> self.dense_upto(
                    freq,
                    n,
                )[k * self.universe().len() + j] == #[trigger] self.bucket_rows(freq, k)[j],
        decreases n,
    {
        let m = self.universe().len();
        if n > 0 {
            let before = (n - 1) as nat;
            self.lemma_dense_shape(freq, before);
            assert(before * m + m == n * m) by (nonlinear_arith)
                requires
                    before + 1 == n,
            ;
            assert forall|k: int, j: int| 0 <= k < n && 0 <= j < m implies self.dense_upto(
                freq,
                n,
            )[k * m + j] == #[trigger] self.bucket_rows(freq, k)[j] by {
                if k < before {
                    assert(k * m + j < before * m) by (nonlinear_arith)
                        requires
                            0 <= k < before,
                            0 <= j < m,
                    ;
                    assert(k * m + j >= 0) by (nonlinear_arith)
                        requires
                            0 <= k,
                            0 <= j,
                            m >= 0,
                    ;
                } else {
                    assert(k * m + j - before * m == j) by (nonlinear_arith)
                        requires
                            k == before,
                    ;
                }
            }
        } else {
            assert(n * m == 0) by (nonlinear_arith)
                requires
                    n == 0,
            ;
        }
    }

    /// The rows of the dense histogram come in the order of time: no row
    /// has an earlier bucket than a row before it.
    pub proof fn lemma_dense_in_order(self, freq: Freq, n: nat)
        requires
            self.size > 0,
        ensures
            forall|r: int, s: int|
                0 <= r <= s < self.dense_upto(freq, n).len() ==> self.dense_upto(freq, n)[r].bucket
                    <= self.dense_upto(freq, n)[s].bucket,
            forall|r: int|
                0 <= r < self.dense_upto(freq, n).len() ==> (#[trigger] self.dense_upto(
                    freq,
                    n,
                )[r]).bucket < self.bucket_start(n as int),
        decreases n,
    {
        if n > 0 {
            let before = (n - 1) as nat;
            self.lemma_dense_in_order(freq, before);
            let front = self.dense_upto(freq, before);
            let all = self.dense_upto(freq, n);
            assert(self.bucket_start(before as int) < self.bucket_start(n as int))
                by (nonlinear_arith)
                requires
                    self.bucket_start(before as int) == self.start + before * self.size,
                    self.bucket_start(n as int) == self.start + n * self.size,
                    before + 1 == n,
                    self.size > 0,
            ;
            assert forall|r: int| 0 <= r < all.len() implies (#[trigger] all[r]).bucket
                < self.bucket_start(n as int) && (r < front.len() ==> all[r] == front[r]) && (r
                >= front.len() ==> all[r].bucket == self.bucket_start(before as int)) by {
                if r < front.len() {
                    assert(all[r] == front[r]);
                } else {
                    assert(all[r] == self.bucket_rows(freq, before as int)[r - front.len()]);
                }
            }
            assert forall|r: int, s: int| 0 <= r <= s < all.len() implies all[r].bucket
                <= all[s].bucket by {
                if s < front.len() {
                    assert(front[r].bucket <= front[s].bucket);
                } else if r < front.len() {
                    assert(front[r].bucket < self.bucket_start(before as int));
                }
            }
        }
    }
}

} // verus!
