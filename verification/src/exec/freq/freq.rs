use crate::error::EngineError;
use crate::exec::freq::memory::{
    bucket_recorded, class_of, grid_recorded, lemma_memory_rows_table, memory_fault,
    memory_histogram_of, memory_rows_table, memory_table, MemoryBucket, MemoryColumns, MemoryRow,
    MEMORY_COLUMN,
};
use crate::exec::freq::model::{
    allows, bucket_value, column_fault, fraction, freq_table, grid_fault, grid_len, grid_start,
    histogram_of, holds_rows, lemma_rows_table, request_fault, rows_table, Histogram,
    PIPELINE_COLUMN,
};
use crate::utils::record_batch_util::{
    columns_view, create_record_batch, fields_view, Column, ColumnView, DataType, Field, Table,
    TableView, DECIMAL_ONE,
};
use crate::utils::sequences::{
    first_position, gather, lemma_distinct, lemma_first_position, occurrences, positions, texts,
};
use crate::utils::text::{contains_text, find_text, unique_text};
use vstd::prelude::*;

verus! {

/// Whether a histogram reports counts or fractions of the bucket's total.
#[derive(Clone, Copy, Debug, PartialEq, Eq, Structural)]
pub enum Freq {
    ABS,
    REL,
}

/// Whether `allowed` lets `value` through.
fn passes(value: &String, allowed: &Vec<String>) -> (pass: bool)
    ensures
        pass == allows(texts(allowed@), value@),
{
    if allowed.len() == 0 {
        return true;
    }
    if allowed.len() == 1 {
        let all = "All".to_owned();
        if allowed[0] == all {
            assert(texts(allowed@)[0] == "All"@);
            return true;
        }
        assert(texts(allowed@)[0] != "All"@);
    }
    contains_text(allowed, value)
}

/// Whether the pipeline allow-list lets `current_pipeline` through.
pub fn current_pipe_in(current_pipeline: &String, pipelines: &Vec<String>) -> (pass: bool)
    ensures
        pass == allows(texts(pipelines@), current_pipeline@),
{
    passes(current_pipeline, pipelines)
}

/// Whether the operator allow-list lets `current_operator` through.
pub fn current_op_in(current_operator: &String, operators: &Vec<String>) -> (pass: bool)
    ensures
        pass == allows(texts(operators@), current_operator@),
{
    passes(current_operator, operators)
}

/// The start of the bucket grid for a window that opens at `from`.
pub fn init_time_bucket(from: i64) -> (start: i64)
    ensures
        start == grid_start(from as int),
{
    if from == -DECIMAL_ONE {
        0
    } else {
        from - from % DECIMAL_ONE
    }
}

/// The texts of the column at `column`.
pub fn get_stringarray_column(batch: &Table, column: usize) -> (values: Result<
    &Vec<String>,
    EngineError,
>)
    ensures
        match values {
            Ok(v) => column_fault(batch@, column as int, DataType::Utf8) is None
                && batch@.columns[column as int] == ColumnView::Utf8(texts(v@)),
            Err(e) => column_fault(batch@, column as int, DataType::Utf8) == Some(e),
        },
{
    if column >= batch.num_columns() {
        return Err(EngineError::InvalidParameter);
    }
    match batch.column(column) {
        Column::Utf8(v) => Ok(v),
        _ => Err(EngineError::ColumnTypeMismatch),
    }
}

/// The decimals of the column at `column`.
pub fn get_floatarray_column(batch: &Table, column: usize) -> (values: Result<
    &Vec<i64>,
    EngineError,
>)
    ensures
        match values {
            Ok(v) => column_fault(batch@, column as int, DataType::Decimal) is None
                && batch@.columns[column as int] == ColumnView::Decimal(v@),
            Err(e) => column_fault(batch@, column as int, DataType::Decimal) == Some(e),
        },
{
    if column >= batch.num_columns() {
        return Err(EngineError::InvalidParameter);
    }
    match batch.column(column) {
        Column::Decimal(v) => Ok(v),
        _ => Err(EngineError::ColumnTypeMismatch),
    }
}

/// The integers of the column at `column`.
pub fn get_int_column(batch: &Table, column: usize) -> (values: Result<&Vec<i64>, EngineError>)
    ensures
        match values {
            Ok(v) => column_fault(batch@, column as int, DataType::Int64) is None
                && batch@.columns[column as int] == ColumnView::Int64(v@),
            Err(e) => column_fault(batch@, column as int, DataType::Int64) == Some(e),
        },
{
    if column >= batch.num_columns() {
        return Err(EngineError::InvalidParameter);
    }
    match batch.column(column) {
        Column::Int64(v) => Ok(v),
        _ => Err(EngineError::ColumnTypeMismatch),
    }
}

/// The counters of one bucket: a count for each operator, and for a
/// relative histogram the total of the bucket.
pub struct BucketMap {
    pub counts: Vec<u64>,
    pub total: u64,
}

impl BucketMap {
    /// In a relative histogram no count exceeds the total.
    pub open spec fn fits(&self, freq: Freq) -> bool {
        freq == Freq::REL ==> forall|j: int|
            0 <= j < self.counts@.len() ==> #[trigger] self.counts@[j] <= self.total
    }
}

/// As many zeros as `n`.
pub open spec fn zeros(n: nat) -> Seq<u64> {
    Seq::new(n, |j: int| 0u64)
}

/// The counters of an empty bucket, one for each operator of `vec_operator`.
pub fn init_bucket_map(vec_operator: &Vec<String>, freq: &Freq) -> (bucket_map: BucketMap)
    ensures
        bucket_map.counts@ == zeros(vec_operator@.len()),
        bucket_map.total == 0,
        bucket_map.fits(*freq),
{
    let mut counts: Vec<u64> = Vec::new();
    let mut j: usize = 0;
    while j < vec_operator.len()
        invariant
            j <= vec_operator.len(),
            counts@ == zeros(j as nat),
        decreases vec_operator.len() - j,
    {
        counts.push(0);
        j += 1;
        assert(counts@ =~= zeros(j as nat));
    }
    BucketMap { counts, total: 0 }
}

/// Whether an event with this operator and pipeline is counted by the
/// counters of `vec_operator`: both allow-lists let it through and the
/// operator has a counter.
pub open spec fn is_counted(
    pipeline: Seq<char>,
    pipelines: Seq<Seq<char>>,
    operator: Seq<char>,
    operators: Seq<Seq<char>>,
    vec_operator: Seq<Seq<char>>,
) -> bool {
    &&& allows(operators, operator)
    &&& allows(pipelines, pipeline)
    &&& vec_operator.contains(operator)
}

/// Counts one event in the counters of its bucket: where the event is
/// counted, the count of its operator goes up by one, and in a relative
/// histogram the total too. Any other event changes nothing.
pub fn update(
    freq: &Freq,
    current_pipeline: &String,
    pipelines: &Vec<String>,
    current_operator: &String,
    operators: &Vec<String>,
    vec_operator: &Vec<String>,
    bucket_map: &mut BucketMap,
)
    requires
        old(bucket_map).counts@.len() == vec_operator@.len(),
        old(bucket_map).fits(*freq),
        old(bucket_map).total < u64::MAX,
        forall|j: int| 0 <= j < vec_operator@.len() ==> old(bucket_map).counts@[j] < u64::MAX,
    ensures
        final(bucket_map).fits(*freq),
        is_counted(
            current_pipeline@,
            texts(pipelines@),
            current_operator@,
            texts(operators@),
            texts(vec_operator@),
        ) ==> {
            let at = first_position(texts(vec_operator@), current_operator@);
            &&& final(bucket_map).counts@ == old(bucket_map).counts@.update(
                at,
                (old(bucket_map).counts@[at] + 1) as u64,
            )
            &&& final(bucket_map).total == if *freq == Freq::REL {
                (old(bucket_map).total + 1) as u64
            } else {
                old(bucket_map).total
            }
        },
        !is_counted(
            current_pipeline@,
            texts(pipelines@),
            current_operator@,
            texts(operators@),
            texts(vec_operator@),
        ) ==> *final(bucket_map) == *old(bucket_map),
{
    proof {
        lemma_first_position(texts(vec_operator@), current_operator@);
    }
    if current_op_in(current_operator, operators) && current_pipe_in(current_pipeline, pipelines) {
        let at = find_text(vec_operator, current_operator);
        if at < vec_operator.len() {
            let raised = bucket_map.counts[at] + 1;
            bucket_map.counts.set(at, raised);
            if matches!(freq, Freq::REL) {
                bucket_map.total = bucket_map.total + 1;
            }
        }
    }
}

/// Writes the rows of one bucket, one for each operator: the bucket's start,
/// the operator, and its count or its fraction of the total. The counters
/// are zero afterwards.
pub fn write_into(
    vec_operator: &Vec<String>,
    time_vec: &mut Vec<i64>,
    operator_vec: &mut Vec<String>,
    freq_vec: &mut Vec<u64>,
    freq: &Freq,
    bucket_map: &mut BucketMap,
    time_bucket: i64,
)
    requires
        old(bucket_map).counts@.len() == vec_operator@.len(),
        old(bucket_map).fits(*freq),
    ensures
        final(time_vec)@ == old(time_vec)@ + Seq::new(
            vec_operator@.len(),
            |j: int| time_bucket,
        ),
        texts(final(operator_vec)@) == texts(old(operator_vec)@) + texts(vec_operator@),
        final(freq_vec)@ == old(freq_vec)@ + Seq::new(
            vec_operator@.len(),
            |j: int|
                bucket_value(
                    *freq,
                    old(bucket_map).counts@[j] as nat,
                    old(bucket_map).total as nat,
                ) as u64,
        ),
        final(bucket_map).counts@ == zeros(vec_operator@.len()),
        final(bucket_map).total == 0,
        final(bucket_map).fits(*freq),
{
    let ghost times = time_vec@;
    let ghost names = texts(operator_vec@);
    let ghost values = freq_vec@;
    let ghost counts = bucket_map.counts@;
    let total = bucket_map.total;
    let mut j: usize = 0;
    while j < vec_operator.len()
        invariant
            j <= vec_operator.len(),
            bucket_map.counts@.len() == vec_operator@.len(),
            bucket_map.total == total,
            forall|i: int| j <= i < counts.len() ==> bucket_map.counts@[i] == counts[i],
            forall|i: int| 0 <= i < j ==> bucket_map.counts@[i] == 0,
            counts.len() == vec_operator@.len(),
            *freq == Freq::REL ==> forall|i: int|
                0 <= i < counts.len() ==> #[trigger] counts[i] <= total,
            time_vec@ == times + Seq::new(j as nat, |i: int| time_bucket),
            texts(operator_vec@) == names + texts(vec_operator@).take(j as int),
            freq_vec@ == values + Seq::new(
                j as nat,
                |i: int| bucket_value(*freq, counts[i] as nat, total as nat) as u64,
            ),
        decreases vec_operator.len() - j,
    {
        let part = bucket_map.counts[j];
        let value = match freq {
            Freq::ABS => part,
            Freq::REL => {
                assert(counts[j as int] <= total);
                percent(part, total)
            },
        };
        let ghost old_names = texts(operator_vec@);
        time_vec.push(time_bucket);
        operator_vec.push(vec_operator[j].clone());
        freq_vec.push(value);
        bucket_map.counts.set(j, 0);
        j += 1;
        proof {
            assert(time_vec@ =~= times + Seq::new(j as nat, |i: int| time_bucket));
            assert(texts(operator_vec@) =~= old_names.push(vec_operator@[j - 1]@));
            assert(texts(operator_vec@) =~= names + texts(vec_operator@).take(j as int));
            assert(freq_vec@ =~= values + Seq::new(
                j as nat,
                |i: int| bucket_value(*freq, counts[i] as nat, total as nat) as u64,
            ));
        }
    }
    bucket_map.total = 0;
    proof {
        assert(texts(vec_operator@).take(j as int) =~= texts(vec_operator@));
        assert(bucket_map.counts@ =~= zeros(vec_operator@.len()));
    }
}

/// The fraction that `part` is of `total`, in hundredths, cut off.
pub fn percent(part: u64, total: u64) -> (value: u64)
    requires
        part <= total,
    ensures
        value == fraction(part as nat, total as nat),
        value <= 100,
{
    if total == 0 {
        0
    } else {
        let scaled: u128 = (part as u128) * 100;
        let value: u128 = scaled / (total as u128);
        proof {
            lemma_fraction_bound(part as nat, total as nat);
        }
        value as u64
    }
}

/// A part of a total is at most a hundred hundredths of it.
pub proof fn lemma_fraction_bound(part: nat, total: nat)
    requires
        part <= total,
    ensures
        fraction(part, total) <= 100,
{
    if total > 0 {
        assert(part * 100 / total <= 100) by (nonlinear_arith)
            requires
                part <= total,
                total > 0,
        ;
    }
}

/// Which error, if any, the columns of a frequency histogram meet:
/// `InvalidParameter` where the table has no operator column of that number,
/// `SchemaMismatch` where the columns differ in length, `InvalidParameter`
/// where a relative frequency exceeds one.
pub open spec fn freq_bucket_fault(
    table: TableView,
    column_for_operator: int,
    buckets: Seq<i64>,
    operators: Seq<Seq<char>>,
    values: Seq<u64>,
    freq: Freq,
) -> Option<EngineError> {
    if !(0 <= column_for_operator < table.fields.len()) {
        Some(EngineError::InvalidParameter)
    } else if operators.len() != buckets.len() || values.len() != buckets.len() {
        Some(EngineError::SchemaMismatch)
    } else if freq == Freq::REL && exists|r: int| 0 <= r < values.len() && values[r] > 100 {
        Some(EngineError::InvalidParameter)
    } else {
        None
    }
}

/// The fractions in hundredths as decimals, unless one exceeds a hundred.
fn to_decimals(values: &Vec<u64>) -> (out: Option<Vec<i64>>)
    ensures
        out is Some <==> forall|r: int| 0 <= r < values@.len() ==> values@[r] <= 100,
        out is Some ==> out->Some_0@ == Seq::new(values@.len(), |r: int| values@[r] as i64),
{
    let mut out: Vec<i64> = Vec::new();
    let mut r: usize = 0;
    while r < values.len()
        invariant
            r <= values.len(),
            out@.len() == r,
            forall|i: int| 0 <= i < r ==> #[trigger] values@[i] <= 100,
            forall|i: int| 0 <= i < r ==> #[trigger] out@[i] == values@[i] as i64,
        decreases values.len() - r,
    {
        if values[r] > 100 {
            return None;
        }
        out.push(values[r] as i64);
        r += 1;
    }
    assert(out@ =~= Seq::new(values@.len(), |r: int| values@[r] as i64));
    Some(out)
}

/// Makes the table of a frequency histogram of its three columns: the
/// bucket, the operator under the name that the operator column has in
/// `record_batch`, and the value, a count or a fraction.
pub fn create_freq_bucket(
    record_batch: &Table,
    column_for_operator: usize,
    time_bucket: Vec<i64>,
    result_vec_operator: Vec<String>,
    count: Vec<u64>,
    freq: Freq,
) -> (made: Result<Table, EngineError>)
    ensures
        match made {
            Ok(table) => {
                &&& freq_bucket_fault(
                    record_batch@,
                    column_for_operator as int,
                    time_bucket@,
                    texts(result_vec_operator@),
                    count@,
                    freq,
                ) is None
                &&& table.wf()
                &&& table@ == freq_table(
                    record_batch@.fields[column_for_operator as int].name,
                    time_bucket@,
                    texts(result_vec_operator@),
                    count@,
                    freq,
                )
            },
            Err(e) => freq_bucket_fault(
                record_batch@,
                column_for_operator as int,
                time_bucket@,
                texts(result_vec_operator@),
                count@,
                freq,
            ) == Some(e),
        },
{
    if column_for_operator >= record_batch.schema().len() {
        return Err(EngineError::InvalidParameter);
    }
    if result_vec_operator.len() != time_bucket.len() || count.len() != time_bucket.len() {
        return Err(EngineError::SchemaMismatch);
    }
    let ghost expected = freq_table(
        record_batch@.fields[column_for_operator as int].name,
        time_bucket@,
        texts(result_vec_operator@),
        count@,
        freq,
    );
    let operator_name = record_batch.field(column_for_operator).name.clone();
    let mut fields: Vec<Field> = Vec::new();
    let mut columns: Vec<Column> = Vec::new();
    fields.push(Field::new("bucket", DataType::Decimal));
    fields.push(Field { name: operator_name, data_type: DataType::Utf8 });
    columns.push(Column::Decimal(time_bucket));
    columns.push(Column::Utf8(result_vec_operator));
    match freq {
        Freq::ABS => {
            fields.push(Field::new("absfreq", DataType::UInt64));
            columns.push(Column::UInt64(count));
        },
        Freq::REL => {
            match to_decimals(&count) {
                Some(fractions) => {
                    fields.push(Field::new("relfreq", DataType::Decimal));
                    columns.push(Column::Decimal(fractions));
                },
                None => {
                    return Err(EngineError::InvalidParameter);
                },
            }
        },
    }
    proof {
        assert(fields_view(fields@) =~= expected.fields);
        assert(columns_view(columns@) =~= expected.columns);
        assert(expected.wf());
    }
    create_record_batch(fields, columns)
}

/// The number of buckets of a grid, unless the machine cannot number them.
fn bucket_count(start: i64, to: i64, size: i64) -> (n: Option<usize>)
    requires
        size > 0,
    ensures
        n is Some <==> grid_len(start as int, to as int, size as int) <= usize::MAX,
        n is Some ==> n->Some_0 == grid_len(start as int, to as int, size as int),
{
    if to <= start {
        return Some(0);
    }
    let width: i128 = (to as i128) - (start as i128);
    let n: i128 = (width + (size as i128) - 1) / (size as i128);
    if n > usize::MAX as i128 {
        None
    } else {
        Some(n as usize)
    }
}

/// Whether the counters of bucket `k` hold its tallies over the first `n` rows.
pub open spec fn cell_tallied(cell: BucketMap, h: Histogram, freq: Freq, n: nat, k: int) -> bool {
    &&& cell.counts@.len() == h.universe().len()
    &&& forall|j: int|
        0 <= j < h.universe().len() ==> (#[trigger] cell.counts@[j]) == h.tally_upto(
            n,
            k,
            h.universe()[j],
        )
    &&& cell.total == if freq == Freq::REL {
        h.total_upto(n, k)
    } else {
        0
    }
}

/// Whether a grid of counters holds the tallies of every bucket over the first `n` rows.
pub open spec fn tallied(grid: Seq<BucketMap>, h: Histogram, freq: Freq, n: nat) -> bool {
    &&& grid.len() == h.buckets()
    &&& forall|k: int| 0 <= k < grid.len() ==> cell_tallied(#[trigger] grid[k], h, freq, n, k)
}

/// The bucket into which a counted time falls.
fn bucket_index(time: i64, start: i64, size: i64) -> (k: i128)
    requires
        size > 0,
        start <= time,
    ensures
        k == (time - start) / (size as int),
{
    ((time as i128) - (start as i128)) / (size as i128)
}

/// Counts every row of a table in the counters of its bucket.
fn tally_grid(
    ops: &Vec<String>,
    times: &Vec<i64>,
    pipes: &Vec<String>,
    pipelines: &Vec<String>,
    operators: &Vec<String>,
    universe: &Vec<String>,
    freq: &Freq,
    start: i64,
    to: i64,
    size: i64,
    buckets: usize,
    Ghost(h): Ghost<Histogram>,
) -> (grid: Vec<BucketMap>)
    requires
        h == (Histogram {
            operators: texts(ops@),
            times: times@,
            pipelines: texts(pipes@),
            allowed_operators: texts(operators@),
            allowed_pipelines: texts(pipelines@),
            start: start as int,
            to: to as int,
            size: size as int,
        }),
        h.wf(),
        h.buckets() == buckets,
        texts(universe@) == h.universe(),
    ensures
        tallied(grid@, h, *freq, h.rows()),
{
    let mut grid: Vec<BucketMap> = Vec::new();
    let mut k: usize = 0;
    while k < buckets
        invariant
            k <= buckets,
            grid@.len() == k,
            texts(universe@) == h.universe(),
            forall|b: int| 0 <= b < k ==> cell_tallied(#[trigger] grid@[b], h, *freq, 0, b),
        decreases buckets - k,
    {
        let cell = init_bucket_map(universe, freq);
        proof {
            assert forall|j: int| 0 <= j < h.universe().len() implies (#[trigger] cell.counts@[j])
                == h.tally_upto(0, k as int, h.universe()[j]) by {}
        }
        grid.push(cell);
        k += 1;
    }
    let mut i: usize = 0;
    while i < times.len()
        invariant
            i <= times.len(),
            h == (Histogram {
                operators: texts(ops@),
                times: times@,
                pipelines: texts(pipes@),
                allowed_operators: texts(operators@),
                allowed_pipelines: texts(pipelines@),
                start: start as int,
                to: to as int,
                size: size as int,
            }),
            h.wf(),
            h.buckets() == buckets,
            texts(universe@) == h.universe(),
            tallied(grid@, h, *freq, i as nat),
        decreases times.len() - i,
    {
        let ghost before = grid@;
        let time = times[i];
        let operator = &ops[i];
        let pipeline = &pipes[i];
        assert(texts(ops@)[i as int] == operator@);
        assert(texts(pipes@)[i as int] == pipeline@);
        if start <= time && time < to && current_op_in(operator, operators) && current_pipe_in(
            pipeline,
            pipelines,
        ) {
            assert(h.counted(i as int));
            let at = bucket_index(time, start, size);
            proof {
                h.lemma_bucket_of(i as int, at as int);
                lemma_distinct(h.operators);
                assert(h.operators.contains(operator@));
                lemma_first_position(h.universe(), operator@);
                h.lemma_total_step(i as nat, at as int);
                assert(cell_tallied(before[at as int], h, *freq, i as nat, at as int));
                assert forall|j: int| 0 <= j < universe@.len() implies before[at as int].counts@[j]
                    < u64::MAX by {
                    h.lemma_tally_step(i as nat, at as int, h.universe()[j]);
                }
                assert(before[at as int].fits(*freq)) by {
                    assert forall|j: int| 0 <= j < universe@.len() implies (
                    #[trigger] before[at as int].counts@[j]) <= h.total_upto(
                        i as nat,
                        at as int,
                    ) by {
                        h.lemma_tally_within_total(i as nat, at as int, h.universe()[j]);
                    }
                }
            }
            let spot = at as usize;
            update(freq, pipeline, pipelines, operator, operators, universe, &mut grid[spot]);
            proof {
                let place = first_position(h.universe(), operator@);
                assert forall|b: int| 0 <= b < grid@.len() implies cell_tallied(
                    #[trigger] grid@[b],
                    h,
                    *freq,
                    (i + 1) as nat,
                    b,
                ) by {
                    h.lemma_bucket_of(i as int, b);
                    h.lemma_total_step(i as nat, b);
                    assert(cell_tallied(before[b], h, *freq, i as nat, b));
                    assert forall|j: int| 0 <= j < h.universe().len() implies (
                    #[trigger] grid@[b].counts@[j]) == h.tally_upto(
                        (i + 1) as nat,
                        b,
                        h.universe()[j],
                    ) by {
                        h.lemma_tally_step(i as nat, b, h.universe()[j]);
                        assert(before[b].counts@[j] == h.tally_upto(i as nat, b, h.universe()[j]));
                        if j != place {
                            assert(h.universe()[j] != h.universe()[place]);
                        }
                    }
                }
            }
        } else {
            proof {
                assert(!h.counted(i as int));
                assert forall|b: int| 0 <= b < grid@.len() implies cell_tallied(
                    #[trigger] grid@[b],
                    h,
                    *freq,
                    (i + 1) as nat,
                    b,
                ) by {
                    h.lemma_total_step(i as nat, b);
                    assert(cell_tallied(before[b], h, *freq, i as nat, b));
                    assert forall|j: int| 0 <= j < h.universe().len() implies (
                    #[trigger] grid@[b].counts@[j]) == h.tally_upto(
                        (i + 1) as nat,
                        b,
                        h.universe()[j],
                    ) by {
                        h.lemma_tally_step(i as nat, b, h.universe()[j]);
                    }
                }
            }
        }
        i += 1;
    }
    grid
}

/// Checks the grid of a request and finds its start and its number of buckets.
fn check_grid(bucket_size: i64, from: i64, to: i64) -> (found: Result<(i64, usize), EngineError>)
    ensures
        match found {
            Ok((start, buckets)) => {
                &&& grid_fault(bucket_size as int, from as int, to as int) is None
                &&& start == grid_start(from as int)
                &&& buckets == grid_len(start as int, to as int, bucket_size as int)
            },
            Err(e) => grid_fault(bucket_size as int, from as int, to as int) == Some(e),
        },
{
    if bucket_size <= 0 {
        return Err(EngineError::InvalidBucketSize);
    }
    let start = init_time_bucket(from);
    if to < start {
        return Err(EngineError::InvalidParameter);
    }
    match bucket_count(start, to, bucket_size) {
        Some(buckets) => Ok((start, buckets)),
        None => Err(EngineError::InvalidParameter),
    }
}

/// The columns and the grid that a frequency request reads.
struct Prepared<'a> {
    ops: &'a Vec<String>,
    times: &'a Vec<i64>,
    pipes: &'a Vec<String>,
    start: i64,
    buckets: usize,
}

/// Checks a frequency request against a table and finds what it reads.
fn prepare<'a>(
    batch: &'a Table,
    column_for_operator: usize,
    column_for_time: usize,
    bucket_size: i64,
    from: i64,
    to: i64,
) -> (found: Result<Prepared<'a>, EngineError>)
    requires
        batch.wf(),
    ensures
        match found {
            Ok(p) => {
                &&& request_fault(
                    batch@,
                    column_for_operator as int,
                    column_for_time as int,
                    bucket_size as int,
                    from as int,
                    to as int,
                ) is None
                &&& batch@.columns[column_for_operator as int] == ColumnView::Utf8(texts(p.ops@))
                &&& batch@.columns[column_for_time as int] == ColumnView::Decimal(p.times@)
                &&& batch@.columns[PIPELINE_COLUMN as int] == ColumnView::Utf8(texts(p.pipes@))
                &&& p.ops@.len() == p.times@.len()
                &&& p.pipes@.len() == p.times@.len()
                &&& p.start == grid_start(from as int)
                &&& p.buckets == grid_len(p.start as int, to as int, bucket_size as int)
            },
            Err(e) => request_fault(
                batch@,
                column_for_operator as int,
                column_for_time as int,
                bucket_size as int,
                from as int,
                to as int,
            ) == Some(e),
        },
{
    let ops = get_stringarray_column(batch, column_for_operator)?;
    let times = get_floatarray_column(batch, column_for_time)?;
    let pipes = get_stringarray_column(batch, PIPELINE_COLUMN)?;
    let (start, buckets) = check_grid(bucket_size, from, to)?;
    proof {
        assert(batch@.columns[column_for_operator as int].len() == batch@.columns[0].len());
        assert(batch@.columns[column_for_time as int].len() == batch@.columns[0].len());
        assert(batch@.columns[PIPELINE_COLUMN as int].len() == batch@.columns[0].len());
    }
    Ok(Prepared { ops, times, pipes, start, buckets })
}

/// The dense frequency histogram of a table: for every bucket of the grid
/// and every operator that the table holds, the number of rows of that
/// operator whose time falls into the bucket and which both allow-lists let
/// through, or in a relative histogram the fraction that this number is of
/// the bucket's total. The rows come bucket after bucket, in the order of
/// time.
pub fn freq_of_pipelines(
    batch: &Table,
    freq: Freq,
    column_for_operator: usize,
    column_for_time: usize,
    bucket_size: i64,
    pipelines: Vec<String>,
    operators: Vec<String>,
    from: i64,
    to: i64,
) -> (made: Result<Table, EngineError>)
    requires
        batch.wf(),
    ensures
        match made {
            Ok(table) => {
                &&& request_fault(
                    batch@,
                    column_for_operator as int,
                    column_for_time as int,
                    bucket_size as int,
                    from as int,
                    to as int,
                ) is None
                &&& table.wf()
                &&& table@ == rows_table(
                    batch@.fields[column_for_operator as int].name,
                    histogram_of(
                        batch@,
                        column_for_operator as int,
                        column_for_time as int,
                        bucket_size as int,
                        texts(pipelines@),
                        texts(operators@),
                        from as int,
                        to as int,
                    ).dense(freq),
                    freq,
                )
            },
            Err(e) => request_fault(
                batch@,
                column_for_operator as int,
                column_for_time as int,
                bucket_size as int,
                from as int,
                to as int,
            ) == Some(e),
        },
{
    let p = prepare(batch, column_for_operator, column_for_time, bucket_size, from, to)?;
    let ghost h = histogram_of(
        batch@,
        column_for_operator as int,
        column_for_time as int,
        bucket_size as int,
        texts(pipelines@),
        texts(operators@),
        from as int,
        to as int,
    );
    let universe = unique_text(p.ops);
    let mut grid = tally_grid(
        p.ops,
        p.times,
        p.pipes,
        &pipelines,
        &operators,
        &universe,
        &freq,
        p.start,
        to,
        bucket_size,
        p.buckets,
        Ghost(h),
    );
    let mut time_vec: Vec<i64> = Vec::new();
    let mut operator_vec: Vec<String> = Vec::new();
    let mut freq_vec: Vec<u64> = Vec::new();
    let mut time_bucket = p.start;
    let mut k: usize = 0;
    while k < p.buckets
        invariant
            k <= p.buckets,
            h.wf(),
            h.buckets() == p.buckets,
            h.size == bucket_size,
            h.to == to,
            h.start == p.start,
            texts(universe@) == h.universe(),
            grid@.len() == p.buckets,
            forall|b: int|
                k <= b < p.buckets ==> cell_tallied(#[trigger] grid@[b], h, freq, h.rows(), b),
            holds_rows(time_vec@, texts(operator_vec@), freq_vec@, h.dense_upto(freq, k as nat)),
            k < p.buckets ==> time_bucket == h.bucket_start(k as int),
            freq == Freq::REL ==> forall|r: int|
                0 <= r < freq_vec@.len() ==> #[trigger] freq_vec@[r] <= 100,
        decreases p.buckets - k,
    {
        let ghost cell = grid@[k as int];
        let ghost times_before = time_vec@;
        let ghost names_before = texts(operator_vec@);
        let ghost values_before = freq_vec@;
        proof {
            assert(cell_tallied(cell, h, freq, h.rows(), k as int));
            assert(cell.fits(freq)) by {
                assert forall|j: int| 0 <= j < cell.counts@.len() implies (
                #[trigger] cell.counts@[j]) <= h.total_upto(h.rows(), k as int) by {
                    h.lemma_tally_within_total(h.rows(), k as int, h.universe()[j]);
                }
            }
        }
        write_into(
            &universe,
            &mut time_vec,
            &mut operator_vec,
            &mut freq_vec,
            &freq,
            &mut grid[k],
            time_bucket,
        );
        proof {
            let rows = h.dense_upto(freq, k as nat);
            let more = h.bucket_rows(freq, k as int);
            let all = h.dense_upto(freq, (k + 1) as nat);
            assert(all == rows + more);
            assert forall|j: int| 0 <= j < h.universe().len() implies bucket_value(
                freq,
                cell.counts@[j] as nat,
                cell.total as nat,
            ) == more[j].value && more[j].value <= u64::MAX && (freq == Freq::REL ==> more[j].value
                <= 100) by {
                h.lemma_tally_within_total(h.rows(), k as int, h.universe()[j]);
                lemma_fraction_bound(
                    h.tally(k as int, h.universe()[j]),
                    h.total(k as int),
                );
            }
            assert forall|r: int| 0 <= r < all.len() implies {
                &&& time_vec@[r] == (#[trigger] all[r]).bucket
                &&& texts(operator_vec@)[r] == all[r].operator
                &&& freq_vec@[r] == all[r].value
            } by {
                if r < rows.len() {
                    assert(all[r] == rows[r]);
                    assert(time_vec@[r] == times_before[r]);
                    assert(texts(operator_vec@)[r] == names_before[r]);
                    assert(freq_vec@[r] == values_before[r]);
                } else {
                    assert(all[r] == more[r - rows.len()]);
                }
            }
            assert forall|r: int| 0 <= r < freq_vec@.len() && freq == Freq::REL implies (
            #[trigger] freq_vec@[r]) <= 100 by {
                if r < rows.len() {
                    assert(freq_vec@[r] == values_before[r]);
                } else {
                    assert(all[r] == more[r - rows.len()]);
                }
            }
        }
        k += 1;
        if k < p.buckets {
            proof {
                h.lemma_bucket_start(k as int);
                assert(h.bucket_start(k as int) == h.bucket_start(k - 1) + h.size)
                    by (nonlinear_arith)
                    requires
                        h.bucket_start(k as int) == h.start + k * h.size,
                        h.bucket_start(k - 1) == h.start + (k - 1) * h.size,
                ;
            }
            time_bucket = time_bucket + bucket_size;
        }
    }
    proof {
        lemma_rows_table(
            batch@.fields[column_for_operator as int].name,
            time_vec@,
            texts(operator_vec@),
            freq_vec@,
            h.dense(freq),
            freq,
        );
    }
    create_freq_bucket(batch, column_for_operator, time_vec, operator_vec, freq_vec, freq)
}

/// Which error, if any, the columns of a memory histogram meet:
/// `InvalidParameter` where the table has no operator column of that number,
/// `SchemaMismatch` where the columns differ in length.
pub open spec fn mem_bucket_fault(
    table: TableView,
    column_for_operator: int,
    buckets: Seq<i64>,
    operators: Seq<Seq<char>>,
    classes: Seq<i64>,
    counts: Seq<u64>,
) -> Option<EngineError> {
    if !(0 <= column_for_operator < table.fields.len()) {
        Some(EngineError::InvalidParameter)
    } else if operators.len() != buckets.len() || classes.len() != buckets.len() || counts.len()
        != buckets.len() {
        Some(EngineError::SchemaMismatch)
    } else {
        None
    }
}

/// Makes the table of a memory histogram of its four columns: the bucket,
/// the operator under the name that the operator column has in
/// `record_batch`, the memory class, and the count.
pub fn create_mem_bucket(
    record_batch: &Table,
    column_for_operator: usize,
    result_bucket: Vec<i64>,
    result_vec_operator: Vec<String>,
    result_vec_memory: Vec<i64>,
    result_builder: Vec<u64>,
) -> (made: Result<Table, EngineError>)
    ensures
        match made {
            Ok(table) => {
                &&& mem_bucket_fault(
                    record_batch@,
                    column_for_operator as int,
                    result_bucket@,
                    texts(result_vec_operator@),
                    result_vec_memory@,
                    result_builder@,
                ) is None
                &&& table.wf()
                &&& table@ == memory_table(
                    record_batch@.fields[column_for_operator as int].name,
                    result_bucket@,
                    texts(result_vec_operator@),
                    result_vec_memory@,
                    result_builder@,
                )
            },
            Err(e) => mem_bucket_fault(
                record_batch@,
                column_for_operator as int,
                result_bucket@,
                texts(result_vec_operator@),
                result_vec_memory@,
                result_builder@,
            ) == Some(e),
        },
{
    if column_for_operator >= record_batch.schema().len() {
        return Err(EngineError::InvalidParameter);
    }
    if result_vec_operator.len() != result_bucket.len() || result_vec_memory.len()
        != result_bucket.len() || result_builder.len() != result_bucket.len() {
        return Err(EngineError::SchemaMismatch);
    }
    let ghost expected = memory_table(
        record_batch@.fields[column_for_operator as int].name,
        result_bucket@,
        texts(result_vec_operator@),
        result_vec_memory@,
        result_builder@,
    );
    let operator_name = record_batch.field(column_for_operator).name.clone();
    let mut fields: Vec<Field> = Vec::new();
    let mut columns: Vec<Column> = Vec::new();
    fields.push(Field::new("bucket", DataType::Decimal));
    fields.push(Field { name: operator_name, data_type: DataType::Utf8 });
    fields.push(Field::new("mem", DataType::Int64));
    fields.push(Field::new("freq", DataType::UInt64));
    columns.push(Column::Decimal(result_bucket));
    columns.push(Column::Utf8(result_vec_operator));
    columns.push(Column::Int64(result_vec_memory));
    columns.push(Column::UInt64(result_builder));
    proof {
        assert(fields_view(fields@) =~= expected.fields);
        assert(columns_view(columns@) =~= expected.columns);
        assert(expected.wf());
    }
    create_record_batch(fields, columns)
}

/// Records the memory class of every row of a table in the cell of its
/// bucket and operator.
fn record_grid(
    ops: &Vec<String>,
    times: &Vec<i64>,
    memory: &Vec<i64>,
    universe: &Vec<String>,
    start: i64,
    to: i64,
    size: i64,
    buckets: usize,
    Ghost(h): Ghost<Histogram>,
) -> (grid: Vec<MemoryBucket>)
    requires
        h == (Histogram {
            operators: texts(ops@),
            times: times@,
            pipelines: texts(ops@),
            allowed_operators: Seq::empty(),
            allowed_pipelines: Seq::empty(),
            start: start as int,
            to: to as int,
            size: size as int,
        }),
        h.wf(),
        memory@.len() == times@.len(),
        h.buckets() == buckets,
        texts(universe@) == h.universe(),
    ensures
        grid_recorded(grid@, h, memory@, h.rows()),
{
    let mut grid: Vec<MemoryBucket> = Vec::new();
    let mut k: usize = 0;
    while k < buckets
        invariant
            k <= buckets,
            grid@.len() == k,
            texts(universe@) == h.universe(),
            forall|b: int| 0 <= b < k ==> bucket_recorded(#[trigger] grid@[b], h, memory@, 0, b),
        decreases buckets - k,
    {
        let bucket = MemoryBucket::new(universe.len());
        proof {
            assert forall|j: int| 0 <= j < h.universe().len() implies (
            #[trigger] bucket.cells@[j]).holds(
                h.cell_classes(memory@, 0, k as int, h.universe()[j]),
            ) by {
                assert(h.cell_classes(memory@, 0, k as int, h.universe()[j]) =~= Seq::empty());
            }
        }
        grid.push(bucket);
        k += 1;
    }
    let mut i: usize = 0;
    while i < times.len()
        invariant
            i <= times.len(),
            h == (Histogram {
                operators: texts(ops@),
                times: times@,
                pipelines: texts(ops@),
                allowed_operators: Seq::empty(),
                allowed_pipelines: Seq::empty(),
                start: start as int,
                to: to as int,
                size: size as int,
            }),
            h.wf(),
            memory@.len() == times@.len(),
            h.buckets() == buckets,
            texts(universe@) == h.universe(),
            grid_recorded(grid@, h, memory@, i as nat),
        decreases times.len() - i,
    {
        let ghost before = grid@;
        let time = times[i];
        let operator = &ops[i];
        assert(texts(ops@)[i as int] == operator@);
        if start <= time && time < to {
            assert(h.counted(i as int));
            let at = bucket_index(time, start, size);
            let place = find_text(universe, operator);
            let class = class_of(memory[i]);
            let ghost seen = h.cell_classes(memory@, i as nat, at as int, operator@);
            proof {
                h.lemma_bucket_of(i as int, at as int);
                lemma_distinct(h.operators);
                assert(h.operators.contains(operator@));
                lemma_first_position(h.universe(), operator@);
                assert(bucket_recorded(before[at as int], h, memory@, i as nat, at as int));
                assert(before[at as int].cells@[place as int].holds(seen));
                h.lemma_cell_classes_step(memory@, i as nat, at as int, operator@);
                before[at as int].cells@[place as int].lemma_counts_bounded(seen);
            }
            let spot = at as usize;
            grid[spot].record(place, class);
            proof {
                before[at as int].cells@[place as int].lemma_recorded(
                    grid@[at as int].cells@[place as int],
                    class,
                    seen,
                );
                assert forall|b: int| 0 <= b < grid@.len() implies bucket_recorded(
                    #[trigger] grid@[b],
                    h,
                    memory@,
                    (i + 1) as nat,
                    b,
                ) by {
                    h.lemma_bucket_of(i as int, b);
                    assert(bucket_recorded(before[b], h, memory@, i as nat, b));
                    assert forall|j: int| 0 <= j < h.universe().len() implies (
                    #[trigger] grid@[b].cells@[j]).holds(
                        h.cell_classes(memory@, (i + 1) as nat, b, h.universe()[j]),
                    ) by {
                        h.lemma_cell_classes_step(memory@, i as nat, b, h.universe()[j]);
                        assert(before[b].cells@[j].holds(
                            h.cell_classes(memory@, i as nat, b, h.universe()[j]),
                        ));
                        if j != place {
                            assert(h.universe()[j] != h.universe()[place as int]);
                        }
                    }
                }
            }
        } else {
            proof {
                assert(!h.counted(i as int));
                assert forall|b: int| 0 <= b < grid@.len() implies bucket_recorded(
                    #[trigger] grid@[b],
                    h,
                    memory@,
                    (i + 1) as nat,
                    b,
                ) by {
                    assert(bucket_recorded(before[b], h, memory@, i as nat, b));
                    assert forall|j: int| 0 <= j < h.universe().len() implies (
                    #[trigger] grid@[b].cells@[j]).holds(
                        h.cell_classes(memory@, (i + 1) as nat, b, h.universe()[j]),
                    ) by {
                        h.lemma_cell_classes_step(memory@, i as nat, b, h.universe()[j]);
                    }
                }
            }
        }
        i += 1;
    }
    grid
}

/// The memory histogram of a table: for every bucket of the grid and every
/// operator that the table holds, one row for each memory class among the
/// rows of that operator whose time falls into the bucket, with the number
/// of those rows. The rows come bucket after bucket, within a bucket
/// operator after operator, within an operator in the order in which the
/// classes first occur.
pub fn freq_of_memory(
    batch: &Table,
    column_for_operator: usize,
    column_for_time: usize,
    bucket_size: i64,
    from: i64,
    to: i64,
) -> (made: Result<Table, EngineError>)
    requires
        batch.wf(),
    ensures
        match made {
            Ok(table) => {
                &&& memory_fault(
                    batch@,
                    column_for_operator as int,
                    column_for_time as int,
                    bucket_size as int,
                    from as int,
                    to as int,
                ) is None
                &&& table.wf()
                &&& table@ == memory_rows_table(
                    batch@.fields[column_for_operator as int].name,
                    memory_histogram_of(
                        batch@,
                        column_for_operator as int,
                        column_for_time as int,
                        bucket_size as int,
                        from as int,
                        to as int,
                    ).memory_rows(batch@.columns[MEMORY_COLUMN as int].numbers()),
                )
            },
            Err(e) => memory_fault(
                batch@,
                column_for_operator as int,
                column_for_time as int,
                bucket_size as int,
                from as int,
                to as int,
            ) == Some(e),
        },
{
    let ops = get_stringarray_column(batch, column_for_operator)?;
    let times = get_floatarray_column(batch, column_for_time)?;
    let memory = get_int_column(batch, MEMORY_COLUMN)?;
    let (start, buckets) = check_grid(bucket_size, from, to)?;
    let ghost h = memory_histogram_of(
        batch@,
        column_for_operator as int,
        column_for_time as int,
        bucket_size as int,
        from as int,
        to as int,
    );
    proof {
        assert(batch@.columns[column_for_operator as int].len() == batch@.columns[0].len());
        assert(batch@.columns[column_for_time as int].len() == batch@.columns[0].len());
        assert(batch@.columns[MEMORY_COLUMN as int].len() == batch@.columns[0].len());
    }
    let universe = unique_text(ops);
    let grid = record_grid(
        ops,
        times,
        memory,
        &universe,
        start,
        to,
        bucket_size,
        buckets,
        Ghost(h),
    );
    let mut out = MemoryColumns::new();
    let mut time_bucket = start;
    let mut k: usize = 0;
    while k < buckets
        invariant
            k <= buckets,
            h.wf(),
            h.buckets() == buckets,
            h.size == bucket_size,
            h.to == to,
            h.start == start,
            texts(universe@) == h.universe(),
            grid_recorded(grid@, h, memory@, h.rows()),
            out.holds(h.memory_upto(memory@, k as nat)),
            k < buckets ==> time_bucket == h.bucket_start(k as int),
        decreases buckets - k,
    {
        let mut j: usize = 0;
        assert(h.memory_upto(memory@, k as nat) + h.memory_bucket_upto(memory@, k as int, 0)
            =~= h.memory_upto(memory@, k as nat));
        while j < universe.len()
            invariant
                j <= universe@.len(),
                k < buckets,
                h.buckets() == buckets,
                texts(universe@) == h.universe(),
                grid_recorded(grid@, h, memory@, h.rows()),
                time_bucket == h.bucket_start(k as int),
                out.holds(
                    h.memory_upto(memory@, k as nat) + h.memory_bucket_upto(
                        memory@,
                        k as int,
                        j as nat,
                    ),
                ),
            decreases universe@.len() - j,
        {
            let ghost rows = h.memory_upto(memory@, k as nat) + h.memory_bucket_upto(
                memory@,
                k as int,
                j as nat,
            );
            let ghost more = h.cell_histogram(memory@, k as int, h.universe()[j as int]);
            proof {
                assert(bucket_recorded(grid@[k as int], h, memory@, h.rows(), k as int));
                let cell = grid@[k as int].cells@[j as int];
                let seen = h.cell_classes(memory@, h.rows(), k as int, h.universe()[j as int]);
                assert(cell.holds(seen));
                assert(texts(universe@)[j as int] == universe@[j as int]@);
                h.lemma_cell_classes_step(memory@, h.rows(), k as int, h.universe()[j as int]);
                cell.lemma_counts_bounded(seen);
                assert forall|x: int| 0 <= x < more.len() implies (#[trigger] more[x])
                    == (MemoryRow {
                    bucket: time_bucket as int,
                    operator: universe@[j as int]@,
                    class: cell.classes@[x],
                    count: cell.counts@[x] as nat,
                }) by {
                    assert(cell.counts@[x] == occurrences(seen, cell.classes@[x]));
                }
            }
            out.write_cell(&grid[k].cells[j], time_bucket, &universe[j], Ghost(rows), Ghost(more));
            proof {
                assert(rows + more =~= h.memory_upto(memory@, k as nat) + h.memory_bucket_upto(
                    memory@,
                    k as int,
                    (j + 1) as nat,
                ));
            }
            j += 1;
        }
        k += 1;
        if k < buckets {
            proof {
                h.lemma_bucket_start(k as int);
                assert(h.bucket_start(k as int) == h.bucket_start(k - 1) + h.size)
                    by (nonlinear_arith)
                    requires
                        h.bucket_start(k as int) == h.start + k * h.size,
                        h.bucket_start(k - 1) == h.start + (k - 1) * h.size,
                ;
            }
            time_bucket = time_bucket + bucket_size;
        }
    }
    proof {
        lemma_memory_rows_table(
            batch@.fields[column_for_operator as int].name,
            out.buckets@,
            texts(out.operators@),
            out.classes@,
            out.counts@,
            h.memory_rows(memory@),
        );
    }
    create_mem_bucket(
        batch,
        column_for_operator,
        out.buckets,
        out.operators,
        out.classes,
        out.counts,
    )
}

/// The sparse frequency histogram of a table: the rows of the dense
/// histogram whose operator was counted in their bucket, in the same order.
pub fn freq_of_pipelines_new(
    batch: &Table,
    freq: Freq,
    column_for_operator: usize,
    column_for_time: usize,
    bucket_size: i64,
    pipelines: Vec<String>,
    operators: Vec<String>,
    from: i64,
    to: i64,
) -> (made: Result<Table, EngineError>)
    requires
        batch.wf(),
    ensures
        match made {
            Ok(table) => {
                &&& request_fault(
                    batch@,
                    column_for_operator as int,
                    column_for_time as int,
                    bucket_size as int,
                    from as int,
                    to as int,
                ) is None
                &&& table.wf()
                &&& table@ == rows_table(
                    batch@.fields[column_for_operator as int].name,
                    histogram_of(
                        batch@,
                        column_for_operator as int,
                        column_for_time as int,
                        bucket_size as int,
                        texts(pipelines@),
                        texts(operators@),
                        from as int,
                        to as int,
                    ).sparse(freq),
                    freq,
                )
            },
            Err(e) => request_fault(
                batch@,
                column_for_operator as int,
                column_for_time as int,
                bucket_size as int,
                from as int,
                to as int,
            ) == Some(e),
        },
{
    let p = prepare(batch, column_for_operator, column_for_time, bucket_size, from, to)?;
    let ghost h = histogram_of(
        batch@,
        column_for_operator as int,
        column_for_time as int,
        bucket_size as int,
        texts(pipelines@),
        texts(operators@),
        from as int,
        to as int,
    );
    let universe = unique_text(p.ops);
    let grid = tally_grid(
        p.ops,
        p.times,
        p.pipes,
        &pipelines,
        &operators,
        &universe,
        &freq,
        p.start,
        to,
        bucket_size,
        p.buckets,
        Ghost(h),
    );
    let mut time_vec: Vec<i64> = Vec::new();
    let mut operator_vec: Vec<String> = Vec::new();
    let mut freq_vec: Vec<u64> = Vec::new();
    let mut time_bucket = p.start;
    let mut k: usize = 0;
    while k < p.buckets
        invariant
            k <= p.buckets,
            h.wf(),
            h.buckets() == p.buckets,
            h.size == bucket_size,
            h.to == to,
            h.start == p.start,
            texts(universe@) == h.universe(),
            tallied(grid@, h, freq, h.rows()),
            holds_rows(time_vec@, texts(operator_vec@), freq_vec@, h.sparse_upto(freq, k as nat)),
            k < p.buckets ==> time_bucket == h.bucket_start(k as int),
            freq == Freq::REL ==> forall|r: int|
                0 <= r < freq_vec@.len() ==> #[trigger] freq_vec@[r] <= 100,
        decreases p.buckets - k,
    {
        let cell = &grid[k];
        let ghost base = h.sparse_upto(freq, k as nat);
        let ghost full = h.bucket_rows(freq, k as int);
        let mut j: usize = 0;
        proof {
            assert(cell_tallied(*cell, h, freq, h.rows(), k as int));
            assert(base + gather(full, positions(0, h.occupied(k as int))) =~= base);
        }
        while j < universe.len()
            invariant
                j <= universe@.len(),
                k < p.buckets,
                texts(universe@) == h.universe(),
                cell_tallied(*cell, h, freq, h.rows(), k as int),
                base == h.sparse_upto(freq, k as nat),
                full == h.bucket_rows(freq, k as int),
                time_bucket == h.bucket_start(k as int),
                holds_rows(
                    time_vec@,
                    texts(operator_vec@),
                    freq_vec@,
                    base + gather(full, positions(j as nat, h.occupied(k as int))),
                ),
                freq == Freq::REL ==> forall|r: int|
                    0 <= r < freq_vec@.len() ==> #[trigger] freq_vec@[r] <= 100,
            decreases universe@.len() - j,
        {
            let part = cell.counts[j];
            let ghost before = base + gather(full, positions(j as nat, h.occupied(k as int)));
            let ghost names = texts(operator_vec@);
            let ghost values = freq_vec@;
            proof {
                assert(h.occupied(k as int)(j as int) == (part > 0));
                h.lemma_tally_within_total(h.rows(), k as int, h.universe()[j as int]);
                lemma_fraction_bound(h.tally(k as int, h.universe()[j as int]), h.total(k as int));
            }
            if part > 0 {
                let value = match freq {
                    Freq::ABS => part,
                    Freq::REL => percent(part, cell.total),
                };
                time_vec.push(time_bucket);
                operator_vec.push(universe[j].clone());
                freq_vec.push(value);
                proof {
                    let after = base + gather(
                        full,
                        positions((j + 1) as nat, h.occupied(k as int)),
                    );
                    assert(texts(operator_vec@) =~= names.push(universe@[j as int]@));
                    assert(texts(universe@)[j as int] == universe@[j as int]@);
                    assert(after =~= before.push(full[j as int]));
                    assert forall|r: int| 0 <= r < after.len() implies {
                        &&& time_vec@[r] == (#[trigger] after[r]).bucket
                        &&& texts(operator_vec@)[r] == after[r].operator
                        &&& freq_vec@[r] == after[r].value
                    } by {
                        if r < before.len() {
                            assert(after[r] == before[r]);
                        }
                    }
                    assert forall|r: int|
                        0 <= r < freq_vec@.len() && freq == Freq::REL implies (
                    #[trigger] freq_vec@[r]) <= 100 by {
                        if r < values.len() {
                            assert(freq_vec@[r] == values[r]);
                        }
                    }
                }
            }
            j += 1;
        }
        proof {
            assert(h.sparse_upto(freq, (k + 1) as nat) == base + h.occupied_rows(freq, k as int));
        }
        k += 1;
        if k < p.buckets {
            proof {
                h.lemma_bucket_start(k as int);
                assert(h.bucket_start(k as int) == h.bucket_start(k - 1) + h.size)
                    by (nonlinear_arith)
                    requires
                        h.bucket_start(k as int) == h.start + k * h.size,
                        h.bucket_start(k - 1) == h.start + (k - 1) * h.size,
                ;
            }
            time_bucket = time_bucket + bucket_size;
        }
    }
    proof {
        lemma_rows_table(
            batch@.fields[column_for_operator as int].name,
            time_vec@,
            texts(operator_vec@),
            freq_vec@,
            h.sparse(freq),
            freq,
        );
    }
    create_freq_bucket(batch, column_for_operator, time_vec, operator_vec, freq_vec, freq)
}

} // verus!
