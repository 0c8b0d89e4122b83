use crate::error::EngineError;
use crate::exec::freq::freq::{freq_of_pipelines, Freq};
use crate::exec::freq::model::{histogram_of, request_fault, rows_table};
use crate::utils::record_batch_util::Table;
use crate::utils::sequences::texts;
use vstd::prelude::*;

verus! {

/// The dense relative frequency histogram of a table: for every bucket of
/// the grid and every operator that the table holds, the fraction that the
/// operator's rows are of the rows of the bucket, in hundredths, and zero
/// throughout a bucket without rows.
pub fn rel_freq_with_pipelines(
    batch: &Table,
    column_for_operator: usize,
    column_for_time: usize,
    bucket_size: i64,
    pipelines: Vec<String>,
    operators: Vec<String>,
    from: i64,
    to: i64,
) -> (made: Result<Table, EngineError>)
    requires
        batch.wf(),
    ensures
        match made {
            Ok(table) => {
                &&& request_fault(
                    batch@,
                    column_for_operator as int,
                    column_for_time as int,
                    bucket_size as int,
                    from as int,
                    to as int,
                ) is None
                &&& table.wf()
                &&& table@ == rows_table(
                    batch@.fields[column_for_operator as int].name,
                    histogram_of(
                        batch@,
                        column_for_operator as int,
                        column_for_time as int,
                        bucket_size as int,
                        texts(pipelines@),
                        texts(operators@),
                        from as int,
                        to as int,
                    ).dense(Freq::REL),
                    Freq::REL,
                )
            },
            Err(e) => request_fault(
                batch@,
                column_for_operator as int,
                column_for_time as int,
                bucket_size as int,
                from as int,
                to as int,
            ) == Some(e),
        },
{
    freq_of_pipelines(
        batch,
        Freq::REL,
        column_for_operator,
        column_for_time,
        bucket_size,
        pipelines,
        operators,
        from,
        to,
    )
}

} // verus!
