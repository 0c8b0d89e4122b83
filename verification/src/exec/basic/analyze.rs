use crate::error::EngineError;
use crate::exec::freq::model::column_fault;
use crate::utils::record_batch_util::{
    columns_view, copy_schema, create_record_batch, fields_view, lemma_text_before_asymmetric,
    Column, ColumnView, DataType, Field, FieldView, Table, TableView,
};
use crate::utils::sequences::{
    distinct, indices, lemma_distinct, lemma_positions, positions, texts, within,
};
use crate::utils::text::{contains_text, unique_text};
use arrow::array::{ArrayRef, Int64Array, LargeStringArray, UInt64Array};
use arrow::compute::{lexsort_to_indices, SortColumn, SortOptions};
use std::sync::Arc;
use vstd::prelude::*;

verus! {

/// What a list of lists stands for.
pub open spec fn nested_view<T>(nested: Seq<Vec<T>>) -> Seq<Seq<T>> {
    Seq::new(nested.len(), |i: int| nested[i]@)
}

/// The items of the lists, one list after the other.
pub fn flatten<T>(nested: Vec<Vec<T>>) -> (out: Vec<T>)
    ensures
        out@ == nested_view(nested@).flatten(),
{
    let ghost whole = nested_view(nested@);
    let mut nested = nested;
    let mut out: Vec<T> = Vec::new();
    let mut i: usize = 0;
    while i < nested.len()
        invariant
            i <= nested@.len(),
            nested@.len() == whole.len(),
            forall|j: int| i <= j < whole.len() ==> (#[trigger] nested@[j])@ == whole[j],
            out@ == whole.take(i as int).flatten(),
        decreases nested@.len() - i,
    {
        let mut piece: Vec<T> = Vec::new();
        core::mem::swap(&mut nested[i], &mut piece);
        proof {
            assert(piece@ == whole[i as int]);
            whole.take(i as int).lemma_flatten_push(piece@);
            assert(whole.take(i as int).push(piece@) =~= whole.take(i + 1));
        }
        out.append(&mut piece);
        i += 1;
    }
    assert(whole.take(i as int) =~= whole);
    out
}

/// Which error, if any, a projection meets: `InvalidParameter` where it
/// names a column that the table does not have, `SchemaMismatch` where it
/// names no column.
pub open spec fn select_fault(table: TableView, picks: Seq<int>) -> Option<EngineError> {
    if !within(picks, table.columns.len()) {
        Some(EngineError::InvalidParameter)
    } else if picks.len() == 0 {
        Some(EngineError::SchemaMismatch)
    } else {
        None
    }
}

/// The table made of the columns that `column_index` lists, in that order;
/// the rows stay as they are.
pub fn select_columns(batch: &Table, column_index: &Vec<usize>) -> (made: Result<
    Table,
    EngineError,
>)
    requires
        batch.wf(),
    ensures
        match made {
            Ok(table) => {
                &&& select_fault(batch@, indices(column_index@)) is None
                &&& table.wf()
                &&& table@ == batch@.select(indices(column_index@))
            },
            Err(e) => select_fault(batch@, indices(column_index@)) == Some(e),
        },
{
    let ghost picks = indices(column_index@);
    let mut fields: Vec<Field> = Vec::new();
    let mut columns: Vec<Column> = Vec::new();
    let mut i: usize = 0;
    while i < column_index.len()
        invariant
            i <= column_index@.len(),
            batch.wf(),
            picks == indices(column_index@),
            within(picks.take(i as int), batch@.columns.len()),
            fields@.len() == i,
            columns@.len() == i,
            forall|j: int| 0 <= j < i ==> (#[trigger] fields@[j])@ == batch@.fields[picks[j]],
            forall|j: int| 0 <= j < i ==> (#[trigger] columns@[j])@ == batch@.columns[picks[j]],
        decreases column_index@.len() - i,
    {
        let pick = column_index[i];
        if pick >= batch.num_columns() {
            assert(!(0 <= picks[i as int] < batch@.columns.len()));
            return Err(EngineError::InvalidParameter);
        }
        fields.push(batch.field(pick).copy());
        columns.push(batch.column(pick).copy());
        i += 1;
        assert forall|j: int| 0 <= j < i implies 0 <= #[trigger] picks.take(i as int)[j]
            < batch@.columns.len() by {
            if j < i - 1 {
                assert(picks.take(i - 1)[j] == picks[j]);
            }
        }
    }
    proof {
        assert(picks.take(i as int) =~= picks);
        let expected = batch@.select(picks);
        assert(fields_view(fields@) =~= expected.fields);
        assert(columns_view(columns@) =~= expected.columns);
        if picks.len() > 0 {
            assert forall|c: int| 0 <= c < expected.columns.len() implies (
            #[trigger] expected.columns[c]).data_type() == expected.fields[c].data_type
                && expected.columns[c].len() == expected.columns[0].len() by {
                assert(0 <= picks[c] < batch@.columns.len());
                assert(0 <= picks[0] < batch@.columns.len());
            }
        }
    }
    create_record_batch(fields, columns)
}

/// The test for a row whose value lies between `lo` and `hi`, both included.
pub open spec fn in_range(values: Seq<i64>, lo: int, hi: int) -> spec_fn(int) -> bool {
    |row: int| lo <= values[row] <= hi
}

/// Whether a range filter is switched off: both bounds negative.
pub open spec fn range_disabled(lo: int, hi: int) -> bool {
    lo < 0 && hi < 0
}

/// Which error, if any, a range filter meets: none where it is switched
/// off, else that of its column, which holds decimals.
pub open spec fn filter_between_fault(table: TableView, column: int, lo: int, hi: int) -> Option<
    EngineError,
> {
    if range_disabled(lo, hi) {
        None
    } else {
        column_fault(table, column, DataType::Decimal)
    }
}

/// The rows whose decimal in column `column_num` lies between `filter_from`
/// and `filter_to`, both included, in their order. With both bounds
/// negative the filter is switched off and the table comes back as it is.
pub fn filter_between(column_num: usize, filter_from: i64, filter_to: i64, batch: &Table) -> (made:
    Result<Table, EngineError>)
    requires
        batch.wf(),
    ensures
        match made {
            Ok(table) => {
                &&& filter_between_fault(
                    batch@,
                    column_num as int,
                    filter_from as int,
                    filter_to as int,
                ) is None
                &&& table.wf()
                &&& table@ == if range_disabled(filter_from as int, filter_to as int) {
                    batch@
                } else {
                    batch@.take_rows(
                        positions(
                            batch@.rows(),
                            in_range(
                                batch@.columns[column_num as int].numbers(),
                                filter_from as int,
                                filter_to as int,
                            ),
                        ),
                    )
                }
            },
            Err(e) => filter_between_fault(
                batch@,
                column_num as int,
                filter_from as int,
                filter_to as int,
            ) == Some(e),
        },
{
    if filter_from < 0 && filter_to < 0 {
        return Ok(batch.copy());
    }
    if column_num >= batch.num_columns() {
        return Err(EngineError::InvalidParameter);
    }
    let values = match batch.column(column_num) {
        Column::Decimal(v) => v,
        _ => {
            return Err(EngineError::ColumnTypeMismatch);
        },
    };
    let ghost keep = in_range(values@, filter_from as int, filter_to as int);
    let mut kept: Vec<usize> = Vec::new();
    let mut i: usize = 0;
    assert(indices(kept@) =~= positions(0, keep));
    assert(batch@.columns[column_num as int].len() == batch@.rows());
    while i < values.len()
        invariant
            i <= values@.len(),
            keep == in_range(values@, filter_from as int, filter_to as int),
            indices(kept@) == positions(i as nat, keep),
        decreases values@.len() - i,
    {
        let ghost before = indices(kept@);
        if values[i] >= filter_from && values[i] <= filter_to {
            kept.push(i);
            assert(indices(kept@) =~= before.push(i as int));
        }
        i += 1;
    }
    proof {
        lemma_positions(values@.len(), keep);
    }
    Ok(batch.take_rows(&kept))
}

/// The test for a row whose text is one of `allowed`.
pub open spec fn is_member(values: Seq<Seq<char>>, allowed: Seq<Seq<char>>) -> spec_fn(
    int,
) -> bool {
    |row: int| allowed.contains(values[row])
}

/// Whether a set filter is switched off: its list is the one word `All`.
pub open spec fn set_disabled(allowed: Seq<Seq<char>>) -> bool {
    allowed.len() == 1 && allowed[0] == "All"@
}

/// Which error, if any, a set filter meets: none where it is switched off,
/// else that of its column, which holds text.
pub open spec fn filter_with_fault(
    table: TableView,
    column: int,
    allowed: Seq<Seq<char>>,
) -> Option<EngineError> {
    if set_disabled(allowed) {
        None
    } else {
        column_fault(table, column, DataType::Utf8)
    }
}

/// The rows whose text in column `column_num` is one of `filter_strs`, in
/// their order. With the list of the one word `All` the filter is switched
/// off and the table comes back as it is.
pub fn filter_with(column_num: usize, filter_strs: &Vec<String>, batch: &Table) -> (made: Result<
    Table,
    EngineError,
>)
    requires
        batch.wf(),
    ensures
        match made {
            Ok(table) => {
                &&& filter_with_fault(batch@, column_num as int, texts(filter_strs@)) is None
                &&& table.wf()
                &&& table@ == if set_disabled(texts(filter_strs@)) {
                    batch@
                } else {
                    batch@.take_rows(
                        positions(
                            batch@.rows(),
                            is_member(
                                batch@.columns[column_num as int].text(),
                                texts(filter_strs@),
                            ),
                        ),
                    )
                }
            },
            Err(e) => filter_with_fault(batch@, column_num as int, texts(filter_strs@)) == Some(e),
        },
{
    if filter_strs.len() == 1 {
        let all = "All".to_owned();
        if filter_strs[0] == all {
            assert(texts(filter_strs@)[0] == "All"@);
            return Ok(batch.copy());
        }
        assert(texts(filter_strs@)[0] != "All"@);
    }
    if column_num >= batch.num_columns() {
        return Err(EngineError::InvalidParameter);
    }
    let values = match batch.column(column_num) {
        Column::Utf8(v) => v,
        _ => {
            return Err(EngineError::ColumnTypeMismatch);
        },
    };
    let ghost keep = is_member(texts(values@), texts(filter_strs@));
    let mut kept: Vec<usize> = Vec::new();
    let mut i: usize = 0;
    assert(indices(kept@) =~= positions(0, keep));
    assert(batch@.columns[column_num as int].len() == batch@.rows());
    while i < values.len()
        invariant
            i <= values@.len(),
            keep == is_member(texts(values@), texts(filter_strs@)),
            indices(kept@) == positions(i as nat, keep),
        decreases values@.len() - i,
    {
        let ghost before = indices(kept@);
        assert(texts(values@)[i as int] == values@[i as int]@);
        if contains_text(filter_strs, &values[i]) {
            kept.push(i);
            assert(indices(kept@) =~= before.push(i as int));
        }
        i += 1;
    }
    proof {
        lemma_positions(values@.len(), keep);
    }
    Ok(batch.take_rows(&kept))
}

/// The table of one column that holds the distinct texts of `values` under `field`.
pub open spec fn unique_table(field: FieldView, values: Seq<Seq<char>>) -> TableView {
    TableView { fields: seq![field], columns: seq![ColumnView::Utf8(distinct(values))] }
}

/// The distinct texts of column `column_index_for_unqiue` as a table of one
/// column: each text once, in the order of first occurrence. The texts of
/// the result are exactly those that occur in the column.
pub fn find_unique_string(batch: &Table, column_index_for_unqiue: usize) -> (made: Result<
    Table,
    EngineError,
>)
    requires
        batch.wf(),
    ensures
        match made {
            Ok(table) => {
                &&& column_fault(batch@, column_index_for_unqiue as int, DataType::Utf8) is None
                &&& table.wf()
                &&& table@ == unique_table(
                    batch@.fields[column_index_for_unqiue as int],
                    batch@.columns[column_index_for_unqiue as int].text(),
                )
                &&& table@.columns[0].text().no_duplicates()
                &&& forall|text: Seq<char>|
                    table@.columns[0].text().contains(text)
                        <==> batch@.columns[column_index_for_unqiue as int].text().contains(text)
            },
            Err(e) => column_fault(batch@, column_index_for_unqiue as int, DataType::Utf8) == Some(
                e,
            ),
        },
{
    if column_index_for_unqiue >= batch.num_columns() {
        return Err(EngineError::InvalidParameter);
    }
    let values = match batch.column(column_index_for_unqiue) {
        Column::Utf8(v) => v,
        _ => {
            return Err(EngineError::ColumnTypeMismatch);
        },
    };
    let unique = unique_text(values);
    let mut fields: Vec<Field> = Vec::new();
    let mut columns: Vec<Column> = Vec::new();
    fields.push(batch.field(column_index_for_unqiue).copy());
    columns.push(Column::Utf8(unique));
    proof {
        let expected = unique_table(
            batch@.fields[column_index_for_unqiue as int],
            batch@.columns[column_index_for_unqiue as int].text(),
        );
        assert(fields_view(fields@) =~= expected.fields);
        assert(columns_view(columns@) =~= expected.columns);
        lemma_distinct(texts(values@));
    }
    create_record_batch(fields, columns)
}

/// The distinct texts of a column, as `find_unique_string` gives them.
pub fn count_unique_string(batch: &Table, column_index_for_unqiue: usize) -> (made: Result<
    Table,
    EngineError,
>)
    requires
        batch.wf(),
    ensures
        match made {
            Ok(table) => {
                &&& column_fault(batch@, column_index_for_unqiue as int, DataType::Utf8) is None
                &&& table.wf()
                &&& table@ == unique_table(
                    batch@.fields[column_index_for_unqiue as int],
                    batch@.columns[column_index_for_unqiue as int].text(),
                )
            },
            Err(e) => column_fault(batch@, column_index_for_unqiue as int, DataType::Utf8) == Some(
                e,
            ),
        },
{
    find_unique_string(batch, column_index_for_unqiue)
}

/// Whether every fragment has the schema of the first.
pub open spec fn same_schema(fragments: Seq<TableView>) -> bool {
    forall|i: int|
        0 <= i < fragments.len() ==> (#[trigger] fragments[i]).fields == fragments[0].fields
}

/// Column `c` of the concatenation: the values of column `c` of every
/// fragment, fragment after fragment.
pub open spec fn concat_column(fragments: Seq<TableView>, c: int) -> ColumnView {
    match fragments[0].columns[c] {
        ColumnView::Utf8(_) => ColumnView::Utf8(
            Seq::new(fragments.len(), |i: int| fragments[i].columns[c].text()).flatten(),
        ),
        ColumnView::Decimal(_) => ColumnView::Decimal(
            Seq::new(fragments.len(), |i: int| fragments[i].columns[c].numbers()).flatten(),
        ),
        ColumnView::Int64(_) => ColumnView::Int64(
            Seq::new(fragments.len(), |i: int| fragments[i].columns[c].numbers()).flatten(),
        ),
        ColumnView::UInt64(_) => ColumnView::UInt64(
            Seq::new(fragments.len(), |i: int| fragments[i].columns[c].counts()).flatten(),
        ),
    }
}

/// The concatenation of fragments of one schema: that schema, and the rows
/// of every fragment in the order of the fragments.
pub open spec fn concat(fragments: Seq<TableView>) -> TableView {
    TableView {
        fields: fragments[0].fields,
        columns: Seq::new(fragments[0].columns.len(), |c: int| concat_column(fragments, c)),
    }
}

/// Which error, if any, a concatenation meets: `SchemaMismatch` where there
/// is no fragment or a fragment differs from the first in its schema.
pub open spec fn concat_fault(fragments: Seq<TableView>) -> Option<EngineError> {
    if fragments.len() == 0 || !same_schema(fragments) {
        Some(EngineError::SchemaMismatch)
    } else {
        None
    }
}

/// What a list of tables stands for.
pub open spec fn tables_view(tables: Seq<Table>) -> Seq<TableView> {
    Seq::new(tables.len(), |i: int| tables[i]@)
}

/// The texts of a concatenation of lists are the concatenation of their texts.
pub proof fn lemma_texts_flatten(nested: Seq<Seq<String>>)
    ensures
        texts(nested.flatten()) == Seq::new(nested.len(), |i: int| texts(nested[i])).flatten(),
    decreases nested.len(),
{
    let mapped = Seq::new(nested.len(), |i: int| texts(nested[i]));
    if nested.len() == 0 {
        assert(texts(nested.flatten()) =~= mapped.flatten());
    } else {
        let front = nested.drop_last();
        let last = nested.last();
        lemma_texts_flatten(front);
        let mapped_front = Seq::new(front.len(), |i: int| texts(front[i]));
        front.lemma_flatten_push(last);
        mapped_front.lemma_flatten_push(texts(last));
        assert(front.push(last) =~= nested);
        assert(mapped_front.push(texts(last)) =~= mapped);
        assert(texts(front.flatten() + last) =~= texts(front.flatten()) + texts(last));
    }
}

/// Whether two schemas are the same.
fn schemas_equal(a: &Vec<Field>, b: &Vec<Field>) -> (equal: bool)
    ensures
        equal == (fields_view(a@) == fields_view(b@)),
{
    if a.len() != b.len() {
        assert(fields_view(a@).len() != fields_view(b@).len());
        return false;
    }
    let mut i: usize = 0;
    while i < a.len()
        invariant
            i <= a@.len(),
            a@.len() == b@.len(),
            forall|j: int| 0 <= j < i ==> a@[j]@ == b@[j]@,
        decreases a@.len() - i,
    {
        if !a[i].same(&b[i]) {
            assert(fields_view(a@)[i as int] != fields_view(b@)[i as int]);
            return false;
        }
        i += 1;
    }
    assert(fields_view(a@) =~= fields_view(b@));
    true
}

/// A copy of a list of strings.
fn copy_texts(values: &Vec<String>) -> (out: Vec<String>)
    ensures
        out@ == values@,
{
    let mut out: Vec<String> = Vec::new();
    let mut i: usize = 0;
    while i < values.len()
        invariant
            i <= values@.len(),
            out@ == values@.take(i as int),
        decreases values@.len() - i,
    {
        out.push(values[i].clone());
        i += 1;
        assert(out@ =~= values@.take(i as int));
    }
    assert(values@.take(i as int) =~= values@);
    out
}

/// A copy of a list of numbers.
fn copy_values<T: Copy>(values: &Vec<T>) -> (out: Vec<T>)
    ensures
        out@ == values@,
{
    let mut out: Vec<T> = Vec::new();
    let mut i: usize = 0;
    while i < values.len()
        invariant
            i <= values@.len(),
            out@ == values@.take(i as int),
        decreases values@.len() - i,
    {
        out.push(values[i]);
        i += 1;
        assert(out@ =~= values@.take(i as int));
    }
    assert(values@.take(i as int) =~= values@);
    out
}

/// Column `c` of the concatenation of fragments of one schema.
fn concat_one(vec_batch: &Vec<Table>, c: usize) -> (column: Column)
    requires
        vec_batch@.len() > 0,
        forall|i: int| 0 <= i < vec_batch@.len() ==> (#[trigger] vec_batch@[i]).wf(),
        same_schema(tables_view(vec_batch@)),
        c < vec_batch@[0]@.columns.len(),
    ensures
        column@ == concat_column(tables_view(vec_batch@), c as int),
{
    let ghost fragments = tables_view(vec_batch@);
    proof {
        assert forall|i: int| 0 <= i < fragments.len() implies c < (
        #[trigger] fragments[i]).columns.len() && fragments[i].columns[c as int].data_type()
            == fragments[0].columns[c as int].data_type() by {
            assert(vec_batch@[i].wf());
            assert(vec_batch@[0].wf());
            assert(fragments[i].fields == fragments[0].fields);
            assert(fragments[i].columns[c as int].data_type()
                == fragments[i].fields[c as int].data_type);
            assert(fragments[0].columns[c as int].data_type()
                == fragments[0].fields[c as int].data_type);
        }
        assert(fragments[0] == vec_batch@[0]@);
    }
    match vec_batch[0].column(c) {
        Column::Utf8(_) => {
            let mut nested: Vec<Vec<String>> = Vec::new();
            let mut i: usize = 0;
            while i < vec_batch.len()
                invariant
                    i <= vec_batch@.len(),
                    fragments == tables_view(vec_batch@),
                    forall|i: int|
                        0 <= i < fragments.len() ==> c < (#[trigger] fragments[i]).columns.len()
                            && fragments[i].columns[c as int].data_type() == DataType::Utf8,
                    nested@.len() == i,
                    forall|j: int|
                        0 <= j < i ==> texts((#[trigger] nested@[j])@)
                            == fragments[j].columns[c as int].text(),
                decreases vec_batch@.len() - i,
            {
                assert(fragments[i as int] == vec_batch@[i as int]@);
                match vec_batch[i].column(c) {
                    Column::Utf8(v) => {
                        nested.push(copy_texts(v));
                    },
                    _ => {
                        assert(false);
                    },
                }
                i += 1;
            }
            let flat = flatten(nested);
            proof {
                lemma_texts_flatten(nested_view(nested@));
                assert(Seq::new(
                    nested_view(nested@).len(),
                    |i: int| texts(nested_view(nested@)[i]),
                ) =~= Seq::new(fragments.len(), |i: int| fragments[i].columns[c as int].text()));
            }
            Column::Utf8(flat)
        },
        Column::Decimal(_) => {
            let mut nested: Vec<Vec<i64>> = Vec::new();
            let mut i: usize = 0;
            while i < vec_batch.len()
                invariant
                    i <= vec_batch@.len(),
                    fragments == tables_view(vec_batch@),
                    forall|i: int|
                        0 <= i < fragments.len() ==> c < (#[trigger] fragments[i]).columns.len()
                            && fragments[i].columns[c as int].data_type() == DataType::Decimal,
                    nested@.len() == i,
                    forall|j: int|
                        0 <= j < i ==> (#[trigger] nested@[j])@
                            == fragments[j].columns[c as int].numbers(),
                decreases vec_batch@.len() - i,
            {
                assert(fragments[i as int] == vec_batch@[i as int]@);
                match vec_batch[i].column(c) {
                    Column::Decimal(v) => {
                        nested.push(copy_values(v));
                    },
                    _ => {
                        assert(false);
                    },
                }
                i += 1;
            }
            let flat = flatten(nested);
            proof {
                assert(nested_view(nested@) =~= Seq::new(
                    fragments.len(),
                    |i: int| fragments[i].columns[c as int].numbers(),
                ));
            }
            Column::Decimal(flat)
        },
        Column::Int64(_) => {
            let mut nested: Vec<Vec<i64>> = Vec::new();
            let mut i: usize = 0;
            while i < vec_batch.len()
                invariant
                    i <= vec_batch@.len(),
                    fragments == tables_view(vec_batch@),
                    forall|i: int|
                        0 <= i < fragments.len() ==> c < (#[trigger] fragments[i]).columns.len()
                            && fragments[i].columns[c as int].data_type() == DataType::Int64,
                    nested@.len() == i,
                    forall|j: int|
                        0 <= j < i ==> (#[trigger] nested@[j])@
                            == fragments[j].columns[c as int].numbers(),
                decreases vec_batch@.len() - i,
            {
                assert(fragments[i as int] == vec_batch@[i as int]@);
                match vec_batch[i].column(c) {
                    Column::Int64(v) => {
                        nested.push(copy_values(v));
                    },
                    _ => {
                        assert(false);
                    },
                }
                i += 1;
            }
            let flat = flatten(nested);
            proof {
                assert(nested_view(nested@) =~= Seq::new(
                    fragments.len(),
                    |i: int| fragments[i].columns[c as int].numbers(),
                ));
            }
            Column::Int64(flat)
        },
        Column::UInt64(_) => {
            let mut nested: Vec<Vec<u64>> = Vec::new();
            let mut i: usize = 0;
            while i < vec_batch.len()
                invariant
                    i <= vec_batch@.len(),
                    fragments == tables_view(vec_batch@),
                    forall|i: int|
                        0 <= i < fragments.len() ==> c < (#[trigger] fragments[i]).columns.len()
                            && fragments[i].columns[c as int].data_type() == DataType::UInt64,
                    nested@.len() == i,
                    forall|j: int|
                        0 <= j < i ==> (#[trigger] nested@[j])@
                            == fragments[j].columns[c as int].counts(),
                decreases vec_batch@.len() - i,
            {
                assert(fragments[i as int] == vec_batch@[i as int]@);
                match vec_batch[i].column(c) {
                    Column::UInt64(v) => {
                        nested.push(copy_values(v));
                    },
                    _ => {
                        assert(false);
                    },
                }
                i += 1;
            }
            let flat = flatten(nested);
            proof {
                assert(nested_view(nested@) =~= Seq::new(
                    fragments.len(),
                    |i: int| fragments[i].columns[c as int].counts(),
                ));
            }
            Column::UInt64(flat)
        },
    }
}

/// The number of rows of the first `n` fragments together.
pub open spec fn total_rows(fragments: Seq<TableView>, n: nat) -> nat
    decreases n,
{
    if n == 0 {
        0
    } else {
        total_rows(fragments, (n - 1) as nat) + fragments[n - 1].rows()
    }
}

/// Pieces that are as long as the fragments have rows are together as long
/// as the fragments have rows together.
proof fn lemma_flatten_rows<A>(pieces: Seq<Seq<A>>, fragments: Seq<TableView>, n: nat)
    requires
        n <= pieces.len(),
        pieces.len() == fragments.len(),
        forall|i: int|
            0 <= i < pieces.len() ==> (#[trigger] pieces[i]).len() == fragments[i].rows(),
    ensures
        pieces.take(n as int).flatten().len() == total_rows(fragments, n),
    decreases n,
{
    if n == 0 {
        assert(pieces.take(0) =~= Seq::<Seq<A>>::empty());
    } else {
        lemma_flatten_rows(pieces, fragments, (n - 1) as nat);
        pieces.take(n - 1).lemma_flatten_push(pieces[n - 1]);
        assert(pieces.take(n - 1).push(pieces[n - 1]) =~= pieces.take(n as int));
    }
}

/// The concatenation of well-formed fragments of one schema is well-formed,
/// has the schema of the first fragment, and has as many rows as the
/// fragments have together.
pub proof fn lemma_concat(fragments: Seq<TableView>)
    requires
        fragments.len() > 0,
        forall|i: int| 0 <= i < fragments.len() ==> (#[trigger] fragments[i]).wf(),
        same_schema(fragments),
    ensures
        concat(fragments).wf(),
        concat(fragments).fields == fragments[0].fields,
        concat(fragments).rows() == total_rows(fragments, fragments.len()),
{
    let whole = concat(fragments);
    let n = fragments.len();
    assert(fragments[0].wf());
    assert forall|c: int| 0 <= c < whole.columns.len() implies (#[trigger] whole.columns[c]).len()
        == total_rows(fragments, n) && whole.columns[c].data_type()
        == whole.fields[c].data_type by {
        assert forall|i: int| 0 <= i < n implies c < (#[trigger] fragments[i]).columns.len()
            && fragments[i].columns[c].data_type() == fragments[0].columns[c].data_type()
            && fragments[i].columns[c].len() == fragments[i].rows() by {
            assert(fragments[i].wf());
            assert(fragments[i].fields == fragments[0].fields);
            assert(fragments[i].columns[c].data_type() == fragments[i].fields[c].data_type);
            assert(fragments[0].columns[c].data_type() == fragments[0].fields[c].data_type);
        }
        match fragments[0].columns[c] {
            ColumnView::Utf8(_) => {
                let pieces = Seq::new(n, |i: int| fragments[i].columns[c].text());
                lemma_flatten_rows(pieces, fragments, n);
                assert(pieces.take(n as int) =~= pieces);
            },
            ColumnView::Decimal(_) => {
                let pieces = Seq::new(n, |i: int| fragments[i].columns[c].numbers());
                lemma_flatten_rows(pieces, fragments, n);
                assert(pieces.take(n as int) =~= pieces);
            },
            ColumnView::Int64(_) => {
                let pieces = Seq::new(n, |i: int| fragments[i].columns[c].numbers());
                lemma_flatten_rows(pieces, fragments, n);
                assert(pieces.take(n as int) =~= pieces);
            },
            ColumnView::UInt64(_) => {
                let pieces = Seq::new(n, |i: int| fragments[i].columns[c].counts());
                lemma_flatten_rows(pieces, fragments, n);
                assert(pieces.take(n as int) =~= pieces);
            },
        }
    }
}

/// The concatenation of fragments of one schema: the schema of the first
/// fragment, and the rows of every fragment in the order of the fragments,
/// as many as the fragments have together.
pub fn concat_record_batches(vec_batch: Vec<Table>) -> (made: Result<Table, EngineError>)
    requires
        forall|i: int| 0 <= i < vec_batch@.len() ==> (#[trigger] vec_batch@[i]).wf(),
    ensures
        match made {
            Ok(table) => {
                &&& concat_fault(tables_view(vec_batch@)) is None
                &&& table.wf()
                &&& table@ == concat(tables_view(vec_batch@))
                &&& table@.fields == vec_batch@[0]@.fields
                &&& table@.rows() == total_rows(tables_view(vec_batch@), vec_batch@.len())
            },
            Err(e) => concat_fault(tables_view(vec_batch@)) == Some(e),
        },
{
    let ghost fragments = tables_view(vec_batch@);
    if vec_batch.len() == 0 {
        return Err(EngineError::SchemaMismatch);
    }
    let mut i: usize = 1;
    while i < vec_batch.len()
        invariant
            1 <= i <= vec_batch@.len(),
            fragments == tables_view(vec_batch@),
            forall|j: int| 0 <= j < i ==> (#[trigger] fragments[j]).fields == fragments[0].fields,
        decreases vec_batch@.len() - i,
    {
        assert(fragments[i as int] == vec_batch@[i as int]@);
        assert(fragments[0] == vec_batch@[0]@);
        if !schemas_equal(vec_batch[i].schema(), vec_batch[0].schema()) {
            return Err(EngineError::SchemaMismatch);
        }
        i += 1;
    }
    proof {
        assert forall|i: int| 0 <= i < fragments.len() implies (#[trigger] fragments[i]).wf() by {
            assert(vec_batch@[i].wf());
        }
        lemma_concat(fragments);
        assert(fragments[0] == vec_batch@[0]@);
    }
    let fields = copy_schema(vec_batch[0].schema());
    let mut columns: Vec<Column> = Vec::new();
    let mut c: usize = 0;
    while c < vec_batch[0].num_columns()
        invariant
            vec_batch@.len() > 0,
            c <= vec_batch@[0]@.columns.len(),
            fragments == tables_view(vec_batch@),
            forall|i: int| 0 <= i < vec_batch@.len() ==> (#[trigger] vec_batch@[i]).wf(),
            same_schema(fragments),
            columns@.len() == c,
            forall|d: int| 0 <= d < c ==> (#[trigger] columns@[d])@ == concat_column(fragments, d),
        decreases vec_batch@[0]@.columns.len() - c,
    {
        columns.push(concat_one(&vec_batch, c));
        c += 1;
    }
    proof {
        assert(columns_view(columns@) =~= concat(fragments).columns);
    }
    create_record_batch(fields, columns)
}

/// Whether row `a` comes before row `b` in the order of a sort: by the key,
/// upwards or downwards, and among rows of equal key by the row number.
pub open spec fn precedes(keys: ColumnView, descending: bool, a: int, b: int) -> bool {
    if descending {
        keys.before(b, a) || (!keys.before(a, b) && a < b)
    } else {
        keys.before(a, b) || (!keys.before(b, a) && a < b)
    }
}

/// Whether `order` lists every row of `keys` once, each before the rows
/// that it precedes.
pub open spec fn sorted_order(keys: ColumnView, descending: bool, order: Seq<int>) -> bool {
    &&& order.len() == keys.len()
    &&& within(order, keys.len())
    &&& order.no_duplicates()
    &&& forall|i: int, j: int|
        0 <= i < j < order.len() ==> precedes(
            keys,
            descending,
            #[trigger] order[i],
            #[trigger] order[j],
        )
}

/// Whether the values of a column are in order: upwards, none comes before
/// an earlier one; downwards, none comes before a later one.
pub open spec fn in_order(column: ColumnView, descending: bool) -> bool {
    forall|i: int, j: int|
        0 <= i < j < column.len() ==> if descending {
            !column.before(i, j)
        } else {
            !column.before(j, i)
        }
}

/// The rows of `keys` in the order of a sort, stable: rows of equal key
/// keep their order. This is `lexsort_to_indices` of arrow on two columns,
/// the keys and the row numbers `rows`. The contract claims of it that it
/// returns every row number once, sorted by the key in the direction asked
/// for — integers by size, texts by their bytes, which orders them by code
/// points — and among equal keys by the row number, upwards.
#[verifier::external_body]
fn lexsort_rows(keys: &Column, rows: &Vec<u64>, descending: bool) -> (order: Vec<usize>)
    requires
        rows@.len() == keys@.len(),
        keys@.len() <= u32::MAX,
        forall|i: int| 0 <= i < rows@.len() ==> rows@[i] == i,
    ensures
        sorted_order(keys@, descending, indices(order@)),
{
    let values: ArrayRef = match keys {
        Column::Utf8(v) => Arc::new(LargeStringArray::from(v.clone())),
        Column::Decimal(v) | Column::Int64(v) => Arc::new(Int64Array::from(v.clone())),
        Column::UInt64(v) => Arc::new(UInt64Array::from(v.clone())),
    };
    let by_key = SortColumn { values, options: Some(SortOptions::new(descending, false)) };
    let ties: ArrayRef = Arc::new(UInt64Array::from(rows.clone()));
    let by_row = SortColumn { values: ties, options: Some(SortOptions::new(false, false)) };
    let sorted = lexsort_to_indices(&[by_key, by_row], None).unwrap();
    sorted.values().iter().map(|i| *i as usize).collect()
}

/// The row numbers from zero up to `n`, as the tie-break of a sort takes them.
fn row_numbers(n: usize) -> (rows: Vec<u64>)
    ensures
        rows@.len() == n,
        forall|i: int| 0 <= i < n ==> rows@[i] == i,
{
    let mut rows: Vec<u64> = Vec::new();
    let mut i: usize = 0;
    while i < n
        invariant
            i <= n,
            rows@.len() == i,
            forall|j: int| 0 <= j < i ==> rows@[j] == j,
        decreases n - i,
    {
        rows.push(i as u64);
        i += 1;
    }
    rows
}

/// Rows taken in a sorted order have their keys in order.
pub proof fn lemma_sorted_in_order(keys: ColumnView, descending: bool, order: Seq<int>)
    requires
        sorted_order(keys, descending, order),
    ensures
        in_order(keys.take(order), descending),
{
    let taken = keys.take(order);
    assert forall|i: int, j: int| 0 <= i < j < taken.len() implies if descending {
        !taken.before(i, j)
    } else {
        !taken.before(j, i)
    } by {
        assert(precedes(keys, descending, order[i], order[j]));
        assert(taken.before(i, j) == keys.before(order[i], order[j]));
        assert(taken.before(j, i) == keys.before(order[j], order[i]));
        match keys {
            ColumnView::Utf8(v) => {
                lemma_text_before_asymmetric(v[order[i]], v[order[j]]);
            },
            _ => {},
        }
    }
}

/// Which error, if any, a sort meets: `InvalidParameter` where the table
/// has no such column, or more rows than the sort can number.
pub open spec fn sort_fault(table: TableView, column: int) -> Option<EngineError> {
    if !(0 <= column < table.columns.len()) || table.rows() > u32::MAX {
        Some(EngineError::InvalidParameter)
    } else {
        None
    }
}

/// The rows of a table sorted by the values of one column, upwards or
/// downwards: numbers by size, texts by code points. The sort is stable:
/// rows of equal value keep their order, in either direction.
pub fn sort_batch(batch: &Table, column_index_to_sort: usize, ascending: bool) -> (made: Result<
    Table,
    EngineError,
>)
    requires
        batch.wf(),
    ensures
        match made {
            Ok(table) => {
                &&& sort_fault(batch@, column_index_to_sort as int) is None
                &&& table.wf()
                &&& exists|order: Seq<int>|
                    sorted_order(batch@.columns[column_index_to_sort as int], !ascending, order)
                        && table@ == batch@.take_rows(order)
                &&& in_order(table@.columns[column_index_to_sort as int], !ascending)
            },
            Err(e) => sort_fault(batch@, column_index_to_sort as int) == Some(e),
        },
{
    if column_index_to_sort >= batch.num_columns() {
        return Err(EngineError::InvalidParameter);
    }
    let rows = batch.num_rows();
    if rows > u32::MAX as usize {
        return Err(EngineError::InvalidParameter);
    }
    let keys = batch.column(column_index_to_sort);
    assert(keys@.len() == batch@.rows());
    let ties = row_numbers(rows);
    let order = lexsort_rows(keys, &ties, !ascending);
    let table = batch.take_rows(&order);
    proof {
        lemma_sorted_in_order(keys@, !ascending, indices(order@));
    }
    Ok(table)
}

/// A list of `n` different row numbers below `n` holds every row number below `n`.
pub proof fn lemma_order_holds_every_row(order: Seq<int>, n: nat, row: int)
    requires
        order.len() == n,
        within(order, n),
        order.no_duplicates(),
        0 <= row < n,
    ensures
        order.contains(row),
{
    let listed = order.to_set();
    let all = vstd::set_lib::set_int_range(0, n as int);
    order.unique_seq_to_set();
    vstd::set_lib::lemma_int_range(0, n as int);
    assert forall|v: int| listed.contains(v) implies all.contains(v) by {
        let i = choose|i: int| 0 <= i < order.len() && order[i] == v;
        assert(0 <= order[i] < n);
    }
    vstd::set_lib::lemma_len_subset(listed, all);
    vstd::set_lib::lemma_subset_equality(listed, all);
    assert(all.contains(row));
    assert(listed.contains(row));
}

/// Two rows do not both precede one another.
proof fn lemma_precedes_asymmetric(keys: ColumnView, descending: bool, a: int, b: int)
    ensures
        !(precedes(keys, descending, a, b) && precedes(keys, descending, b, a)),
{
    match keys {
        ColumnView::Utf8(v) => {
            lemma_text_before_asymmetric(v[a], v[b]);
        },
        _ => {},
    }
}

/// Two sorted orders of the same keys agree on their first `i` places.
proof fn lemma_orders_agree(
    keys: ColumnView,
    descending: bool,
    first: Seq<int>,
    second: Seq<int>,
    i: nat,
)
    requires
        sorted_order(keys, descending, first),
        sorted_order(keys, descending, second),
        i <= keys.len(),
    ensures
        forall|k: int| 0 <= k < i ==> first[k] == second[k],
    decreases i,
{
    if i > 0 {
        lemma_orders_agree(keys, descending, first, second, (i - 1) as nat);
        let at = i - 1;
        let x = first[at];
        let y = second[at];
        if x != y {
            assert(0 <= first[at] < keys.len());
            assert(0 <= second[at] < keys.len());
            lemma_order_holds_every_row(second, keys.len(), x);
            lemma_order_holds_every_row(first, keys.len(), y);
            let p = choose|p: int| 0 <= p < second.len() && second[p] == x;
            let q = choose|q: int| 0 <= q < first.len() && first[q] == y;
            if p < at {
                assert(first[p] == second[p]);
            }
            if q < at {
                assert(first[q] == second[q]);
            }
            assert(precedes(keys, descending, second[at], second[p]));
            assert(precedes(keys, descending, first[at], first[q]));
            lemma_precedes_asymmetric(keys, descending, x, y);
        }
    }
}

/// The sorted order of a column is one: the sort is stable, so that even
/// rows of equal key have their place, and two orders that are both sorted
/// are the same.
pub proof fn lemma_sorted_order_unique(
    keys: ColumnView,
    descending: bool,
    first: Seq<int>,
    second: Seq<int>,
)
    requires
        sorted_order(keys, descending, first),
        sorted_order(keys, descending, second),
    ensures
        first == second,
{
    lemma_orders_agree(keys, descending, first, second, keys.len());
    assert(first =~= second);
}

} // verus!
