//! Schema inference: one field per header column, with a best-guess primitive
//! type and the counts behind the column's null ratio.
//!
//! The type policy is last-value-wins: each non-null value sets its column's
//! type to that value's own classification, so the recorded type is the
//! classification of the last non-null value scanned. A value that is empty
//! after trimming counts toward the column's null count instead. Short rows
//! simply do not touch the missing columns; columns beyond the header width
//! are ignored.

use vstd::prelude::*;
use vstd::pervasive::VecAdditionalExecFns;
use crate::text::str_chars;
use crate::tokenizer::{scan_chars, tokenize};
use crate::classify::{
    classify_field, classify_value, is_null_field, spec_is_null, type_label, type_label_string,
    ColumnType,
};

verus! {

/// One inferred column: its name, the label of its inferred type, and the
/// null statistics (the ratio is `null_count / row_count`, taken as 0 when no
/// rows were sampled).
pub struct SchemaField {
    pub name: String,
    pub field_type: String,
    pub null_count: usize,
    pub row_count: usize,
}

/// The inferred type of column `i` over the sampled data rows: the
/// classification of the last value that is present and non-null, or `string`
/// when there is none.
pub open spec fn col_type(data: Seq<Seq<Seq<char>>>, i: int) -> ColumnType
    decreases data.len(),
{
    if data.len() == 0 {
        ColumnType::Text
    } else if i < data.last().len() && !spec_is_null(data.last()[i]) {
        classify_value(data.last()[i])
    } else {
        col_type(data.drop_last(), i)
    }
}

/// How many sampled rows hold a null (empty after trimming) value in column
/// `i`. Rows too short to reach the column do not count.
pub open spec fn col_null_count(data: Seq<Seq<Seq<char>>>, i: int) -> nat
    decreases data.len(),
{
    if data.len() == 0 {
        0
    } else {
        col_null_count(data.drop_last(), i) + (if i < data.last().len() && spec_is_null(
            data.last()[i],
        ) {
            1nat
        } else {
            0nat
        })
    }
}

/// A column's null count never exceeds the number of sampled rows.
pub proof fn lemma_null_count_le(data: Seq<Seq<Seq<char>>>, i: int)
    ensures
        col_null_count(data, i) <= data.len(),
    decreases data.len(),
{
    if data.len() > 0 {
        lemma_null_count_le(data.drop_last(), i);
    }
}

/// What the inference promises, per column, over the tokenized sample.
pub open spec fn schema_matches(fields: Seq<SchemaField>, rows: Seq<Seq<Seq<char>>>) -> bool {
    if rows.len() == 0 {
        fields.len() == 0
    } else {
        &&& fields.len() == rows[0].len()
        &&& forall|i: int|
            0 <= i < fields.len() ==> {
                &&& (#[trigger] fields[i]).name@ == rows[0][i]
                &&& fields[i].field_type@ == type_label(col_type(rows.skip(1), i))
                &&& fields[i].null_count == col_null_count(rows.skip(1), i)
                &&& fields[i].row_count == rows.len() - 1
            }
    }
}

/// Infers one schema field per header column from a sample buffer.
///
/// The first tokenized row is the header; each subsequent row updates the
/// columns it reaches, as `col_type` and `col_null_count` describe. A sample
/// without rows yields an empty schema rather than an error.
pub fn infer_schema(sample: &str, delimiter: char) -> (fields: Vec<SchemaField>)
    ensures
        schema_matches(fields@, tokenize(sample@, delimiter)),
{
    let chars = str_chars(sample);
    let (rows, _consumed) = scan_chars(&chars, delimiter, true);
    let ghost all = tokenize(sample@, delimiter);
    let ghost data = all.skip(1);
    if rows.len() == 0 {
        let fields: Vec<SchemaField> = Vec::new();
        return fields;
    }
    let m = rows[0].len();
    proof {
        assert(all[0] == rows@[0].deep_view());
        assert(m == all[0].len());
    }
    let mut types: Vec<ColumnType> = Vec::new();
    let mut nulls: Vec<usize> = Vec::new();
    let mut t: usize = 0;
    while t < m
        invariant
            t <= m,
            types@.len() == t,
            nulls@.len() == t,
            forall|i: int| 0 <= i < t ==> #[trigger] types@[i] == ColumnType::Text,
            forall|i: int| 0 <= i < t ==> #[trigger] nulls@[i] == 0,
        decreases m - t,
    {
        types.push(ColumnType::Text);
        nulls.push(0);
        t += 1;
    }
    proof {
        assert(data.take(0) =~= Seq::<Seq<Seq<char>>>::empty());
    }
    let mut j: usize = 1;
    while j < rows.len()
        invariant
            1 <= j <= rows@.len(),
            types@.len() == m,
            nulls@.len() == m,
            rows.deep_view() == all,
            all.len() == rows@.len(),
            data == all.skip(1),
            forall|i: int| 0 <= i < m ==> #[trigger] types@[i] == col_type(data.take(j - 1), i),
            forall|i: int|
                0 <= i < m ==> #[trigger] nulls@[i] == col_null_count(data.take(j - 1), i),
        decreases rows@.len() - j,
    {
        let row_len = rows[j].len();
        let lim = if row_len < m {
            row_len
        } else {
            m
        };
        let ghost jj = j - 1;
        proof {
            assert(data[jj] == all[j as int]);
            assert(all[j as int] == rows@[j as int].deep_view());
            assert(data[jj].len() == row_len);
            assert(data.take(jj + 1).drop_last() =~= data.take(jj));
            assert(data.take(jj + 1).last() == data[jj]);
        }
        let mut k: usize = 0;
        while k < lim
            invariant
                k <= lim,
                lim <= row_len,
                lim <= m,
                row_len < m ==> lim == row_len,
                types@.len() == m,
                nulls@.len() == m,
                1 <= j < rows@.len(),
                jj == j - 1,
                rows.deep_view() == all,
                all.len() == rows@.len(),
                data == all.skip(1),
                data[jj] == rows@[j as int].deep_view(),
                data[jj].len() == row_len,
                forall|i: int| 0 <= i < k ==> #[trigger] types@[i] == col_type(data.take(jj + 1), i),
                forall|i: int|
                    0 <= i < k ==> #[trigger] nulls@[i] == col_null_count(data.take(jj + 1), i),
                forall|i: int| k <= i < m ==> #[trigger] types@[i] == col_type(data.take(jj), i),
                forall|i: int|
                    k <= i < m ==> #[trigger] nulls@[i] == col_null_count(data.take(jj), i),
            decreases lim - k,
        {
            proof {
                assert(data.take(jj + 1).drop_last() =~= data.take(jj));
                assert(data.take(jj + 1).last() == data[jj]);
                assert(data[jj][k as int] == rows@[j as int]@[k as int]@);
                lemma_null_count_le(data.take(jj), k as int);
            }
            if is_null_field(rows[j][k].as_str()) {
                let c = nulls[k];
                nulls.set(k, c + 1);
            } else {
                let ty = classify_field(rows[j][k].as_str());
                types.set(k, ty);
            }
            k += 1;
        }
        proof {
            assert forall|i: int| lim <= i < m implies #[trigger] types@[i] == col_type(
                data.take(jj + 1),
                i,
            ) && nulls@[i] == col_null_count(data.take(jj + 1), i) by {
                assert(data.take(jj + 1).drop_last() =~= data.take(jj));
                assert(data.take(jj + 1).last() == data[jj]);
                assert(i >= data[jj].len());
            };
        }
        j += 1;
    }
    proof {
        assert(data.take(j - 1) =~= data);
    }
    let row_count = rows.len() - 1;
    let mut fields: Vec<SchemaField> = Vec::new();
    let mut u: usize = 0;
    while u < m
        invariant
            u <= m,
            types@.len() == m,
            nulls@.len() == m,
            rows.deep_view() == all,
            all.len() == rows@.len(),
            1 <= rows@.len(),
            data == all.skip(1),
            m == all[0].len(),
            row_count == data.len(),
            fields@.len() == u,
            forall|i: int| 0 <= i < m ==> #[trigger] types@[i] == col_type(data, i),
            forall|i: int| 0 <= i < m ==> #[trigger] nulls@[i] == col_null_count(data, i),
            forall|i: int|
                0 <= i < u ==> {
                    &&& (#[trigger] fields@[i]).name@ == all[0][i]
                    &&& fields@[i].field_type@ == type_label(col_type(data, i))
                    &&& fields@[i].null_count == col_null_count(data, i)
                    &&& fields@[i].row_count == data.len()
                },
        decreases m - u,
    {
        proof {
            assert(all[0][u as int] == rows@[0]@[u as int]@);
        }
        let name = rows[0][u].clone();
        let field_type = type_label_string(types[u]);
        fields.push(SchemaField { name, field_type, null_count: nulls[u], row_count });
        u += 1;
    }
    fields
}

/// A column that is present and empty-after-trimming in every sampled row is
/// null in all of them: with some rows sampled its null count equals the row
/// count (a null ratio of one); with none, the count is zero and the reported
/// ratio is zero.
pub proof fn lemma_all_null_column(data: Seq<Seq<Seq<char>>>, i: int)
    requires
        forall|j: int|
            0 <= j < data.len() ==> i < (#[trigger] data[j]).len() && spec_is_null(data[j][i]),
    ensures
        col_null_count(data, i) == data.len(),
    decreases data.len(),
{
    if data.len() > 0 {
        assert(forall|j: int|
            0 <= j < data.len() - 1 ==> #[trigger] data.drop_last()[j] == data[j]);
        lemma_all_null_column(data.drop_last(), i);
        assert(data.last() == data[data.len() - 1]);
    }
}

/// Last non-null value wins: if row `j` is the last sampled row in which
/// column `i` is present and non-null, the inferred type is the
/// classification of that one value, whatever came before it.
pub proof fn lemma_last_value_wins(data: Seq<Seq<Seq<char>>>, i: int, j: int)
    requires
        0 <= i,
        0 <= j < data.len(),
        i < data[j].len(),
        !spec_is_null(data[j][i]),
        forall|k: int|
            j < k < data.len() ==> !(i < (#[trigger] data[k]).len() && !spec_is_null(data[k][i])),
    ensures
        col_type(data, i) == classify_value(data[j][i]),
    decreases data.len(),
{
    if j == data.len() - 1 {
        assert(data.last() == data[j]);
    } else {
        assert(data.last() == data[data.len() - 1]);
        assert(!(i < data[data.len() - 1].len() && !spec_is_null(data[data.len() - 1][i])));
        assert(forall|k: int|
            0 <= k < data.len() - 1 ==> #[trigger] data.drop_last()[k] == data[k]);
        lemma_last_value_wins(data.drop_last(), i, j);
    }
}

/// A column that never shows a present, non-null value keeps the default
/// `string` type.
pub proof fn lemma_untouched_column_is_text(data: Seq<Seq<Seq<char>>>, i: int)
    requires
        forall|k: int|
            0 <= k < data.len() ==> !(i < (#[trigger] data[k]).len() && !spec_is_null(data[k][i])),
    ensures
        col_type(data, i) is Text,
    decreases data.len(),
{
    if data.len() > 0 {
        assert(data.last() == data[data.len() - 1]);
        assert(forall|k: int|
            0 <= k < data.len() - 1 ==> #[trigger] data.drop_last()[k] == data[k]);
        lemma_untouched_column_is_text(data.drop_last(), i);
    }
}

} // verus!
