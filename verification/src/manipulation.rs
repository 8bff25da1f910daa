//! The row-filtering engine: the filter specification, the column resolver,
//! the per-row predicate evaluators, and the two filtering entry points.

use vstd::prelude::*;
use vstd::string::*;
use crate::reader::CsvMetadata;
use crate::text::{spec_split, spec_trim, split_str, str_eq, trim_str, views};

verus! {

/// A filter specification: target values and column names in lock-step
/// order, an optional output destination, and the invocation mode with its
/// source descriptor.
pub struct Command {
    pub query: Vec<String>,
    pub column: Vec<String>,
    pub output_path: Option<String>,
    pub subcommand: Subcommand,
}

/// The two filtering modes: `Anyfilter` matches a query value anywhere in a
/// row, `Filter` matches each value at its resolved column position.
pub enum Subcommand {
    Anyfilter(CsvMetadata),
    Filter(CsvMetadata),
}

/// The conditions that abort a filtering run.
#[derive(Debug)]
pub enum FilterError {
    /// A requested column is absent from the header; carries the name.
    ColumnNotFound(String),
    /// A data row has fewer fields than a resolved column position requires.
    RowShapeError,
}

/// The position of the first header field whose trimmed value equals `name`,
/// or `fields.len()` if no field does.
pub open spec fn find_field(fields: Seq<Seq<char>>, name: Seq<char>) -> int
    decreases fields.len(),
{
    if fields.len() == 0 {
        0
    } else if spec_trim(fields[0]) == name {
        0
    } else {
        1 + find_field(fields.subrange(1, fields.len() as int), name)
    }
}

pub proof fn lemma_find_field_bounds(fields: Seq<Seq<char>>, name: Seq<char>)
    ensures
        0 <= find_field(fields, name) <= fields.len(),
        forall|j: int|
            0 <= j < find_field(fields, name) ==> spec_trim(#[trigger] fields[j]) != name,
        find_field(fields, name) < fields.len() ==> spec_trim(fields[find_field(fields, name)])
            == name,
    decreases fields.len(),
{
    if fields.len() == 0 {
    } else if spec_trim(fields[0]) == name {
    } else {
        let t = fields.subrange(1, fields.len() as int);
        lemma_find_field_bounds(t, name);
        assert forall|j: int|
            0 <= j < find_field(fields, name) implies spec_trim(#[trigger] fields[j]) != name by {
            if j > 0 {
                assert(spec_trim(t[j - 1]) != name);
            }
        }
    }
}

/// `find_field` returns `k` exactly when no earlier field matches and `k` is
/// either a matching field or the end of the header.
pub proof fn lemma_find_field_is_first(fields: Seq<Seq<char>>, name: Seq<char>, k: int)
    requires
        0 <= k <= fields.len(),
        forall|j: int| 0 <= j < k ==> spec_trim(#[trigger] fields[j]) != name,
        k == fields.len() || spec_trim(fields[k]) == name,
    ensures
        find_field(fields, name) == k,
    decreases fields.len(),
{
    if fields.len() == 0 {
    } else if spec_trim(fields[0]) == name {
        assert(k == 0);
    } else {
        assert(k >= 1);
        let t = fields.subrange(1, fields.len() as int);
        assert(forall|j: int| 0 <= j < k - 1 ==> spec_trim(#[trigger] t[j]) != name);
        lemma_find_field_is_first(t, name, k - 1);
    }
}

/// Whether every requested name occurs (after trimming) in the header.
pub open spec fn all_found(fields: Seq<Seq<char>>, names: Seq<Seq<char>>) -> bool {
    forall|k: int|
        0 <= k < names.len() ==> find_field(fields, #[trigger] names[k]) < fields.len()
}

/// The position, from `k` on, of the first requested name that the header
/// lacks, or `names.len()` if every one from `k` on is present.
pub open spec fn first_missing_from(fields: Seq<Seq<char>>, names: Seq<Seq<char>>, k: int) -> int
    decreases names.len() - k,
{
    if k < 0 || k >= names.len() {
        names.len() as int
    } else if find_field(fields, names[k]) == fields.len() {
        k
    } else {
        first_missing_from(fields, names, k + 1)
    }
}

/// A prefix of names that are all present does not move the first missing
/// position.
pub proof fn lemma_first_missing_skip(fields: Seq<Seq<char>>, names: Seq<Seq<char>>, k: int)
    requires
        0 <= k <= names.len(),
        forall|j: int| 0 <= j < k ==> find_field(fields, #[trigger] names[j]) < fields.len(),
    ensures
        first_missing_from(fields, names, 0) == first_missing_from(fields, names, k),
    decreases k,
{
    if k > 0 {
        lemma_first_missing_skip(fields, names, k - 1);
        lemma_find_field_bounds(fields, names[k - 1]);
        assert(first_missing_from(fields, names, k - 1) == first_missing_from(fields, names, k));
    }
}

/// The column positions that resolving `names` against a split header
/// yields, in request order.
pub open spec fn spec_resolved(fields: Seq<Seq<char>>, names: Seq<Seq<char>>) -> Seq<usize> {
    Seq::new(names.len(), |k: int| find_field(fields, names[k]) as usize)
}

/// The position of the first field of `fields` whose trimmed value equals
/// `name`, or `None` if no field matches.
fn find_column(fields: &Vec<String>, name: &String) -> (r: Option<usize>)
    ensures
        match r {
            Some(i) => i as int == find_field(views(fields@), name@) && i < fields@.len(),
            None => find_field(views(fields@), name@) == views(fields@).len(),
        },
{
    let mut j: usize = 0;
    while j < fields.len()
        invariant
            0 <= j <= fields@.len(),
            forall|t: int| 0 <= t < j ==> spec_trim((#[trigger] views(fields@)[t])) != name@,
        decreases fields@.len() - j,
    {
        let trimmed = trim_str(fields[j].as_str());
        if str_eq(trimmed.as_str(), name.as_str()) {
            proof {
                lemma_find_field_is_first(views(fields@), name@, j as int);
            }
            return Some(j);
        }
        j = j + 1;
    }
    proof {
        lemma_find_field_is_first(views(fields@), name@, fields@.len() as int);
    }
    None
}

/// Maps the requested column names to their positions in the header line,
/// splitting the header on `delimiter` and comparing each header field after
/// trimming.  The positions come back in request order; the first absent
/// name fails the whole resolution with `ColumnNotFound`.
pub fn resolve(header: &String, names: &Vec<String>, delimiter: char) -> (r: Result<
    Vec<usize>,
    FilterError,
>)
    ensures
        ({
            let fields = spec_split(header@, delimiter);
            let names_v = views(names@);
            &&& (r is Ok <==> all_found(fields, names_v))
            &&& (r matches Ok(idxs) ==> {
                &&& idxs@.len() == names_v.len()
                &&& forall|k: int|
                    0 <= k < names_v.len() ==> idxs@[k] as int == find_field(
                        fields,
                        #[trigger] names_v[k],
                    )
                &&& forall|k: int|
                    0 <= k < names_v.len() ==> #[trigger] idxs@[k] < fields.len() && spec_trim(
                        fields[idxs@[k] as int],
                    ) == names_v[k]
            })
            &&& (r matches Err(e) ==> {
                &&& e matches FilterError::ColumnNotFound(c)
                &&& first_missing_from(fields, names_v, 0) < names_v.len()
                &&& c@ == names_v[first_missing_from(fields, names_v, 0)]
            })
        }),
{
    let fields = split_str(header.as_str(), delimiter);
    let mut indices: Vec<usize> = Vec::new();
    let mut k: usize = 0;
    while k < names.len()
        invariant
            0 <= k <= names@.len(),
            views(fields@) == spec_split(header@, delimiter),
            indices@.len() == k,
            forall|t: int|
                0 <= t < k ==> indices@[t] as int == find_field(
                    views(fields@),
                    #[trigger] views(names@)[t],
                ),
            forall|t: int|
                0 <= t < k ==> find_field(views(fields@), #[trigger] views(names@)[t]) < views(
                    fields@,
                ).len(),
        decreases names@.len() - k,
    {
        match find_column(&fields, &names[k]) {
            Some(i) => {
                indices.push(i);
            },
            None => {
                proof {
                    lemma_first_missing_skip(views(fields@), views(names@), k as int);
                }
                return Err(FilterError::ColumnNotFound(names[k].clone()));
            },
        }
        k = k + 1;
    }
    proof {
        let fields_v = views(fields@);
        let names_v = views(names@);
        assert forall|t: int|
            0 <= t < names_v.len() implies #[trigger] indices@[t] < fields_v.len() && spec_trim(
            fields_v[indices@[t] as int],
        ) == names_v[t] by {
            lemma_find_field_bounds(fields_v, names_v[t]);
        }
    }
    Ok(indices)
}

/// Whether every (position, value) pair matches: the field at each resolved
/// position exists and trims to the paired query value.  The pairs are
/// combined by logical AND; with no pairs every row matches.
pub open spec fn spec_row_matches(
    fields: Seq<Seq<char>>,
    indices: Seq<usize>,
    queries: Seq<Seq<char>>,
) -> bool {
    forall|k: int|
        0 <= k < indices.len() ==> #[trigger] indices[k] < fields.len() && spec_trim(
            fields[indices[k] as int],
        ) == queries[k]
}

/// Whether the first `k` (position, value) pairs all match on `fields`.
pub open spec fn row_prefix_matches(
    fields: Seq<Seq<char>>,
    indices: Seq<usize>,
    queries: Seq<Seq<char>>,
    k: int,
) -> bool {
    forall|j: int|
        0 <= j < k ==> #[trigger] indices[j] < fields.len() && spec_trim(
            fields[indices[j] as int],
        ) == queries[j]
}

/// Whether lock-step evaluation of the pairs reaches a position beyond the
/// row's last field before any pair mismatches: the row is too short for the
/// resolved positions and the run must abort.
pub open spec fn spec_row_shape_error(
    fields: Seq<Seq<char>>,
    indices: Seq<usize>,
    queries: Seq<Seq<char>>,
) -> bool {
    exists|k: int|
        0 <= k < indices.len() && #[trigger] indices[k] >= fields.len() && row_prefix_matches(
            fields,
            indices,
            queries,
            k,
        )
}

/// Evaluates one split row against the resolved positions and query values
/// in lock-step: `Ok(true)` when every pair matches, `Ok(false)` on the
/// first mismatching pair, and `Err(RowShapeError)` when a position beyond
/// the row's last field is reached first.
pub fn row_matches(fields: &Vec<String>, indices: &Vec<usize>, queries: &Vec<String>) -> (r:
    Result<bool, FilterError>)
    requires
        indices@.len() <= queries@.len(),
    ensures
        (r is Err <==> spec_row_shape_error(views(fields@), indices@, views(queries@))),
        (r matches Err(e) ==> e is RowShapeError),
        (r matches Ok(b) ==> b == spec_row_matches(views(fields@), indices@, views(queries@))),
{
    let mut k: usize = 0;
    while k < indices.len()
        invariant
            indices@.len() <= queries@.len(),
            0 <= k <= indices@.len(),
            row_prefix_matches(views(fields@), indices@, views(queries@), k as int),
        decreases indices@.len() - k,
    {
        let ghost fv = views(fields@);
        let ghost iv = indices@;
        let ghost qv = views(queries@);
        if indices[k] >= fields.len() {
            proof {
                assert(0 <= k < iv.len() && iv[k as int] >= fv.len() && row_prefix_matches(
                    fv,
                    iv,
                    qv,
                    k as int,
                ));
            }
            return Err(FilterError::RowShapeError);
        }
        let trimmed = trim_str(fields[indices[k]].as_str());
        if !str_eq(trimmed.as_str(), queries[k].as_str()) {
            proof {
                assert(spec_trim(fv[iv[k as int] as int]) != qv[k as int]);
                assert(!spec_row_matches(fv, iv, qv));
                assert forall|kk: int|
                    0 <= kk < iv.len() && #[trigger] iv[kk] >= fv.len() implies !row_prefix_matches(
                    fv,
                    iv,
                    qv,
                    kk,
                ) by {
                    if kk <= k {
                        assert(iv[kk] < fv.len());
                    } else {
                        assert(row_prefix_matches(fv, iv, qv, kk) ==> iv[k as int] < fv.len()
                            && spec_trim(fv[iv[k as int] as int]) == qv[k as int]);
                    }
                }
            }
            return Ok(false);
        }
        k = k + 1;
    }
    proof {
        let fv = views(fields@);
        let iv = indices@;
        let qv = views(queries@);
        assert(spec_row_matches(fv, iv, qv));
        assert forall|kk: int|
            0 <= kk < iv.len() && #[trigger] iv[kk] >= fv.len() implies !row_prefix_matches(
            fv,
            iv,
            qv,
            kk,
        ) by {
            assert(iv[kk] < fv.len());
        }
    }
    Ok(true)
}

/// The data lines from position `i` on that match every (position, value)
/// pair, in stream order.
pub open spec fn spec_matched_from(
    lines: Seq<Seq<char>>,
    i: int,
    indices: Seq<usize>,
    queries: Seq<Seq<char>>,
    d: char,
) -> Seq<Seq<char>>
    decreases lines.len() - i,
{
    if i < 0 || i >= lines.len() {
        Seq::empty()
    } else {
        let rest = spec_matched_from(lines, i + 1, indices, queries, d);
        if spec_row_matches(spec_split(lines[i], d), indices, queries) {
            seq![lines[i]] + rest
        } else {
            rest
        }
    }
}

/// Whether some data line from `start` on is too short for the resolved
/// positions, which aborts the run.
pub open spec fn any_shape_error_from(
    lines: Seq<Seq<char>>,
    start: int,
    indices: Seq<usize>,
    queries: Seq<Seq<char>>,
    d: char,
) -> bool {
    exists|row: int|
        start <= row < lines.len() && spec_row_shape_error(
            #[trigger] spec_split(lines[row], d),
            indices,
            queries,
        )
}

/// Everything `filter` promises of its result `r`, stated over the line,
/// column-name and query views.  The header, when present, is resolved
/// first; a missing column aborts before any row is read; otherwise the
/// result collects the header followed by every matching data line, each
/// accumulator entry a one-field row holding the line verbatim, unless some
/// data line is too short for the resolved positions.
pub open spec fn filter_post(
    lines: Seq<Seq<char>>,
    columns: Seq<Seq<char>>,
    queries: Seq<Seq<char>>,
    has_header: bool,
    d: char,
    r: Result<Vec<Vec<String>>, FilterError>,
) -> bool {
    let with_header = has_header && lines.len() > 0;
    let fields = spec_split(lines[0], d);
    let indices = if with_header {
        spec_resolved(fields, columns)
    } else {
        Seq::<usize>::empty()
    };
    let start: int = if with_header {
        1
    } else {
        0
    };
    let col_fail = with_header && !all_found(fields, columns);
    let shape_fail = !col_fail && any_shape_error_from(lines, start, indices, queries, d);
    &&& (r is Ok <==> !col_fail && !shape_fail)
    &&& (col_fail ==> (r matches Err(e) && e matches FilterError::ColumnNotFound(c) && c@
        == columns[first_missing_from(fields, columns, 0)]))
    &&& (shape_fail ==> (r matches Err(e) && e is RowShapeError))
    &&& (r matches Ok(rows) ==> {
        let content = (if with_header {
            seq![lines[0]]
        } else {
            Seq::<Seq<char>>::empty()
        }) + spec_matched_from(lines, start, indices, queries, d);
        &&& rows@.len() == content.len()
        &&& forall|t: int|
            0 <= t < content.len() ==> (#[trigger] rows@[t])@.len() == 1 && rows@[t]@[0]@
                == content[t]
    })
}

/// Filters `lines` by exact, trimmed equality on the resolved columns.
///
/// With a header present, the header line is captured first, the requested
/// column names are resolved against it, and the header itself opens the
/// accumulator; every following line is kept exactly when each query value
/// matches the field at its resolved position (logical AND).  A missing
/// column name fails with `ColumnNotFound` before any data is read; a data
/// row shorter than a resolved position requires fails with
/// `RowShapeError`.  Without a header no resolution happens, no positions
/// are required, and every line is kept.
///
/// Splitting is naive: a delimiter inside quotes still separates fields.
pub fn filter(lines: &Vec<String>, filter_command: &Command, csv_struct: &CsvMetadata) -> (r:
    Result<Vec<Vec<String>>, FilterError>)
    requires
        filter_command.column@.len() == filter_command.query@.len(),
    ensures
        filter_post(
            views(lines@),
            views(filter_command.column@),
            views(filter_command.query@),
            csv_struct.has_header,
            csv_struct.delimiter,
            r,
        ),
{
    let d = csv_struct.delimiter;
    let ghost lv = views(lines@);
    let ghost cv = views(filter_command.column@);
    let ghost qv = views(filter_command.query@);
    let mut writer: Vec<Vec<String>> = Vec::new();
    let mut column_indices: Vec<usize> = Vec::new();
    let mut start: usize = 0;
    if csv_struct.has_header && lines.len() > 0 {
        let header = &lines[0];
        match resolve(header, &filter_command.column, d) {
            Ok(indices) => {
                column_indices = indices;
                proof {
                    assert(column_indices@ =~= spec_resolved(spec_split(lv[0], d), cv));
                }
            },
            Err(e) => {
                return Err(e);
            },
        }
        let mut row: Vec<String> = Vec::new();
        row.push(header.clone());
        writer.push(row);
        start = 1;
    }
    let ghost indices = column_indices@;
    let ghost head_part = if csv_struct.has_header && lines@.len() > 0 {
        seq![lv[0]]
    } else {
        Seq::<Seq<char>>::empty()
    };
    proof {
        assert(Seq::new(writer@.len(), |t: int| writer@[t]@[0]@) =~= head_part);
    }
    let mut i: usize = start;
    while i < lines.len()
        invariant
            d == csv_struct.delimiter,
            lv == views(lines@),
            cv == views(filter_command.column@),
            qv == views(filter_command.query@),
            indices.len() <= qv.len(),
            indices == column_indices@,
            indices == (if csv_struct.has_header && lines@.len() > 0 {
                spec_resolved(spec_split(lv[0], d), cv)
            } else {
                Seq::<usize>::empty()
            }),
            csv_struct.has_header && lines@.len() > 0 ==> all_found(spec_split(lv[0], d), cv),
            start <= i <= lines@.len(),
            start == (if csv_struct.has_header && lines@.len() > 0 {
                1int
            } else {
                0int
            }),
            forall|row: int|
                start <= row < i ==> !spec_row_shape_error(
                    #[trigger] spec_split(lv[row], d),
                    indices,
                    qv,
                ),
            writer@.len() + spec_matched_from(lv, i as int, indices, qv, d).len() == head_part.len()
                + spec_matched_from(lv, start as int, indices, qv, d).len(),
            forall|t: int|
                0 <= t < writer@.len() ==> (#[trigger] writer@[t])@.len() == 1,
            Seq::new(writer@.len(), |t: int| writer@[t]@[0]@) + spec_matched_from(
                lv,
                i as int,
                indices,
                qv,
                d,
            ) == head_part + spec_matched_from(lv, start as int, indices, qv, d),
        decreases lines@.len() - i,
    {
        let fields = split_str(lines[i].as_str(), d);
        let ghost content_before = Seq::new(writer@.len(), |t: int| writer@[t]@[0]@);
        match row_matches(&fields, &column_indices, &filter_command.query) {
            Ok(true) => {
                let mut row: Vec<String> = Vec::new();
                row.push(lines[i].clone());
                writer.push(row);
                proof {
                    assert(spec_matched_from(lv, i as int, indices, qv, d) == seq![lv[i as int]]
                        + spec_matched_from(lv, i as int + 1, indices, qv, d));
                    assert(Seq::new(writer@.len(), |t: int| writer@[t]@[0]@) =~= content_before.push(
                        lv[i as int],
                    ));
                    assert(content_before.push(lv[i as int]) + spec_matched_from(
                        lv,
                        i as int + 1,
                        indices,
                        qv,
                        d,
                    ) =~= content_before + spec_matched_from(lv, i as int, indices, qv, d));
                }
            },
            Ok(false) => {
                proof {
                    assert(spec_matched_from(lv, i as int, indices, qv, d) == spec_matched_from(
                        lv,
                        i as int + 1,
                        indices,
                        qv,
                        d,
                    ));
                }
            },
            Err(e) => {
                proof {
                    assert(views(fields@) == spec_split(lv[i as int], d));
                    assert(spec_row_shape_error(spec_split(lv[i as int], d), indices, qv));
                    assert(any_shape_error_from(lv, start as int, indices, qv, d));
                }
                return Err(e);
            },
        }
        i = i + 1;
    }
    proof {
        assert(spec_matched_from(lv, i as int, indices, qv, d) == Seq::<Seq<char>>::empty());
        assert(Seq::new(writer@.len(), |t: int| writer@[t]@[0]@) + Seq::<Seq<char>>::empty()
            =~= Seq::new(writer@.len(), |t: int| writer@[t]@[0]@));
        assert(!any_shape_error_from(lv, start as int, indices, qv, d));
    }
    Ok(writer)
}

/// Whether some field of the row trims to exactly `q`, at any position.
pub open spec fn field_with_value(fields: Seq<Seq<char>>, q: Seq<char>) -> bool {
    exists|i: int| 0 <= i < fields.len() && spec_trim(#[trigger] fields[i]) == q
}

/// Whether, for every query value, some field anywhere in the row trims to
/// it.  Column identity plays no part.
pub open spec fn spec_any_match(fields: Seq<Seq<char>>, queries: Seq<Seq<char>>) -> bool {
    forall|k: int| 0 <= k < queries.len() ==> field_with_value(fields, #[trigger] queries[k])
}

/// The data lines from position `i` on that contain every query value
/// somewhere among their fields, in stream order.
pub open spec fn spec_any_matched_from(
    lines: Seq<Seq<char>>,
    i: int,
    queries: Seq<Seq<char>>,
    d: char,
) -> Seq<Seq<char>>
    decreases lines.len() - i,
{
    if i < 0 || i >= lines.len() {
        Seq::empty()
    } else {
        let rest = spec_any_matched_from(lines, i + 1, queries, d);
        if spec_any_match(spec_split(lines[i], d), queries) {
            seq![lines[i]] + rest
        } else {
            rest
        }
    }
}

/// Everything `any_filter` promises of its result `r`: the header, when
/// present, comes first, followed by every data line that contains each
/// query value somewhere among its fields, each accumulator entry a
/// one-field row holding the line verbatim.
pub open spec fn any_filter_post(
    lines: Seq<Seq<char>>,
    queries: Seq<Seq<char>>,
    has_header: bool,
    d: char,
    r: Vec<Vec<String>>,
) -> bool {
    let with_header = has_header && lines.len() > 0;
    let start: int = if with_header {
        1
    } else {
        0
    };
    let content = (if with_header {
        seq![lines[0]]
    } else {
        Seq::<Seq<char>>::empty()
    }) + spec_any_matched_from(lines, start, queries, d);
    &&& r@.len() == content.len()
    &&& forall|t: int|
        0 <= t < content.len() ==> (#[trigger] r@[t])@.len() == 1 && r@[t]@[0]@ == content[t]
}

/// Whether some field of the row trims to exactly `q`.
fn field_present(fields: &Vec<String>, q: &String) -> (r: bool)
    ensures
        r == field_with_value(views(fields@), q@),
{
    let mut i: usize = 0;
    while i < fields.len()
        invariant
            0 <= i <= fields@.len(),
            forall|j: int| 0 <= j < i ==> spec_trim(#[trigger] views(fields@)[j]) != q@,
        decreases fields@.len() - i,
    {
        let trimmed = trim_str(fields[i].as_str());
        if str_eq(trimmed.as_str(), q.as_str()) {
            proof {
                assert(spec_trim(views(fields@)[i as int]) == q@);
            }
            return true;
        }
        i = i + 1;
    }
    false
}

/// Whether every query value occurs, trimmed, somewhere among the fields.
fn row_any_matches(fields: &Vec<String>, queries: &Vec<String>) -> (r: bool)
    ensures
        r == spec_any_match(views(fields@), views(queries@)),
{
    let mut k: usize = 0;
    while k < queries.len()
        invariant
            0 <= k <= queries@.len(),
            forall|j: int|
                0 <= j < k ==> field_with_value(views(fields@), #[trigger] views(queries@)[j]),
        decreases queries@.len() - k,
    {
        if !field_present(fields, &queries[k]) {
            proof {
                assert(!field_with_value(views(fields@), views(queries@)[k as int]));
            }
            return false;
        }
        k = k + 1;
    }
    true
}

/// Filters `lines` in any-match mode: a data line is kept exactly when, for
/// every query value, at least one field anywhere in the line (not a fixed
/// column) trims to that value.  With a header present, the header line
/// opens the accumulator.  Because the first field that happens to hold a
/// query value counts, rows can match for the wrong column; positional
/// filtering is `filter`.
pub fn any_filter(lines: &Vec<String>, filter_command: &Command, csv_struct: &CsvMetadata) -> (r:
    Vec<Vec<String>>)
    ensures
        any_filter_post(
            views(lines@),
            views(filter_command.query@),
            csv_struct.has_header,
            csv_struct.delimiter,
            r,
        ),
{
    let d = csv_struct.delimiter;
    let ghost lv = views(lines@);
    let ghost qv = views(filter_command.query@);
    let mut writer: Vec<Vec<String>> = Vec::new();
    let mut start: usize = 0;
    if csv_struct.has_header && lines.len() > 0 {
        let mut row: Vec<String> = Vec::new();
        row.push(lines[0].clone());
        writer.push(row);
        start = 1;
    }
    let ghost head_part = if csv_struct.has_header && lines@.len() > 0 {
        seq![lv[0]]
    } else {
        Seq::<Seq<char>>::empty()
    };
    proof {
        assert(Seq::new(writer@.len(), |t: int| writer@[t]@[0]@) =~= head_part);
    }
    let mut i: usize = start;
    while i < lines.len()
        invariant
            d == csv_struct.delimiter,
            lv == views(lines@),
            qv == views(filter_command.query@),
            start <= i <= lines@.len(),
            start == (if csv_struct.has_header && lines@.len() > 0 {
                1int
            } else {
                0int
            }),
            forall|t: int|
                0 <= t < writer@.len() ==> (#[trigger] writer@[t])@.len() == 1,
            Seq::new(writer@.len(), |t: int| writer@[t]@[0]@) + spec_any_matched_from(
                lv,
                i as int,
                qv,
                d,
            ) == head_part + spec_any_matched_from(lv, start as int, qv, d),
        decreases lines@.len() - i,
    {
        let fields = split_str(lines[i].as_str(), d);
        let ghost content_before = Seq::new(writer@.len(), |t: int| writer@[t]@[0]@);
        if row_any_matches(&fields, &filter_command.query) {
            let mut row: Vec<String> = Vec::new();
            row.push(lines[i].clone());
            writer.push(row);
            proof {
                assert(spec_any_matched_from(lv, i as int, qv, d) == seq![lv[i as int]]
                    + spec_any_matched_from(lv, i as int + 1, qv, d));
                assert(Seq::new(writer@.len(), |t: int| writer@[t]@[0]@) =~= content_before.push(
                    lv[i as int],
                ));
                assert(content_before.push(lv[i as int]) + spec_any_matched_from(
                    lv,
                    i as int + 1,
                    qv,
                    d,
                ) =~= content_before + spec_any_matched_from(lv, i as int, qv, d));
            }
        } else {
            proof {
                assert(spec_any_matched_from(lv, i as int, qv, d) == spec_any_matched_from(
                    lv,
                    i as int + 1,
                    qv,
                    d,
                ));
            }
        }
        i = i + 1;
    }
    proof {
        assert(spec_any_matched_from(lv, i as int, qv, d) == Seq::<Seq<char>>::empty());
        assert(Seq::new(writer@.len(), |t: int| writer@[t]@[0]@) + Seq::<Seq<char>>::empty()
            =~= Seq::new(writer@.len(), |t: int| writer@[t]@[0]@));
    }
    writer
}

/// The filtering outcome is a function of the inputs alone: two runs over
/// the same lines with the same specification agree on success, on the kind
/// and name of the error, and on the matched rows, entry for entry.
pub proof fn lemma_filter_deterministic(
    lines: Seq<Seq<char>>,
    columns: Seq<Seq<char>>,
    queries: Seq<Seq<char>>,
    has_header: bool,
    d: char,
    r1: Result<Vec<Vec<String>>, FilterError>,
    r2: Result<Vec<Vec<String>>, FilterError>,
)
    requires
        filter_post(lines, columns, queries, has_header, d, r1),
        filter_post(lines, columns, queries, has_header, d, r2),
    ensures
        r1 is Ok <==> r2 is Ok,
        r1 matches Ok(a) ==> r2 matches Ok(b) && a@.len() == b@.len() && (forall|t: int|
            0 <= t < a@.len() ==> (#[trigger] a@[t])@[0]@ == b@[t]@[0]@),
        r1 matches Err(e1) ==> r2 matches Err(e2) && (e1 is RowShapeError <==> e2
            is RowShapeError) && (e1 matches FilterError::ColumnNotFound(c1) ==> e2
            matches FilterError::ColumnNotFound(c2) && c1@ == c2@),
{
}

} // verus!
