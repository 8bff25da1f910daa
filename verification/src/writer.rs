//! Rendering of accumulated rows back into delimited text: every row's
//! fields joined by a fixed comma, every row closed by a newline, the final
//! row included.

use vstd::prelude::*;
use vstd::string::*;
use crate::reader::file_views;
use crate::text::views;

verus! {

/// The fields of `parts` from position `i` on, joined by the delimiter `d`.
pub open spec fn spec_join_from(parts: Seq<Seq<char>>, i: int, d: char) -> Seq<char>
    decreases parts.len() - i,
{
    if i < 0 || i >= parts.len() {
        Seq::empty()
    } else if i == parts.len() - 1 {
        parts[i]
    } else {
        parts[i] + seq![d] + spec_join_from(parts, i + 1, d)
    }
}

/// The fields of `parts` joined by the delimiter `d`, with no delimiter at
/// either end.
pub open spec fn spec_join(parts: Seq<Seq<char>>, d: char) -> Seq<char> {
    spec_join_from(parts, 0, d)
}

/// The rows from position `i` on, rendered: each row comma-joined and closed
/// by a newline.
pub open spec fn spec_render_from(rows: Seq<Seq<Seq<char>>>, i: int) -> Seq<char>
    decreases rows.len() - i,
{
    if i < 0 || i >= rows.len() {
        Seq::empty()
    } else {
        spec_join(rows[i], ',') + seq!['\n'] + spec_render_from(rows, i + 1)
    }
}

/// The text that writing `rows` produces: every row's fields joined by a
/// comma and closed by a newline, the final row included, so the rendering
/// of `[[a, b], [c]]` is `a,b\nc\n`.
pub open spec fn spec_render(rows: Seq<Seq<Seq<char>>>) -> Seq<char> {
    spec_render_from(rows, 0)
}

/// Joins the fields of one row with commas.
fn join_row(row: &Vec<String>) -> (r: String)
    ensures
        r@ == spec_join(views(row@), ','),
{
    let ghost rv = views(row@);
    let mut out = String::new();
    let mut i: usize = 0;
    proof {
        reveal_strlit(",");
        assert(Seq::<char>::empty() + spec_join_from(rv, 0, ',') =~= spec_join_from(rv, 0, ','));
    }
    while i < row.len()
        invariant
            rv == views(row@),
            0 <= i <= row@.len(),
            out@ + spec_join_from(rv, i as int, ',') == spec_join_from(rv, 0, ','),
        decreases row@.len() - i,
    {
        let ghost out_before = out@;
        out.append(row[i].as_str());
        if i + 1 < row.len() {
            out.append(",");
            proof {
                reveal_strlit(",");
                assert(","@ =~= seq![',']);
                assert(out@ =~= out_before + rv[i as int] + seq![',']);
                assert(out@ + spec_join_from(rv, i as int + 1, ',') =~= out_before
                    + spec_join_from(rv, i as int, ','));
            }
        } else {
            proof {
                assert(spec_join_from(rv, i as int, ',') == rv[i as int]);
                assert(out@ + spec_join_from(rv, i as int + 1, ',') =~= out_before
                    + spec_join_from(rv, i as int, ','));
            }
        }
        i = i + 1;
    }
    proof {
        assert(out@ + spec_join_from(rv, i as int, ',') =~= out@);
    }
    out
}

/// Renders the accumulated rows as delimited text: each row's fields joined
/// by a comma, each row closed by a newline, including after the final row.
pub fn csv_render(rows: &Vec<Vec<String>>) -> (r: String)
    ensures
        r@ == spec_render(file_views(rows@)),
{
    let ghost rv = file_views(rows@);
    let mut out = String::new();
    let mut i: usize = 0;
    proof {
        assert(Seq::<char>::empty() + spec_render_from(rv, 0) =~= spec_render_from(rv, 0));
    }
    while i < rows.len()
        invariant
            rv == file_views(rows@),
            0 <= i <= rows@.len(),
            out@ + spec_render_from(rv, i as int) == spec_render_from(rv, 0),
        decreases rows@.len() - i,
    {
        let ghost out_before = out@;
        let joined = join_row(&rows[i]);
        out.append(joined.as_str());
        out.append("\n");
        proof {
            reveal_strlit("\n");
            assert("\n"@ =~= seq!['\n']);
            assert(views(rows@[i as int]@) == rv[i as int]);
            assert(out@ =~= out_before + spec_join(rv[i as int], ',') + seq!['\n']);
            assert(out@ + spec_render_from(rv, i as int + 1) =~= out_before + spec_render_from(
                rv,
                i as int,
            ));
        }
        i = i + 1;
    }
    proof {
        assert(out@ + spec_render_from(rv, i as int) =~= out@);
    }
    out
}

} // verus!
