//! Source descriptors for delimited files and the checks that run before any
//! filtering: extension validation, multi-file header consistency, and the
//! logical line stream over several glob-matched files.

use vstd::prelude::*;
use vstd::string::*;
use crate::text::{spec_split, split_str, str_eq, views};

verus! {

/// Metadata describing one logical dataset: a file path or glob pattern, the
/// field delimiter, whether the first line is a header, and purely
/// descriptive column type tags.
pub struct CsvMetadata {
    pub file: String,
    pub delimiter: char,
    pub has_header: bool,
    pub column_types: Vec<String>,
}

/// Whether every header probed from the glob-matched files equals the first.
/// An empty list is vacuously consistent.
pub open spec fn headers_consistent(headers: Seq<Seq<char>>) -> bool {
    forall|i: int| 0 <= i < headers.len() ==> #[trigger] headers[i] == headers[0]
}

/// Whether the final dot-segment of `path` is exactly `csv`.
pub open spec fn has_csv_extension(path: Seq<char>) -> bool {
    spec_split(path, '.').last() == "csv"@
}

impl CsvMetadata {
    /// Returns a copy of the descriptor with equal fields.
    pub fn clone(&self) -> (r: CsvMetadata)
        ensures
            r.file == self.file,
            r.delimiter == self.delimiter,
            r.has_header == self.has_header,
            r.column_types@ == self.column_types@,
    {
        let mut column_types: Vec<String> = Vec::new();
        let mut i: usize = 0;
        while i < self.column_types.len()
            invariant
                0 <= i <= self.column_types@.len(),
                column_types@.len() == i,
                forall|j: int| 0 <= j < i ==> column_types@[j] == self.column_types@[j],
            decreases self.column_types@.len() - i,
        {
            column_types.push(self.column_types[i].clone());
            i = i + 1;
        }
        proof {
            assert(column_types@ =~= self.column_types@);
        }
        CsvMetadata {
            file: self.file.clone(),
            delimiter: self.delimiter,
            has_header: self.has_header,
            column_types,
        }
    }

    /// Whether the path names several files: a glob pattern is recognised by
    /// a `*` wildcard anywhere in it.
    pub fn is_glob(&self) -> (r: bool)
        ensures
            r == self.file@.contains('*'),
    {
        let n = self.file.as_str().unicode_len();
        let mut i: usize = 0;
        while i < n
            invariant
                n == self.file@.len(),
                0 <= i <= n,
                forall|j: int| 0 <= j < i ==> self.file@[j] != '*',
            decreases n - i,
        {
            if self.file.as_str().get_char(i) == '*' {
                return true;
            }
            i = i + 1;
        }
        false
    }

    /// Whether the path's final dot-segment is `csv`.  A glob pattern is
    /// checked on the pattern string itself, not on the matched file names.
    pub fn validate_extension(&self) -> (r: bool)
        ensures
            r == has_csv_extension(self.file@),
    {
        let parts = split_str(self.file.as_str(), '.');
        let last = &parts[parts.len() - 1];
        proof {
            assert(last@ == views(parts@).last());
        }
        str_eq(last.as_str(), "csv")
    }

    /// Whether the probed first lines of the glob-matched files are all
    /// byte-for-byte equal.  Without a header there is nothing to misalign,
    /// so any list passes; an empty list is vacuously consistent.
    pub fn validate_multifile_header(&self, headers: &Vec<String>) -> (r: bool)
        ensures
            r == (!self.has_header || headers_consistent(views(headers@))),
    {
        if !self.has_header {
            return true;
        }
        let mut i: usize = 0;
        while i < headers.len()
            invariant
                self.has_header,
                0 <= i <= headers@.len(),
                forall|j: int| 0 <= j < i ==> (#[trigger] headers@[j])@ == headers@[0]@,
            decreases headers@.len() - i,
        {
            if !str_eq(headers[i].as_str(), headers[0].as_str()) {
                proof {
                    assert(views(headers@)[i as int] == headers@[i as int]@);
                    assert(views(headers@)[0] == headers@[0]@);
                }
                return false;
            }
            i = i + 1;
        }
        true
    }

    /// Validates the descriptor before filtering: the path must carry the
    /// `csv` extension and, when a header is expected, the first lines probed
    /// from every matched file must be identical.
    pub fn validate(&self, headers: &Vec<String>) -> (r: bool)
        ensures
            r == (has_csv_extension(self.file@) && (!self.has_header || headers_consistent(
                views(headers@),
            ))),
    {
        if self.validate_extension() && self.validate_multifile_header(headers) {
            return true;
        }
        return false;
    }
}

/// The logical line stream over several files: all lines of the first file,
/// then, for every later file, its lines with the leading header line
/// dropped.  Meaningful once header consistency has been validated.
pub open spec fn spec_concat_from(files: Seq<Seq<Seq<char>>>, i: int) -> Seq<Seq<char>>
    decreases files.len() - i,
{
    if i < 0 || i >= files.len() {
        Seq::empty()
    } else {
        let own = if i == 0 {
            files[0]
        } else if files[i].len() == 0 {
            Seq::empty()
        } else {
            files[i].skip(1)
        };
        own + spec_concat_from(files, i + 1)
    }
}

/// The views of a sequence of files, each file a sequence of line views.
pub open spec fn file_views(files: Seq<Vec<String>>) -> Seq<Seq<Seq<char>>> {
    Seq::new(files.len(), |i: int| views(files[i]@))
}

/// Appends to `r` the lines of `file` from position `from` on, in order.
fn append_lines_from(r: &mut Vec<String>, file: &Vec<String>, from: usize)
    requires
        from <= file@.len(),
    ensures
        views(final(r)@) == views(old(r)@) + views(file@).skip(from as int),
{
    let mut j: usize = from;
    while j < file.len()
        invariant
            from <= j <= file@.len(),
            views(r@) == views(old(r)@) + views(file@).subrange(from as int, j as int),
        decreases file@.len() - j,
    {
        let line = file[j].clone();
        proof {
            assert(views(r@.push(line)) =~= views(r@).push(line@));
            assert((views(old(r)@) + views(file@).subrange(from as int, j as int)).push(
                file@[j as int]@,
            ) =~= views(old(r)@) + views(file@).subrange(from as int, j as int + 1));
        }
        r.push(line);
        j = j + 1;
    }
    proof {
        assert(views(file@).subrange(from as int, file@.len() as int) =~= views(file@).skip(
            from as int,
        ));
    }
}

/// Concatenates glob-matched files into one logical line stream: the first
/// file is kept whole (its header included), every later file contributes
/// its lines after the first, so no second header reaches the stream.
pub fn glob_concat(files: &Vec<Vec<String>>) -> (r: Vec<String>)
    ensures
        views(r@) == spec_concat_from(file_views(files@), 0),
{
    let mut r: Vec<String> = Vec::new();
    let mut i: usize = 0;
    while i < files.len()
        invariant
            0 <= i <= files@.len(),
            spec_concat_from(file_views(files@), 0) == views(r@) + spec_concat_from(
                file_views(files@),
                i as int,
            ),
        decreases files@.len() - i,
    {
        let file = &files[i];
        let from: usize = if i == 0 {
            0
        } else {
            if file.len() == 0 {
                0
            } else {
                1
            }
        };
        let ghost r_before = r@;
        append_lines_from(&mut r, file, from);
        proof {
            let fv = file_views(files@);
            let own = if i == 0 {
                fv[i as int]
            } else if fv[i as int].len() == 0 {
                Seq::empty()
            } else {
                fv[i as int].skip(1)
            };
            assert(fv[i as int] =~= views(file@));
            assert(views(file@).skip(from as int) =~= own);
            assert(views(r_before) + (own + spec_concat_from(fv, i as int + 1)) =~= (views(
                r_before,
            ) + own) + spec_concat_from(fv, i as int + 1));
        }
        i = i + 1;
    }
    r
}

} // verus!
