//! Datasets: every line of a text read as a row or kept as a warning, and
//! their rendering as CSV and JSON.
use vstd::prelude::*;
use vstd::utf8::is_ascii_chars;
use crate::datafield::{DataField, DataFieldDef, FieldModel};
use crate::datarow::{build_row, fields_view, names_view, project, DataRow};
use crate::loadwarning::{LoadWarning, WarningModel};
use crate::text::{chars_of, join, push_str, string_of_range};

verus! {

/// Whether `c` ends a line.
pub open spec fn is_line_break(c: char) -> bool {
    c == '\n' || c == '\r'
}

/// The index of the first line break in `s`, or its length when it has none.
pub open spec fn first_break(s: Seq<char>) -> nat
    decreases s.len(),
{
    if s.len() == 0 {
        0
    } else if is_line_break(s[0]) {
        0
    } else {
        1 + first_break(s.drop_first())
    }
}

/// The width of the line break at `k`: two for CR LF, else one.
pub open spec fn break_width(s: Seq<char>, k: int) -> nat {
    if s[k] == '\r' && k + 1 < s.len() && s[k + 1] == '\n' {
        2
    } else {
        1
    }
}

/// The lines of `s`: CR, LF and CR LF each end a line, and a final line
/// break starts no further line.
pub open spec fn lines_of(s: Seq<char>) -> Seq<Seq<char>>
    decreases s.len(),
{
    if s.len() == 0 {
        Seq::empty()
    } else if first_break(s) >= s.len() {
        seq![s]
    } else {
        seq![s.take(first_break(s) as int)] + lines_of(
            s.skip((first_break(s) + break_width(s, first_break(s) as int)) as int),
        )
    }
}

/// A dataset as values: its rows and its warnings, each in line order.
pub struct DatasetModel {
    pub rows: Seq<Seq<FieldModel>>,
    pub warnings: Seq<WarningModel>,
}

/// The dataset that `defs` make of `lines`: each line becomes a row, or a
/// warning with its index and error.
pub open spec fn load(lines: Seq<Seq<char>>, defs: Seq<DataFieldDef>) -> DatasetModel
    decreases lines.len(),
{
    if lines.len() == 0 {
        DatasetModel { rows: Seq::empty(), warnings: Seq::empty() }
    } else {
        let d = load(lines.drop_last(), defs);
        match build_row(lines.last(), defs) {
            Ok(fs) => DatasetModel { rows: d.rows.push(fs), warnings: d.warnings },
            Err(e) => DatasetModel {
                rows: d.rows,
                warnings: d.warnings.push(
                    WarningModel { line_index: (lines.len() - 1) as nat, error: e },
                ),
            },
        }
    }
}

/// Every line gives exactly one row or one warning.
pub proof fn dataset_completeness(lines: Seq<Seq<char>>, defs: Seq<DataFieldDef>)
    ensures
        load(lines, defs).rows.len() + load(lines, defs).warnings.len() == lines.len(),
    decreases lines.len(),
{
    if lines.len() > 0 {
        dataset_completeness(lines.drop_last(), defs);
    }
}

/// Errors that loading a file may meet.
#[derive(Debug)]
pub enum DataFileError {
    /// The file holds characters outside 7-bit ASCII.
    NonASCIIFile,
    /// The file, at this path, could not be read; the second text says why.
    FileError(String, String),
}

impl DataFileError {
    /// The description of the error.
    pub fn to_string(&self) -> (r: String)
        ensures
            r@ == match self {
                DataFileError::NonASCIIFile => "Data File Error: Non ASCII file."@,
                DataFileError::FileError(p, e) => "Data File Error: IO error on "@ + p@ + " ("@ + e@
                    + ")"@,
            },
    {
        let mut out = String::new();
        push_str(&mut out, "Data File Error: ");
        match self {
            DataFileError::NonASCIIFile => {
                push_str(&mut out, "Non ASCII file.");
                proof {
                    reveal_strlit("Data File Error: ");
                    reveal_strlit("Non ASCII file.");
                    reveal_strlit("Data File Error: Non ASCII file.");
                }
            },
            DataFileError::FileError(p, e) => {
                push_str(&mut out, "IO error on ");
                push_str(&mut out, p.as_str());
                push_str(&mut out, " (");
                push_str(&mut out, e.as_str());
                push_str(&mut out, ")");
                proof {
                    reveal_strlit("Data File Error: ");
                    reveal_strlit("IO error on ");
                    reveal_strlit("Data File Error: IO error on ");
                }
            },
        }
        out
    }
}

/// The rows read from a text and the warnings met on the way.
#[derive(Debug)]
pub struct DataFile {
    rows: Vec<DataRow>,
    load_warnings: Vec<LoadWarning>,
}

/// The rows as values.
pub open spec fn rows_view(rows: Seq<DataRow>) -> Seq<Seq<FieldModel>> {
    rows.map_values(|r: DataRow| r@)
}

/// The warnings as values.
pub open spec fn warnings_view(ws: Seq<LoadWarning>) -> Seq<WarningModel> {
    ws.map_values(|w: LoadWarning| w@)
}

impl View for DataFile {
    type V = DatasetModel;

    closed spec fn view(&self) -> DatasetModel {
        DatasetModel { rows: rows_view(self.rows@), warnings: warnings_view(self.load_warnings@) }
    }
}

proof fn lemma_first_break_at(t: Seq<char>, k: int)
    requires
        0 <= k <= t.len(),
        k == t.len() || is_line_break(t[k]),
        forall|j: int| 0 <= j < k ==> !is_line_break(#[trigger] t[j]),
    ensures
        first_break(t) == k,
    decreases k,
{
    if k > 0 {
        let rest = t.drop_first();
        assert forall|j: int| 0 <= j < k - 1 implies !is_line_break(#[trigger] rest[j]) by {
            assert(rest[j] == t[j + 1]);
        }
        if k < t.len() {
            assert(rest[k - 1] == t[k]);
        }
        lemma_first_break_at(rest, k - 1);
    }
}

/// The lines of `v`, as `lines_of` cuts them.
pub fn split_lines(v: &Vec<char>) -> (r: Vec<String>)
    ensures
        r@.map_values(|l: String| l@) == lines_of(v@),
{
    let len = v.len();
    let mut out: Vec<String> = Vec::new();
    let mut start: usize = 0;
    let mut i: usize = 0;
    proof {
        assert(v@.skip(0) == v@);
        assert(out@.map_values(|l: String| l@) + lines_of(v@) == lines_of(v@));
    }
    while i < len
        invariant
            start <= i <= len == v@.len(),
            out@.map_values(|l: String| l@) + lines_of(v@.skip(start as int)) == lines_of(v@),
            forall|j: int| start <= j < i ==> !is_line_break(#[trigger] v@[j]),
        decreases len - i,
    {
        if v[i] == '\n' || v[i] == '\r' {
            let ghost t = v@.skip(start as int);
            proof {
                assert forall|j: int| 0 <= j < i - start implies !is_line_break(#[trigger] t[j]) by {
                    assert(t[j] == v@[start + j]);
                }
                assert(t[i - start] == v@[i as int]);
                lemma_first_break_at(t, i - start);
            }
            let line = string_of_range(v, start, i);
            let w: usize = if v[i] == '\r' && i + 1 < len && v[i + 1] == '\n' {
                2
            } else {
                1
            };
            proof {
                assert(break_width(t, i - start) == w) by {
                    if i + 1 < len {
                        assert(t[i + 1 - start] == v@[i + 1]);
                    }
                }
                assert(t.take(i - start) == v@.subrange(start as int, i as int));
                assert(t.skip(i - start + w) == v@.skip(i + w));
                let ov = out@.map_values(|l: String| l@);
                assert(lines_of(t) == seq![line@] + lines_of(v@.skip(i + w)));
                assert(out@.push(line).map_values(|l: String| l@) == ov.push(line@));
                assert(ov.push(line@) + lines_of(v@.skip(i + w)) == ov + (seq![line@] + lines_of(v@.skip(i + w))));
            }
            out.push(line);
            i = i + w;
            start = i;
        } else {
            i = i + 1;
        }
    }
    if start < len {
        let ghost t = v@.skip(start as int);
        proof {
            assert forall|j: int| 0 <= j < t.len() implies !is_line_break(#[trigger] t[j]) by {
                assert(t[j] == v@[start + j]);
            }
            lemma_first_break_at(t, t.len() as int);
            assert(t == v@.subrange(start as int, len as int));
        }
        let line = string_of_range(v, start, len);
        proof {
            let ov = out@.map_values(|l: String| l@);
            assert(out@.push(line).map_values(|l: String| l@) == ov.push(line@));
            assert(ov + seq![line@] == ov.push(line@));
        }
        out.push(line);
    } else {
        proof {
            assert(v@.skip(start as int).len() == 0);
            assert(out@.map_values(|l: String| l@) + Seq::<Seq<char>>::empty() == out@.map_values(|l: String| l@));
        }
    }
    out
}

/// The value of a field as written out: empty when it has none.
pub open spec fn value_text(f: FieldModel) -> Seq<char> {
    match f.data {
        Some(d) => d,
        None => Seq::empty(),
    }
}

/// A field as a JSON member: `"name": "value"`.
pub open spec fn member_json(f: FieldModel) -> Seq<char> {
    "\""@ + f.name + "\": \""@ + value_text(f) + "\""@
}

/// A row as a JSON object of its fields' members, in field order.
pub open spec fn row_json(fs: Seq<FieldModel>) -> Seq<char> {
    "{"@ + join(fs.map_values(|f: FieldModel| member_json(f)), ","@) + "}"@
}

/// Rows as a JSON array, one object per line.
pub open spec fn dataset_json(rows: Seq<Seq<FieldModel>>) -> Seq<char> {
    "["@ + join(rows.map_values(|fs: Seq<FieldModel>| row_json(fs)), ",\n"@) + "]"@
}

/// The CSV line of projected fields: their values joined by commas.
pub open spec fn csv_line(fs: Seq<FieldModel>) -> Seq<char> {
    join(fs.map_values(|f: FieldModel| value_text(f)), ","@)
}

/// The CSV lines of `rows` projected onto `names`; rows that lack one of the
/// names are left out.
pub open spec fn csv_lines(rows: Seq<Seq<FieldModel>>, names: Seq<Seq<char>>) -> Seq<Seq<char>>
    decreases rows.len(),
{
    if rows.len() == 0 {
        Seq::empty()
    } else {
        let earlier = csv_lines(rows.drop_last(), names);
        match project(rows.last(), names) {
            Ok(fs) => earlier.push(csv_line(fs)),
            Err(_) => earlier,
        }
    }
}

proof fn lemma_join_step(parts: Seq<Seq<char>>, sep: Seq<char>, i: int)
    requires
        0 < i < parts.len(),
    ensures
        join(parts.take(i + 1), sep) == join(parts.take(i), sep) + sep + parts[i],
{
    assert(parts.take(i + 1).drop_last() == parts.take(i));
}

/// `{...}` for the fields of `fs`.
fn row_json_string(fs: &Vec<DataField>) -> (r: String)
    ensures
        r@ == row_json(fields_view(fs@)),
{
    let ghost parts = fields_view(fs@).map_values(|f: FieldModel| member_json(f));
    let mut out = String::new();
    push_str(&mut out, "{");
    let ghost head = out@;
    let mut i: usize = 0;
    proof {
        assert(parts.take(0) == Seq::<Seq<char>>::empty());
    }
    while i < fs.len()
        invariant
            i <= fs@.len() == parts.len(),
            parts == fields_view(fs@).map_values(|f: FieldModel| member_json(f)),
            head == "{"@,
            out@ == head + join(parts.take(i as int), ","@),
        decreases fs.len() - i,
    {
        let ghost before = out@;
        if i > 0 {
            push_str(&mut out, ",");
        }
        let f = &fs[i];
        push_str(&mut out, "\"");
        push_str(&mut out, f.name().as_str());
        push_str(&mut out, "\": \"");
        push_str(&mut out, f.data().as_str());
        push_str(&mut out, "\"");
        proof {
            assert(parts[i as int] == member_json(f@));
            if i > 0 {
                lemma_join_step(parts, ","@, i as int);
            } else {
                assert(parts.take(1) == seq![parts[0]]);
                assert(join(parts.take(0), ","@) == Seq::<char>::empty());
            }
        }
        i = i + 1;
    }
    push_str(&mut out, "}");
    proof {
        assert(parts.take(i as int) == parts);
    }
    out
}

/// `a,b,c` for the values of `fs`.
fn csv_string(fs: &Vec<DataField>) -> (r: String)
    ensures
        r@ == csv_line(fields_view(fs@)),
{
    let ghost parts = fields_view(fs@).map_values(|f: FieldModel| value_text(f));
    let mut out = String::new();
    let mut i: usize = 0;
    proof {
        assert(parts.take(0) == Seq::<Seq<char>>::empty());
    }
    while i < fs.len()
        invariant
            i <= fs@.len() == parts.len(),
            parts == fields_view(fs@).map_values(|f: FieldModel| value_text(f)),
            out@ == join(parts.take(i as int), ","@),
        decreases fs.len() - i,
    {
        if i > 0 {
            push_str(&mut out, ",");
        }
        let f = &fs[i];
        push_str(&mut out, f.data().as_str());
        proof {
            assert(parts[i as int] == value_text(f@));
            if i > 0 {
                lemma_join_step(parts, ","@, i as int);
            } else {
                assert(parts.take(1) == seq![parts[0]]);
                assert(Seq::<char>::empty() + parts[0] == parts[0]);
            }
        }
        i = i + 1;
    }
    proof {
        assert(parts.take(i as int) == parts);
    }
    out
}

impl DataFile {
    /// The rows as a JSON array: one object per row, mapping each field's
    /// name to its value, the empty string for none. Rows are separated by a
    /// comma and a newline. Values are written as they are, without escapes:
    /// extraction has refused those that hold a double quote.
    pub fn jsonify(&self) -> (r: String)
        ensures
            r@ == dataset_json(self@.rows),
    {
        let ghost parts = self@.rows.map_values(|fs: Seq<FieldModel>| row_json(fs));
        let mut out = String::new();
        push_str(&mut out, "[");
        let ghost head = out@;
        let mut i: usize = 0;
        proof {
            assert(parts.take(0) == Seq::<Seq<char>>::empty());
        }
        while i < self.rows.len()
            invariant
                i <= self.rows@.len() == parts.len(),
                parts == self@.rows.map_values(|fs: Seq<FieldModel>| row_json(fs)),
                self@.rows == rows_view(self.rows@),
                head == "["@,
                out@ == head + join(parts.take(i as int), ",\n"@),
            decreases self.rows.len() - i,
        {
            if i > 0 {
                push_str(&mut out, ",\n");
            }
            let row = &self.rows[i];
            let obj = row_json_string(row.fields());
            push_str(&mut out, obj.as_str());
            proof {
                assert(parts[i as int] == row_json(row@));
                if i > 0 {
                    lemma_join_step(parts, ",\n"@, i as int);
                } else {
                    assert(parts.take(1) == seq![parts[0]]);
                    assert(join(parts.take(0), ",\n"@) == Seq::<char>::empty());
                }
            }
            i = i + 1;
        }
        push_str(&mut out, "]");
        proof {
            assert(parts.take(i as int) == parts);
        }
        out
    }

    /// One CSV line per row: the values of the fields named by `field_list`,
    /// in its order, joined by commas, with the empty string for none. Rows
    /// that lack one of the names are left out.
    pub fn to_csv(&self, field_list: &Vec<&str>) -> (r: Vec<String>)
        ensures
            r@.map_values(|l: String| l@) == csv_lines(self@.rows, names_view(field_list@)),
    {
        let ghost rows = self@.rows;
        let ghost names = names_view(field_list@);
        let mut out: Vec<String> = Vec::new();
        let mut i: usize = 0;
        proof {
            assert(rows.take(0) == Seq::<Seq<FieldModel>>::empty());
        }
        while i < self.rows.len()
            invariant
                i <= self.rows@.len() == rows.len(),
                rows == self@.rows,
                rows == rows_view(self.rows@),
                names == names_view(field_list@),
                out@.map_values(|l: String| l@) == csv_lines(rows.take(i as int), names),
            decreases self.rows.len() - i,
        {
            proof {
                assert(rows.take(i + 1).drop_last() == rows.take(i as int));
                assert(rows.take(i + 1).last() == self.rows@[i as int]@);
            }
            let ghost before = out@;
            match self.rows[i].get_ordered_fields(field_list) {
                Ok(fs) => {
                    let line = csv_string(&fs);
                    out.push(line);
                    proof {
                        assert(out@.map_values(|l: String| l@) == before.map_values(|l: String| l@).push(line@));
                    }
                },
                Err(_) => {},
            }
            i = i + 1;
        }
        proof {
            assert(rows.take(i as int) == rows);
        }
        out
    }

    /// Reads every line of `data` with `row_defs`. A line that gives no row
    /// becomes a warning with its index, counted from 0, and the run goes on.
    /// A text that is not ASCII is refused as a whole.
    pub fn try_from_text(data: &str, row_defs: &Vec<DataFieldDef>) -> (r: Result<DataFile, DataFileError>)
        ensures
            match r {
                Ok(f) => is_ascii_chars(data@) && f@ == load(lines_of(data@), row_defs@),
                Err(e) => !is_ascii_chars(data@) && e is NonASCIIFile,
            },
    {
        if !data.is_ascii() {
            return Err(DataFileError::NonASCIIFile);
        }
        let v = chars_of(data);
        let lines = split_lines(&v);
        let ghost ls = lines@.map_values(|l: String| l@);
        let mut rows: Vec<DataRow> = Vec::new();
        let mut load_warnings: Vec<LoadWarning> = Vec::new();
        let mut i: usize = 0;
        proof {
            assert(ls.take(0) == Seq::<Seq<char>>::empty());
            assert(rows_view(rows@) == Seq::<Seq<FieldModel>>::empty());
            assert(warnings_view(load_warnings@) == Seq::<WarningModel>::empty());
        }
        while i < lines.len()
            invariant
                i <= lines@.len() == ls.len(),
                ls == lines@.map_values(|l: String| l@),
                load(ls.take(i as int), row_defs@) == (DatasetModel {
                    rows: rows_view(rows@),
                    warnings: warnings_view(load_warnings@),
                }),
            decreases lines.len() - i,
        {
            proof {
                assert(ls.take(i + 1).drop_last() == ls.take(i as int));
                assert(ls.take(i + 1).last() == lines@[i as int]@);
            }
            let res = DataRow::try_create(lines[i].as_str(), row_defs);
            match res {
                Ok(r) => {
                    let ghost before = rows@;
                    rows.push(r);
                    proof {
                        assert(rows_view(rows@) == rows_view(before).push(r@));
                    }
                },
                Err(e) => {
                    let ghost before = load_warnings@;
                    let w = LoadWarning::new(i, e);
                    load_warnings.push(w);
                    proof {
                        assert(warnings_view(load_warnings@) == warnings_view(before).push(w@));
                    }
                },
            }
            i = i + 1;
        }
        proof {
            assert(ls.take(i as int) == ls);
        }
        Ok(DataFile { rows, load_warnings })
    }

    /// The rows, in line order.
    pub fn rows(&self) -> (r: &Vec<DataRow>)
        ensures
            rows_view(r@) == self@.rows,
    {
        &self.rows
    }

    /// The warnings, in line order.
    pub fn warnings(&self) -> (r: &Vec<LoadWarning>)
        ensures
            warnings_view(r@) == self@.warnings,
    {
        &self.load_warnings
    }
}

} // verus!
