//! Fields: their definitions, the values sliced out of a line, and what can go
//! wrong on the way.
use vstd::prelude::*;
use vstd::utf8::{encode_utf8, is_ascii_chars};
use crate::posthelp::PostProcess;
use crate::text::{chars_of, contains_char, owned, push_str, trim, trimmed};

verus! {

/// Errors reported by the field rules.
#[derive(Debug)]
pub enum PostError {
    InvalidOrExcludedAccountID(String),
    InvalidMeterSize(String),
    InvalidSpecialCode(String),
}

/// A rule error, with the text of its value.
pub enum PostFault {
    InvalidOrExcludedAccountID(Seq<char>),
    InvalidMeterSize(Seq<char>),
    InvalidSpecialCode(Seq<char>),
}

impl View for PostError {
    type V = PostFault;

    open spec fn view(&self) -> PostFault {
        match self {
            PostError::InvalidOrExcludedAccountID(a) => PostFault::InvalidOrExcludedAccountID(a@),
            PostError::InvalidMeterSize(m) => PostFault::InvalidMeterSize(m@),
            PostError::InvalidSpecialCode(c) => PostFault::InvalidSpecialCode(c@),
        }
    }
}

/// Errors that extracting a field may meet.
#[derive(Debug)]
pub enum DataFieldError {
    /// The definition starts after its end, once the end is clamped to the line.
    StartAfterEnd(String),
    /// The line holds characters outside 7-bit ASCII.
    NonASCII(String),
    /// The field's rule refused the value.
    Problem(PostError),
    /// The value holds a double quote.
    FieldContainsQuote(String),
}

/// A field error, with the text of its value.
pub enum FieldFault {
    StartAfterEnd(Seq<char>),
    NonASCII(Seq<char>),
    Problem(PostFault),
    FieldContainsQuote(Seq<char>),
}

impl View for DataFieldError {
    type V = FieldFault;

    open spec fn view(&self) -> FieldFault {
        match self {
            DataFieldError::StartAfterEnd(n) => FieldFault::StartAfterEnd(n@),
            DataFieldError::NonASCII(n) => FieldFault::NonASCII(n@),
            DataFieldError::Problem(p) => FieldFault::Problem(p@),
            DataFieldError::FieldContainsQuote(v) => FieldFault::FieldContainsQuote(v@),
        }
    }
}

impl PostFault {
    /// The description of the error.
    pub open spec fn text(self) -> Seq<char> {
        match self {
            PostFault::InvalidOrExcludedAccountID(a) => "Invalid or Excluded Account ID ("@ + a + ")"@,
            PostFault::InvalidMeterSize(m) => "Invalid Meter Size ("@ + m + ")"@,
            PostFault::InvalidSpecialCode(c) => "Invalid Special Code ("@ + c + "):"@,
        }
    }
}

impl FieldFault {
    /// The description of the error.
    pub open spec fn text(self) -> Seq<char> {
        match self {
            FieldFault::StartAfterEnd(n) => "Start index is after end ("@ + n + ")"@,
            FieldFault::NonASCII(n) => "Non ASCII ("@ + n + ")"@,
            FieldFault::Problem(p) => "Problem: "@ + p.text(),
            FieldFault::FieldContainsQuote(v) => "Field contains quote ("@ + v + ")"@,
        }
    }
}

impl PostError {
    /// The description of the error.
    pub fn to_string(&self) -> (r: String)
        ensures
            r@ == self@.text(),
    {
        let mut out = String::new();
        match self {
            PostError::InvalidOrExcludedAccountID(a) => {
                push_str(&mut out, "Invalid or Excluded Account ID (");
                push_str(&mut out, a.as_str());
                push_str(&mut out, ")");
            },
            PostError::InvalidMeterSize(m) => {
                push_str(&mut out, "Invalid Meter Size (");
                push_str(&mut out, m.as_str());
                push_str(&mut out, ")");
            },
            PostError::InvalidSpecialCode(c) => {
                push_str(&mut out, "Invalid Special Code (");
                push_str(&mut out, c.as_str());
                push_str(&mut out, "):");
            },
        }
        out
    }
}

impl DataFieldError {
    /// The description of the error.
    pub fn to_string(&self) -> (r: String)
        ensures
            r@ == self@.text(),
    {
        let mut out = String::new();
        match self {
            DataFieldError::StartAfterEnd(n) => {
                push_str(&mut out, "Start index is after end (");
                push_str(&mut out, n.as_str());
                push_str(&mut out, ")");
            },
            DataFieldError::NonASCII(n) => {
                push_str(&mut out, "Non ASCII (");
                push_str(&mut out, n.as_str());
                push_str(&mut out, ")");
            },
            DataFieldError::Problem(p) => {
                push_str(&mut out, "Problem: ");
                push_str(&mut out, p.to_string().as_str());
            },
            DataFieldError::FieldContainsQuote(v) => {
                push_str(&mut out, "Field contains quote (");
                push_str(&mut out, v.as_str());
                push_str(&mut out, ")");
            },
        }
        out
    }
}

/// What a rule's result holds: the text of its value or its error.
pub open spec fn outcome_view(r: Result<String, DataFieldError>) -> Result<Seq<char>, FieldFault> {
    match r {
        Ok(s) => Ok(s@),
        Err(e) => Err(e@),
    }
}


/// The position of a field in a line and the rule applied to its text.
pub struct DataFieldDef {
    /// The name of the field.
    pub name: String,
    /// The byte offset where the field starts.
    pub start_idx: usize,
    /// The byte offset where the field ends, exclusive: `ABC123` with start 0
    /// and end 3 gives `ABC`.
    pub end_idx: usize,
    /// The rule applied to the trimmed text; its result is the stored value,
    /// and its error fails the field.
    pub post_process: PostProcess,
}

impl DataFieldDef {
    /// A definition with the given name, offsets and rule.
    pub fn new(name: &str, start_idx: usize, end_idx: usize, post_process: PostProcess) -> (r:
        DataFieldDef)
        ensures
            r.name@ == name@,
            r.start_idx == start_idx,
            r.end_idx == end_idx,
            r.post_process == post_process,
    {
        DataFieldDef { name: owned(name), start_idx, end_idx, post_process }
    }
}

/// A field as values: its name, the text sliced out of the line, and the
/// stored value, absent when empty.
pub struct FieldModel {
    pub name: Seq<char>,
    pub raw: Seq<char>,
    pub data: Option<Seq<char>>,
}

/// A value as stored: absent when it is empty.
pub open spec fn stored(d: Seq<char>) -> Option<Seq<char>> {
    if d.len() == 0 {
        None
    } else {
        Some(d)
    }
}

/// A named field of a row: the text sliced out of the line and the value
/// that its rule made of it.
#[derive(Debug, Clone)]
pub struct DataField {
    name: String,
    raw: String,
    data: Option<String>,
}

impl View for DataField {
    type V = FieldModel;

    closed spec fn view(&self) -> FieldModel {
        FieldModel {
            name: self.name@,
            raw: self.raw@,
            data: match self.data {
                Some(d) => Some(d@),
                None => None,
            },
        }
    }
}

/// The length of `line` in bytes, in UTF-8, as `str::len` gives it.
pub open spec fn line_len(line: Seq<char>) -> nat {
    encode_utf8(line).len() as usize as nat
}

/// The end of a field in `line`: its definition's end, clamped to the line.
pub open spec fn clamped_end(line: Seq<char>, def: DataFieldDef) -> nat {
    if def.end_idx > line_len(line) {
        line_len(line)
    } else {
        def.end_idx as nat
    }
}

/// The field that `def` takes out of `line`, or the error that stops it.
pub open spec fn extract(line: Seq<char>, def: DataFieldDef) -> Result<FieldModel, FieldFault> {
    if def.start_idx > line_len(line) {
        Ok(FieldModel { name: def.name@, raw: Seq::empty(), data: None })
    } else if def.start_idx > clamped_end(line, def) {
        Err(FieldFault::StartAfterEnd(def.name@))
    } else if !is_ascii_chars(line) {
        Err(FieldFault::NonASCII(def.name@))
    } else {
        let raw = line.subrange(def.start_idx as int, clamped_end(line, def) as int);
        match def.post_process.spec_apply(trim(raw)) {
            Err(e) => Err(e),
            Ok(d) => if d.contains('"') {
                Err(FieldFault::FieldContainsQuote(d))
            } else {
                Ok(FieldModel { name: def.name@, raw, data: stored(d) })
            },
        }
    }
}

/// What an extraction's result holds.
pub open spec fn field_outcome(r: Result<DataField, DataFieldError>) -> Result<FieldModel, FieldFault> {
    match r {
        Ok(f) => Ok(f@),
        Err(e) => Err(e@),
    }
}

impl DataField {
    /// A field named `name` whose raw text and value are `data`.
    pub fn new(name: &str, data: String) -> (r: DataField)
        requires
            is_ascii_chars(data@),
            !data@.contains('"'),
        ensures
            r@ == (FieldModel { name: name@, raw: data@, data: stored(data@) }),
    {
        let raw = data.clone();
        let v = chars_of(data.as_str());
        let value = if v.len() == 0 {
            None
        } else {
            Some(data)
        };
        DataField { name: owned(name), raw, data: value }
    }

    /// Extracts the field that `field_def` describes from `row`.
    ///
    /// A field that starts past the end of the row is absent: its raw text is
    /// empty and it has no value. Otherwise the end is clamped to the row,
    /// the row must be ASCII, and the trimmed text goes through the rule; a
    /// value that still holds a double quote is refused.
    pub fn try_from_row(row: &str, field_def: &DataFieldDef) -> (r: Result<DataField, DataFieldError>)
        ensures
            field_outcome(r) == extract(row@, *field_def),
    {
        let n = row.len();
        if field_def.start_idx > n {
            return Ok(DataField { name: field_def.name.clone(), raw: String::new(), data: None });
        }
        let end_idx = if field_def.end_idx > n {
            n
        } else {
            field_def.end_idx
        };
        if field_def.start_idx > end_idx {
            return Err(DataFieldError::StartAfterEnd(field_def.name.clone()));
        }
        if !row.is_ascii() {
            return Err(DataFieldError::NonASCII(field_def.name.clone()));
        }
        proof {
            vstd::utf8::is_ascii_chars_encode_utf8(row@);
        }
        let raw = owned(row.substring_ascii(field_def.start_idx, end_idx));
        let data = match field_def.post_process.apply(trimmed(raw.as_str())) {
            Ok(d) => d,
            Err(e) => return Err(e),
        };
        let dv = chars_of(data.as_str());
        if contains_char(&dv, '"') {
            return Err(DataFieldError::FieldContainsQuote(data));
        }
        let value = if dv.len() == 0 {
            None
        } else {
            Some(data)
        };
        Ok(DataField { name: field_def.name.clone(), raw, data: value })
    }

    /// The name of the field.
    pub fn name(&self) -> (r: &String)
        ensures
            r@ == self@.name,
    {
        &self.name
    }

    /// The value of the field, or the empty string when it has none.
    pub fn data(&self) -> (r: String)
        ensures
            r@ == match self@.data {
                Some(d) => d,
                None => Seq::empty(),
            },
    {
        match &self.data {
            Some(d) => d.clone(),
            None => String::new(),
        }
    }

    /// The stored value, absent when the rule gave the empty string.
    pub fn value(&self) -> (r: &Option<String>)
        ensures
            match r {
                Some(d) => self@.data == Some(d@),
                None => self@.data is None,
            },
    {
        &self.data
    }

    /// The text sliced out of the line, before trimming and the rule.
    pub fn raw(&self) -> (r: &String)
        ensures
            r@ == self@.raw,
    {
        &self.raw
    }

    /// A copy of the field.
    pub fn copy(&self) -> (r: DataField)
        ensures
            r@ == self@,
    {
        DataField { name: self.name.clone(), raw: self.raw.clone(), data: self.data.clone() }
    }
}

/// A field that starts past the end of its line is absent, and extracting it
/// does not fail.
pub proof fn missing_field_is_empty(line: Seq<char>, def: DataFieldDef)
    requires
        def.start_idx > line_len(line),
    ensures
        extract(line, def) == Ok::<FieldModel, FieldFault>(
            FieldModel { name: def.name@, raw: Seq::empty(), data: None },
        ),
{
}

/// Extraction depends on the line and the definition alone: equal lines and
/// equal definitions give equal fields, or equal errors.
pub proof fn extract_is_deterministic(
    line_a: Seq<char>,
    line_b: Seq<char>,
    def_a: DataFieldDef,
    def_b: DataFieldDef,
)
    requires
        line_a == line_b,
        def_a.name@ == def_b.name@,
        def_a.start_idx == def_b.start_idx,
        def_a.end_idx == def_b.end_idx,
        def_a.post_process == def_b.post_process,
        def_a.start_idx <= clamped_end(line_a, def_a),
    ensures
        extract(line_a, def_a) == extract(line_b, def_b),
{
}

} // verus!
