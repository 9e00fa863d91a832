//! Rows: the fields that a list of definitions takes out of one line, built
//! all at once or not at all.
use vstd::prelude::*;
use crate::datafield::{
    extract, line_len, DataField, DataFieldDef, DataFieldError, FieldFault, FieldModel,
};
use crate::text::{decimal, decimal_string, owned, push_str};

verus! {

/// The shortest line that can hold a row: shorter lines are refused before
/// any field is read.
pub const MINIMUM_ROW_LENGTH: usize = 183;

/// Errors that building or reading a row may meet.
#[derive(Debug)]
pub enum DataRowError {
    /// A field failed; the error says how.
    FieldError(DataFieldError),
    /// The line, of this length, is shorter than a row.
    BadRowLength(usize),
    /// No field of the row has this name.
    FieldNameNotFound(String),
}

/// A row error, with the text of its values.
pub enum RowFault {
    FieldError(FieldFault),
    BadRowLength(nat),
    FieldNameNotFound(Seq<char>),
}

impl View for DataRowError {
    type V = RowFault;

    open spec fn view(&self) -> RowFault {
        match self {
            DataRowError::FieldError(e) => RowFault::FieldError(e@),
            DataRowError::BadRowLength(l) => RowFault::BadRowLength(*l as nat),
            DataRowError::FieldNameNotFound(n) => RowFault::FieldNameNotFound(n@),
        }
    }
}

impl RowFault {
    /// The description of the error.
    pub open spec fn text(self) -> Seq<char> {
        match self {
            RowFault::FieldError(e) => e.text(),
            RowFault::BadRowLength(l) => "Bad Row Length ("@ + decimal(l) + ")"@,
            RowFault::FieldNameNotFound(n) => "Field Name Not Found ("@ + n + ")"@,
        }
    }
}

impl DataRowError {
    /// The description of the error.
    pub fn to_string(&self) -> (r: String)
        ensures
            r@ == self@.text(),
    {
        match self {
            DataRowError::FieldError(e) => e.to_string(),
            DataRowError::BadRowLength(l) => {
                let mut out = String::new();
                push_str(&mut out, "Bad Row Length (");
                push_str(&mut out, decimal_string(*l as u128).as_str());
                push_str(&mut out, ")");
                out
            },
            DataRowError::FieldNameNotFound(n) => {
                let mut out = String::new();
                push_str(&mut out, "Field Name Not Found (");
                push_str(&mut out, n.as_str());
                push_str(&mut out, ")");
                out
            },
        }
    }
}

/// The fields that `defs` take out of `line`, in order, or the error of the
/// first definition that fails.
pub open spec fn extract_all(line: Seq<char>, defs: Seq<DataFieldDef>) -> Result<Seq<FieldModel>, FieldFault>
    decreases defs.len(),
{
    if defs.len() == 0 {
        Ok(Seq::empty())
    } else {
        match extract_all(line, defs.drop_last()) {
            Err(e) => Err(e),
            Ok(fs) => match extract(line, defs.last()) {
                Err(e) => Err(e),
                Ok(f) => Ok(fs.push(f)),
            },
        }
    }
}

/// The row that `defs` build from `line`, or why there is none.
pub open spec fn build_row(line: Seq<char>, defs: Seq<DataFieldDef>) -> Result<Seq<FieldModel>, RowFault> {
    if line_len(line) < MINIMUM_ROW_LENGTH {
        Err(RowFault::BadRowLength(line_len(line)))
    } else {
        match extract_all(line, defs) {
            Err(e) => Err(RowFault::FieldError(e)),
            Ok(fs) => Ok(fs),
        }
    }
}

/// A line shorter than `MINIMUM_ROW_LENGTH` is refused with its length,
/// whatever the definitions: no field is read.
pub proof fn short_line_is_refused(line: Seq<char>, defs: Seq<DataFieldDef>)
    requires
        line_len(line) < MINIMUM_ROW_LENGTH,
    ensures
        build_row(line, defs) == Err::<Seq<FieldModel>, RowFault>(RowFault::BadRowLength(line_len(line))),
{
}

/// The fields as values.
pub open spec fn fields_view(fs: Seq<DataField>) -> Seq<FieldModel> {
    fs.map_values(|f: DataField| f@)
}

/// The first field of `fs` named `name`.
pub open spec fn find_field(fs: Seq<FieldModel>, name: Seq<char>) -> Option<FieldModel>
    decreases fs.len(),
{
    if fs.len() == 0 {
        None
    } else if fs[0].name == name {
        Some(fs[0])
    } else {
        find_field(fs.drop_first(), name)
    }
}

/// The fields of `fs` named by `names`, in the order of `names`, or the first
/// name that no field has.
pub open spec fn project(fs: Seq<FieldModel>, names: Seq<Seq<char>>) -> Result<Seq<FieldModel>, RowFault>
    decreases names.len(),
{
    if names.len() == 0 {
        Ok(Seq::empty())
    } else {
        match project(fs, names.drop_last()) {
            Err(e) => Err(e),
            Ok(p) => match find_field(fs, names.last()) {
                None => Err(RowFault::FieldNameNotFound(names.last())),
                Some(f) => Ok(p.push(f)),
            },
        }
    }
}

/// The texts of `names`.
pub open spec fn names_view(names: Seq<&str>) -> Seq<Seq<char>> {
    names.map_values(|n: &str| n@)
}

/// The names of the fields of `fs`.
pub open spec fn field_names(fs: Seq<FieldModel>) -> Seq<Seq<char>> {
    fs.map_values(|f: FieldModel| f.name)
}

/// The names that `defs` give their fields.
pub open spec fn def_names(defs: Seq<DataFieldDef>) -> Seq<Seq<char>> {
    defs.map_values(|d: DataFieldDef| d.name@)
}

/// Whether no two of `names` are equal.
pub open spec fn distinct(names: Seq<Seq<char>>) -> bool {
    forall|i: int, j: int| 0 <= i < names.len() && 0 <= j < names.len() && i != j ==> names[i] != names[j]
}

/// The fields of one line, in the order of the definitions that built them.
#[derive(Debug)]
pub struct DataRow {
    fields: Vec<DataField>,
}

impl View for DataRow {
    type V = Seq<FieldModel>;

    closed spec fn view(&self) -> Seq<FieldModel> {
        fields_view(self.fields@)
    }
}

/// What a row's result holds.
pub open spec fn row_outcome(r: Result<DataRow, DataRowError>) -> Result<Seq<FieldModel>, RowFault> {
    match r {
        Ok(row) => Ok(row@),
        Err(e) => Err(e@),
    }
}

/// What a projection's result holds.
pub open spec fn projection_outcome(r: Result<Vec<DataField>, DataRowError>) -> Result<Seq<FieldModel>, RowFault> {
    match r {
        Ok(fs) => Ok(fields_view(fs@)),
        Err(e) => Err(e@),
    }
}

proof fn lemma_extract_all_error_stays(line: Seq<char>, defs: Seq<DataFieldDef>, k: int)
    requires
        0 <= k <= defs.len(),
        extract_all(line, defs.take(k)) is Err,
    ensures
        extract_all(line, defs) == extract_all(line, defs.take(k)),
    decreases defs.len() - k,
{
    if k == defs.len() {
        assert(defs.take(k) == defs);
    } else {
        assert(defs.take(k + 1).drop_last() == defs.take(k));
        lemma_extract_all_error_stays(line, defs, k + 1);
    }
}

proof fn lemma_find_first(fs: Seq<FieldModel>, j: int)
    requires
        0 <= j < fs.len(),
        forall|i: int| 0 <= i < j ==> (#[trigger] fs[i]).name != fs[j].name,
    ensures
        find_field(fs, fs[j].name) == Some(fs[j]),
    decreases j,
{
    if j > 0 {
        let rest = fs.drop_first();
        assert forall|i: int| 0 <= i < j - 1 implies (#[trigger] rest[i]).name != rest[j - 1].name by {
            assert(rest[i] == fs[i + 1]);
        }
        lemma_find_first(rest, j - 1);
    }
}

proof fn lemma_extract_all_names(line: Seq<char>, defs: Seq<DataFieldDef>)
    requires
        extract_all(line, defs) is Ok,
    ensures
        field_names(extract_all(line, defs)->Ok_0) == def_names(defs),
    decreases defs.len(),
{
    if defs.len() == 0 {
        assert(field_names(Seq::empty()) == def_names(defs));
    } else {
        lemma_extract_all_names(line, defs.drop_last());
        let fs = extract_all(line, defs.drop_last())->Ok_0;
        let f = extract(line, defs.last())->Ok_0;
        assert(field_names(fs.push(f)) == def_names(defs.drop_last()).push(defs.last().name@));
        assert(def_names(defs.drop_last()).push(defs.last().name@) == def_names(defs));
    }
}

/// Projecting fields onto their own names, in their own order, when no two
/// share a name, gives the fields back.
pub proof fn project_own_names(fs: Seq<FieldModel>)
    requires
        distinct(field_names(fs)),
    ensures
        project(fs, field_names(fs)) == Ok::<Seq<FieldModel>, RowFault>(fs),
{
    let names = field_names(fs);
    assert forall|k: int| 0 <= k <= fs.len() implies project(fs, #[trigger] names.take(k)) == Ok::<
        Seq<FieldModel>,
        RowFault,
    >(fs.take(k)) by {
        lemma_project_prefix(fs, k);
    }
    assert(names.take(fs.len() as int) == names);
    assert(fs.take(fs.len() as int) == fs);
}

proof fn lemma_project_prefix(fs: Seq<FieldModel>, k: int)
    requires
        distinct(field_names(fs)),
        0 <= k <= fs.len(),
    ensures
        project(fs, field_names(fs).take(k)) == Ok::<Seq<FieldModel>, RowFault>(fs.take(k)),
    decreases k,
{
    let names = field_names(fs);
    if k == 0 {
        assert(fs.take(0) == Seq::<FieldModel>::empty());
    } else {
        lemma_project_prefix(fs, k - 1);
        assert(names.take(k).drop_last() == names.take(k - 1));
        assert forall|i: int| 0 <= i < k - 1 implies (#[trigger] fs[i]).name != fs[k - 1].name by {
            assert(names[i] == fs[i].name);
            assert(names[k - 1] == fs[k - 1].name);
        }
        lemma_find_first(fs, k - 1);
        assert(fs.take(k - 1).push(fs[k - 1]) == fs.take(k));
    }
}

/// For a row built from a line, when no two definitions share a name,
/// projecting the row onto the definitions' names gives the row's own fields.
pub proof fn ordered_fields_round_trip(line: Seq<char>, defs: Seq<DataFieldDef>)
    requires
        build_row(line, defs) is Ok,
        distinct(def_names(defs)),
    ensures
        project(build_row(line, defs)->Ok_0, def_names(defs)) == build_row(line, defs),
{
    lemma_extract_all_names(line, defs);
    project_own_names(build_row(line, defs)->Ok_0);
}

impl DataRow {
    /// Builds the row that `row_defs` describe from the line `row`.
    ///
    /// A line shorter than `MINIMUM_ROW_LENGTH` is refused with its length
    /// before any field is read. Otherwise each definition is applied in
    /// order; the first field that fails fails the row, and no partial row is
    /// returned.
    pub fn try_create(row: &str, row_defs: &Vec<DataFieldDef>) -> (r: Result<DataRow, DataRowError>)
        ensures
            row_outcome(r) == build_row(row@, row_defs@),
    {
        if row.len() < MINIMUM_ROW_LENGTH {
            return Err(DataRowError::BadRowLength(row.len()));
        }
        let mut fields: Vec<DataField> = Vec::new();
        let mut i: usize = 0;
        proof {
            assert(row_defs@.take(0) == Seq::<DataFieldDef>::empty());
            assert(fields_view(fields@) == Seq::<FieldModel>::empty());
        }
        while i < row_defs.len()
            invariant
                i <= row_defs@.len(),
                line_len(row@) >= MINIMUM_ROW_LENGTH,
                extract_all(row@, row_defs@.take(i as int)) == Ok::<Seq<FieldModel>, FieldFault>(
                    fields_view(fields@),
                ),
            decreases row_defs.len() - i,
        {
            proof {
                assert(row_defs@.take(i + 1).drop_last() == row_defs@.take(i as int));
                assert(row_defs@.take(i + 1).last() == row_defs@[i as int]);
            }
            match DataField::try_from_row(row, &row_defs[i]) {
                Ok(f) => {
                    let ghost before = fields@;
                    fields.push(f);
                    proof {
                        assert(fields_view(fields@) == fields_view(before).push(f@));
                    }
                },
                Err(e) => {
                    proof {
                        lemma_extract_all_error_stays(row@, row_defs@, i + 1);
                    }
                    return Err(DataRowError::FieldError(e));
                },
            }
            i = i + 1;
        }
        proof {
            assert(row_defs@.take(i as int) == row_defs@);
        }
        Ok(DataRow { fields })
    }

    /// Copies of the fields named by `field_list`, in its order. A name that
    /// no field has fails with `FieldNameNotFound`; where two fields share a
    /// name, the first is taken.
    pub fn get_ordered_fields(&self, field_list: &Vec<&str>) -> (r: Result<Vec<DataField>, DataRowError>)
        ensures
            projection_outcome(r) == project(self@, names_view(field_list@)),
    {
        let ghost names = names_view(field_list@);
        let mut list: Vec<DataField> = Vec::new();
        let mut k: usize = 0;
        proof {
            assert(names.take(0) == Seq::<Seq<char>>::empty());
            assert(fields_view(list@) == Seq::<FieldModel>::empty());
        }
        while k < field_list.len()
            invariant
                k <= field_list@.len(),
                names == names_view(field_list@),
                project(self@, names.take(k as int)) == Ok::<Seq<FieldModel>, RowFault>(
                    fields_view(list@),
                ),
            decreases field_list.len() - k,
        {
            let wanted = owned(field_list[k]);
            proof {
                assert(names.take(k + 1).drop_last() == names.take(k as int));
                assert(names.take(k + 1).last() == wanted@);
            }
            match self.find(&wanted) {
                Some(c) => {
                    let ghost before = list@;
                    list.push(c);
                    proof {
                        assert(fields_view(list@) == fields_view(before).push(c@));
                    }
                },
                None => {
                    proof {
                        lemma_project_error_stays(self@, names, k + 1);
                    }
                    return Err(DataRowError::FieldNameNotFound(wanted));
                },
            }
            k = k + 1;
        }
        proof {
            assert(names.take(k as int) == names);
        }
        Ok(list)
    }

    /// A copy of the first field named `name`.
    fn find(&self, name: &String) -> (r: Option<DataField>)
        ensures
            match r {
                Some(f) => find_field(self@, name@) == Some(f@),
                None => find_field(self@, name@) is None,
            },
    {
        let ghost fs = self@;
        let mut i: usize = 0;
        proof {
            assert(fs.subrange(0, fs.len() as int) == fs);
        }
        while i < self.fields.len()
            invariant
                i <= self.fields@.len() == fs.len(),
                fs == self@,
                find_field(fs, name@) == find_field(fs.subrange(i as int, fs.len() as int), name@),
            decreases self.fields.len() - i,
        {
            let f = &self.fields[i];
            proof {
                assert(fs[i as int] == f@);
                assert(fs.subrange(i as int, fs.len() as int)[0] == f@);
                assert(fs.subrange(i as int, fs.len() as int).drop_first() == fs.subrange(
                    i + 1,
                    fs.len() as int,
                ));
            }
            if *f.name() == *name {
                return Some(f.copy());
            }
            i = i + 1;
        }
        None
    }

    /// The fields of the row, in the order of their definitions.
    pub fn fields(&self) -> (r: &Vec<DataField>)
        ensures
            fields_view(r@) == self@,
    {
        &self.fields
    }
}

proof fn lemma_project_error_stays(fs: Seq<FieldModel>, names: Seq<Seq<char>>, k: int)
    requires
        0 <= k <= names.len(),
        project(fs, names.take(k)) is Err,
    ensures
        project(fs, names) == project(fs, names.take(k)),
    decreases names.len() - k,
{
    if k == names.len() {
        assert(names.take(k) == names);
    } else {
        assert(names.take(k + 1).drop_last() == names.take(k));
        lemma_project_error_stays(fs, names, k + 1);
    }
}

} // verus!
