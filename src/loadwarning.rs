//! Warnings: the lines that could not be read as rows, and why.
use vstd::prelude::*;
use crate::datarow::{DataRowError, RowFault};
use crate::text::{decimal, decimal_string, push_str};

verus! {

/// A warning as values: the 0-based index of the line and its error.
pub struct WarningModel {
    pub line_index: nat,
    pub error: RowFault,
}

impl WarningModel {
    /// The warning as the log shows it: `Line <n> <error>`, with the line
    /// counted from 1.
    pub open spec fn text(self) -> Seq<char> {
        "Line "@ + decimal(self.line_index + 1) + " "@ + self.error.text()
    }
}

/// A line that could not be read as a row, and why.
#[derive(Debug)]
pub struct LoadWarning {
    line_index: usize,
    message: DataRowError,
}

impl View for LoadWarning {
    type V = WarningModel;

    closed spec fn view(&self) -> WarningModel {
        WarningModel { line_index: self.line_index as nat, error: self.message@ }
    }
}

impl LoadWarning {
    /// A warning for the line at `line_index`, counted from 0.
    pub fn new(line_index: usize, message: DataRowError) -> (r: LoadWarning)
        ensures
            r@ == (WarningModel { line_index: line_index as nat, error: message@ }),
    {
        LoadWarning { line_index, message }
    }

    /// The index of the line, counted from 0.
    pub fn line_index(&self) -> (r: usize)
        ensures
            r as nat == self@.line_index,
    {
        self.line_index
    }

    /// The warning as the log shows it: `Line <n> <error>`, with the line
    /// counted from 1.
    pub fn to_string(&self) -> (r: String)
        ensures
            r@ == self@.text(),
    {
        let mut out = String::new();
        push_str(&mut out, "Line ");
        push_str(&mut out, decimal_string(self.line_index as u128 + 1).as_str());
        push_str(&mut out, " ");
        push_str(&mut out, self.message.to_string().as_str());
        out
    }

    /// The error that the line met.
    pub fn message(&self) -> (r: &DataRowError)
        ensures
            r@ == self@.error,
    {
        &self.message
    }
}

} // verus!
