//! The parsed representation of a `CREATE TABLE` statement, together with
//! its mathematical model used by contracts.

use vstd::prelude::*;

verus! {

/// Model of a single column: the column name and its type tag, both as
/// character sequences.
#[verifier::ext_equal]
pub ghost struct ColModel {
    pub name: Seq<char>,
    pub col_type: Seq<char>,
}

/// Model of a parsed table: the table name, the columns in source order,
/// and the `IF NOT EXISTS` flag.
#[verifier::ext_equal]
pub ghost struct TableModel {
    pub name: Seq<char>,
    pub columns: Seq<ColModel>,
    pub if_not_exists: bool,
}

/// One column of a table: `name` followed by a type tag. The type tag is
/// drawn from a closed set; see [`ColModel::wf`].
#[derive(Debug, Clone, PartialEq)]
pub struct Col {
    pub name: String,
    pub col_type: String,
}

/// A parsed `CREATE TABLE` statement. Constructed solely by the parser on
/// success and immutable thereafter.
#[derive(Debug, Clone, PartialEq)]
pub struct Table {
    pub name: String,
    pub columns: Vec<Col>,
    pub if_not_exists: bool,
}

impl View for Col {
    type V = ColModel;

    open spec fn view(&self) -> ColModel {
        ColModel { name: self.name@, col_type: self.col_type@ }
    }
}

impl View for Table {
    type V = TableModel;

    open spec fn view(&self) -> TableModel {
        TableModel {
            name: self.name@,
            columns: Seq::new(self.columns@.len(), |i: int| self.columns@[i]@),
            if_not_exists: self.if_not_exists,
        }
    }
}

impl ColModel {
    /// The type tag is one of the recognized alternatives.
    pub open spec fn wf(self) -> bool {
        self.col_type == "Date"@ || self.col_type == "String"@
    }
}

impl TableModel {
    /// Every well-formed table has a non-empty name and only recognized
    /// column types.
    pub open spec fn wf(self) -> bool {
        &&& self.name.len() > 0
        &&& forall|i: int| 0 <= i < self.columns.len() ==> (#[trigger] self.columns[i]).wf()
    }
}

} // verus!
