//! The materialized result types the encoders work on.

use vstd::prelude::*;

verus! {

/// One wire cell: a type OID and the textual encoding of one value.
pub struct Data {
    pub typ: i32,
    /// `None` is SQL NULL, sent on the wire as the dedicated length marker
    /// `-1`; `Some` holds the payload bytes, possibly empty.
    pub data: Option<Vec<u8>>,
}

pub type Row = Vec<Data>;

/// A fully materialized query result: ordered column names and rows of
/// wire cells.
pub struct Table {
    pub names: Vec<Vec<u8>>,
    pub rows: Vec<Row>,
}

impl Table {
    /// Data-model invariant: every row holds exactly one cell per column.
    pub open spec fn wf(self) -> bool {
        forall|i: int|
            0 <= i < self.rows@.len() ==> (#[trigger] self.rows@[i])@.len() == self.names@.len()
    }
}

} // verus!
