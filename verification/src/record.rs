//! The domain entity: a recipe record, owned by the record store.
use vstd::prelude::*;

verus! {

/// A stored recipe. Identity is `id`, unique within a store; `public`
/// starts `false` and is only ever flipped to `true`.
#[derive(Debug, PartialEq, Eq)]
pub struct Record {
    pub id: u64,
    pub name: String,
    pub ingredients: String,
    pub instructions: String,
    pub public: bool,
}

/// The mathematical image of a `Record`: its strings as character sequences.
pub struct RecordV {
    pub id: u64,
    pub name: Seq<char>,
    pub ingredients: Seq<char>,
    pub instructions: Seq<char>,
    pub public: bool,
}

impl View for Record {
    type V = RecordV;

    open spec fn view(&self) -> RecordV {
        RecordV {
            id: self.id,
            name: self.name@,
            ingredients: self.ingredients@,
            instructions: self.instructions@,
            public: self.public,
        }
    }
}

/// The views of a whole record list, element by element.
pub open spec fn views(rs: Seq<Record>) -> Seq<RecordV> {
    rs.map_values(|r: Record| r@)
}

impl Record {
    /// A field-for-field copy of the record.
    pub fn duplicate(&self) -> (r: Record)
        ensures
            r@ == self@,
    {
        Record {
            id: self.id,
            name: self.name.clone(),
            ingredients: self.ingredients.clone(),
            instructions: self.instructions.clone(),
            public: self.public,
        }
    }
}

} // verus!
