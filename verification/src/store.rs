//! The record store's logic: id assignment, append, publish and the public
//! listing, stated over sequences of record views. File I/O around these
//! operations lives outside the library; every mutation here is a pure
//! load-modify-save step on the in-memory record list.
use vstd::prelude::*;

use crate::record::{Record, RecordV, views};

verus! {

/// Failures of store operations: a mutation target that does not exist,
/// or a failure of the backing storage reported by the caller's I/O layer.
#[derive(Debug, PartialEq, Eq)]
pub enum StoreError {
    NotFound,
    Storage,
}

/// All record ids are pairwise distinct.
pub open spec fn ids_unique(rs: Seq<RecordV>) -> bool {
    forall|i: int, j: int| 0 <= i < j < rs.len() ==> rs[i].id != rs[j].id
}

/// The largest id in the list, or 0 when the list is empty.
pub open spec fn max_id(rs: Seq<RecordV>) -> u64
    decreases rs.len(),
{
    if rs.len() == 0 {
        0
    } else {
        let m = max_id(rs.drop_last());
        if rs.last().id > m {
            rs.last().id
        } else {
            m
        }
    }
}

/// Some record in the list carries the given id.
pub open spec fn has_id(rs: Seq<RecordV>, id: u64) -> bool {
    exists|i: int| 0 <= i < rs.len() && rs[i].id == id
}

/// A freshly created record: private, with the given fields.
pub open spec fn new_record(
    id: u64,
    name: Seq<char>,
    ingredients: Seq<char>,
    instructions: Seq<char>,
) -> RecordV {
    RecordV { id, name, ingredients, instructions, public: false }
}

/// What `append_recipe` does to the store: push a new private record whose
/// id is one past the largest id present.
pub open spec fn append_spec(
    rs: Seq<RecordV>,
    name: Seq<char>,
    ingredients: Seq<char>,
    instructions: Seq<char>,
) -> Seq<RecordV> {
    rs.push(new_record((max_id(rs) + 1) as u64, name, ingredients, instructions))
}

/// What `set_public` does to the store: flip every record with the given
/// id (at most one, when ids are unique) to public, keeping all else.
pub open spec fn set_public_spec(rs: Seq<RecordV>, id: u64) -> Seq<RecordV> {
    rs.map_values(
        |r: RecordV|
            if r.id == id {
                RecordV { public: true, ..r }
            } else {
                r
            },
    )
}

/// The public records, in store order.
pub open spec fn public_of(rs: Seq<RecordV>) -> Seq<RecordV> {
    rs.filter(|r: RecordV| r.public)
}

/// Every id in the list is at most `max_id`.
pub proof fn lemma_max_id_ge_all(rs: Seq<RecordV>)
    ensures
        forall|i: int| 0 <= i < rs.len() ==> #[trigger] rs[i].id <= max_id(rs),
    decreases rs.len(),
{
    if rs.len() > 0 {
        lemma_max_id_ge_all(rs.drop_last());
        assert(forall|i: int|
            0 <= i < rs.len() - 1 ==> #[trigger] rs[i].id == rs.drop_last()[i].id);
    }
}

/// The largest id in the store.
pub fn max_record_id(records: &Vec<Record>) -> (m: u64)
    ensures
        m == max_id(views(records@)),
{
    let mut m: u64 = 0;
    let mut i: usize = 0;
    proof {
        assert(views(records@).subrange(0, 0) =~= Seq::<RecordV>::empty());
    }
    while i < records.len()
        invariant
            0 <= i <= records@.len(),
            records@.len() == views(records@).len(),
            m == max_id(views(records@).subrange(0, i as int)),
        decreases records@.len() - i,
    {
        let id = records[i].id;
        proof {
            let vs = views(records@);
            assert(vs.subrange(0, i + 1).drop_last() =~= vs.subrange(0, i as int));
            assert(vs.subrange(0, i + 1).last() == vs[i as int]);
            assert(vs[i as int].id == id);
        }
        if id > m {
            m = id;
        }
        i = i + 1;
    }
    proof {
        assert(views(records@).subrange(0, records@.len() as int) =~= views(records@));
    }
    m
}

/// Append a new private record, assigning the next unused id (one past the
/// largest id present, so ids grow monotonically and never collide).
pub fn append_recipe(
    records: &mut Vec<Record>,
    name: String,
    ingredients: String,
    instructions: String,
) -> (id: u64)
    requires
        max_id(views(old(records)@)) < u64::MAX,
    ensures
        views(final(records)@) == append_spec(views(old(records)@), name@, ingredients@, instructions@),
        id == max_id(views(old(records)@)) + 1,
{
    let m = max_record_id(records);
    let id = m + 1;
    let ghost before = records@;
    records.push(
        Record { id, name, ingredients, instructions, public: false },
    );
    proof {
        assert(views(records@) =~= append_spec(
            views(before),
            records@[before.len() as int].name@,
            records@[before.len() as int].ingredients@,
            records@[before.len() as int].instructions@,
        ));
    }
    id
}

/// Flip the record with the given id to public. Fails with `NotFound`,
/// leaving the store unchanged, exactly when no record has that id.
pub fn set_public(records: &mut Vec<Record>, id: u64) -> (r: Result<(), StoreError>)
    ensures
        r is Ok <==> has_id(views(old(records)@), id),
        r is Ok ==> views(final(records)@) == set_public_spec(views(old(records)@), id),
        r is Err ==> final(records)@ == old(records)@ && r == Result::<(), StoreError>::Err(
            StoreError::NotFound,
        ),
{
    let mut found = false;
    let mut out: Vec<Record> = Vec::new();
    let mut i: usize = 0;
    while i < records.len()
        invariant
            0 <= i <= records@.len(),
            out@.len() == i,
            forall|j: int|
                0 <= j < i ==> #[trigger] out@[j]@ == set_public_spec(views(records@), id)[j],
            found <==> exists|j: int| 0 <= j < i && views(records@)[j].id == id,
        decreases records@.len() - i,
    {
        let r = records[i].duplicate();
        if r.id == id {
            found = true;
            proof {
                assert(views(records@)[i as int].id == id);
            }
            out.push(Record { public: true, ..r });
        } else {
            proof {
                assert(views(records@)[i as int].id != id);
            }
            out.push(r);
        }
        i = i + 1;
    }
    if found {
        *records = out;
        proof {
            assert(views(records@) =~= set_public_spec(views(old(records)@), id));
        }
        Ok(())
    } else {
        Err(StoreError::NotFound)
    }
}

/// The public records, in store order.
pub fn list_public(records: &Vec<Record>) -> (r: Vec<Record>)
    ensures
        views(r@) == public_of(views(records@)),
{
    let mut out: Vec<Record> = Vec::new();
    let mut i: usize = 0;
    proof {
        reveal(Seq::filter);
        assert(views(records@).subrange(0, 0) =~= Seq::<RecordV>::empty());
    }
    while i < records.len()
        invariant
            0 <= i <= records@.len(),
            records@.len() == views(records@).len(),
            views(out@) == public_of(views(records@).subrange(0, i as int)),
        decreases records@.len() - i,
    {
        let ghost vs = views(records@);
        proof {
            reveal(Seq::filter);
            assert(vs.subrange(0, i + 1).drop_last() =~= vs.subrange(0, i as int));
            assert(vs.subrange(0, i + 1).last() == vs[i as int]);
        }
        if records[i].public {
            let r = records[i].duplicate();
            out.push(r);
            proof {
                assert(views(out@) =~= public_of(vs.subrange(0, i + 1)));
            }
        } else {
            proof {
                assert(views(out@) =~= public_of(vs.subrange(0, i + 1)));
            }
        }
        i = i + 1;
    }
    proof {
        assert(views(records@).subrange(0, records@.len() as int) =~= views(records@));
    }
    out
}

} // verus!
