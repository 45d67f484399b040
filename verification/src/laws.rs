//! The store's laws: id uniqueness under any sequence of appends, no lost
//! updates under serialized appends, monotonic publication, and the
//! determinism of the public listing.
use vstd::prelude::*;

use crate::command::{apply_command_spec, CommandV};
use crate::record::RecordV;
use crate::store::{
    append_spec, ids_unique, lemma_max_id_ge_all, max_id, public_of, set_public_spec,
};

verus! {

/// One append keeps ids unique, adds exactly one record, and rewrites
/// nothing that was already there.
pub proof fn lemma_append_unique(
    rs: Seq<RecordV>,
    name: Seq<char>,
    ingredients: Seq<char>,
    instructions: Seq<char>,
)
    requires
        ids_unique(rs),
        max_id(rs) < u64::MAX,
    ensures
        ids_unique(append_spec(rs, name, ingredients, instructions)),
        append_spec(rs, name, ingredients, instructions).len() == rs.len() + 1,
        forall|j: int|
            0 <= j < rs.len() ==> append_spec(rs, name, ingredients, instructions)[j] == rs[j],
{
    lemma_max_id_ge_all(rs);
    let out = append_spec(rs, name, ingredients, instructions);
    assert(out[rs.len() as int].id == max_id(rs) + 1);
    assert(forall|i: int| 0 <= i < rs.len() ==> #[trigger] out[i].id <= max_id(rs));
}

/// The largest id after a push is the larger of the old largest id and the
/// pushed record's id.
pub proof fn lemma_max_id_push(rs: Seq<RecordV>, r: RecordV)
    ensures
        max_id(rs.push(r)) == if r.id > max_id(rs) {
            r.id
        } else {
            max_id(rs)
        },
{
    assert(rs.push(r).drop_last() =~= rs);
    assert(rs.push(r).last() == r);
}

/// A batch of appends, one after the other, as a serialized store performs
/// them.
pub open spec fn apply_appends(
    rs: Seq<RecordV>,
    items: Seq<(Seq<char>, Seq<char>, Seq<char>)>,
) -> Seq<RecordV>
    decreases items.len(),
{
    if items.len() == 0 {
        rs
    } else {
        apply_appends(
            append_spec(rs, items[0].0, items[0].1, items[0].2),
            items.subrange(1, items.len() as int),
        )
    }
}

/// Serialized appends lose nothing: N appends leave every old record in
/// place, add exactly N records, and keep all ids pairwise distinct.
pub proof fn lemma_appends_no_lost_updates(
    rs: Seq<RecordV>,
    items: Seq<(Seq<char>, Seq<char>, Seq<char>)>,
)
    requires
        ids_unique(rs),
        max_id(rs) + items.len() <= u64::MAX,
    ensures
        apply_appends(rs, items).len() == rs.len() + items.len(),
        ids_unique(apply_appends(rs, items)),
        forall|j: int| 0 <= j < rs.len() ==> apply_appends(rs, items)[j] == rs[j],
    decreases items.len(),
{
    if items.len() > 0 {
        let one = append_spec(rs, items[0].0, items[0].1, items[0].2);
        lemma_append_unique(rs, items[0].0, items[0].1, items[0].2);
        lemma_max_id_push(
            rs,
            crate::store::new_record((max_id(rs) + 1) as u64, items[0].0, items[0].1, items[0].2),
        );
        assert(max_id(one) == max_id(rs) + 1);
        lemma_appends_no_lost_updates(one, items.subrange(1, items.len() as int));
    }
}

/// Ids stay pairwise distinct under every command: commands are the only
/// mutations this core performs on a store.
pub proof fn lemma_command_ids_unique(rs: Seq<RecordV>, c: CommandV)
    requires
        ids_unique(rs),
    ensures
        ids_unique(apply_command_spec(rs, c).0),
{
    match c {
        CommandV::Create { name, ingredients, instructions } => {
            if max_id(rs) < u64::MAX {
                lemma_append_unique(rs, name, ingredients, instructions);
            }
        },
        CommandV::Publish(id) => {
            let after = set_public_spec(rs, id);
            assert(forall|i: int| 0 <= i < rs.len() ==> #[trigger] after[i].id == rs[i].id);
        },
        _ => {},
    }
}

/// Once public, always public: no command ever reverts a published record,
/// and every record keeps its place and id.
pub proof fn lemma_publish_monotonic(rs: Seq<RecordV>, c: CommandV)
    ensures
        forall|i: int|
            0 <= i < rs.len() && rs[i].public ==> {
                let after = apply_command_spec(rs, c).0;
                after.len() > i && after[i].id == rs[i].id && after[i].public
            },
{
    let after = apply_command_spec(rs, c).0;
    match c {
        CommandV::Publish(id) => {
            assert(forall|i: int|
                0 <= i < rs.len() && rs[i].public ==> #[trigger] set_public_spec(rs, id)[i].public
                    && set_public_spec(rs, id)[i].id == rs[i].id);
        },
        _ => {},
    }
}

/// Listing the public records is deterministic: two listings of the same
/// store contents are identical, element for element and in order.
pub proof fn lemma_list_public_idempotent(rs: Seq<RecordV>, r1: Seq<RecordV>, r2: Seq<RecordV>)
    requires
        r1 == public_of(rs),
        r2 == public_of(rs),
    ensures
        r1 == r2,
{
}

} // verus!
