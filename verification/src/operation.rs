//! Write operations and the order in which a batched write submits them.

use vstd::prelude::*;
use crate::attribute::RecordMap;

verus! {

/// One write against a table.
#[derive(Debug)]
pub enum WriteOperation {
    /// Replaces the whole item.
    Put(RecordMap),
    /// Removes the item with this primary key. The map holds key attributes
    /// only; this is the caller's obligation and is not checked here.
    Delete(RecordMap),
}

/// The items of an optional list; none where there is no list.
pub open spec fn listed(items: Option<Vec<RecordMap>>) -> Seq<RecordMap> {
    match items {
        Some(list) => list@,
        None => Seq::empty(),
    }
}

/// The operations of one batched write, in the order of submission: every
/// delete, in the order given, then every put, in the order given.
pub open spec fn combined(puts: Seq<RecordMap>, deletes: Seq<RecordMap>) -> Seq<WriteOperation> {
    deletes.map_values(|key: RecordMap| WriteOperation::Delete(key)) + puts.map_values(
        |item: RecordMap| WriteOperation::Put(item),
    )
}

/// Builds the combined sequence of operations: deletes first, then puts.
pub fn create_write_request(
    write_items: Option<Vec<RecordMap>>,
    delete_items: Option<Vec<RecordMap>>,
) -> (operations: Vec<WriteOperation>)
    ensures
        operations@ == combined(listed(write_items), listed(delete_items)),
{
    let mut operations: Vec<WriteOperation> = Vec::new();
    let ghost deletes = listed(delete_items);
    let ghost puts = listed(write_items);
    if let Some(keys) = delete_items {
        for key in it: keys
            invariant
                it.seq() == deletes,
                operations@ == deletes.take(it.index() as int).map_values(
                    |key: RecordMap| WriteOperation::Delete(key),
                ),
        {
            operations.push(WriteOperation::Delete(key));
        }
    }
    assert(operations@ == deletes.map_values(|key: RecordMap| WriteOperation::Delete(key)));
    if let Some(items) = write_items {
        for item in it: items
            invariant
                it.seq() == puts,
                operations@ == deletes.map_values(|key: RecordMap| WriteOperation::Delete(key))
                    + puts.take(it.index() as int).map_values(
                    |item: RecordMap| WriteOperation::Put(item),
                ),
        {
            operations.push(WriteOperation::Put(item));
        }
    }
    operations
}

/// Deletes come before puts: the combined sequence holds every delete, in the
/// order given, and after them every put, in the order given.
pub proof fn lemma_deletes_before_puts(puts: Seq<RecordMap>, deletes: Seq<RecordMap>)
    ensures
        combined(puts, deletes).len() == deletes.len() + puts.len(),
        forall|i: int|
            0 <= i < deletes.len() ==> #[trigger] combined(puts, deletes)[i]
                == WriteOperation::Delete(deletes[i]),
        forall|i: int|
            0 <= i < puts.len() ==> #[trigger] combined(puts, deletes)[deletes.len() + i]
                == WriteOperation::Put(puts[i]),
{
}

} // verus!
