//! The batched write coordinator: it submits a large set of puts and deletes
//! against one table in batches of bounded size, one request after the
//! other, and gathers every operation that the store declined.
//!
//! The coordinator sends nothing itself. It is a state machine: it says which
//! request to send next, the caller sends it and hands back what the store
//! answered. Nothing is retried here, and nothing is rolled back: when a
//! request fails, or the caller abandons the write between two requests, the
//! batches sent before stay applied.

use vstd::prelude::*;
use vstd::multiset::Multiset;
use vstd::seq_lib::{lemma_flatten_concat, lemma_multiset_commutative};
use crate::attribute::RecordMap;
use crate::error::StoreError;
use crate::operation::{combined, create_write_request, listed, WriteOperation};
use crate::partition::{batches, chunked, lemma_batch_sizes, lemma_batches_flatten};

verus! {

/// The most operations that the store takes in one request.
pub const BATCH_LIMIT: usize = 25;

/// Operations against one table: the payload of one batch write request, or
/// one table's entry in the store's answer.
#[derive(Debug)]
pub struct TableWrites {
    pub table: String,
    pub requests: Vec<WriteOperation>,
}

/// What the store answers to a batch write request that it accepted.
#[derive(Debug)]
pub struct BatchWriteResponse {
    /// For each table that it names, the operations of the request that the
    /// store did not apply. `None` where every operation was applied.
    pub unprocessed_items: Option<Vec<TableWrites>>,
}

/// The operations listed under `table`: those of the first entry with that
/// name, none where no entry has it.
pub open spec fn listed_under(entries: Seq<TableWrites>, table: Seq<char>) -> Seq<WriteOperation>
    decreases entries.len(),
{
    if entries.len() == 0 {
        Seq::empty()
    } else if entries.first().table@ == table {
        entries.first().requests@
    } else {
        listed_under(entries.drop_first(), table)
    }
}

/// The operations of a request against `table` that the answer reports as
/// not applied.
pub open spec fn declined(response: BatchWriteResponse, table: Seq<char>) -> Seq<WriteOperation> {
    match response.unprocessed_items {
        Some(entries) => listed_under(entries@, table),
        None => Seq::empty(),
    }
}

/// The requests that a batched write of `operations` sends, in order.
pub open spec fn plan(operations: Seq<WriteOperation>) -> Seq<Seq<WriteOperation>> {
    batches(operations, BATCH_LIMIT as nat)
}

proof fn lemma_listed_under_at(entries: Seq<TableWrites>, table: Seq<char>, i: int)
    requires
        0 <= i < entries.len(),
        entries[i].table@ == table,
        forall|j: int| 0 <= j < i ==> entries[j].table@ != table,
    ensures
        listed_under(entries, table) == entries[i].requests@,
    decreases i,
{
    if i > 0 {
        let rest = entries.drop_first();
        assert forall|j: int| 0 <= j < i - 1 implies rest[j].table@ != table by {
            assert(rest[j] == entries[j + 1]);
        }
        lemma_listed_under_at(rest, table, i - 1);
    }
}

proof fn lemma_listed_under_absent(entries: Seq<TableWrites>, table: Seq<char>)
    requires
        forall|j: int| 0 <= j < entries.len() ==> entries[j].table@ != table,
    ensures
        listed_under(entries, table) == Seq::<WriteOperation>::empty(),
    decreases entries.len(),
{
    if entries.len() > 0 {
        let rest = entries.drop_first();
        assert forall|j: int| 0 <= j < rest.len() implies rest[j].table@ != table by {
            assert(rest[j] == entries[j + 1]);
        }
        lemma_listed_under_absent(rest, table);
    }
}

/// Takes out of an answer the operations that it reports for `table`.
fn take_declined(response: BatchWriteResponse, table: &String) -> (operations: Vec<WriteOperation>)
    ensures
        operations@ == declined(response, table@),
{
    match response.unprocessed_items {
        None => Vec::new(),
        Some(entries) => {
            let mut entries = entries;
            let mut i: usize = 0;
            while i < entries.len()
                invariant
                    i <= entries.len(),
                    response.unprocessed_items == Some(entries),
                    forall|j: int| 0 <= j < i ==> entries[j].table@ != table@,
                decreases entries.len() - i,
            {
                if entries[i].table == *table {
                    proof {
                        lemma_listed_under_at(entries@, table@, i as int);
                    }
                    let entry = entries.swap_remove(i);
                    return entry.requests;
                }
                i += 1;
            }
            proof {
                lemma_listed_under_absent(entries@, table@);
            }
            Vec::new()
        },
    }
}

/// The same items in the opposite order.
fn reversed<T>(items: Vec<T>) -> (result: Vec<T>)
    ensures
        result@ == items@.reverse(),
{
    let mut rest = items;
    let mut result: Vec<T> = Vec::new();
    while rest.len() > 0
        invariant
            rest@ == items@.take(rest.len() as int),
            rest.len() <= items.len(),
            result.len() == items.len() - rest.len(),
            forall|j: int| 0 <= j < result.len() ==> result[j] == items[items.len() - 1 - j],
        decreases rest.len(),
    {
        let item = rest.pop().unwrap();
        result.push(item);
    }
    assert(result@ =~= items@.reverse());
    result
}

/// The batches laid end to end, the last batch first.
fn joined_from_last<T>(batches: Vec<Vec<T>>) -> (items: Vec<T>)
    ensures
        items@ == Seq::new(batches.len() as nat, |i: int| batches[batches.len() - 1 - i]@).flatten(),
{
    let ghost count = batches.len() as int;
    let ghost target = Seq::new(count as nat, |i: int| batches[count - 1 - i]@);
    let mut rest = batches;
    let mut items: Vec<T> = Vec::new();
    assert(target.take(0) =~= Seq::<Seq<T>>::empty());
    while rest.len() > 0
        invariant
            count == batches.len(),
            target == Seq::new(count as nat, |i: int| batches[count - 1 - i]@),
            rest.len() <= count,
            rest@ == batches@.take(rest.len() as int),
            items@ == target.take(count - rest.len()).flatten(),
        decreases rest.len(),
    {
        let ghost taken = count - rest.len();
        let mut batch = rest.pop().unwrap();
        proof {
            assert(batch@ == target[taken]);
            assert(target.take(taken + 1) =~= target.take(taken).push(target[taken]));
            target.take(taken).lemma_flatten_push(target[taken]);
        }
        items.append(&mut batch);
    }
    assert(target.take(count) =~= target);
    items
}

/// A batched write with one request in flight.
pub struct BatchWrite {
    table: String,
    /// The batches not yet sent, the next one last.
    waiting: Vec<Vec<WriteOperation>>,
    /// What the store declined so far.
    unprocessed: Vec<WriteOperation>,
    /// The index of the batch in flight.
    chunk: usize,
    operations: Ghost<Seq<WriteOperation>>,
    answers: Ghost<Seq<Seq<WriteOperation>>>,
}

/// What the caller of a batched write does next.
pub enum BatchStep {
    /// Send the request to the store in one call, then hand what came back
    /// to [`BatchWrite::step`].
    Submit(BatchWrite, TableWrites),
    /// Every batch was sent and accepted. The operations are those that the
    /// store declined, in the order in which it reported them; where there
    /// are any, the write was only partly applied, and retrying them is the
    /// caller's decision.
    Done(Vec<WriteOperation>),
    /// A request failed; no further request is sent.
    Failed(BatchFailure),
}

/// How a batched write ended when one of its requests failed. The batches
/// sent before the failed one stay applied. With the operations of the
/// failed request, which the caller holds, the operations here are all that
/// the store did not apply as far as is known.
#[derive(Debug)]
pub struct BatchFailure {
    /// The `RemoteStore` error, with the index of the failed request and the
    /// cause.
    pub error: StoreError,
    /// What the store declined of the requests that it answered.
    pub unprocessed: Vec<WriteOperation>,
    /// The operations of the batches after the failed one, which were never
    /// sent.
    pub unsent: Vec<WriteOperation>,
}

impl BatchWrite {
    #[verifier::type_invariant]
    spec fn well_formed(self) -> bool {
        let plan = plan(self.operations@);
        &&& self.chunk == self.answers@.len()
        &&& self.chunk < plan.len() <= usize::MAX
        &&& self.waiting.len() == plan.len() - self.chunk - 1
        &&& forall|j: int|
            0 <= j < self.waiting.len() ==> (#[trigger] self.waiting[j])@ == plan[plan.len() - 1
                - j]
        &&& self.unprocessed@ == self.answers@.flatten()
    }

    /// The table that the write goes to.
    pub closed spec fn table(&self) -> Seq<char> {
        self.table@
    }

    /// All operations of the write, in the order of submission.
    pub closed spec fn operations(&self) -> Seq<WriteOperation> {
        self.operations@
    }

    /// For each request answered so far, the operations that the store
    /// declined. The request in flight is the one after these.
    pub closed spec fn answers(&self) -> Seq<Seq<WriteOperation>> {
        self.answers@
    }

    /// The index of the request in flight, counted from zero.
    pub fn chunk_index(&self) -> (index: usize)
        ensures
            index == self.answers().len(),
            index < plan(self.operations()).len(),
    {
        proof {
            use_type_invariant(self);
        }
        self.chunk
    }

    /// Takes the outcome of the request in flight and says what to do next.
    ///
    /// A failure ends the write with a `RemoteStore` error that carries the
    /// index of the failed request and the cause, together with what was
    /// gathered so far and what was never sent. An answer adds the
    /// operations that it reports for this table to those gathered so far;
    /// then the next batch is due, or, after the last, the gathered
    /// operations are the result.
    pub fn step(self, outcome: Result<BatchWriteResponse, String>) -> (next: BatchStep)
        ensures
            match outcome {
                Ok(response) => continues_with(
                    next,
                    self.table(),
                    self.operations(),
                    self.answers().push(declined(response, self.table())),
                ),
                Err(cause) => {
                    &&& next matches BatchStep::Failed(failure)
                    &&& failure.error == StoreError::RemoteStore {
                        chunk: Some(self.answers().len() as usize),
                        cause,
                    }
                    &&& failure.unprocessed@ == self.answers().flatten()
                    &&& failure.unsent@ == plan(self.operations()).skip(
                        self.answers().len() as int + 1,
                    ).flatten()
                },
            },
    {
        proof {
            use_type_invariant(&self);
        }
        let BatchWrite { table, waiting, unprocessed, chunk, operations, answers } = self;
        match outcome {
            Err(cause) => {
                let ghost left = Seq::new(
                    waiting.len() as nat,
                    |i: int| waiting[waiting.len() - 1 - i]@,
                );
                assert(left =~= plan(operations@).skip(chunk + 1));
                let unsent = joined_from_last(waiting);
                BatchStep::Failed(
                    BatchFailure {
                        error: StoreError::RemoteStore { chunk: Some(chunk), cause },
                        unprocessed,
                        unsent,
                    },
                )
            },
            Ok(response) => {
                let mut waiting = waiting;
                let mut unprocessed = unprocessed;
                let mut reported = take_declined(response, &table);
                proof {
                    answers@.lemma_flatten_push(reported@);
                }
                let ghost answered = answers@.push(reported@);
                unprocessed.append(&mut reported);
                match waiting.pop() {
                    Some(requests) => {
                        proof {
                            lemma_batch_sizes(operations@, BATCH_LIMIT as nat);
                        }
                        let request = TableWrites { table: table.clone(), requests };
                        let state = BatchWrite {
                            table,
                            waiting,
                            unprocessed,
                            chunk: chunk + 1,
                            operations,
                            answers: Ghost(answered),
                        };
                        BatchStep::Submit(state, request)
                    },
                    None => BatchStep::Done(unprocessed),
                }
            },
        }
    }
}

/// Whether `next` is the step that a write of `operations` to `table` takes
/// once its first requests have been answered with `answers`: the request
/// with the next batch of the plan while one is left, which holds at least
/// one operation and at most [`BATCH_LIMIT`]; the answers laid end to end
/// after the last.
pub open spec fn continues_with(
    next: BatchStep,
    table: Seq<char>,
    operations: Seq<WriteOperation>,
    answers: Seq<Seq<WriteOperation>>,
) -> bool {
    if answers.len() < plan(operations).len() {
        &&& next matches BatchStep::Submit(state, request)
        &&& state.table() == table
        &&& state.operations() == operations
        &&& state.answers() == answers
        &&& request.table@ == table
        &&& request.requests@ == plan(operations)[answers.len() as int]
        &&& 0 < request.requests@.len() <= BATCH_LIMIT
    } else {
        &&& next matches BatchStep::Done(unprocessed)
        &&& unprocessed@ == answers.flatten()
    }
}

/// Begins a batched write of the given puts and deletes against `table`.
///
/// The operations are submitted deletes first, then puts, in batches of at
/// most [`BATCH_LIMIT`]. The result is the first request to send, or `Done`
/// with nothing declined where there is nothing to write.
pub fn batch_write_items(
    table: &str,
    write_items: Option<Vec<RecordMap>>,
    delete_items: Option<Vec<RecordMap>>,
) -> (next: BatchStep)
    ensures
        continues_with(
            next,
            table@,
            combined(listed(write_items), listed(delete_items)),
            Seq::empty(),
        ),
{
    batch_write_operations(table, create_write_request(write_items, delete_items))
}

/// Begins a batched write of the given operations against `table`, in the
/// order given. This is the way to submit again what an earlier write
/// returned as declined; whether and when to do so is the caller's decision.
pub fn batch_write_operations(table: &str, operations: Vec<WriteOperation>) -> (next: BatchStep)
    ensures
        continues_with(next, table@, operations@, Seq::empty()),
{
    let ghost all = operations@;
    let chunks = chunked(operations, BATCH_LIMIT);
    let ghost parts = chunks@;
    assert(parts.len() == chunks.len() <= usize::MAX);
    let mut waiting = reversed(chunks);
    match waiting.pop() {
        Some(requests) => {
            proof {
                let plan = plan(all);
                assert(plan.len() == parts.len());
                assert(requests == parts[0]);
                assert forall|j: int| 0 <= j < waiting.len() implies (#[trigger] waiting[j])@
                    == plan[plan.len() - 1 - j] by {
                    assert(waiting[j] == parts[parts.len() - 1 - j]);
                }
                lemma_batch_sizes(all, BATCH_LIMIT as nat);
            }
            let request = TableWrites { table: table.to_owned(), requests };
            let state = BatchWrite {
                table: table.to_owned(),
                waiting,
                unprocessed: Vec::new(),
                chunk: 0,
                operations: Ghost(all),
                answers: Ghost(Seq::empty()),
            };
            BatchStep::Submit(state, request)
        },
        None => BatchStep::Done(Vec::new()),
    }
}

/// The requests of a batched write of `M` operations: there are `M / 25`
/// of them, rounded up; each carries at least one operation and at most 25;
/// each but the last carries 25; the last carries what is left over when `M`
/// is divided by 25, or 25 where nothing is; and laid end to end they are the
/// operations, each once and in order.
pub proof fn lemma_chunk_cap(operations: Seq<WriteOperation>)
    ensures
        plan(operations).len() == (operations.len() + 24) / 25,
        forall|i: int|
            0 <= i < plan(operations).len() ==> 0 < (#[trigger] plan(operations)[i]).len() <= 25,
        forall|i: int|
            0 <= i < plan(operations).len() - 1 ==> (#[trigger] plan(operations)[i]).len() == 25,
        plan(operations).len() > 0 ==> plan(operations).last().len() == (if operations.len() % 25
            == 0 {
            25
        } else {
            operations.len() % 25
        }),
        plan(operations).flatten() == operations,
{
    lemma_batch_sizes(operations, BATCH_LIMIT as nat);
    lemma_batches_flatten(operations, BATCH_LIMIT as nat);
}

/// The operations that the store applied: of each request, those that its
/// answer does not report as declined.
pub open spec fn committed(
    requests: Seq<Seq<WriteOperation>>,
    answers: Seq<Seq<WriteOperation>>,
) -> Multiset<WriteOperation>
    decreases requests.len(),
{
    if requests.len() == 0 || answers.len() == 0 {
        Multiset::empty()
    } else {
        committed(requests.drop_last(), answers.drop_last()).add(
            requests.last().to_multiset().sub(answers.last().to_multiset()),
        )
    }
}

/// Where each answer reports only operations of its own request, the
/// operations applied and the operations reported make up the operations
/// sent.
proof fn lemma_committed_and_declined(
    requests: Seq<Seq<WriteOperation>>,
    answers: Seq<Seq<WriteOperation>>,
)
    requires
        answers.len() == requests.len(),
        forall|i: int|
            0 <= i < answers.len() ==> (#[trigger] answers[i]).to_multiset().subset_of(
                requests[i].to_multiset(),
            ),
    ensures
        committed(requests, answers).add(answers.flatten().to_multiset())
            == requests.flatten().to_multiset(),
    decreases requests.len(),
{
    broadcast use vstd::multiset::group_multiset_axioms;

    if requests.len() == 0 {
        assert(answers.flatten() =~= Seq::<WriteOperation>::empty());
        assert(requests.flatten() =~= Seq::<WriteOperation>::empty());
        assert(committed(requests, answers).add(answers.flatten().to_multiset())
            =~= requests.flatten().to_multiset());
    } else {
        let sent = requests.drop_last();
        let heard = answers.drop_last();
        assert forall|i: int| 0 <= i < heard.len() implies (#[trigger] heard[i])
            .to_multiset().subset_of(sent[i].to_multiset()) by {
            assert(heard[i] == answers[i]);
        }
        lemma_committed_and_declined(sent, heard);
        assert(requests =~= sent.push(requests.last()));
        assert(answers =~= heard.push(answers.last()));
        sent.lemma_flatten_push(requests.last());
        heard.lemma_flatten_push(answers.last());
        lemma_multiset_commutative(sent.flatten(), requests.last());
        lemma_multiset_commutative(heard.flatten(), answers.last());
        let last_sent = requests.last().to_multiset();
        let last_heard = answers.last().to_multiset();
        assert(last_heard.subset_of(last_sent));
        assert(last_sent.sub(last_heard).add(last_heard) =~= last_sent);
        assert(committed(requests, answers).add(answers.flatten().to_multiset())
            =~= requests.flatten().to_multiset());
    }
}

/// No operation is lost. At every point of a batched write, where each
/// answer so far reports only operations of its own request, the operations
/// that the store applied, the operations that it declined and the
/// operations of the requests not yet answered are the operations given,
/// each as often as it was given. When every request has been answered, the
/// operations applied and the operations returned as unprocessed are the
/// operations given.
pub proof fn lemma_no_loss(operations: Seq<WriteOperation>, answers: Seq<Seq<WriteOperation>>)
    requires
        answers.len() <= plan(operations).len(),
        forall|i: int|
            0 <= i < answers.len() ==> (#[trigger] answers[i]).to_multiset().subset_of(
                plan(operations)[i].to_multiset(),
            ),
    ensures
        committed(plan(operations).take(answers.len() as int), answers).add(
            answers.flatten().to_multiset(),
        ).add(plan(operations).skip(answers.len() as int).flatten().to_multiset())
            == operations.to_multiset(),
        answers.len() == plan(operations).len() ==> committed(plan(operations), answers).add(
            answers.flatten().to_multiset(),
        ) == operations.to_multiset(),
{
    broadcast use vstd::multiset::group_multiset_axioms;

    let plan = plan(operations);
    let answered = plan.take(answers.len() as int);
    let open = plan.skip(answers.len() as int);
    assert forall|i: int| 0 <= i < answers.len() implies (#[trigger] answers[i])
        .to_multiset().subset_of(answered[i].to_multiset()) by {
        assert(answered[i] == plan[i]);
    }
    lemma_committed_and_declined(answered, answers);
    assert(plan =~= answered + open);
    lemma_flatten_concat(answered, open);
    lemma_multiset_commutative(answered.flatten(), open.flatten());
    lemma_batches_flatten(operations, BATCH_LIMIT as nat);
    if answers.len() == plan.len() {
        assert(answered =~= plan);
        assert(open =~= Seq::<Seq<WriteOperation>>::empty());
        assert(open.flatten() =~= Seq::<WriteOperation>::empty());
        open.flatten().to_multiset_ensures();
        assert(open.flatten().to_multiset() =~= Multiset::<WriteOperation>::empty());
        assert(committed(plan, answers).add(answers.flatten().to_multiset()).add(
            Multiset::<WriteOperation>::empty(),
        ) =~= committed(plan, answers).add(answers.flatten().to_multiset()));
    }
}

} // verus!
