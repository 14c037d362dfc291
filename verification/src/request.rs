//! Single-item and query requests, and what their answers mean.
//!
//! Each request is built here as a plain value for the caller to send. What
//! came back is then read here: a transport or service failure, a missing
//! item and an item of the wrong shape are three different errors.

use std::collections::HashMap;
use vstd::prelude::*;
use crate::attribute::RecordMap;
use crate::error::{DecodeError, StoreError};

verus! {

/// A request for the item with the given primary key.
#[derive(Debug)]
pub struct GetItemRequest {
    pub table_name: String,
    pub key: RecordMap,
}

/// A request to store an item, replacing the one with the same key.
#[derive(Debug)]
pub struct PutItemRequest {
    pub table_name: String,
    pub item: RecordMap,
}

/// A request for one page of a query against a table or one of its indexes.
#[derive(Debug)]
pub struct QueryRequest {
    pub table_name: String,
    pub index_name: Option<String>,
    pub key_condition_expression: Option<String>,
    pub expression_attribute_values: Option<RecordMap>,
    pub expression_attribute_names: Option<HashMap<String, String>>,
    pub projection_expression: Option<String>,
    pub filter_expression: Option<String>,
    /// Where the page begins: the key that the store gave with the page
    /// before, and `None` for the first page.
    pub exclusive_start_key: Option<RecordMap>,
}

/// One page of a query's answer.
#[derive(Debug)]
pub struct QueryPage<R> {
    /// The items of the page, in the store's order.
    pub items: Option<Vec<R>>,
    /// The key to continue from; `None` where this is the last page.
    pub last_evaluated_key: Option<RecordMap>,
}

/// A query with the request for one page in flight.
pub struct QueryRun<R> {
    request: QueryRequest,
    items: Vec<R>,
    pages: Ghost<Seq<Seq<R>>>,
}

/// What the caller of a query does next.
pub enum QueryStep<R> {
    /// Send the request of the run for its next page, then hand what came
    /// back to [`QueryRun::step`].
    Fetch(QueryRun<R>),
    /// The last page has come. The items are those of all pages, in order.
    Done(Vec<R>),
    /// A request failed; no further page is asked for.
    Failed(StoreError),
}

/// The items of a page; none where the page lists none.
pub open spec fn page_items<R>(page: QueryPage<R>) -> Seq<R> {
    match page.items {
        Some(items) => items@,
        None => Seq::empty(),
    }
}

impl<R> QueryRun<R> {
    #[verifier::type_invariant]
    spec fn well_formed(self) -> bool {
        self.items@ == self.pages@.flatten()
    }

    /// The request in flight.
    pub closed spec fn spec_request(&self) -> &QueryRequest {
        &self.request
    }

    /// The items of each page answered so far.
    pub closed spec fn pages(&self) -> Seq<Seq<R>> {
        self.pages@
    }

    /// The request in flight.
    #[verifier::when_used_as_spec(spec_request)]
    pub fn request(&self) -> (request: &QueryRequest)
        ensures
            request == self.spec_request(),
    {
        &self.request
    }

    /// Takes the outcome of the request in flight and says what to do next.
    ///
    /// A failure ends the query with a `RemoteStore` error. A page adds its
    /// items to those gathered so far; where it names a key to continue
    /// from, the same query is due again from that key, otherwise the
    /// gathered items are the result.
    pub fn step(self, outcome: Result<QueryPage<R>, String>) -> (next: QueryStep<R>)
        ensures
            match outcome {
                Ok(page) => match page.last_evaluated_key {
                    Some(key) => {
                        &&& next matches QueryStep::Fetch(run)
                        &&& run.pages() == self.pages().push(page_items(page))
                        &&& *run.request() == (QueryRequest {
                            exclusive_start_key: Some(key),
                            ..*self.request()
                        })
                    },
                    None => {
                        &&& next matches QueryStep::Done(items)
                        &&& items@ == self.pages().push(page_items(page)).flatten()
                    },
                },
                Err(cause) => next == QueryStep::<R>::Failed(
                    StoreError::RemoteStore { chunk: None, cause },
                ),
            },
    {
        proof {
            use_type_invariant(&self);
        }
        let QueryRun { request, items, pages } = self;
        match outcome {
            Err(cause) => QueryStep::Failed(StoreError::RemoteStore { chunk: None, cause }),
            Ok(page) => {
                let QueryPage { items: listed, last_evaluated_key } = page;
                let mut items = items;
                let mut fresh = match listed {
                    Some(list) => list,
                    None => Vec::new(),
                };
                proof {
                    pages@.lemma_flatten_push(fresh@);
                }
                let ghost answered = pages@.push(fresh@);
                items.append(&mut fresh);
                match last_evaluated_key {
                    Some(key) => {
                        let mut request = request;
                        request.exclusive_start_key = Some(key);
                        QueryStep::Fetch(QueryRun { request, items, pages: Ghost(answered) })
                    },
                    None => QueryStep::Done(items),
                }
            },
        }
    }
}

/// The request that fetches the item of `table` with the primary key `key`.
pub fn get_item(table: &str, key: RecordMap) -> (request: GetItemRequest)
    ensures
        request.table_name@ == table@,
        request.key == key,
{
    GetItemRequest { table_name: table.to_owned(), key }
}

/// The request that stores `item` in `table`.
pub fn put_item(table: &str, item: RecordMap) -> (request: PutItemRequest)
    ensures
        request.table_name@ == table@,
        request.item == item,
{
    PutItemRequest { table_name: table.to_owned(), item }
}

/// Begins the query against `table` with the given index, expressions and
/// substitutions, each handed on as given. The request for the first page is
/// in flight.
pub fn query<R>(
    table: &str,
    index_name: Option<String>,
    key_cond_exp: Option<String>,
    exp_attr_vals: Option<RecordMap>,
    exp_attr_names: Option<HashMap<String, String>>,
    projection_exp: Option<String>,
    filter_exp: Option<String>,
) -> (run: QueryRun<R>)
    ensures
        run.pages() == Seq::<Seq<R>>::empty(),
        run.request().table_name@ == table@,
        run.request().index_name == index_name,
        run.request().key_condition_expression == key_cond_exp,
        run.request().expression_attribute_values == exp_attr_vals,
        run.request().expression_attribute_names == exp_attr_names,
        run.request().projection_expression == projection_exp,
        run.request().filter_expression == filter_exp,
        run.request().exclusive_start_key == None::<RecordMap>,
{
    let request = QueryRequest {
        table_name: table.to_owned(),
        index_name,
        key_condition_expression: key_cond_exp,
        expression_attribute_values: exp_attr_vals,
        expression_attribute_names: exp_attr_names,
        projection_expression: projection_exp,
        filter_expression: filter_exp,
        exclusive_start_key: None,
    };
    QueryRun { request, items: Vec::new(), pages: Ghost(Seq::empty()) }
}

/// Reads the outcome of a request that is not part of a batched write: a
/// failure of the transport or the service becomes a `RemoteStore` error
/// with the cause and no batch index.
pub fn answered<A>(outcome: Result<A, String>) -> (answer: Result<A, StoreError>)
    ensures
        match outcome {
            Ok(value) => answer == Ok::<A, StoreError>(value),
            Err(cause) => answer == Err::<A, StoreError>(
                StoreError::RemoteStore { chunk: None, cause },
            ),
        },
{
    match outcome {
        Ok(value) => Ok(value),
        Err(cause) => Err(StoreError::RemoteStore { chunk: None, cause }),
    }
}

/// Reads the outcome of a get-item request: the item, `NotFound` where the
/// store answered without one, `RemoteStore` where the request failed.
pub fn found_item<R>(outcome: Result<Option<R>, String>) -> (found: Result<R, StoreError>)
    ensures
        match outcome {
            Ok(Some(item)) => found == Ok::<R, StoreError>(item),
            Ok(None) => found == Err::<R, StoreError>(StoreError::NotFound),
            Err(cause) => found == Err::<R, StoreError>(
                StoreError::RemoteStore { chunk: None, cause },
            ),
        },
{
    match answered(outcome) {
        Ok(Some(item)) => Ok(item),
        Ok(None) => Err(StoreError::NotFound),
        Err(error) => Err(error),
    }
}

/// Turns the outcome of decoding one item into the outcome of the request
/// that fetched it.
pub fn decoded<T>(outcome: Result<T, DecodeError>) -> (item: Result<T, StoreError>)
    ensures
        match outcome {
            Ok(value) => item == Ok::<T, StoreError>(value),
            Err(error) => item == Err::<T, StoreError>(StoreError::Decode(error)),
        },
{
    match outcome {
        Ok(value) => Ok(value),
        Err(error) => Err(StoreError::Decode(error)),
    }
}

/// An item of a query's answer that could not be decoded.
#[derive(Debug)]
pub struct DecodeFailure {
    /// The position of the item among the items of the answer.
    pub index: usize,
    pub error: DecodeError,
}

/// The items of a query's answer after decoding each on its own.
#[derive(Debug)]
pub struct Decoded<T> {
    /// The items that decoded, in the order of the answer.
    pub items: Vec<T>,
    /// The items that did not, in the order of the answer.
    pub failures: Vec<DecodeFailure>,
}

/// The values among the outcomes, in order.
pub open spec fn successes<T>(outcomes: Seq<Result<T, DecodeError>>) -> Seq<T>
    decreases outcomes.len(),
{
    if outcomes.len() == 0 {
        Seq::empty()
    } else {
        match outcomes.last() {
            Ok(value) => successes(outcomes.drop_last()).push(value),
            Err(_) => successes(outcomes.drop_last()),
        }
    }
}

/// The errors among the outcomes, in order, each with its position.
pub open spec fn failures<T>(outcomes: Seq<Result<T, DecodeError>>) -> Seq<DecodeFailure>
    decreases outcomes.len(),
{
    if outcomes.len() == 0 {
        Seq::empty()
    } else {
        match outcomes.last() {
            Ok(_) => failures(outcomes.drop_last()),
            Err(error) => failures(outcomes.drop_last()).push(
                DecodeFailure { index: (outcomes.len() - 1) as usize, error },
            ),
        }
    }
}

/// Sorts the outcomes of decoding the items of a query's answer, one outcome
/// for each item: an item that fails to decode is reported with its position
/// and costs no other item.
pub fn collect_decoded<T>(outcomes: Vec<Result<T, DecodeError>>) -> (decoded: Decoded<T>)
    ensures
        decoded.items@ == successes(outcomes@),
        decoded.failures@ == failures(outcomes@),
{
    let mut items: Vec<T> = Vec::new();
    let mut failed: Vec<DecodeFailure> = Vec::new();
    let mut index: usize = 0;
    assert(outcomes@.len() == outcomes.len() <= usize::MAX);
    for outcome in it: outcomes
        invariant
            it.seq() == outcomes@,
            outcomes@.len() <= usize::MAX,
            index == it.index(),
            items@ == successes(outcomes@.take(index as int)),
            failed@ == failures(outcomes@.take(index as int)),
    {
        assert(outcomes@.take(index + 1).drop_last() =~= outcomes@.take(index as int));
        match outcome {
            Ok(value) => items.push(value),
            Err(error) => failed.push(DecodeFailure { index, error }),
        }
        index += 1;
    }
    assert(outcomes@.take(index as int) =~= outcomes@);
    Decoded { items, failures: failed }
}

} // verus!
