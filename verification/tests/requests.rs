use std::collections::HashMap;

use ddb_util::{
    answered, collect_decoded, decoded, found_item, get_item, put_item, query, set_kv,
    AttributeValue, DdbMap, DecodeError, QueryPage, QueryRun, QueryStep, RecordMap, StoreError,
};

fn key_of(pk: &str, sk: &str) -> RecordMap {
    let mut key = RecordMap::new();
    set_kv(&mut key, "pk".to_string(), pk.to_string());
    set_kv(&mut key, "sk".to_string(), sk.to_string());
    key
}

#[test]
fn try_ddb_util_main() {
    let mut exp_attr: DdbMap = DdbMap::new();
    set_kv(&mut exp_attr, ":itemtype".to_string(), "dataset".to_string());
    let run: QueryRun<RecordMap> = query(
        "relations",
        Some("".to_string()),
        Some("itemtype = :itemtype".to_string()),
        Some(exp_attr),
        None,
        None,
        None,
    );
    let request = run.request();
    assert_eq!(request.table_name, "relations");
    assert_eq!(request.index_name, Some("".to_string()));
    assert_eq!(request.key_condition_expression, Some("itemtype = :itemtype".to_string()));
    let values = request.expression_attribute_values.as_ref().unwrap();
    assert!(matches!(values.get(":itemtype"), Some(AttributeValue::S(text)) if text == "dataset"));
    assert!(request.expression_attribute_names.is_none());
    assert!(request.projection_expression.is_none());
    assert!(request.filter_expression.is_none());
    assert!(request.exclusive_start_key.is_none());
    let page = QueryPage { items: None, last_evaluated_key: None };
    assert!(matches!(run.step(Ok(page)), QueryStep::Done(items) if items.is_empty()));
}

#[test]
fn query_hands_every_part_on() {
    let mut names = HashMap::new();
    names.insert("#t".to_string(), "itemtype".to_string());
    let run: QueryRun<u32> = query(
        "relations",
        None,
        None,
        None,
        Some(names.clone()),
        Some("pk, sk".to_string()),
        Some("#t = :itemtype".to_string()),
    );
    let request = run.request();
    assert_eq!(request.table_name, "relations");
    assert!(request.index_name.is_none());
    assert!(request.key_condition_expression.is_none());
    assert!(request.expression_attribute_values.is_none());
    assert_eq!(request.expression_attribute_names, Some(names));
    assert_eq!(request.projection_expression, Some("pk, sk".to_string()));
    assert_eq!(request.filter_expression, Some("#t = :itemtype".to_string()));
    assert!(request.exclusive_start_key.is_none());
}

fn dataset_query() -> QueryRun<u32> {
    let mut values = RecordMap::new();
    set_kv(&mut values, ":itemtype".to_string(), "dataset".to_string());
    query(
        "relations",
        Some("by_type".to_string()),
        Some("itemtype = :itemtype".to_string()),
        Some(values),
        None,
        None,
        None,
    )
}

#[test]
fn query_of_one_page_returns_its_items() {
    let page = QueryPage { items: Some(vec![3u32, 1, 2]), last_evaluated_key: None };
    match dataset_query().step(Ok(page)) {
        QueryStep::Done(items) => assert_eq!(items, vec![3, 1, 2]),
        _ => panic!("the query was over"),
    }
}

#[test]
fn query_continues_from_the_key_of_the_page_before() {
    let first = QueryPage {
        items: Some(vec![1u32, 2]),
        last_evaluated_key: Some(key_of("c4c", "2")),
    };
    let run = match dataset_query().step(Ok(first)) {
        QueryStep::Fetch(run) => run,
        _ => panic!("a second page was due"),
    };
    {
        let request = run.request();
        assert_eq!(request.table_name, "relations");
        assert_eq!(request.index_name, Some("by_type".to_string()));
        assert_eq!(request.key_condition_expression, Some("itemtype = :itemtype".to_string()));
        let values = request.expression_attribute_values.as_ref().unwrap();
        assert!(matches!(
            values.get(":itemtype"),
            Some(AttributeValue::S(text)) if text == "dataset"
        ));
        let start = request.exclusive_start_key.as_ref().unwrap();
        assert!(matches!(start.get("pk"), Some(AttributeValue::S(text)) if text == "c4c"));
        assert!(matches!(start.get("sk"), Some(AttributeValue::S(text)) if text == "2"));
    }
    let second = QueryPage { items: None, last_evaluated_key: Some(key_of("c4c", "2b")) };
    let run = match run.step(Ok(second)) {
        QueryStep::Fetch(run) => run,
        _ => panic!("a third page was due"),
    };
    let start = run.request().exclusive_start_key.as_ref().unwrap();
    assert!(matches!(start.get("sk"), Some(AttributeValue::S(text)) if text == "2b"));
    let third = QueryPage { items: Some(vec![3u32]), last_evaluated_key: None };
    match run.step(Ok(third)) {
        QueryStep::Done(items) => assert_eq!(items, vec![1, 2, 3]),
        _ => panic!("the query was over"),
    }
}

#[test]
fn query_failure_on_a_later_page_is_a_remote_store_error() {
    let first = QueryPage { items: Some(vec![1u32]), last_evaluated_key: Some(key_of("a", "b")) };
    let run = match dataset_query().step(Ok(first)) {
        QueryStep::Fetch(run) => run,
        _ => panic!("a second page was due"),
    };
    match run.step(Err("throttled".to_string())) {
        QueryStep::Failed(StoreError::RemoteStore { chunk, cause }) => {
            assert_eq!(chunk, None);
            assert_eq!(cause, "throttled");
        },
        _ => panic!("the query had failed"),
    }
}

#[test]
fn get_item_names_table_and_key() {
    let request = get_item("relations", key_of("c4c", "c4c"));
    assert_eq!(request.table_name, "relations");
    assert!(matches!(request.key.get("pk"), Some(AttributeValue::S(text)) if text == "c4c"));
    assert!(matches!(request.key.get("sk"), Some(AttributeValue::S(text)) if text == "c4c"));
    assert_eq!(request.key.fields().len(), 2);
}

#[test]
fn put_item_names_table_and_item() {
    let request = put_item("relations", key_of("a", "b"));
    assert_eq!(request.table_name, "relations");
    assert!(matches!(request.item.get("pk"), Some(AttributeValue::S(text)) if text == "a"));
    assert!(matches!(request.item.get("sk"), Some(AttributeValue::S(text)) if text == "b"));
}

#[test]
fn get_item_of_an_absent_key_is_not_found() {
    let request = get_item("relations", key_of("c4c", "c4c"));
    assert_eq!(request.table_name, "relations");
    let nothing: Result<Option<RecordMap>, String> = Ok(None);
    assert!(matches!(found_item(nothing), Err(StoreError::NotFound)));
}

#[test]
fn found_item_hands_the_item_on() {
    let item = found_item(Ok(Some(key_of("c4c", "meta")))).unwrap();
    assert!(matches!(item.get("sk"), Some(AttributeValue::S(text)) if text == "meta"));
}

#[test]
fn found_item_tells_a_failed_request_from_a_missing_item() {
    let failed: Result<Option<RecordMap>, String> = Err("timed out".to_string());
    match found_item(failed) {
        Err(StoreError::RemoteStore { chunk, cause }) => {
            assert_eq!(chunk, None);
            assert_eq!(cause, "timed out");
        },
        other => panic!("unexpected outcome: {:?}", other),
    }
}

#[test]
fn answered_turns_a_failure_into_a_remote_store_error() {
    assert_eq!(answered(Ok::<u8, String>(7)).unwrap(), 7);
    assert!(matches!(
        answered(Err::<u8, String>("unreachable".to_string())),
        Err(StoreError::RemoteStore { chunk: None, cause }) if cause == "unreachable"
    ));
}

#[test]
fn decoded_wraps_the_decode_error() {
    assert_eq!(decoded(Ok::<u8, DecodeError>(7)).unwrap(), 7);
    let missing = DecodeError::MissingField { field: "itemtype".to_string() };
    assert!(matches!(
        decoded(Err::<u8, DecodeError>(missing)),
        Err(StoreError::Decode(DecodeError::MissingField { field })) if field == "itemtype"
    ));
    let malformed = DecodeError::Malformed { message: "not a number".to_string() };
    assert!(matches!(
        decoded(Err::<u8, DecodeError>(malformed)),
        Err(StoreError::Decode(DecodeError::Malformed { message })) if message == "not a number"
    ));
}

#[test]
fn collect_decoded_keeps_the_items_around_a_failure() {
    let outcomes = vec![
        Ok("first".to_string()),
        Err(DecodeError::MissingField { field: "pk".to_string() }),
        Ok("third".to_string()),
        Err(DecodeError::Malformed { message: "bad".to_string() }),
        Ok("fifth".to_string()),
    ];
    let sorted = collect_decoded(outcomes);
    assert_eq!(sorted.items, vec!["first", "third", "fifth"]);
    assert_eq!(sorted.failures.len(), 2);
    assert_eq!(sorted.failures[0].index, 1);
    assert!(matches!(
        &sorted.failures[0].error,
        DecodeError::MissingField { field } if field == "pk"
    ));
    assert_eq!(sorted.failures[1].index, 3);
    assert!(matches!(
        &sorted.failures[1].error,
        DecodeError::Malformed { message } if message == "bad"
    ));
}

#[test]
fn collect_decoded_of_nothing_is_nothing() {
    let sorted = collect_decoded(Vec::<Result<u8, DecodeError>>::new());
    assert!(sorted.items.is_empty());
    assert!(sorted.failures.is_empty());
}

#[test]
fn collect_decoded_of_failures_only() {
    let outcomes: Vec<Result<u8, DecodeError>> = vec![
        Err(DecodeError::MissingField { field: "a".to_string() }),
        Err(DecodeError::MissingField { field: "b".to_string() }),
    ];
    let sorted = collect_decoded(outcomes);
    assert!(sorted.items.is_empty());
    assert_eq!(sorted.failures.len(), 2);
    assert_eq!(sorted.failures[0].index, 0);
    assert_eq!(sorted.failures[1].index, 1);
}
