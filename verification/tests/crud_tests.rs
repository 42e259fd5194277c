use mongo_model::codec::GENERIC_BINARY_SUBTYPE;
use mongo_model::codec::IdentifierCodec;
use mongo_model::codec::ObjectId;
use mongo_model::codec::Uuid;
use mongo_model::error::Error;
use mongo_model::facade::create_one;
use mongo_model::facade::delete_by_id;
use mongo_model::facade::delete_one;
use mongo_model::facade::find;
use mongo_model::facade::find_by_id;
use mongo_model::facade::find_by_id_strict;
use mongo_model::facade::find_one;
use mongo_model::facade::find_one_strict;
use mongo_model::facade::search_filter;
use mongo_model::facade::update_by_id;
use mongo_model::facade::update_one;
use mongo_model::store::MemStore;
use mongo_model::value::Document;
use mongo_model::value::Field;
use mongo_model::value::Value;
use mongo_model::value::get_value;

fn text_field(name: &str, v: &str) -> Field {
    Field { name: name.to_string(), value: Value::Text(v.to_string()) }
}

fn doc_of(fields: Vec<Field>) -> Document {
    Document { fields }
}

fn uuid16(seed: u8) -> Uuid {
    Uuid { bytes: vec![seed; 16] }
}

fn text_of(d: &Document, name: &str) -> Option<String> {
    match get_value(d, &name.to_string()) {
        Some(Value::Text(s)) => Some(s.clone()),
        _ => None,
    }
}

#[test]
fn end_to_end_create_update_delete_find() {
    let mut store = MemStore::new();
    let ann = uuid16(1);
    let user = doc_of(vec![
        Field { name: "_id".to_string(), value: ann.encode() },
        text_field("name", "Ann"),
    ]);

    let created = create_one::<Uuid>(&mut store, &user).expect("create must succeed");
    assert_eq!(text_of(&created, "name").as_deref(), Some("Ann"));
    assert!(get_value(&created, &"_id".to_string()).is_some());

    let refound = find_by_id_strict(&store, &ann).expect("created user must be refound");
    assert_eq!(text_of(&refound, "name").as_deref(), Some("Ann"));

    let payload = doc_of(vec![text_field("name", "Anna")]);
    let updated = update_by_id(&mut store, &ann, &payload).expect("update must succeed");
    assert_eq!(text_of(&updated, "name").as_deref(), Some("Anna"));

    delete_by_id(&mut store, &ann).expect("delete must succeed");

    let after = find_by_id(&store, &ann).expect("find by id never fails");
    assert!(after.is_none());
}

#[test]
fn create_with_native_key_assigns_identifier() {
    let mut store = MemStore::new();
    let user = doc_of(vec![text_field("name", "Ann")]);
    let created = create_one::<ObjectId>(&mut store, &user).expect("create must succeed");
    let key = get_value(&created, &"_id".to_string()).expect("store assigns a key");
    match key {
        Value::ObjKey(b) => assert_eq!(b.len(), 12),
        _ => panic!("native strategy assigns a 12-byte key"),
    }
    let id = match key {
        Value::ObjKey(b) => ObjectId { bytes: b.clone() },
        _ => unreachable!(),
    };
    let refound = find_by_id_strict(&store, &id).expect("created user must be refound");
    assert_eq!(text_of(&refound, "name").as_deref(), Some("Ann"));
}

#[test]
fn create_failed_when_store_key_is_not_decodable() {
    let mut store = MemStore::new();
    // The acknowledged key will be this integer, which no client-generated
    // identifier encodes to.
    let user = doc_of(vec![
        Field { name: "_id".to_string(), value: Value::Int(7) },
        text_field("name", "Ann"),
    ]);
    let r = create_one::<Uuid>(&mut store, &user);
    match r {
        Err(Error::CreateFailed(_)) => {},
        _ => panic!("a key of the wrong shape must fail the create"),
    }
    // No identifier derived from the attempt resolves to a document.
    for seed in 0..8u8 {
        let id = uuid16(seed);
        assert!(find_by_id(&store, &id).expect("find by id never fails").is_none());
    }
}

#[test]
fn create_failed_when_client_strategy_gets_a_store_generated_key() {
    let mut store = MemStore::new();
    // A keyless document makes the store assign its own native key, which the
    // client-generated-key strategy cannot decode.
    let user = doc_of(vec![text_field("name", "Ann")]);
    let r = create_one::<Uuid>(&mut store, &user);
    match r {
        Err(Error::CreateFailed(_)) => {},
        _ => panic!("a store-generated key must fail the create under the client strategy"),
    }
}

#[test]
fn unchanged_update_still_requires_modified_count_one() {
    let mut store = MemStore::new();
    let ann = uuid16(2);
    let user = doc_of(vec![
        Field { name: "_id".to_string(), value: ann.encode() },
        text_field("name", "Ann"),
    ]);
    create_one::<Uuid>(&mut store, &user).expect("create must succeed");

    // The payload changes zero observable fields: the store matches the
    // document but reports zero modified, and the update fails.
    let payload = doc_of(vec![text_field("name", "Ann")]);
    let r = update_by_id(&mut store, &ann, &payload);
    match r {
        Err(Error::UpdateFailed(_)) => {},
        _ => panic!("a matched but unchanged update must fail"),
    }
}

#[test]
fn update_matching_nothing_fails_with_update_failed() {
    let mut store = MemStore::new();
    let payload = doc_of(vec![text_field("name", "Anna")]);
    let missing_id = uuid16(3);
    let r = update_by_id(&mut store, &missing_id, &payload);
    match r {
        Err(Error::UpdateFailed(_)) => {},
        _ => panic!("an update matching nothing must fail with UpdateFailed"),
    }
}

#[test]
fn delete_twice_fails_with_delete_failed_not_not_found() {
    let mut store = MemStore::new();
    let ann = uuid16(4);
    let user = doc_of(vec![Field { name: "_id".to_string(), value: ann.encode() }]);
    create_one::<Uuid>(&mut store, &user).expect("create must succeed");

    delete_by_id(&mut store, &ann).expect("first delete must succeed");
    let r = delete_by_id(&mut store, &ann);
    match r {
        Err(Error::DeleteFailed(_)) => {},
        Err(Error::NotFound) => panic!("an already-deleted identifier is DeleteFailed, never NotFound"),
        _ => panic!("the second delete must fail"),
    }
}

#[test]
fn delete_by_filter_requires_exactly_one() {
    let mut store = MemStore::new();
    let filter = doc_of(vec![text_field("kind", "phantom")]);
    let r = delete_one(&mut store, &filter);
    match r {
        Err(Error::DeleteFailed(_)) => {},
        _ => panic!("deleting nothing must fail with DeleteFailed"),
    }
}

#[test]
fn find_one_strict_not_found_on_zero_matches() {
    let store = MemStore::new();
    let filter = doc_of(vec![text_field("name", "Ann")]);
    let r = find_one_strict(&store, &filter);
    match r {
        Err(Error::NotFound) => {},
        _ => panic!("zero matches must be NotFound"),
    }
}

#[test]
fn find_one_strict_returns_the_stores_first_match() {
    let mut store = MemStore::new();
    let first = doc_of(vec![
        Field { name: "_id".to_string(), value: uuid16(5).encode() },
        text_field("kind", "user"),
        text_field("name", "Ann"),
    ]);
    let second = doc_of(vec![
        Field { name: "_id".to_string(), value: uuid16(6).encode() },
        text_field("kind", "user"),
        text_field("name", "Bea"),
    ]);
    create_one::<Uuid>(&mut store, &first).expect("create must succeed");
    create_one::<Uuid>(&mut store, &second).expect("create must succeed");

    let filter = doc_of(vec![text_field("kind", "user")]);
    let got = find_one_strict(&store, &filter).expect("a match exists");
    assert_eq!(text_of(&got, "name").as_deref(), Some("Ann"));
    // Deterministic for a fixed store state.
    let again = find_one_strict(&store, &filter).expect("a match exists");
    assert_eq!(text_of(&again, "name").as_deref(), Some("Ann"));
}

#[test]
fn find_streams_all_matches_in_store_order() {
    let mut store = MemStore::new();
    for (seed, name) in [(7u8, "Ann"), (8u8, "Bea"), (9u8, "Cal")] {
        let d = doc_of(vec![
            Field { name: "_id".to_string(), value: uuid16(seed).encode() },
            text_field("kind", "user"),
            text_field("name", name),
        ]);
        create_one::<Uuid>(&mut store, &d).expect("create must succeed");
    }
    let filter = doc_of(vec![text_field("kind", "user")]);
    let items = find(&store, &filter).expect("find never fails on the collection");
    assert_eq!(items.len(), 3);
    assert_eq!(text_of(&items[0], "name").as_deref(), Some("Ann"));
    assert_eq!(text_of(&items[1], "name").as_deref(), Some("Bea"));
    assert_eq!(text_of(&items[2], "name").as_deref(), Some("Cal"));

    let none = doc_of(vec![text_field("kind", "robot")]);
    let empty = find(&store, &none).expect("an empty result is not an error");
    assert!(empty.is_empty());
}

#[test]
fn find_one_returns_none_without_error() {
    let store = MemStore::new();
    let filter = doc_of(vec![text_field("name", "Ann")]);
    let r = find_one(&store, &filter).expect("find one never fails on the collection");
    assert!(r.is_none());
}

#[test]
fn update_merges_fields_and_appends_new_ones() {
    let mut store = MemStore::new();
    let ann = uuid16(10);
    let user = doc_of(vec![
        Field { name: "_id".to_string(), value: ann.encode() },
        text_field("name", "Ann"),
    ]);
    create_one::<Uuid>(&mut store, &user).expect("create must succeed");

    let payload = doc_of(vec![text_field("name", "Anna"), text_field("city", "Oslo")]);
    let updated = update_by_id(&mut store, &ann, &payload).expect("update must succeed");
    assert_eq!(text_of(&updated, "name").as_deref(), Some("Anna"));
    assert_eq!(text_of(&updated, "city").as_deref(), Some("Oslo"));
    // The identifier is preserved by the merge.
    let refound = find_by_id_strict(&store, &ann).expect("still addressable");
    assert_eq!(text_of(&refound, "city").as_deref(), Some("Oslo"));
}

#[test]
fn update_one_by_filter_refetches_with_the_same_filter() {
    let mut store = MemStore::new();
    let user = doc_of(vec![
        Field { name: "_id".to_string(), value: uuid16(11).encode() },
        text_field("kind", "user"),
        text_field("name", "Ann"),
    ]);
    create_one::<Uuid>(&mut store, &user).expect("create must succeed");

    let filter = doc_of(vec![text_field("kind", "user")]);
    let payload = doc_of(vec![text_field("name", "Anna")]);
    let updated = update_one(&mut store, &filter, &payload).expect("update must succeed");
    assert_eq!(text_of(&updated, "name").as_deref(), Some("Anna"));
}

#[test]
fn search_filter_is_the_canonical_id_selector() {
    let ann = uuid16(12);
    let f = search_filter(&ann);
    assert_eq!(f.fields.len(), 1);
    assert_eq!(f.fields[0].name, "_id".to_string());
    match &f.fields[0].value {
        Value::Binary(st, b) => {
            assert_eq!(*st, GENERIC_BINARY_SUBTYPE);
            assert_eq!(b.as_slice(), &[12u8; 16]);
        },
        _ => panic!("a client key filter carries the generic binary encoding"),
    }
}
