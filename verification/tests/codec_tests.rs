use mongo_model::codec::GENERIC_BINARY_SUBTYPE;
use mongo_model::codec::IdentifierCodec;
use mongo_model::codec::ObjectId;
use mongo_model::codec::Uuid;
use mongo_model::value::Value;
use mongo_model::value::value_eq;

fn uuid16(seed: u8) -> Uuid {
    Uuid { bytes: vec![seed; 16] }
}

fn oid12(seed: u8) -> ObjectId {
    ObjectId { bytes: vec![seed; 12] }
}

#[test]
fn object_id_encode_decode_round_trip() {
    let id = oid12(7);
    let key = id.encode();
    let back = ObjectId::decode(&key).expect("a native key must decode");
    assert_eq!(back.bytes, vec![7u8; 12]);
}

#[test]
fn object_id_decode_encode_round_trip() {
    let key = Value::ObjKey((0u8..12u8).collect());
    let id = ObjectId::decode(&key).expect("a 12-byte native key must decode");
    let re = id.encode();
    assert!(value_eq(&re, &key));
}

#[test]
fn object_id_rejects_wrong_length() {
    assert!(ObjectId::decode(&Value::ObjKey(vec![1u8; 11])).is_none());
    assert!(ObjectId::decode(&Value::ObjKey(vec![1u8; 13])).is_none());
}

#[test]
fn object_id_rejects_other_shapes() {
    assert!(ObjectId::decode(&Value::Null).is_none());
    assert!(ObjectId::decode(&Value::Int(5)).is_none());
    assert!(ObjectId::decode(&Value::Binary(0, vec![1u8; 12])).is_none());
    assert!(ObjectId::decode(&Value::Text("abc".to_string())).is_none());
}

#[test]
fn uuid_encode_decode_round_trip() {
    let id = uuid16(9);
    let key = id.encode();
    match &key {
        Value::Binary(st, b) => {
            assert_eq!(*st, GENERIC_BINARY_SUBTYPE);
            assert_eq!(b.len(), 16);
        },
        _ => panic!("a client key must encode as generic binary"),
    }
    let back = Uuid::decode(&key).expect("an encoded client key must decode");
    assert_eq!(back.bytes, vec![9u8; 16]);
}

#[test]
fn uuid_decode_encode_round_trip() {
    let key = Value::Binary(GENERIC_BINARY_SUBTYPE, (0u8..16u8).collect());
    let id = Uuid::decode(&key).expect("a 16-byte generic binary must decode");
    let re = id.encode();
    assert!(value_eq(&re, &key));
}

#[test]
fn uuid_rejects_garbage_without_panicking() {
    assert!(Uuid::decode(&Value::Binary(GENERIC_BINARY_SUBTYPE, vec![1u8; 15])).is_none());
    assert!(Uuid::decode(&Value::Binary(GENERIC_BINARY_SUBTYPE, vec![])).is_none());
    assert!(Uuid::decode(&Value::Binary(4, vec![1u8; 16])).is_none());
    assert!(Uuid::decode(&Value::ObjKey(vec![1u8; 16])).is_none());
    assert!(Uuid::decode(&Value::Null).is_none());
    assert!(Uuid::decode(&Value::Other).is_none());
}
