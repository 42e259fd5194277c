//! Identifier strategies.
//!
//! A model's identifier is carried in one of two mutually exclusive key
//! encodings, fixed per deployment at composition time: the store's native
//! 12-byte object key, used as-is, or a client-generated 128-bit identifier,
//! packed into the store's generic binary wrapper. `IdentifierCodec` is the
//! bidirectional mapping between an identifier and the key the store matches
//! on; each strategy is one implementation.

use vstd::prelude::*;

use crate::value::Value;
use crate::value::ValueView;
use crate::value::clone_bytes;

verus! {

/// Subtype tag of the store's generic binary wrapper.
pub const GENERIC_BINARY_SUBTYPE: u8 = 0;

/// Bidirectional mapping between a model identifier and the store's
/// matching-key representation.
///
/// `decode` fails exactly on the keys that no well-formed identifier encodes
/// to, so the two round trips hold: a decoded key re-encodes to itself, and
/// an encoded identifier decodes back to an identifier with the same key.
pub trait IdentifierCodec: Sized {
    /// The identifier has the strategy's shape (its exact byte width).
    spec fn wf(&self) -> bool;

    /// The key the store matches on for this identifier.
    spec fn encode_spec(&self) -> ValueView;

    /// Encode the identifier into the store's key representation.
    fn encode(&self) -> (r: Value)
        requires
            self.wf(),
        ensures
            r@ == self.encode_spec(),
    ;

    /// Decode the key a store acknowledgement echoed back, failing — never
    /// panicking — on any key shape the strategy does not produce.
    fn decode(k: &Value) -> (r: Option<Self>)
        ensures
            match r {
                Some(id) => id.wf() && id.encode_spec() == k@,
                None => forall|id: Self| id.wf() ==> id.encode_spec() != k@,
            },
    ;
}

/// The store's native key: 12 bytes, generated by the store itself.
pub struct ObjectId {
    pub bytes: Vec<u8>,
}

impl IdentifierCodec for ObjectId {
    open spec fn wf(&self) -> bool {
        self.bytes@.len() == 12
    }

    open spec fn encode_spec(&self) -> ValueView {
        ValueView::ObjKey(self.bytes@)
    }

    /// The native key is used as-is.
    fn encode(&self) -> (r: Value) {
        Value::ObjKey(clone_bytes(&self.bytes))
    }

    fn decode(k: &Value) -> (r: Option<Self>) {
        match k {
            Value::ObjKey(b) => {
                if b.len() == 12 {
                    Some(ObjectId { bytes: clone_bytes(b) })
                } else {
                    proof {
                        assert forall|id: ObjectId| id.wf() implies id.encode_spec() != k@ by {
                            if id.encode_spec() == k@ {
                                assert(id.bytes@ == b@);
                            }
                        }
                    }
                    None
                }
            },
            _ => {
                proof {
                    assert forall|id: ObjectId| id.wf() implies id.encode_spec() != k@ by {
                        assert(id.encode_spec() is ObjKey);
                    }
                }
                None
            },
        }
    }
}

/// A client-generated 128-bit identifier, carried in the store's generic
/// binary wrapper with the fixed subtype tag.
pub struct Uuid {
    pub bytes: Vec<u8>,
}

impl IdentifierCodec for Uuid {
    open spec fn wf(&self) -> bool {
        self.bytes@.len() == 16
    }

    open spec fn encode_spec(&self) -> ValueView {
        ValueView::Binary(GENERIC_BINARY_SUBTYPE, self.bytes@)
    }

    /// Pack the 128-bit value into the generic binary wrapper.
    fn encode(&self) -> (r: Value) {
        Value::Binary(GENERIC_BINARY_SUBTYPE, clone_bytes(&self.bytes))
    }

    fn decode(k: &Value) -> (r: Option<Self>) {
        match k {
            Value::Binary(st, b) => {
                if *st == GENERIC_BINARY_SUBTYPE && b.len() == 16 {
                    Some(Uuid { bytes: clone_bytes(b) })
                } else {
                    proof {
                        assert forall|id: Uuid| id.wf() implies id.encode_spec() != k@ by {
                            if id.encode_spec() == k@ {
                                assert(id.bytes@ == b@);
                            }
                        }
                    }
                    None
                }
            },
            _ => {
                proof {
                    assert forall|id: Uuid| id.wf() implies id.encode_spec() != k@ by {
                        assert(id.encode_spec() is Binary);
                    }
                }
                None
            },
        }
    }
}

/// The native-key encoding is injective: equal keys name equal identifiers.
pub proof fn lemma_object_id_encode_injective(a: ObjectId, b: ObjectId)
    requires
        a.encode_spec() == b.encode_spec(),
    ensures
        a.bytes@ == b.bytes@,
{
}

/// The client-key encoding is injective: equal keys name equal identifiers.
pub proof fn lemma_uuid_encode_injective(a: Uuid, b: Uuid)
    requires
        a.encode_spec() == b.encode_spec(),
    ensures
        a.bytes@ == b.bytes@,
{
}

} // verus!
