//! The model operations facade.
//!
//! The generic CRUD surface: find, find-one and find-by-id with their strict
//! variants, create, update and delete, each sequenced over the collection
//! and each translating the store's structured acknowledgement into the error
//! taxonomy. The interpretation steps (`decode_inserted_id`,
//! `check_update_outcome`, `check_delete_outcome`, `strict_result`) are the
//! decisions every store client shares: an asynchronous client performs the
//! round-trips itself and feeds each acknowledgement to the same functions.

use vstd::prelude::*;

use crate::codec::IdentifierCodec;
use crate::error::Error;
use crate::error::strict_result;
use crate::store::DeleteOutcome;
use crate::store::MemStore;
use crate::store::UpdateOutcome;
use crate::store::first_match;
use crate::store::id_field_name;
use crate::store::inserted_key;
use crate::store::lemma_match_index;
use crate::store::lemma_stored_doc_key;
use crate::store::match_index;
use crate::store::matching_docs;
use crate::store::stored_doc;
use crate::value::Document;
use crate::value::Field;
use crate::value::FieldView;
use crate::value::Value;
use crate::value::ValueView;
use crate::value::doc_matches;
use crate::value::get_field;
use crate::value::set_fields;

verus! {

/// The canonical single-document selector for a key: `{_id: key}`.
pub open spec fn id_filter_view(k: ValueView) -> Seq<FieldView> {
    seq![FieldView { name: "_id"@, value: k }]
}

/// Synthesize the identifier-based filter `{_id: encode(id)}`.
pub fn search_filter<I: IdentifierCodec>(id: &I) -> (r: Document)
    requires
        id.wf(),
    ensures
        r@ == id_filter_view(id.encode_spec()),
{
    let mut fields: Vec<Field> = Vec::new();
    fields.push(Field { name: id_field_name(), value: id.encode() });
    let r = Document { fields };
    proof {
        assert(r@ =~= id_filter_view(id.encode_spec()));
    }
    r
}

/// Decode the key an insert acknowledgement carries under the active
/// identifier strategy; an acknowledgement that carries no key the strategy
/// recognizes fails the create.
pub fn decode_inserted_id<I: IdentifierCodec>(inserted_id: &Value) -> (r: Result<I, Error>)
    ensures
        match r {
            Ok(id) => id.wf() && id.encode_spec() == inserted_id@,
            Err(e) => (forall|id: I| id.wf() ==> #[trigger] id.encode_spec() != inserted_id@)
                && match e {
                Error::CreateFailed(m) => m@ == "No ID returned"@,
                _ => false,
            },
        },
{
    match I::decode(inserted_id) {
        Some(id) => Ok(id),
        None => Err(Error::CreateFailed("No ID returned".to_owned())),
    }
}

/// An update succeeded only when the store modified exactly one document; a
/// matched but unchanged document reports zero modified and fails too.
pub fn check_update_outcome(outcome: &UpdateOutcome) -> (r: Result<(), Error>)
    ensures
        match r {
            Ok(_) => outcome.modified_count == 1,
            Err(e) => outcome.modified_count != 1 && match e {
                Error::UpdateFailed(m) => m@ == "No record updated"@,
                _ => false,
            },
        },
{
    if outcome.modified_count != 1 {
        Err(Error::UpdateFailed("No record updated".to_owned()))
    } else {
        Ok(())
    }
}

/// A delete succeeded only when the store deleted exactly one document.
pub fn check_delete_outcome(outcome: &DeleteOutcome) -> (r: Result<(), Error>)
    ensures
        match r {
            Ok(_) => outcome.deleted_count == 1,
            Err(e) => outcome.deleted_count != 1 && match e {
                Error::DeleteFailed(m) => m@ == "No record deleted"@,
                _ => false,
            },
        },
{
    if outcome.deleted_count != 1 {
        Err(Error::DeleteFailed("No record deleted".to_owned()))
    } else {
        Ok(())
    }
}

/// Stream all matches into an in-memory ordered sequence; an empty sequence
/// is not an error.
pub fn find(store: &MemStore, filter: &Document) -> (r: Result<Vec<Document>, Error>)
    ensures
        match r {
            Ok(items) => items@.len() == matching_docs(store@, filter@).len() && forall|i: int|
                0 <= i < items@.len() ==> #[trigger] items@[i]@ == matching_docs(
                    store@,
                    filter@,
                )[i],
            Err(_) => false,
        },
{
    Ok(store.find(filter))
}

/// At most one match: the store's own first match, or nothing.
pub fn find_one(store: &MemStore, filter: &Document) -> (r: Result<Option<Document>, Error>)
    ensures
        match r {
            Ok(Some(d)) => first_match(store@, filter@) == Some(d@),
            Ok(None) => first_match(store@, filter@) is None,
            Err(_) => false,
        },
{
    Ok(store.find_one(filter))
}

/// Like `find_one`, but a filter matching zero documents is `NotFound`.
pub fn find_one_strict(store: &MemStore, filter: &Document) -> (r: Result<Document, Error>)
    ensures
        match r {
            Ok(d) => first_match(store@, filter@) == Some(d@),
            Err(e) => first_match(store@, filter@) is None && e is NotFound,
        },
{
    let item = store.find_one(filter);
    strict_result(item)
}

/// `find_one` with the filter synthesized as `{_id: encode(id)}`.
pub fn find_by_id<I: IdentifierCodec>(store: &MemStore, id: &I) -> (r: Result<
    Option<Document>,
    Error,
>)
    requires
        id.wf(),
    ensures
        match r {
            Ok(Some(d)) => first_match(store@, id_filter_view(id.encode_spec())) == Some(d@),
            Ok(None) => first_match(store@, id_filter_view(id.encode_spec())) is None,
            Err(_) => false,
        },
{
    let filter = search_filter(id);
    find_one(store, &filter)
}

/// `find_one_strict` with the filter synthesized as `{_id: encode(id)}`.
pub fn find_by_id_strict<I: IdentifierCodec>(store: &MemStore, id: &I) -> (r: Result<
    Document,
    Error,
>)
    requires
        id.wf(),
    ensures
        match r {
            Ok(d) => first_match(store@, id_filter_view(id.encode_spec())) == Some(d@),
            Err(e) => first_match(store@, id_filter_view(id.encode_spec())) is None
                && e is NotFound,
        },
{
    let filter = search_filter(id);
    find_one_strict(store, &filter)
}

/// Insert the instance, decode the acknowledged key under the active
/// identifier strategy, and immediately re-read the document by that
/// identifier on the strict path, so the caller observes exactly what the
/// store persisted. An acknowledgement without a decodable key is
/// `CreateFailed` — the insert itself is not rolled back.
pub fn create_one<I: IdentifierCodec>(store: &mut MemStore, data: &Document) -> (r: Result<
    Document,
    Error,
>)
    requires
        old(store).next_key < u64::MAX,
    ensures
        final(store)@ == old(store)@.push(stored_doc(data@, old(store).next_key)),
        final(store).next_key == old(store).next_key + 1,
        ({
            let k = inserted_key(data@, old(store).next_key);
            if exists|id: I| id.wf() && #[trigger] id.encode_spec() == k {
                match r {
                    Ok(d) => first_match(final(store)@, id_filter_view(k)) == Some(d@),
                    Err(_) => false,
                }
            } else {
                match r {
                    Err(e) => match e {
                        Error::CreateFailed(m) => m@ == "No ID returned"@,
                        _ => false,
                    },
                    Ok(_) => false,
                }
            }
        }),
{
    let ghost nk = old(store).next_key;
    let outcome = store.insert_one(data);
    match decode_inserted_id::<I>(&outcome.inserted_id) {
        Ok(id) => {
            proof {
                let k = inserted_key(data@, nk);
                let s = stored_doc(data@, nk);
                let f = id_filter_view(k);
                lemma_stored_doc_key(data@, nk);
                assert(f[0].name == "_id"@ && f[0].value == k);
                assert(doc_matches(s, f));
                let docs = store@;
                assert(docs[docs.len() - 1] == s);
                lemma_match_index(docs, f);
                if match_index(docs, f) == docs.len() {
                    assert(!doc_matches(docs[docs.len() - 1], f));
                }
                assert(first_match(docs, f) is Some);
            }
            find_by_id_strict(store, &id)
        },
        Err(e) => Err(e),
    }
}

/// Field-merge the payload into the single document the filter matches, then
/// re-read it on the strict path. A modified count other than one fails with
/// `UpdateFailed`: a filter matching nothing and a matched document the merge
/// left unchanged (the store reports zero modified for it) fail alike — the
/// store's asymmetric modified count is deliberately surfaced as-is.
pub fn update_one(store: &mut MemStore, filter: &Document, payload: &Document) -> (r: Result<
    Document,
    Error,
>)
    ensures
        final(store).next_key == old(store).next_key,
        ({
            let mi = match_index(old(store)@, filter@);
            if mi == old(store)@.len() {
                final(store)@ == old(store)@ && match r {
                    Err(e) => match e {
                        Error::UpdateFailed(m) => m@ == "No record updated"@,
                        _ => false,
                    },
                    Ok(_) => false,
                }
            } else {
                let merged = set_fields(old(store)@[mi], payload@);
                final(store)@ == old(store)@.update(mi, merged) && if merged == old(store)@[mi] {
                    match r {
                        Err(e) => match e {
                            Error::UpdateFailed(m) => m@ == "No record updated"@,
                            _ => false,
                        },
                        Ok(_) => false,
                    }
                } else {
                    match r {
                        Ok(d) => first_match(final(store)@, filter@) == Some(d@),
                        Err(e) => first_match(final(store)@, filter@) is None && e is NotFound,
                    }
                }
            }
        }),
{
    let outcome = store.update_one(filter, payload);
    match check_update_outcome(&outcome) {
        Err(e) => Err(e),
        Ok(_) => find_one_strict(store, filter),
    }
}

/// `update_one` with the filter synthesized as `{_id: encode(id)}`.
pub fn update_by_id<I: IdentifierCodec>(
    store: &mut MemStore,
    id: &I,
    payload: &Document,
) -> (r: Result<Document, Error>)
    requires
        id.wf(),
    ensures
        final(store).next_key == old(store).next_key,
        ({
            let f = id_filter_view(id.encode_spec());
            let mi = match_index(old(store)@, f);
            if mi == old(store)@.len() {
                final(store)@ == old(store)@ && match r {
                    Err(e) => match e {
                        Error::UpdateFailed(m) => m@ == "No record updated"@,
                        _ => false,
                    },
                    Ok(_) => false,
                }
            } else {
                let merged = set_fields(old(store)@[mi], payload@);
                final(store)@ == old(store)@.update(mi, merged) && if merged == old(store)@[mi] {
                    match r {
                        Err(e) => match e {
                            Error::UpdateFailed(m) => m@ == "No record updated"@,
                            _ => false,
                        },
                        Ok(_) => false,
                    }
                } else {
                    match r {
                        Ok(d) => first_match(final(store)@, f) == Some(d@),
                        Err(e) => first_match(final(store)@, f) is None && e is NotFound,
                    }
                }
            }
        }),
{
    let filter = search_filter(id);
    update_one(store, &filter, payload)
}

/// Delete the single document the filter matches. A deleted count other than
/// one — a filter matching nothing, or an already-deleted identifier — fails
/// with `DeleteFailed`, never `NotFound`.
pub fn delete_one(store: &mut MemStore, filter: &Document) -> (r: Result<(), Error>)
    ensures
        final(store).next_key == old(store).next_key,
        ({
            let mi = match_index(old(store)@, filter@);
            if mi == old(store)@.len() {
                final(store)@ == old(store)@ && match r {
                    Err(e) => match e {
                        Error::DeleteFailed(m) => m@ == "No record deleted"@,
                        _ => false,
                    },
                    Ok(_) => false,
                }
            } else {
                final(store)@ == old(store)@.remove(mi) && r is Ok
            }
        }),
{
    let outcome = store.delete_one(filter);
    match check_delete_outcome(&outcome) {
        Err(e) => Err(e),
        Ok(_) => Ok(()),
    }
}

/// `delete_one` with the filter synthesized as `{_id: encode(id)}`.
pub fn delete_by_id<I: IdentifierCodec>(store: &mut MemStore, id: &I) -> (r: Result<(), Error>)
    requires
        id.wf(),
    ensures
        final(store).next_key == old(store).next_key,
        ({
            let f = id_filter_view(id.encode_spec());
            let mi = match_index(old(store)@, f);
            if mi == old(store)@.len() {
                final(store)@ == old(store)@ && match r {
                    Err(e) => match e {
                        Error::DeleteFailed(m) => m@ == "No record deleted"@,
                        _ => false,
                    },
                    Ok(_) => false,
                }
            } else {
                final(store)@ == old(store)@.remove(mi) && r is Ok
            }
        }),
{
    let filter = search_filter(id);
    delete_one(store, &filter)
}

/// A successfully created document is immediately refound by its identifier:
/// when no earlier document answers to the new document's key — the
/// identifier uniquely addresses at most one document — the strict re-read
/// inside create returns exactly the document as persisted, and that document
/// extends the caller's instance by at most the store-assigned identifier
/// field, leaving every caller-supplied field unchanged.
pub proof fn lemma_create_refetches_created(pre: Seq<Seq<FieldView>>, nk: u64, d: Seq<FieldView>)
    requires
        forall|j: int|
            0 <= j < pre.len() ==> !doc_matches(
                #[trigger] pre[j],
                id_filter_view(inserted_key(d, nk)),
            ),
    ensures
        first_match(pre.push(stored_doc(d, nk)), id_filter_view(inserted_key(d, nk))) == Some(
            stored_doc(d, nk),
        ),
        d.len() <= stored_doc(d, nk).len(),
        forall|i: int| 0 <= i < d.len() ==> #[trigger] stored_doc(d, nk)[i] == d[i],
{
    let s = stored_doc(d, nk);
    let k = inserted_key(d, nk);
    let f = id_filter_view(k);
    lemma_stored_doc_key(d, nk);
    assert(f[0].name == "_id"@ && f[0].value == k);
    assert(doc_matches(s, f));
    let docs = pre.push(s);
    lemma_match_index(docs, f);
    let mi = match_index(docs, f);
    if mi < pre.len() {
        assert(docs[mi] == pre[mi]);
        assert(!doc_matches(pre[mi], f));
    }
    if mi == docs.len() {
        assert(!doc_matches(docs[docs.len() - 1], f));
    }
    assert(mi == pre.len());
    assert(docs[mi] == s);
}

/// An update preserves identity: the field merge of a payload that carries no
/// identifier field leaves the matched document's identifier unchanged, so
/// the updated document still answers to the same identifier filter.
pub proof fn lemma_update_preserves_identity(d: Seq<FieldView>, p: Seq<FieldView>)
    requires
        forall|i: int| 0 <= i < p.len() ==> (#[trigger] p[i].name) != "_id"@,
    ensures
        get_field(set_fields(d, p), "_id"@) == get_field(d, "_id"@),
{
    crate::value::lemma_set_fields_preserves_other(d, p, "_id"@);
}

/// A create whose acknowledgement carries no decodable key leaves no document
/// findable under any identifier derived from the attempt: an identifier
/// whose filter matched nothing before the insert still matches nothing after
/// it, because the persisted document's key is one that no well-formed
/// identifier encodes to.
pub proof fn lemma_failed_create_unaddressable<I: IdentifierCodec>(
    pre: Seq<Seq<FieldView>>,
    nk: u64,
    d: Seq<FieldView>,
    id: I,
)
    requires
        id.wf(),
        forall|j: I| j.wf() ==> #[trigger] j.encode_spec() != inserted_key(d, nk),
        forall|j: int|
            0 <= j < pre.len() ==> !doc_matches(
                #[trigger] pre[j],
                id_filter_view(id.encode_spec()),
            ),
    ensures
        first_match(pre.push(stored_doc(d, nk)), id_filter_view(id.encode_spec())) is None,
{
    let s = stored_doc(d, nk);
    let k = inserted_key(d, nk);
    let f = id_filter_view(id.encode_spec());
    lemma_stored_doc_key(d, nk);
    assert(f[0].name == "_id"@ && f[0].value == id.encode_spec());
    assert(id.encode_spec() != k);
    assert(get_field(s, f[0].name) == Some(k));
    assert(!doc_matches(s, f));
    let docs = pre.push(s);
    lemma_match_index(docs, f);
    let mi = match_index(docs, f);
    if mi < docs.len() {
        assert(doc_matches(docs[mi], f));
        if mi < pre.len() {
            assert(docs[mi] == pre[mi]);
        } else {
            assert(docs[mi] == s);
        }
        assert(false);
    }
}

} // verus!
