//! The collection and its acknowledgements.
//!
//! The facade consumes a narrow capability set from the document store:
//! find, find-one, insert-one, update-one and delete-one, each acknowledged
//! with the structured counts or inserted key the store reports. `MemStore`
//! is an in-memory collection with exactly that capability set, specified
//! against the sequence of documents it holds; the orchestration of the
//! facade is verified against it, and a real store client feeds the same
//! acknowledgement shapes in from outside.

use vstd::prelude::*;

use crate::value::Document;
use crate::value::Field;
use crate::value::FieldView;
use crate::value::Value;
use crate::value::ValueView;
use crate::value::apply_set_fields;
use crate::value::clone_bytes;
use crate::value::clone_doc;
use crate::value::clone_value;
use crate::value::doc_eq;
use crate::value::doc_matches;
use crate::value::get_field;
use crate::value::get_value;
use crate::value::matches_filter;
use crate::value::set_fields;

verus! {

/// Acknowledgement of a single-document insert: the key the store assigned
/// or kept for the new document.
pub struct InsertOutcome {
    pub inserted_id: Value,
}

/// Acknowledgement of a single-document update.
pub struct UpdateOutcome {
    pub matched_count: u64,
    pub modified_count: u64,
}

/// Acknowledgement of a single-document delete.
pub struct DeleteOutcome {
    pub deleted_count: u64,
}

/// Index of the first document matching the filter; the length when none
/// matches.
pub open spec fn match_index(docs: Seq<Seq<FieldView>>, filter: Seq<FieldView>) -> int
    decreases docs.len(),
{
    if docs.len() == 0 {
        0
    } else if doc_matches(docs[0], filter) {
        0
    } else {
        1 + match_index(docs.skip(1), filter)
    }
}

/// The store's own "first" match for a filter, if any.
pub open spec fn first_match(docs: Seq<Seq<FieldView>>, filter: Seq<FieldView>) -> Option<
    Seq<FieldView>,
> {
    if match_index(docs, filter) < docs.len() {
        Some(docs[match_index(docs, filter)])
    } else {
        None
    }
}

/// All documents matching the filter, in store order.
pub open spec fn matching_docs(docs: Seq<Seq<FieldView>>, filter: Seq<FieldView>) -> Seq<
    Seq<FieldView>,
>
    decreases docs.len(),
{
    if docs.len() == 0 {
        Seq::empty()
    } else if doc_matches(docs[0], filter) {
        seq![docs[0]] + matching_docs(docs.skip(1), filter)
    } else {
        matching_docs(docs.skip(1), filter)
    }
}

pub proof fn lemma_match_index(docs: Seq<Seq<FieldView>>, filter: Seq<FieldView>)
    ensures
        0 <= match_index(docs, filter) <= docs.len(),
        match_index(docs, filter) < docs.len() ==> doc_matches(
            docs[match_index(docs, filter)],
            filter,
        ),
        forall|j: int| 0 <= j < match_index(docs, filter) ==> !doc_matches(docs[j], filter),
    decreases docs.len(),
{
    if docs.len() == 0 {
    } else if doc_matches(docs[0], filter) {
    } else {
        lemma_match_index(docs.skip(1), filter);
        let mi = match_index(docs, filter);
        if mi < docs.len() {
            assert(docs.skip(1)[mi - 1] == docs[mi]);
        }
        assert forall|j: int| 0 <= j < mi implies !doc_matches(docs[j], filter) by {
            if j > 0 {
                assert(docs.skip(1)[j - 1] == docs[j]);
            }
        }
    }
}

pub proof fn lemma_matching_docs_push(docs: Seq<Seq<FieldView>>, filter: Seq<FieldView>, d: Seq<FieldView>)
    ensures
        matching_docs(docs.push(d), filter) == (if doc_matches(d, filter) {
            matching_docs(docs, filter).push(d)
        } else {
            matching_docs(docs, filter)
        }),
    decreases docs.len(),
{
    if docs.len() == 0 {
        assert(docs.push(d)[0] == d);
        assert(docs.push(d).skip(1) =~= Seq::<Seq<FieldView>>::empty());
        if doc_matches(d, filter) {
            assert(seq![d] + matching_docs(Seq::empty(), filter) =~= matching_docs(
                docs,
                filter,
            ).push(d));
        }
    } else {
        assert(docs.push(d)[0] == docs[0]);
        assert(docs.push(d).skip(1) =~= docs.skip(1).push(d));
        lemma_matching_docs_push(docs.skip(1), filter, d);
        if doc_matches(docs[0], filter) {
            if doc_matches(d, filter) {
                assert(seq![docs[0]] + matching_docs(docs.skip(1), filter).push(d)
                    =~= (seq![docs[0]] + matching_docs(docs.skip(1), filter)).push(d));
            }
        }
    }
}

/// The little-endian bytes of `n`, `k` of them.
pub open spec fn le_bytes_of(n: nat, k: nat) -> Seq<u8>
    decreases k,
{
    if k == 0 {
        Seq::empty()
    } else {
        seq![(n % 256) as u8] + le_bytes_of(n / 256, (k - 1) as nat)
    }
}

/// The native key the store assigns to the `n`-th keyless insert.
pub open spec fn generated_key(n: u64) -> ValueView {
    ValueView::ObjKey(le_bytes_of(n as nat, 12))
}

/// The document as the store persists it: unchanged when it carries an
/// identifier field, otherwise with a store-generated native key appended.
pub open spec fn stored_doc(d: Seq<FieldView>, n: u64) -> Seq<FieldView> {
    if get_field(d, "_id"@) is Some {
        d
    } else {
        d.push(FieldView { name: "_id"@, value: generated_key(n) })
    }
}

/// The key the store acknowledges for an insert of `d`.
pub open spec fn inserted_key(d: Seq<FieldView>, n: u64) -> ValueView {
    match get_field(d, "_id"@) {
        Some(v) => v,
        None => generated_key(n),
    }
}

/// The persisted form of an inserted document carries the acknowledged key
/// as its identifier field.
pub proof fn lemma_stored_doc_key(d: Seq<FieldView>, nk: u64)
    ensures
        get_field(stored_doc(d, nk), "_id"@) == Some(inserted_key(d, nk)),
{
    if get_field(d, "_id"@) is Some {
    } else {
        crate::value::lemma_get_field_push(
            d,
            FieldView { name: "_id"@, value: generated_key(nk) },
        );
    }
}

/// The identifier field's name.
pub fn id_field_name() -> (s: String)
    ensures
        s@ == "_id"@,
{
    "_id".to_owned()
}

/// The 12 little-endian bytes of the insert counter.
fn counter_key_bytes(n: u64) -> (r: Vec<u8>)
    ensures
        r@ == le_bytes_of(n as nat, 12),
{
    let mut out: Vec<u8> = Vec::new();
    let mut m: u64 = n;
    let mut k: usize = 0;
    while k < 12
        invariant
            k <= 12,
            out@.len() == k,
            le_bytes_of(n as nat, 12) == out@ + le_bytes_of(m as nat, (12 - k) as nat),
        decreases 12 - k,
    {
        let ghost m0 = m as nat;
        let ghost out0 = out@;
        let b: u8 = (m % 256) as u8;
        out.push(b);
        m = m / 256;
        proof {
            assert(le_bytes_of(m0, (12 - k) as nat) == seq![(m0 % 256) as u8] + le_bytes_of(
                m0 / 256,
                (12 - k - 1) as nat,
            ));
            assert(out0.push(b) + le_bytes_of(m as nat, (12 - k - 1) as nat) =~= out0 + (
            seq![b] + le_bytes_of(m as nat, (12 - k - 1) as nat)));
        }
        k += 1;
    }
    proof {
        assert(out@ + le_bytes_of(m as nat, 0) =~= out@);
    }
    out
}

/// An in-memory collection with the narrow capability set the facade
/// consumes, specified against the sequence of documents it holds.
/// `next_key` counts keyless inserts so that each gets a fresh native key.
pub struct MemStore {
    pub docs: Vec<Document>,
    pub next_key: u64,
}

impl View for MemStore {
    type V = Seq<Seq<FieldView>>;

    open spec fn view(&self) -> Seq<Seq<FieldView>> {
        Seq::new(self.docs@.len(), |i: int| self.docs@[i]@)
    }
}

impl MemStore {
    /// An empty collection.
    pub fn new() -> (s: MemStore)
        ensures
            s@ == Seq::<Seq<FieldView>>::empty(),
            s.next_key == 0,
    {
        let s = MemStore { docs: Vec::new(), next_key: 0 };
        proof {
            assert(s@ =~= Seq::<Seq<FieldView>>::empty());
        }
        s
    }

    /// All documents matching the filter, in store order; an empty result is
    /// not an error.
    pub fn find(&self, filter: &Document) -> (r: Vec<Document>)
        ensures
            r@.len() == matching_docs(self@, filter@).len(),
            forall|i: int|
                0 <= i < r@.len() ==> #[trigger] r@[i]@ == matching_docs(self@, filter@)[i],
    {
        let mut out: Vec<Document> = Vec::new();
        let n = self.docs.len();
        let mut i: usize = 0;
        while i < n
            invariant
                n == self.docs@.len(),
                i <= n,
                out@.len() == matching_docs(self@.take(i as int), filter@).len(),
                forall|j: int|
                    0 <= j < out@.len() ==> #[trigger] out@[j]@ == matching_docs(
                        self@.take(i as int),
                        filter@,
                    )[j],
            decreases n - i,
        {
            proof {
                assert(self@.take(i as int + 1) =~= self@.take(i as int).push(self@[i as int]));
                lemma_matching_docs_push(self@.take(i as int), filter@, self@[i as int]);
            }
            if matches_filter(&self.docs[i], filter) {
                out.push(clone_doc(&self.docs[i]));
            }
            i += 1;
        }
        proof {
            assert(self@.take(n as int) =~= self@);
        }
        out
    }

    /// The store's own first match for the filter, if any.
    pub fn find_one(&self, filter: &Document) -> (r: Option<Document>)
        ensures
            match r {
                Some(d) => first_match(self@, filter@) == Some(d@),
                None => first_match(self@, filter@) is None,
            },
    {
        let n = self.docs.len();
        let mut i: usize = 0;
        while i < n
            invariant
                n == self.docs@.len(),
                i <= n,
                forall|j: int| 0 <= j < i ==> !doc_matches(#[trigger] self@[j], filter@),
            decreases n - i,
        {
            if matches_filter(&self.docs[i], filter) {
                proof {
                    lemma_match_index(self@, filter@);
                    let mi = match_index(self@, filter@);
                    if mi < i as int {
                        assert(!doc_matches(self@[mi], filter@));
                    } else if mi > i as int {
                        assert(!doc_matches(self@[i as int], filter@));
                    }
                    assert(mi == i as int);
                }
                return Some(clone_doc(&self.docs[i]));
            }
            i += 1;
        }
        proof {
            lemma_match_index(self@, filter@);
            let mi = match_index(self@, filter@);
            if mi < self@.len() {
                assert(!doc_matches(self@[mi], filter@));
            }
            assert(mi == self@.len());
        }
        None
    }

    /// Insert one document. A document that carries an identifier field keeps
    /// it and the store acknowledges that key; a keyless document gets a
    /// fresh store-generated native key.
    pub fn insert_one(&mut self, data: &Document) -> (r: InsertOutcome)
        requires
            old(self).next_key < u64::MAX,
        ensures
            final(self)@ == old(self)@.push(stored_doc(data@, old(self).next_key)),
            r.inserted_id@ == inserted_key(data@, old(self).next_key),
            final(self).next_key == old(self).next_key + 1,
    {
        let name = id_field_name();
        let mut doc = clone_doc(data);
        let key: Value = match get_value(data, &name) {
            Some(v) => clone_value(v),
            None => {
                let kb = counter_key_bytes(self.next_key);
                let key = Value::ObjKey(clone_bytes(&kb));
                doc.fields.push(Field { name: id_field_name(), value: Value::ObjKey(kb) });
                proof {
                    assert(doc@ =~= data@.push(
                        FieldView { name: "_id"@, value: generated_key(old(self).next_key) },
                    ));
                }
                key
            },
        };
        self.docs.push(doc);
        self.next_key = self.next_key + 1;
        proof {
            assert(self@ =~= old(self)@.push(stored_doc(data@, old(self).next_key)));
        }
        InsertOutcome { inserted_id: key }
    }

    /// Apply a field-merge update to the first document matching the filter.
    /// The modified count is one only when the merge changed the document:
    /// a matched but unchanged document reports zero modified, exactly as the
    /// store does.
    pub fn update_one(&mut self, filter: &Document, payload: &Document) -> (r: UpdateOutcome)
        ensures
            final(self).next_key == old(self).next_key,
            ({
                let mi = match_index(old(self)@, filter@);
                if mi == old(self)@.len() {
                    final(self)@ == old(self)@ && r.matched_count == 0 && r.modified_count == 0
                } else {
                    let merged = set_fields(old(self)@[mi], payload@);
                    final(self)@ == old(self)@.update(mi, merged) && r.matched_count == 1
                        && r.modified_count == (if merged == old(self)@[mi] {
                        0u64
                    } else {
                        1u64
                    })
                }
            }),
    {
        let n = self.docs.len();
        let mut i: usize = 0;
        while i < n
            invariant
                n == self.docs@.len(),
                i <= n,
                *self == *old(self),
                forall|j: int| 0 <= j < i ==> !doc_matches(#[trigger] self@[j], filter@),
            decreases n - i,
        {
            if matches_filter(&self.docs[i], filter) {
                proof {
                    lemma_match_index(self@, filter@);
                    let mi = match_index(self@, filter@);
                    if mi < i as int {
                        assert(!doc_matches(self@[mi], filter@));
                    } else if mi > i as int {
                        assert(!doc_matches(self@[i as int], filter@));
                    }
                    assert(mi == i as int);
                }
                let merged = apply_set_fields(&self.docs[i], payload);
                let changed = !doc_eq(&merged, &self.docs[i]);
                self.docs[i] = merged;
                proof {
                    assert(self@ =~= old(self)@.update(
                        i as int,
                        set_fields(old(self)@[i as int], payload@),
                    ));
                }
                return UpdateOutcome {
                    matched_count: 1,
                    modified_count: if changed {
                        1
                    } else {
                        0
                    },
                };
            }
            i += 1;
        }
        proof {
            lemma_match_index(self@, filter@);
            let mi = match_index(self@, filter@);
            if mi < self@.len() {
                assert(!doc_matches(self@[mi], filter@));
            }
            assert(mi == self@.len());
        }
        UpdateOutcome { matched_count: 0, modified_count: 0 }
    }

    /// Delete the first document matching the filter, if any.
    pub fn delete_one(&mut self, filter: &Document) -> (r: DeleteOutcome)
        ensures
            final(self).next_key == old(self).next_key,
            ({
                let mi = match_index(old(self)@, filter@);
                if mi == old(self)@.len() {
                    final(self)@ == old(self)@ && r.deleted_count == 0
                } else {
                    final(self)@ == old(self)@.remove(mi) && r.deleted_count == 1
                }
            }),
    {
        let n = self.docs.len();
        let mut i: usize = 0;
        while i < n
            invariant
                n == self.docs@.len(),
                i <= n,
                *self == *old(self),
                forall|j: int| 0 <= j < i ==> !doc_matches(#[trigger] self@[j], filter@),
            decreases n - i,
        {
            if matches_filter(&self.docs[i], filter) {
                proof {
                    lemma_match_index(self@, filter@);
                    let mi = match_index(self@, filter@);
                    if mi < i as int {
                        assert(!doc_matches(self@[mi], filter@));
                    } else if mi > i as int {
                        assert(!doc_matches(self@[i as int], filter@));
                    }
                    assert(mi == i as int);
                }
                self.docs.remove(i);
                proof {
                    assert(self@ =~= old(self)@.remove(i as int));
                }
                return DeleteOutcome { deleted_count: 1 };
            }
            i += 1;
        }
        proof {
            lemma_match_index(self@, filter@);
            let mi = match_index(self@, filter@);
            if mi < self@.len() {
                assert(!doc_matches(self@[mi], filter@));
            }
            assert(mi == self@.len());
        }
        DeleteOutcome { deleted_count: 0 }
    }
}

} // verus!
