//! The document store: versioned records, by collection and key.

use crate::auth::{authorize, permitted, Decision, Holders};
use crate::controllers::{Controllers, ControllersView};
use crate::error::{denied, Error, ErrorView, Operation};
use crate::list::{
    arranged, key_matches, matches_key, owner_matches, page, paginate, sort_pairs, unfiltered,
    ListOrder, ListParams, ListParamsView, ListResults,
};
use crate::principal::{copy_bytes, Principal};
use crate::records::{delete_all_outcome, delete_permitted, Held};
use crate::rules::{get_rule, rule_of, Rule, Rules, RulesType};
use crate::table::{copy_list, lookup, put, without, Duplicate, Key, Table};
use vstd::prelude::*;

verus! {

/// The version of a record that was just created.
pub const INITIAL_VERSION: u64 = 1;

/// A stored document. Its collection and key are what it is filed under.
#[derive(Debug, Clone, PartialEq, Eq)]
pub struct Doc {
    pub owner: Principal,
    pub delegates: Vec<Principal>,
    pub data: Vec<u8>,
    pub created_at: u64,
    pub updated_at: u64,
    pub version: u64,
}

/// The model of a [`Doc`].
pub struct DocView {
    pub owner: Seq<u8>,
    pub delegates: Seq<Seq<u8>>,
    pub data: Seq<u8>,
    pub created_at: u64,
    pub updated_at: u64,
    pub version: u64,
}

impl DeepView for Doc {
    type V = DocView;

    open spec fn deep_view(&self) -> DocView {
        DocView {
            owner: self.owner@,
            delegates: self.delegates.deep_view(),
            data: self.data@,
            created_at: self.created_at,
            updated_at: self.updated_at,
            version: self.version,
        }
    }
}

impl Duplicate for Doc {
    fn duplicate(&self) -> (r: Doc) {
        Doc {
            owner: self.owner.duplicate(),
            delegates: copy_list(&self.delegates),
            data: copy_bytes(&self.data),
            created_at: self.created_at,
            updated_at: self.updated_at,
            version: self.version,
        }
    }
}

/// What a caller writes: the payload, the callers that the record names,
/// and the version that the caller believes to be stored.
#[derive(Debug, Clone, PartialEq, Eq)]
pub struct SetDoc {
    pub data: Vec<u8>,
    pub delegates: Vec<Principal>,
    pub version: Option<u64>,
}

/// The model of a [`SetDoc`].
pub struct SetDocView {
    pub data: Seq<u8>,
    pub delegates: Seq<Seq<u8>>,
    pub version: Option<u64>,
}

impl DeepView for SetDoc {
    type V = SetDocView;

    open spec fn deep_view(&self) -> SetDocView {
        SetDocView {
            data: self.data@,
            delegates: self.delegates.deep_view(),
            version: self.version,
        }
    }
}

/// What a caller deletes with: the version it believes to be stored.
#[derive(Debug, Clone, Copy, PartialEq, Eq)]
pub struct DelDoc {
    pub version: Option<u64>,
}

/// A record before and after a write.
#[derive(Debug, Clone, PartialEq, Eq)]
pub struct DocUpsert {
    pub before: Option<Doc>,
    pub after: Doc,
}

/// The outcome of a write or a delete, with the place it happened at.
#[derive(Debug, Clone, PartialEq, Eq)]
pub struct DocContext<T> {
    pub key: String,
    pub collection: String,
    pub data: T,
}

/// The model of a [`DocUpsert`].
pub struct DocUpsertView {
    pub before: Option<DocView>,
    pub after: DocView,
}

impl DeepView for DocUpsert {
    type V = DocUpsertView;

    open spec fn deep_view(&self) -> DocUpsertView {
        DocUpsertView { before: self.before.deep_view(), after: self.after.deep_view() }
    }
}

/// The model of a [`DocContext`].
pub struct DocContextView<V> {
    pub key: Seq<char>,
    pub collection: Seq<char>,
    pub data: V,
}

impl<T: DeepView> DeepView for DocContext<T> {
    type V = DocContextView<T::V>;

    open spec fn deep_view(&self) -> DocContextView<T::V> {
        DocContextView { key: self.key@, collection: self.collection@, data: self.data.deep_view() }
    }
}

impl DeepView for DelDoc {
    type V = DelDoc;

    open spec fn deep_view(&self) -> DelDoc {
        *self
    }
}

/// The documents, filed under collection and key.
pub type DocStore = Table<(String, String), Doc>;

/// The model of one entry of the store.
pub type DocEntry = ((Seq<char>, Seq<char>), DocView);

/// The model of the store.
pub type DocsView = Seq<DocEntry>;

/// The holders of a record, where there is one.
pub open spec fn holders_of(existing: Option<DocView>) -> Option<Holders> {
    match existing {
        Some(doc) => Some((doc.owner, doc.delegates)),
        None => None,
    }
}

/// Whether the version that a caller expects is the stored one. A caller
/// that expects nothing is never wrong; one that expects a version where
/// nothing is stored always is.
pub open spec fn version_accepted(expected: Option<u64>, stored: Option<u64>) -> bool {
    match expected {
        None => true,
        Some(version) => stored == Some(version),
    }
}

/// The version of a record, where there is one.
pub open spec fn version_of(existing: Option<DocView>) -> Option<u64> {
    match existing {
        Some(doc) => Some(doc.version),
        None => None,
    }
}

/// The time of a write that follows one at `previous`: the clock, or, where
/// the clock has not moved on, the instant after the previous write.
pub open spec fn next_timestamp(previous: u64, now: u64) -> int {
    if now > previous {
        now as int
    } else {
        previous + 1
    }
}

/// The record that a permitted write leaves, or `None` where the version or
/// the time of the stored record cannot be followed by another.
pub open spec fn written(
    existing: Option<DocView>,
    caller: Seq<u8>,
    input: SetDocView,
    now: u64,
) -> Option<DocView> {
    match existing {
        None => Some(
            DocView {
                owner: caller,
                delegates: input.delegates,
                data: input.data,
                created_at: now,
                updated_at: now,
                version: INITIAL_VERSION,
            },
        ),
        Some(current) => if current.version == u64::MAX || next_timestamp(
            current.updated_at,
            now,
        ) > u64::MAX {
            None
        } else {
            Some(
                DocView {
                    owner: current.owner,
                    delegates: input.delegates,
                    data: input.data,
                    created_at: current.created_at,
                    updated_at: next_timestamp(current.updated_at, now) as u64,
                    version: (current.version + 1) as u64,
                },
            )
        },
    }
}

/// What a write does: the store it leaves, and the record before and
/// after with its place, or the refusal.
pub open spec fn set_doc_outcome(
    docs: DocsView,
    rule: Rule,
    controllers: ControllersView,
    caller: Seq<u8>,
    collection: Seq<char>,
    key: Seq<char>,
    input: SetDocView,
    now: u64,
) -> Result<(DocsView, DocContextView<DocUpsertView>), ErrorView> {
    let existing = lookup(docs, (collection, key));
    if !permitted(rule, Operation::Write, caller, controllers, holders_of(existing)) {
        Err(denied(collection, Operation::Write))
    } else if !version_accepted(input.version, version_of(existing)) {
        Err(ErrorView::VersionConflict)
    } else {
        match written(existing, caller, input, now) {
            None => Err(ErrorView::InvalidInput),
            Some(doc) => Ok(
                (
                    put(docs, (collection, key), doc),
                    DocContextView {
                        key,
                        collection,
                        data: DocUpsertView { before: existing, after: doc },
                    },
                ),
            ),
        }
    }
}

/// What a read returns: the record, if there is one, or the refusal.
pub open spec fn get_doc_outcome(
    docs: DocsView,
    rule: Rule,
    controllers: ControllersView,
    caller: Seq<u8>,
    collection: Seq<char>,
    key: Seq<char>,
) -> Result<Option<DocView>, ErrorView> {
    let existing = lookup(docs, (collection, key));
    if !permitted(rule, Operation::Read, caller, controllers, holders_of(existing)) {
        Err(denied(collection, Operation::Read))
    } else {
        Ok(existing)
    }
}

/// What a delete does: the store it leaves and the record it removed, or
/// the refusal.
pub open spec fn delete_doc_outcome(
    docs: DocsView,
    rule: Rule,
    controllers: ControllersView,
    caller: Seq<u8>,
    collection: Seq<char>,
    key: Seq<char>,
    expected: Option<u64>,
) -> Result<(DocsView, DocContextView<Option<DocView>>), ErrorView> {
    let existing = lookup(docs, (collection, key));
    if !permitted(rule, Operation::Write, caller, controllers, holders_of(existing)) {
        Err(denied(collection, Operation::Write))
    } else if !version_accepted(expected, version_of(existing)) {
        Err(ErrorView::VersionConflict)
    } else {
        Ok((without(docs, (collection, key)), DocContextView { key, collection, data: existing }))
    }
}

/// Decides on a write by `caller` to the record at `place`.
fn decide(
    docs: &DocStore,
    place: Option<usize>,
    caller: &Principal,
    rule: &Rule,
    operation: Operation,
    controllers: &Controllers,
) -> (r: Decision)
    requires
        docs.wf(),
        controllers.wf(),
        place matches Some(i) ==> i < docs@.len(),
    ensures
        (r == Decision::Allow) == permitted(
            *rule,
            operation,
            caller@,
            controllers@,
            holders_of(
                match place {
                    Some(i) => Some(docs@[i as int].1),
                    None => None,
                },
            ),
        ),
{
    match place {
        Some(i) => {
            let current = docs.value_at(i);
            authorize(
                caller,
                rule,
                operation,
                controllers,
                Some((&current.owner, &current.delegates)),
            )
        },
        None => authorize(caller, rule, operation, controllers, None),
    }
}

/// Writes a document: creates it at version 1 with the caller as owner, or
/// replaces the stored one and moves its version on by one.
pub fn set_doc_store(
    docs: &mut DocStore,
    rules: &Rules,
    controllers: &Controllers,
    caller: &Principal,
    collection: String,
    key: String,
    doc: SetDoc,
    now: u64,
) -> (r: Result<DocContext<DocUpsert>, Error>)
    requires
        old(docs).wf(),
        rules.wf(),
        controllers.wf(),
    ensures
        final(docs).wf(),
        match set_doc_outcome(
            old(docs)@,
            rule_of(rules@, RulesType::Db, collection@),
            controllers@,
            caller@,
            collection@,
            key@,
            doc.deep_view(),
            now,
        ) {
            Ok((stored, context)) => r matches Ok(found) && found.deep_view() == context
                && final(docs)@ == stored,
            Err(refusal) => r matches Err(error) && error.deep_view() == refusal && final(docs)@
                == old(docs)@,
        },
{
    let rule = get_rule(rules, RulesType::Db, &collection);
    let id = (collection, key);
    let place = docs.position(&id);
    let decision = decide(docs, place, caller, &rule, Operation::Write, controllers);
    if decision == Decision::Deny {
        return Err(Error::PermissionDenied { collection: id.0, operation: Operation::Write });
    }
    let next = match place {
        None => {
            if doc.version.is_some() {
                return Err(Error::VersionConflict);
            }
            Doc {
                owner: caller.duplicate(),
                delegates: doc.delegates,
                data: doc.data,
                created_at: now,
                updated_at: now,
                version: INITIAL_VERSION,
            }
        },
        Some(i) => {
            let current = docs.value_at(i);
            match doc.version {
                Some(version) => {
                    if version != current.version {
                        return Err(Error::VersionConflict);
                    }
                },
                None => {},
            }
            if current.version == u64::MAX || (now <= current.updated_at && current.updated_at
                == u64::MAX) {
                return Err(Error::InvalidInput);
            }
            let updated_at = if now > current.updated_at {
                now
            } else {
                current.updated_at + 1
            };
            Doc {
                owner: current.owner.duplicate(),
                delegates: doc.delegates,
                data: doc.data,
                created_at: current.created_at,
                updated_at,
                version: current.version + 1,
            }
        },
    };
    let after = next.duplicate();
    let copy = id.duplicate();
    let before = docs.put(id, next);
    Ok(DocContext { key: copy.1, collection: copy.0, data: DocUpsert { before, after } })
}

/// Reads a document. An absent document is `None`, which is no refusal.
pub fn get_doc_store(
    docs: &DocStore,
    rules: &Rules,
    controllers: &Controllers,
    caller: &Principal,
    collection: String,
    key: String,
) -> (r: Result<Option<Doc>, Error>)
    requires
        docs.wf(),
        rules.wf(),
        controllers.wf(),
    ensures
        match get_doc_outcome(
            docs@,
            rule_of(rules@, RulesType::Db, collection@),
            controllers@,
            caller@,
            collection@,
            key@,
        ) {
            Ok(found) => r matches Ok(doc) && doc.deep_view() == found,
            Err(refusal) => r matches Err(error) && error.deep_view() == refusal,
        },
{
    let rule = get_rule(rules, RulesType::Db, &collection);
    let id = (collection, key);
    let place = docs.position(&id);
    let decision = decide(docs, place, caller, &rule, Operation::Read, controllers);
    if decision == Decision::Deny {
        return Err(Error::PermissionDenied { collection: id.0, operation: Operation::Read });
    }
    match place {
        Some(i) => Ok(Some(docs.value_at(i).duplicate())),
        None => Ok(None),
    }
}

/// Deletes a document and hands back what was removed, `None` where there
/// was nothing.
pub fn delete_doc_store(
    docs: &mut DocStore,
    rules: &Rules,
    controllers: &Controllers,
    caller: &Principal,
    collection: String,
    key: String,
    doc: DelDoc,
) -> (r: Result<DocContext<Option<Doc>>, Error>)
    requires
        old(docs).wf(),
        rules.wf(),
        controllers.wf(),
    ensures
        final(docs).wf(),
        match delete_doc_outcome(
            old(docs)@,
            rule_of(rules@, RulesType::Db, collection@),
            controllers@,
            caller@,
            collection@,
            key@,
            doc.version,
        ) {
            Ok((stored, context)) => r matches Ok(found) && found.deep_view() == context
                && final(docs)@ == stored,
            Err(refusal) => r matches Err(error) && error.deep_view() == refusal && final(docs)@
                == old(docs)@,
        },
{
    let rule = get_rule(rules, RulesType::Db, &collection);
    let id = (collection, key);
    let place = docs.position(&id);
    let decision = decide(docs, place, caller, &rule, Operation::Write, controllers);
    if decision == Decision::Deny {
        return Err(Error::PermissionDenied { collection: id.0, operation: Operation::Write });
    }
    match doc.version {
        Some(version) => {
            match place {
                Some(i) => {
                    if docs.value_at(i).version != version {
                        return Err(Error::VersionConflict);
                    }
                },
                None => {
                    return Err(Error::VersionConflict);
                },
            }
        },
        None => {},
    }
    let removed = docs.take(&id);
    Ok(DocContext { key: id.1, collection: id.0, data: removed })
}

/// Which entries of the store a listing of `collection` keeps: those of
/// the collection that pass the matcher and the owner asked for, and that
/// the caller may read.
pub open spec fn doc_listed(
    collection: Seq<char>,
    params: ListParamsView,
    rule: Rule,
    controllers: ControllersView,
    caller: Seq<u8>,
) -> spec_fn(DocEntry) -> bool {
    |entry: DocEntry|
        entry.0.0 == collection && key_matches(params.matcher, entry.0.1) && owner_matches(
            params.owner,
            entry.1.owner,
        ) && permitted(
            rule,
            Operation::Read,
            caller,
            controllers,
            Some((entry.1.owner, entry.1.delegates)),
        )
}

/// An entry of the store as a listing shows it: by its key alone.
pub open spec fn by_key() -> spec_fn(DocEntry) -> (Seq<char>, DocView) {
    |entry: DocEntry| (entry.0.1, entry.1)
}

/// The documents that a listing matches, in the order of the store.
pub open spec fn docs_matched(
    docs: DocsView,
    rule: Rule,
    controllers: ControllersView,
    caller: Seq<u8>,
    collection: Seq<char>,
    params: ListParamsView,
) -> Seq<(Seq<char>, DocView)> {
    docs.filter(doc_listed(collection, params, rule, controllers, caller)).map_values(by_key())
}

/// What a listing returns: the page, and the number of documents matched.
pub open spec fn list_docs_outcome(
    docs: DocsView,
    rule: Rule,
    controllers: ControllersView,
    caller: Seq<u8>,
    collection: Seq<char>,
    params: ListParamsView,
) -> Result<(Seq<(Seq<char>, DocView)>, nat), ErrorView> {
    let matched = docs_matched(docs, rule, controllers, caller, collection, params);
    match page(arranged(matched, params.order), params.start_after, params.limit) {
        Ok(items) => Ok((items, matched.len())),
        Err(refusal) => Err(refusal),
    }
}

/// Lists the documents of a collection that the caller may read. Documents
/// that the caller may not read are left out without a refusal.
pub fn list_docs_store(
    docs: &DocStore,
    rules: &Rules,
    controllers: &Controllers,
    caller: &Principal,
    collection: &String,
    filter: &ListParams,
) -> (r: Result<ListResults<Doc>, Error>)
    requires
        docs.wf(),
        rules.wf(),
        controllers.wf(),
    ensures
        match list_docs_outcome(
            docs@,
            rule_of(rules@, RulesType::Db, collection@),
            controllers@,
            caller@,
            collection@,
            filter.deep_view(),
        ) {
            Ok((items, total)) => r matches Ok(results) && results.items.deep_view() == items
                && results.items_length == items.len() && results.matches_length == total,
            Err(refusal) => r matches Err(error) && error.deep_view() == refusal,
        },
{
    let rule = get_rule(rules, RulesType::Db, collection);
    let ghost keep = doc_listed(collection@, filter.deep_view(), rule, controllers@, caller@);
    let mut matched: Vec<(String, Doc)> = Vec::new();
    let mut i: usize = 0;
    assert(docs@.take(0).filter(keep) =~= Seq::<DocEntry>::empty()) by {
        reveal(Seq::filter);
    }
    assert(matched.deep_view() =~= docs@.take(0).filter(keep).map_values(by_key()));
    while i < docs.len()
        invariant
            docs.wf(),
            controllers.wf(),
            i <= docs@.len(),
            matched.len() <= i,
            keep == doc_listed(collection@, filter.deep_view(), rule, controllers@, caller@),
            matched.deep_view() == docs@.take(i as int).filter(keep).map_values(by_key()),
        decreases docs@.len() - i,
    {
        let id = docs.key_at(i);
        let doc = docs.value_at(i);
        let ghost before = matched.deep_view();
        proof {
            assert(docs@.take(i + 1) =~= docs@.take(i as int).push(docs@[i as int]));
            docs@.take(i as int).lemma_filter_push(docs@[i as int], keep);
        }
        let owned = match &filter.owner {
            None => true,
            Some(who) => doc.owner.same(who),
        };
        if id.0 == *collection && matches_key(&filter.matcher, &id.1) && owned && authorize(
            caller,
            &rule,
            Operation::Read,
            controllers,
            Some((&doc.owner, &doc.delegates)),
        ) == Decision::Allow {
            matched.push((id.1.clone(), doc.duplicate()));
            proof {
                assert(keep(docs@[i as int]));
                assert(matched.deep_view() =~= before.push(by_key()(docs@[i as int])));
                assert(matched.deep_view() =~= docs@.take(i + 1).filter(keep).map_values(by_key()));
            }
        } else {
            proof {
                assert(!keep(docs@[i as int]));
            }
        }
        i += 1;
    }
    assert(docs@.take(i as int) =~= docs@);
    let total = matched.len();
    let ordered = match filter.order {
        ListOrder::Keys => sort_pairs(matched),
        ListOrder::Insertion => matched,
    };
    match paginate(ordered, &filter.start_after, filter.limit) {
        Ok(items) => {
            let length = items.len();
            Ok(ListResults { items, items_length: length, matches_length: total })
        },
        Err(error) => Err(error),
    }
}

impl Held for Doc {
    open spec fn holders_in(view: DocView) -> Holders {
        (view.owner, view.delegates)
    }

    fn owner(&self) -> (r: &Principal) {
        &self.owner
    }

    fn named(&self) -> (r: &Vec<Principal>) {
        &self.delegates
    }
}

/// The number of documents of a collection that the caller may read: the
/// number that a listing of everything matches.
pub fn count_docs_store(
    docs: &DocStore,
    rules: &Rules,
    controllers: &Controllers,
    caller: &Principal,
    collection: &String,
) -> (r: usize)
    requires
        docs.wf(),
        rules.wf(),
        controllers.wf(),
    ensures
        r == docs_matched(
            docs@,
            rule_of(rules@, RulesType::Db, collection@),
            controllers@,
            caller@,
            collection@,
            unfiltered(),
        ).len(),
{
    let rule = get_rule(rules, RulesType::Db, collection);
    let ghost keep = doc_listed(collection@, unfiltered(), rule, controllers@, caller@);
    let mut count: usize = 0;
    let mut i: usize = 0;
    assert(docs@.take(0).filter(keep).len() == 0) by {
        reveal(Seq::filter);
    }
    while i < docs.len()
        invariant
            docs.wf(),
            controllers.wf(),
            i <= docs@.len(),
            count <= i,
            keep == doc_listed(collection@, unfiltered(), rule, controllers@, caller@),
            count == docs@.take(i as int).filter(keep).len(),
        decreases docs@.len() - i,
    {
        proof {
            assert(docs@.take(i + 1) =~= docs@.take(i as int).push(docs@[i as int]));
            docs@.take(i as int).lemma_filter_push(docs@[i as int], keep);
        }
        let doc = docs.value_at(i);
        if docs.key_at(i).0 == *collection && authorize(
            caller,
            &rule,
            Operation::Read,
            controllers,
            Some((&doc.owner, &doc.delegates)),
        ) == Decision::Allow {
            assert(keep(docs@[i as int]));
            count += 1;
        } else {
            assert(!keep(docs@[i as int]));
        }
        i += 1;
    }
    assert(docs@.take(i as int) =~= docs@);
    count
}

/// Deletes the documents of a collection, one after the other, and stops
/// at the first that the caller may not write.
pub fn delete_docs_store(
    docs: &mut DocStore,
    rules: &Rules,
    controllers: &Controllers,
    caller: &Principal,
    collection: &String,
) -> (r: Result<(), Error>)
    requires
        old(docs).wf(),
        rules.wf(),
        controllers.wf(),
    ensures
        final(docs).wf(),
        final(docs)@ == delete_all_outcome::<Doc>(
            old(docs)@,
            collection@,
            rule_of(rules@, RulesType::Db, collection@),
            controllers@,
            caller@,
        ).0,
        match r {
            Ok(_) => delete_all_outcome::<Doc>(
                old(docs)@,
                collection@,
                rule_of(rules@, RulesType::Db, collection@),
                controllers@,
                caller@,
            ).1,
            Err(error) => !delete_all_outcome::<Doc>(
                old(docs)@,
                collection@,
                rule_of(rules@, RulesType::Db, collection@),
                controllers@,
                caller@,
            ).1 && error.deep_view() == denied(collection@, Operation::Write),
        },
{
    let rule = get_rule(rules, RulesType::Db, collection);
    delete_permitted(docs, &rule, controllers, caller, collection)
}

} // verus!
