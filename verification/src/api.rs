//! The entry points of the backend, over its whole state.

use crate::config::{
    delete_domain_store, domain_set, set_domain_store, Config, CustomDomains, CustomDomainsView,
    StorageConfig, StorageConfigView,
};
use crate::controllers::{
    acceptable,
    delete_controllers_store,
    fits,
    remove_all,
    set_controllers_guarded,
    set_controllers_outcome,
    ControllerScope,
    Controllers,
    ControllersView,
    DeleteControllersArgs,
    SetControllersArgs,
    MAX_NUMBER_OF_CONTROLLERS,
};
use crate::db::{
    count_docs_store, delete_doc_outcome, delete_doc_store, delete_docs_store, docs_matched,
    get_doc_outcome, get_doc_store, list_docs_outcome, list_docs_store, set_doc_outcome,
    set_doc_store, DelDoc, Doc, DocContext, DocContextView, DocStore, DocUpsert, DocUpsertView,
    DocView, DocsView, SetDoc, SetDocView,
};
use crate::error::{denied, Error, ErrorView, Operation};
use crate::http::{
    http_outcome, serve, stream, streaming_outcome, HttpRequest, HttpResponse,
    StreamingCallbackHttpResponse, StreamingCallbackToken,
};
use crate::list::{unfiltered, ListParams, ListResults};
use crate::principal::Principal;
use crate::records::delete_all_outcome;
use crate::rules::{rule_of, Rule, Rules, RulesType, RulesView};
use crate::storage::{
    assets_matched, assets_wf, body_digest, check_assets, check_uploads, commit_batch_store,
    commit_outcome, count_assets_store,
    create_batch_outcome, create_batch_store, create_chunk_outcome, create_chunk_store,
    delete_asset_outcome, delete_asset_store, delete_assets_store, delete_expired_batches,
    get_asset_outcome, live_at,
    get_asset_store, list_assets_outcome, list_assets_store, summary_of, uploads_wf, Asset,
    AssetNoContent, AssetNoContentView, AssetStore, AssetView, AssetsView, CommitBatch,
    InitAssetKey, InitUploadResult, UploadChunk, UploadChunkResult, Uploads, UploadsView,
};
use crate::table::{distinct_keys, put, without, Duplicate, Table};
use vstd::prelude::*;

verus! {

/// Everything the backend holds.
pub struct State {
    pub controllers: Controllers,
    pub db_rules: Rules,
    pub docs: DocStore,
    pub storage_rules: Rules,
    pub assets: AssetStore,
    pub config: StorageConfig,
    pub custom_domains: CustomDomains,
    pub uploads: Uploads,
}

/// The model of the [`State`].
pub struct StateView {
    pub controllers: ControllersView,
    pub db_rules: RulesView,
    pub docs: DocsView,
    pub storage_rules: RulesView,
    pub assets: AssetsView,
    pub config: StorageConfigView,
    pub custom_domains: CustomDomainsView,
    pub uploads: UploadsView,
}

impl DeepView for State {
    type V = StateView;

    open spec fn deep_view(&self) -> StateView {
        StateView {
            controllers: self.controllers@,
            db_rules: self.db_rules@,
            docs: self.docs@,
            storage_rules: self.storage_rules@,
            assets: self.assets@,
            config: self.config.deep_view(),
            custom_domains: self.custom_domains@,
            uploads: self.uploads@,
        }
    }
}

impl View for State {
    type V = StateView;

    open spec fn view(&self) -> StateView {
        self.deep_view()
    }
}

/// The state is well formed: each table holds each key once, the assets
/// and the uploads are well formed.
pub open spec fn state_wf(state: StateView) -> bool {
    &&& distinct_keys(state.controllers)
    &&& distinct_keys(state.db_rules)
    &&& distinct_keys(state.docs)
    &&& distinct_keys(state.storage_rules)
    &&& assets_wf(state.assets)
    &&& distinct_keys(state.custom_domains)
    &&& uploads_wf(state.uploads)
}

/// The state of a backend that was just set up with these controllers.
pub open spec fn initial(controllers: ControllersView) -> StateView {
    StateView {
        controllers,
        db_rules: Seq::empty(),
        docs: Seq::empty(),
        storage_rules: Seq::empty(),
        assets: Seq::empty(),
        config: StorageConfigView {
            rewrites: Seq::empty(),
            redirects: Seq::empty(),
            iframe: false,
            not_found: None,
        },
        custom_domains: Seq::empty(),
        uploads: UploadsView { batches: Seq::empty(), next_batch_id: 0, next_chunk_id: 0 },
    }
}

impl State {
    /// The state is well formed.
    pub open spec fn wf(&self) -> bool {
        state_wf(self@)
    }

    /// Whether the state is well formed. A state that [`init`] made and
    /// that the entry points changed always is; one that was put together
    /// from parts is to be checked before it is used.
    pub fn check(&self) -> (r: bool)
        ensures
            r == self.wf(),
    {
        self.controllers.check() && self.db_rules.check() && self.docs.check()
            && self.storage_rules.check() && check_assets(&self.assets)
            && self.custom_domains.check() && check_uploads(&self.uploads)
    }
}

/// Sets the backend up with its first controllers.
pub fn init(controllers: Controllers) -> (r: State)
    requires
        controllers.wf(),
    ensures
        r.wf(),
        r@ == initial(controllers@),
{
    State {
        controllers,
        db_rules: Table::new(),
        docs: Table::new(),
        storage_rules: Table::new(),
        assets: Table::new(),
        config: StorageConfig::new(),
        custom_domains: Table::new(),
        uploads: Uploads::new(),
    }
}

/// The state with other documents.
pub open spec fn with_docs(state: StateView, docs: DocsView) -> StateView {
    StateView {
        controllers: state.controllers,
        db_rules: state.db_rules,
        docs,
        storage_rules: state.storage_rules,
        assets: state.assets,
        config: state.config,
        custom_domains: state.custom_domains,
        uploads: state.uploads,
    }
}

/// The state with other assets.
pub open spec fn with_assets(state: StateView, assets: AssetsView) -> StateView {
    StateView {
        controllers: state.controllers,
        db_rules: state.db_rules,
        docs: state.docs,
        storage_rules: state.storage_rules,
        assets,
        config: state.config,
        custom_domains: state.custom_domains,
        uploads: state.uploads,
    }
}

/// The state with other uploads.
pub open spec fn with_uploads(state: StateView, uploads: UploadsView) -> StateView {
    StateView {
        controllers: state.controllers,
        db_rules: state.db_rules,
        docs: state.docs,
        storage_rules: state.storage_rules,
        assets: state.assets,
        config: state.config,
        custom_domains: state.custom_domains,
        uploads,
    }
}

/// The state with another roster.
pub open spec fn with_controllers(state: StateView, controllers: ControllersView) -> StateView {
    StateView {
        controllers,
        db_rules: state.db_rules,
        docs: state.docs,
        storage_rules: state.storage_rules,
        assets: state.assets,
        config: state.config,
        custom_domains: state.custom_domains,
        uploads: state.uploads,
    }
}

/// The state with other rules for the store of the given kind.
pub open spec fn with_rules(state: StateView, kind: RulesType, rules: RulesView) -> StateView {
    StateView {
        controllers: state.controllers,
        db_rules: match kind {
            RulesType::Db => rules,
            RulesType::Storage => state.db_rules,
        },
        docs: state.docs,
        storage_rules: match kind {
            RulesType::Db => state.storage_rules,
            RulesType::Storage => rules,
        },
        assets: state.assets,
        config: state.config,
        custom_domains: state.custom_domains,
        uploads: state.uploads,
    }
}

/// The state with other custom domains.
pub open spec fn with_domains(state: StateView, custom_domains: CustomDomainsView) -> StateView {
    StateView {
        controllers: state.controllers,
        db_rules: state.db_rules,
        docs: state.docs,
        storage_rules: state.storage_rules,
        assets: state.assets,
        config: state.config,
        custom_domains,
        uploads: state.uploads,
    }
}

/// The state with another configuration.
pub open spec fn with_config(state: StateView, config: StorageConfigView) -> StateView {
    StateView {
        controllers: state.controllers,
        db_rules: state.db_rules,
        docs: state.docs,
        storage_rules: state.storage_rules,
        assets: state.assets,
        config,
        custom_domains: state.custom_domains,
        uploads: state.uploads,
    }
}

/// The rules of the store of the given kind.
pub open spec fn rules_of(state: StateView, kind: RulesType) -> RulesView {
    match kind {
        RulesType::Db => state.db_rules,
        RulesType::Storage => state.storage_rules,
    }
}

/// What writing a document does to the state.
pub open spec fn set_doc_in(
    state: StateView,
    caller: Seq<u8>,
    collection: Seq<char>,
    key: Seq<char>,
    input: SetDocView,
    now: u64,
) -> Result<(DocsView, DocContextView<DocUpsertView>), ErrorView> {
    set_doc_outcome(
        state.docs,
        rule_of(state.db_rules, RulesType::Db, collection),
        state.controllers,
        caller,
        collection,
        key,
        input,
        now,
    )
}

/// What reading a document returns in this state.
pub open spec fn get_doc_in(
    state: StateView,
    caller: Seq<u8>,
    collection: Seq<char>,
    key: Seq<char>,
) -> Result<Option<DocView>, ErrorView> {
    get_doc_outcome(
        state.docs,
        rule_of(state.db_rules, RulesType::Db, collection),
        state.controllers,
        caller,
        collection,
        key,
    )
}

/// What deleting a document does to the state.
pub open spec fn del_doc_in(
    state: StateView,
    caller: Seq<u8>,
    collection: Seq<char>,
    key: Seq<char>,
    expected: Option<u64>,
) -> Result<(DocsView, DocContextView<Option<DocView>>), ErrorView> {
    delete_doc_outcome(
        state.docs,
        rule_of(state.db_rules, RulesType::Db, collection),
        state.controllers,
        caller,
        collection,
        key,
        expected,
    )
}

/// What reading an asset returns in this state.
pub open spec fn get_asset_in(
    state: StateView,
    caller: Seq<u8>,
    collection: Seq<char>,
    full_path: Seq<char>,
) -> Result<Option<AssetView>, ErrorView> {
    get_asset_outcome(
        state.assets,
        rule_of(state.storage_rules, RulesType::Storage, collection),
        state.controllers,
        caller,
        collection,
        full_path,
    )
}

/// What deleting an asset does to the state.
pub open spec fn del_asset_in(
    state: StateView,
    caller: Seq<u8>,
    collection: Seq<char>,
    full_path: Seq<char>,
) -> Result<(AssetsView, Option<AssetView>), ErrorView> {
    delete_asset_outcome(
        state.assets,
        rule_of(state.storage_rules, RulesType::Storage, collection),
        state.controllers,
        caller,
        collection,
        full_path,
    )
}

/// Writes a document.
pub fn set_doc(
    state: &mut State,
    caller: &Principal,
    collection: String,
    key: String,
    doc: SetDoc,
    now: u64,
) -> (r: Result<DocContext<DocUpsert>, Error>)
    requires
        old(state).wf(),
    ensures
        final(state).wf(),
        match set_doc_in(old(state)@, caller@, collection@, key@, doc.deep_view(), now) {
            Ok((stored, context)) => r matches Ok(found) && found.deep_view() == context
                && final(state)@ == with_docs(old(state)@, stored),
            Err(refusal) => r matches Err(error) && error.deep_view() == refusal && final(state)@
                == old(state)@,
        },
{
    set_doc_store(
        &mut state.docs,
        &state.db_rules,
        &state.controllers,
        caller,
        collection,
        key,
        doc,
        now,
    )
}

/// Reads a document.
pub fn get_doc(state: &State, caller: &Principal, collection: String, key: String) -> (r: Result<
    Option<Doc>,
    Error,
>)
    requires
        state.wf(),
    ensures
        match get_doc_in(state@, caller@, collection@, key@) {
            Ok(found) => r matches Ok(doc) && doc.deep_view() == found,
            Err(refusal) => r matches Err(error) && error.deep_view() == refusal,
        },
{
    get_doc_store(&state.docs, &state.db_rules, &state.controllers, caller, collection, key)
}

/// Deletes a document.
pub fn del_doc(
    state: &mut State,
    caller: &Principal,
    collection: String,
    key: String,
    doc: DelDoc,
) -> (r: Result<DocContext<Option<Doc>>, Error>)
    requires
        old(state).wf(),
    ensures
        final(state).wf(),
        match del_doc_in(old(state)@, caller@, collection@, key@, doc.version) {
            Ok((stored, context)) => r matches Ok(found) && found.deep_view() == context
                && final(state)@ == with_docs(old(state)@, stored),
            Err(refusal) => r matches Err(error) && error.deep_view() == refusal && final(state)@
                == old(state)@,
        },
{
    delete_doc_store(
        &mut state.docs,
        &state.db_rules,
        &state.controllers,
        caller,
        collection,
        key,
        doc,
    )
}

/// Lists the documents of a collection that the caller may read.
pub fn list_docs(state: &State, caller: &Principal, collection: String, filter: ListParams) -> (r:
    Result<ListResults<Doc>, Error>)
    requires
        state.wf(),
    ensures
        match list_docs_outcome(
            state@.docs,
            rule_of(state@.db_rules, RulesType::Db, collection@),
            state@.controllers,
            caller@,
            collection@,
            filter.deep_view(),
        ) {
            Ok((items, total)) => r matches Ok(results) && results.items.deep_view() == items
                && results.items_length == items.len() && results.matches_length == total,
            Err(refusal) => r matches Err(error) && error.deep_view() == refusal,
        },
{
    list_docs_store(&state.docs, &state.db_rules, &state.controllers, caller, &collection, &filter)
}

/// What reading several documents returns: each with its key, in the order
/// asked for, or the first refusal.
pub open spec fn get_many_docs_outcome(
    state: StateView,
    caller: Seq<u8>,
    requests: Seq<(Seq<char>, Seq<char>)>,
) -> Result<Seq<(Seq<char>, Option<DocView>)>, ErrorView>
    decreases requests.len(),
{
    if requests.len() == 0 {
        Ok(Seq::empty())
    } else {
        match get_many_docs_outcome(state, caller, requests.drop_last()) {
            Err(refusal) => Err(refusal),
            Ok(found) => match get_doc_in(state, caller, requests.last().0, requests.last().1) {
                Ok(doc) => Ok(found.push((requests.last().1, doc))),
                Err(refusal) => Err(refusal),
            },
        }
    }
}

/// A refusal among the first requests is the refusal of all.
pub proof fn lemma_get_many_docs_stops(
    state: StateView,
    caller: Seq<u8>,
    requests: Seq<(Seq<char>, Seq<char>)>,
    n: int,
)
    requires
        0 <= n <= requests.len(),
        get_many_docs_outcome(state, caller, requests.take(n)) is Err,
    ensures
        get_many_docs_outcome(state, caller, requests) == get_many_docs_outcome(
            state,
            caller,
            requests.take(n),
        ),
    decreases requests.len() - n,
{
    if n < requests.len() {
        assert(requests.take(n + 1).drop_last() =~= requests.take(n));
        lemma_get_many_docs_stops(state, caller, requests, n + 1);
    } else {
        assert(requests.take(n) =~= requests);
    }
}

/// Reads several documents. The first refusal ends the call.
pub fn get_many_docs(state: &State, caller: &Principal, docs: Vec<(String, String)>) -> (r: Result<
    Vec<(String, Option<Doc>)>,
    Error,
>)
    requires
        state.wf(),
    ensures
        match get_many_docs_outcome(state@, caller@, docs.deep_view()) {
            Ok(found) => r matches Ok(list) && list.deep_view() == found,
            Err(refusal) => r matches Err(error) && error.deep_view() == refusal,
        },
{
    let ghost all = docs.deep_view();
    let mut found: Vec<(String, Option<Doc>)> = Vec::new();
    let mut i: usize = 0;
    assert(all.take(0) =~= Seq::empty());
    assert(found.deep_view() =~= Seq::empty());
    while i < docs.len()
        invariant
            state.wf(),
            all == docs.deep_view(),
            i <= docs.len(),
            get_many_docs_outcome(state@, caller@, all.take(i as int)) == Ok::<
                Seq<(Seq<char>, Option<DocView>)>,
                ErrorView,
            >(found.deep_view()),
        decreases docs.len() - i,
    {
        let ghost before = found.deep_view();
        let collection = docs[i].0.clone();
        let key = docs[i].1.clone();
        proof {
            assert(all.take(i + 1).drop_last() =~= all.take(i as int));
            assert(all.take(i + 1).last() == all[i as int]);
        }
        match get_doc(state, caller, collection, key) {
            Ok(doc) => {
                found.push((docs[i].1.clone(), doc));
                assert(found.deep_view() =~= before.push((all[i as int].1, doc.deep_view())));
            },
            Err(error) => {
                proof {
                    lemma_get_many_docs_stops(state@, caller@, all, i + 1);
                }
                return Err(error);
            },
        }
        i += 1;
    }
    assert(all.take(i as int) =~= all);
    Ok(found)
}

/// What writing several documents does: the documents it leaves, and what
/// each write did, or the first refusal. What was written before a refusal
/// stays written.
pub open spec fn set_many_docs_outcome(
    state: StateView,
    caller: Seq<u8>,
    requests: Seq<(Seq<char>, Seq<char>, SetDocView)>,
    now: u64,
) -> (DocsView, Result<Seq<DocContextView<DocUpsertView>>, ErrorView>)
    decreases requests.len(),
{
    if requests.len() == 0 {
        (state.docs, Ok(Seq::empty()))
    } else {
        let earlier = set_many_docs_outcome(state, caller, requests.drop_last(), now);
        match earlier.1 {
            Err(refusal) => earlier,
            Ok(written) => match set_doc_in(
                with_docs(state, earlier.0),
                caller,
                requests.last().0,
                requests.last().1,
                requests.last().2,
                now,
            ) {
                Ok((stored, context)) => (stored, Ok(written.push(context))),
                Err(refusal) => (earlier.0, Err(refusal)),
            },
        }
    }
}

/// A refusal among the first requests is the outcome of all.
pub proof fn lemma_set_many_docs_stops(
    state: StateView,
    caller: Seq<u8>,
    requests: Seq<(Seq<char>, Seq<char>, SetDocView)>,
    now: u64,
    n: int,
)
    requires
        0 <= n <= requests.len(),
        set_many_docs_outcome(state, caller, requests.take(n), now).1 is Err,
    ensures
        set_many_docs_outcome(state, caller, requests, now) == set_many_docs_outcome(
            state,
            caller,
            requests.take(n),
            now,
        ),
    decreases requests.len() - n,
{
    if n < requests.len() {
        assert(requests.take(n + 1).drop_last() =~= requests.take(n));
        lemma_set_many_docs_stops(state, caller, requests, now, n + 1);
    } else {
        assert(requests.take(n) =~= requests);
    }
}

/// Writes several documents, one after the other. The first refusal ends
/// the call; what was written before it stays written.
pub fn set_many_docs(
    state: &mut State,
    caller: &Principal,
    docs: Vec<(String, String, SetDoc)>,
    now: u64,
) -> (r: Result<Vec<DocContext<DocUpsert>>, Error>)
    requires
        old(state).wf(),
    ensures
        final(state).wf(),
        final(state)@ == with_docs(
            old(state)@,
            set_many_docs_outcome(old(state)@, caller@, docs.deep_view(), now).0,
        ),
        match set_many_docs_outcome(old(state)@, caller@, docs.deep_view(), now).1 {
            Ok(written) => r matches Ok(contexts) && contexts.deep_view() == written,
            Err(refusal) => r matches Err(error) && error.deep_view() == refusal,
        },
{
    let ghost before = state@;
    let ghost all = docs.deep_view();
    let mut rest = docs;
    let mut contexts: Vec<DocContext<DocUpsert>> = Vec::new();
    let ghost mut done: int = 0;
    assert(all.take(0) =~= Seq::empty());
    assert(all.skip(0) =~= all);
    assert(contexts.deep_view() =~= Seq::empty());
    while rest.len() > 0
        invariant
            state.wf(),
            0 <= done <= all.len(),
            before == old(state)@,
            all == docs.deep_view(),
            rest.deep_view() == all.skip(done),
            state@ == with_docs(before, state@.docs),
            set_many_docs_outcome(before, caller@, all.take(done), now) == (
                state@.docs,
                Ok::<Seq<DocContextView<DocUpsertView>>, ErrorView>(contexts.deep_view()),
            ),
        decreases rest.len(),
    {
        let ghost written = contexts.deep_view();
        let ghost pending = rest.deep_view();
        proof {
            assert(pending.len() == rest@.len());
            assert(done < all.len());
            assert(pending[0] == all[done]);
        }
        let (collection, key, doc) = rest.remove(0);
        proof {
            assert(rest.deep_view() =~= pending.drop_first());
            assert(pending.drop_first() =~= all.skip(done + 1));
            assert((collection@, key@, doc.deep_view()) == all[done]);
            assert(all.take(done + 1).drop_last() =~= all.take(done));
            assert(all.take(done + 1).last() == all[done]);
        }
        match set_doc(state, caller, collection, key, doc, now) {
            Ok(context) => {
                contexts.push(context);
                proof {
                    assert(contexts.deep_view() =~= written.push(context.deep_view()));
                    done = done + 1;
                }
            },
            Err(error) => {
                proof {
                    lemma_set_many_docs_stops(before, caller@, all, now, done + 1);
                }
                return Err(error);
            },
        }
    }
    proof {
        assert(done == all.len());
        assert(all.take(done) =~= all);
    }
    Ok(contexts)
}

/// What deleting several documents does: the documents it leaves, and what
/// each delete removed, or the first refusal. What was deleted before a
/// refusal stays deleted.
pub open spec fn del_many_docs_outcome(
    state: StateView,
    caller: Seq<u8>,
    requests: Seq<(Seq<char>, Seq<char>, DelDoc)>,
) -> (DocsView, Result<Seq<DocContextView<Option<DocView>>>, ErrorView>)
    decreases requests.len(),
{
    if requests.len() == 0 {
        (state.docs, Ok(Seq::empty()))
    } else {
        let earlier = del_many_docs_outcome(state, caller, requests.drop_last());
        match earlier.1 {
            Err(refusal) => earlier,
            Ok(removed) => match del_doc_in(
                with_docs(state, earlier.0),
                caller,
                requests.last().0,
                requests.last().1,
                requests.last().2.version,
            ) {
                Ok((stored, gone)) => (stored, Ok(removed.push(gone))),
                Err(refusal) => (earlier.0, Err(refusal)),
            },
        }
    }
}

/// A refusal among the first requests is the outcome of all.
pub proof fn lemma_del_many_docs_stops(
    state: StateView,
    caller: Seq<u8>,
    requests: Seq<(Seq<char>, Seq<char>, DelDoc)>,
    n: int,
)
    requires
        0 <= n <= requests.len(),
        del_many_docs_outcome(state, caller, requests.take(n)).1 is Err,
    ensures
        del_many_docs_outcome(state, caller, requests) == del_many_docs_outcome(
            state,
            caller,
            requests.take(n),
        ),
    decreases requests.len() - n,
{
    if n < requests.len() {
        assert(requests.take(n + 1).drop_last() =~= requests.take(n));
        lemma_del_many_docs_stops(state, caller, requests, n + 1);
    } else {
        assert(requests.take(n) =~= requests);
    }
}

/// Deletes several documents, one after the other. The first refusal ends
/// the call; what was deleted before it stays deleted.
pub fn del_many_docs(
    state: &mut State,
    caller: &Principal,
    docs: Vec<(String, String, DelDoc)>,
) -> (r: Result<Vec<DocContext<Option<Doc>>>, Error>)
    requires
        old(state).wf(),
    ensures
        final(state).wf(),
        final(state)@ == with_docs(
            old(state)@,
            del_many_docs_outcome(old(state)@, caller@, docs.deep_view()).0,
        ),
        match del_many_docs_outcome(old(state)@, caller@, docs.deep_view()).1 {
            Ok(removed) => r matches Ok(contexts) && contexts.deep_view() == removed,
            Err(refusal) => r matches Err(error) && error.deep_view() == refusal,
        },
{
    let ghost before = state@;
    let ghost all = docs.deep_view();
    let mut rest = docs;
    let mut contexts: Vec<DocContext<Option<Doc>>> = Vec::new();
    let ghost mut done: int = 0;
    assert(all.take(0) =~= Seq::empty());
    assert(all.skip(0) =~= all);
    assert(contexts.deep_view() =~= Seq::empty());
    while rest.len() > 0
        invariant
            state.wf(),
            0 <= done <= all.len(),
            before == old(state)@,
            all == docs.deep_view(),
            rest.deep_view() == all.skip(done),
            state@ == with_docs(before, state@.docs),
            del_many_docs_outcome(before, caller@, all.take(done)) == (
                state@.docs,
                Ok::<Seq<DocContextView<Option<DocView>>>, ErrorView>(contexts.deep_view()),
            ),
        decreases rest.len(),
    {
        let ghost removed = contexts.deep_view();
        let ghost pending = rest.deep_view();
        proof {
            assert(pending.len() == rest@.len());
            assert(done < all.len());
            assert(pending[0] == all[done]);
        }
        let ghost first = pending[0];
        let (collection, key, doc) = rest.remove(0);
        proof {
            assert(rest.deep_view() =~= pending.drop_first());
            assert(pending.drop_first() =~= all.skip(done + 1));
            assert((collection@, key@, doc) == first);
            assert(first == all[done]);
            assert(all.take(done + 1).drop_last() =~= all.take(done));
            assert(all.take(done + 1).last() == all[done]);
        }
        match del_doc(state, caller, collection, key, doc) {
            Ok(context) => {
                contexts.push(context);
                proof {
                    assert(contexts.deep_view() =~= removed.push(context.deep_view()));
                    done = done + 1;
                }
            },
            Err(error) => {
                proof {
                    lemma_del_many_docs_stops(before, caller@, all, done + 1);
                }
                return Err(error);
            },
        }
    }
    proof {
        assert(done == all.len());
        assert(all.take(done) =~= all);
    }
    Ok(contexts)
}

/// What deleting the documents of a collection does in this state.
pub open spec fn del_docs_in(state: StateView, caller: Seq<u8>, collection: Seq<char>) -> (
    DocsView,
    bool,
) {
    delete_all_outcome::<Doc>(
        state.docs,
        collection,
        rule_of(state.db_rules, RulesType::Db, collection),
        state.controllers,
        caller,
    )
}

/// Deletes the documents of a collection, one after the other in the order
/// of the store, as far as the caller may write them. The first that it may
/// not write ends the call with a refusal; what was deleted before it stays
/// deleted.
pub fn del_docs(state: &mut State, caller: &Principal, collection: String) -> (r: Result<
    (),
    Error,
>)
    requires
        old(state).wf(),
    ensures
        final(state).wf(),
        final(state)@ == with_docs(old(state)@, del_docs_in(old(state)@, caller@, collection@).0),
        match r {
            Ok(_) => del_docs_in(old(state)@, caller@, collection@).1,
            Err(error) => !del_docs_in(old(state)@, caller@, collection@).1 && error.deep_view()
                == denied(collection@, Operation::Write),
        },
{
    delete_docs_store(&mut state.docs, &state.db_rules, &state.controllers, caller, &collection)
}

/// The number of documents of a collection that the caller may read: the
/// number that a listing of everything matches.
pub fn count_docs(state: &State, caller: &Principal, collection: String) -> (r: usize)
    requires
        state.wf(),
    ensures
        r == docs_matched(
            state@.docs,
            rule_of(state@.db_rules, RulesType::Db, collection@),
            state@.controllers,
            caller@,
            collection@,
            unfiltered(),
        ).len(),
{
    count_docs_store(&state.docs, &state.db_rules, &state.controllers, caller, &collection)
}

/// The rules of a store, by collection, in the order they were first set.
pub fn list_rules(state: &State, rules_type: RulesType) -> (r: Vec<(String, Rule)>)
    requires
        state.wf(),
    ensures
        r.deep_view() == rules_of(state@, rules_type),
{
    match rules_type {
        RulesType::Db => state.db_rules.entries(),
        RulesType::Storage => state.storage_rules.entries(),
    }
}

/// Sets the rule of a collection.
pub fn set_rule(state: &mut State, rules_type: RulesType, collection: String, rule: Rule)
    requires
        old(state).wf(),
    ensures
        final(state).wf(),
        final(state)@ == with_rules(
            old(state)@,
            rules_type,
            put(rules_of(old(state)@, rules_type), collection@, rule),
        ),
{
    proof {
        crate::table::lemma_put(rules_of(state@, rules_type), collection@, rule, collection@);
    }
    match rules_type {
        RulesType::Db => {
            state.db_rules.put(collection, rule);
        },
        RulesType::Storage => {
            state.storage_rules.put(collection, rule);
        },
    }
}

/// Removes the rule of a collection, which falls back to the default.
pub fn del_rule(state: &mut State, rules_type: RulesType, collection: String)
    requires
        old(state).wf(),
    ensures
        final(state).wf(),
        final(state)@ == with_rules(
            old(state)@,
            rules_type,
            without(rules_of(old(state)@, rules_type), collection@),
        ),
{
    match rules_type {
        RulesType::Db => {
            state.db_rules.take(&collection);
        },
        RulesType::Storage => {
            state.storage_rules.take(&collection);
        },
    }
}

/// Sets controllers and hands back the roster. Where the scope is
/// administrative and the roster has no room, or where a principal cannot
/// be a controller, nothing is set.
pub fn set_controllers(state: &mut State, args: SetControllersArgs, now: u64) -> (r: Result<
    Controllers,
    Error,
>)
    requires
        old(state).wf(),
    ensures
        final(state).wf(),
        match set_controllers_outcome(
            old(state)@.controllers,
            args.controllers.deep_view(),
            args.controller.deep_view(),
            now,
            fits(
                old(state)@.controllers,
                args.controllers.deep_view(),
                ControllerScope::Admin,
                MAX_NUMBER_OF_CONTROLLERS,
            ),
            acceptable(args.controllers.deep_view()),
        ) {
            Ok(roster) => r matches Ok(list) && list@ == roster && final(state)@
                == with_controllers(old(state)@, roster),
            Err(refusal) => r matches Err(error) && error.deep_view() == refusal && final(state)@
                == old(state)@,
        },
{
    match set_controllers_guarded(&mut state.controllers, &args, now) {
        Ok(()) => Ok(state.controllers.duplicate()),
        Err(error) => Err(error),
    }
}

/// Removes controllers and hands back the roster.
pub fn del_controllers(state: &mut State, args: DeleteControllersArgs) -> (r: Controllers)
    requires
        old(state).wf(),
    ensures
        final(state).wf(),
        final(state)@ == with_controllers(
            old(state)@,
            remove_all(old(state)@.controllers, args.controllers.deep_view()),
        ),
        r@ == final(state)@.controllers,
{
    delete_controllers_store(&mut state.controllers, &args.controllers);
    state.controllers.duplicate()
}

/// The roster.
pub fn list_controllers(state: &State) -> (r: Controllers)
    requires
        state.wf(),
    ensures
        r@ == state@.controllers,
{
    state.controllers.duplicate()
}

/// Replaces the configuration.
pub fn set_config(state: &mut State, config: Config)
    requires
        old(state).wf(),
    ensures
        final(state).wf(),
        final(state)@ == with_config(old(state)@, config.deep_view()),
{
    state.config = config.storage;
}

/// The configuration.
pub fn get_config(state: &State) -> (r: Config)
    ensures
        r.deep_view() == state@.config,
{
    Config { storage: state.config.duplicate() }
}

/// The custom domains.
pub fn list_custom_domains(state: &State) -> (r: CustomDomains)
    requires
        state.wf(),
    ensures
        r@ == state@.custom_domains,
{
    state.custom_domains.duplicate()
}

/// Sets a custom domain.
pub fn set_custom_domain(state: &mut State, domain_name: String, bn_id: Option<String>, now: u64)
    -> (r: Result<(), Error>)
    requires
        old(state).wf(),
    ensures
        final(state).wf(),
        match domain_set(
            crate::table::lookup(old(state)@.custom_domains, domain_name@),
            bn_id.deep_view(),
            now,
        ) {
            Some(domain) => r is Ok && final(state)@ == with_domains(
                old(state)@,
                put(old(state)@.custom_domains, domain_name@, domain),
            ),
            None => r matches Err(error) && error.deep_view() == ErrorView::InvalidInput
                && final(state)@ == old(state)@,
        },
{
    set_domain_store(&mut state.custom_domains, &domain_name, &bn_id, now)
}

/// Deletes a custom domain. A domain that is not there is refused.
pub fn del_custom_domain(state: &mut State, domain_name: String) -> (r: Result<(), Error>)
    requires
        old(state).wf(),
    ensures
        final(state).wf(),
        final(state)@ == with_domains(
            old(state)@,
            without(old(state)@.custom_domains, domain_name@),
        ),
        crate::table::has_key(old(state)@.custom_domains, domain_name@) ==> r is Ok,
        !crate::table::has_key(old(state)@.custom_domains, domain_name@) ==> (r matches Err(
            error,
        ) && error.deep_view() == ErrorView::NotFound),
{
    delete_domain_store(&mut state.custom_domains, &domain_name)
}

/// Answers a request for the asset at a path.
pub fn http_request(state: &State, request: HttpRequest) -> (r: HttpResponse)
    requires
        state.wf(),
    ensures
        r.deep_view() == http_outcome(
            state@.assets,
            state@.storage_rules,
            state@.config,
            request.method@,
            request.url@,
        ),
{
    serve(&state.assets, &state.storage_rules, &state.config, request)
}

/// Hands out the chunk that a token asks for, and the token for the next.
pub fn http_request_streaming_callback(state: &State, token: StreamingCallbackToken) -> (r: Result<
    StreamingCallbackHttpResponse,
    Error,
>)
    requires
        state.wf(),
    ensures
        match streaming_outcome(state@.assets, state@.storage_rules, token.deep_view()) {
            Ok((body, next)) => r matches Ok(response) && response.body@ == body
                && response.token.deep_view() == next,
            Err(refusal) => r matches Err(error) && error.deep_view() == refusal,
        },
{
    stream(&state.assets, &state.storage_rules, token)
}

/// The uploads without the batches that have lapsed at `now`.
pub open spec fn swept(uploads: UploadsView, now: u64) -> UploadsView {
    UploadsView {
        batches: uploads.batches.filter(live_at(now)),
        next_batch_id: uploads.next_batch_id,
        next_chunk_id: uploads.next_chunk_id,
    }
}

/// Opens a batch for an upload. Where it does, the batches that have
/// lapsed are discarded on the way.
pub fn init_asset_upload(state: &mut State, caller: &Principal, init: InitAssetKey, now: u64) -> (r:
    Result<InitUploadResult, Error>)
    requires
        old(state).wf(),
    ensures
        final(state).wf(),
        match create_batch_outcome(
            old(state)@.uploads,
            old(state)@.assets,
            rule_of(old(state)@.storage_rules, RulesType::Storage, init.collection@),
            old(state)@.controllers,
            caller@,
            init.deep_view(),
            now,
        ) {
            Ok((uploads, id)) => r matches Ok(opened) && opened.batch_id == id && final(state)@
                == with_uploads(old(state)@, swept(uploads, now)),
            Err(refusal) => r matches Err(error) && error.deep_view() == refusal && final(state)@
                == old(state)@,
        },
{
    match create_batch_store(
        &mut state.uploads,
        &state.assets,
        &state.storage_rules,
        &state.controllers,
        caller,
        init,
        now,
    ) {
        Ok(batch_id) => {
            delete_expired_batches(&mut state.uploads, now);
            Ok(InitUploadResult { batch_id })
        },
        Err(error) => Err(error),
    }
}

/// Adds a chunk to a batch.
pub fn upload_asset_chunk(
    state: &mut State,
    caller: &Principal,
    chunk: UploadChunk,
    now: u64,
) -> (r: Result<UploadChunkResult, Error>)
    requires
        old(state).wf(),
    ensures
        final(state).wf(),
        match create_chunk_outcome(
            old(state)@.uploads,
            old(state)@.controllers,
            caller@,
            chunk.deep_view(),
            now,
        ) {
            Ok((uploads, id)) => r matches Ok(added) && added.chunk_id == id && final(state)@
                == with_uploads(old(state)@, uploads),
            Err(refusal) => r matches Err(error) && error.deep_view() == refusal && final(state)@
                == old(state)@,
        },
{
    match create_chunk_store(&mut state.uploads, &state.controllers, caller, chunk, now) {
        Ok(chunk_id) => Ok(UploadChunkResult { chunk_id }),
        Err(error) => Err(error),
    }
}

/// What a commit does to the state.
pub open spec fn commit_in(
    state: StateView,
    caller: Seq<u8>,
    batch_id: u64,
    headers: Seq<(Seq<char>, Seq<char>)>,
    now: u64,
) -> Result<(UploadsView, AssetsView, AssetView), ErrorView> {
    commit_outcome(
        state.uploads,
        state.assets,
        state.storage_rules,
        state.controllers,
        caller,
        batch_id,
        headers,
        now,
        body_digest(state.uploads, batch_id),
    )
}

/// Closes an upload: the content of the batch becomes one encoding of the
/// asset at its path.
pub fn commit_asset_upload(
    state: &mut State,
    caller: &Principal,
    commit: CommitBatch,
    now: u64,
) -> (r: Result<Asset, Error>)
    requires
        old(state).wf(),
    ensures
        final(state).wf(),
        match commit_in(old(state)@, caller@, commit.batch_id, commit.headers.deep_view(), now) {
            Ok((uploads, assets, asset)) => r matches Ok(written) && written.deep_view() == asset
                && final(state)@ == with_assets(with_uploads(old(state)@, uploads), assets),
            Err(refusal) => r matches Err(error) && error.deep_view() == refusal && final(state)@
                == old(state)@,
        },
{
    commit_batch_store(
        &mut state.uploads,
        &mut state.assets,
        &state.storage_rules,
        &state.controllers,
        caller,
        commit,
        now,
    )
}

/// Lists the assets of a collection that the caller may read, without
/// their content.
pub fn list_assets(state: &State, caller: &Principal, collection: String, filter: ListParams) -> (r:
    Result<ListResults<AssetNoContent>, Error>)
    requires
        state.wf(),
    ensures
        match list_assets_outcome(
            state@.assets,
            rule_of(state@.storage_rules, RulesType::Storage, collection@),
            state@.controllers,
            caller@,
            collection@,
            filter.deep_view(),
        ) {
            Ok((items, total)) => r matches Ok(results) && results.items.deep_view() == items
                && results.items_length == items.len() && results.matches_length == total,
            Err(refusal) => r matches Err(error) && error.deep_view() == refusal,
        },
{
    list_assets_store(
        &state.assets,
        &state.storage_rules,
        &state.controllers,
        caller,
        &collection,
        &filter,
    )
}

/// Deletes an asset.
pub fn del_asset(
    state: &mut State,
    caller: &Principal,
    collection: String,
    full_path: String,
) -> (r: Result<Option<Asset>, Error>)
    requires
        old(state).wf(),
    ensures
        final(state).wf(),
        match del_asset_in(old(state)@, caller@, collection@, full_path@) {
            Ok((stored, removed)) => r matches Ok(asset) && asset.deep_view() == removed
                && final(state)@ == with_assets(old(state)@, stored),
            Err(refusal) => r matches Err(error) && error.deep_view() == refusal && final(state)@
                == old(state)@,
        },
{
    delete_asset_store(
        &mut state.assets,
        &state.storage_rules,
        &state.controllers,
        caller,
        &collection,
        full_path,
    )
}

/// What deleting several assets does: the assets it leaves, and what each
/// delete removed, or the first refusal. What was deleted before a refusal
/// stays deleted.
pub open spec fn del_many_assets_outcome(
    state: StateView,
    caller: Seq<u8>,
    requests: Seq<(Seq<char>, Seq<char>)>,
) -> (AssetsView, Result<Seq<Option<AssetView>>, ErrorView>)
    decreases requests.len(),
{
    if requests.len() == 0 {
        (state.assets, Ok(Seq::empty()))
    } else {
        let earlier = del_many_assets_outcome(state, caller, requests.drop_last());
        match earlier.1 {
            Err(refusal) => earlier,
            Ok(removed) => match del_asset_in(
                with_assets(state, earlier.0),
                caller,
                requests.last().0,
                requests.last().1,
            ) {
                Ok((stored, gone)) => (stored, Ok(removed.push(gone))),
                Err(refusal) => (earlier.0, Err(refusal)),
            },
        }
    }
}

/// A refusal among the first requests is the outcome of all.
pub proof fn lemma_del_many_assets_stops(
    state: StateView,
    caller: Seq<u8>,
    requests: Seq<(Seq<char>, Seq<char>)>,
    n: int,
)
    requires
        0 <= n <= requests.len(),
        del_many_assets_outcome(state, caller, requests.take(n)).1 is Err,
    ensures
        del_many_assets_outcome(state, caller, requests) == del_many_assets_outcome(
            state,
            caller,
            requests.take(n),
        ),
    decreases requests.len() - n,
{
    if n < requests.len() {
        assert(requests.take(n + 1).drop_last() =~= requests.take(n));
        lemma_del_many_assets_stops(state, caller, requests, n + 1);
    } else {
        assert(requests.take(n) =~= requests);
    }
}

/// Deletes several assets, one after the other. The first refusal ends
/// the call; what was deleted before it stays deleted.
pub fn del_many_assets(state: &mut State, caller: &Principal, assets: Vec<(String, String)>) -> (r:
    Result<Vec<Option<Asset>>, Error>)
    requires
        old(state).wf(),
    ensures
        final(state).wf(),
        final(state)@ == with_assets(
            old(state)@,
            del_many_assets_outcome(old(state)@, caller@, assets.deep_view()).0,
        ),
        match del_many_assets_outcome(old(state)@, caller@, assets.deep_view()).1 {
            Ok(removed) => r matches Ok(list) && list.deep_view() == removed,
            Err(refusal) => r matches Err(error) && error.deep_view() == refusal,
        },
{
    let ghost before = state@;
    let ghost all = assets.deep_view();
    let mut rest = assets;
    let mut removed: Vec<Option<Asset>> = Vec::new();
    let ghost mut done: int = 0;
    assert(all.take(0) =~= Seq::empty());
    assert(all.skip(0) =~= all);
    assert(removed.deep_view() =~= Seq::empty());
    while rest.len() > 0
        invariant
            state.wf(),
            0 <= done <= all.len(),
            before == old(state)@,
            all == assets.deep_view(),
            rest.deep_view() == all.skip(done),
            state@ == with_assets(before, state@.assets),
            del_many_assets_outcome(before, caller@, all.take(done)) == (
                state@.assets,
                Ok::<Seq<Option<AssetView>>, ErrorView>(removed.deep_view()),
            ),
        decreases rest.len(),
    {
        let ghost earlier = removed.deep_view();
        let ghost pending = rest.deep_view();
        proof {
            assert(pending.len() == rest@.len());
            assert(done < all.len());
            assert(pending[0] == all[done]);
        }
        let (collection, full_path) = rest.remove(0);
        proof {
            assert(rest.deep_view() =~= pending.drop_first());
            assert(pending.drop_first() =~= all.skip(done + 1));
            assert((collection@, full_path@) == all[done]);
            assert(all.take(done + 1).drop_last() =~= all.take(done));
            assert(all.take(done + 1).last() == all[done]);
        }
        match del_asset(state, caller, collection, full_path) {
            Ok(gone) => {
                removed.push(gone);
                proof {
                    assert(removed.deep_view() =~= earlier.push(gone.deep_view()));
                    done = done + 1;
                }
            },
            Err(error) => {
                proof {
                    lemma_del_many_assets_stops(before, caller@, all, done + 1);
                }
                return Err(error);
            },
        }
    }
    proof {
        assert(done == all.len());
        assert(all.take(done) =~= all);
    }
    Ok(removed)
}

/// What deleting the assets of a collection does in this state.
pub open spec fn del_assets_in(state: StateView, caller: Seq<u8>, collection: Seq<char>) -> (
    AssetsView,
    bool,
) {
    delete_all_outcome::<Asset>(
        state.assets,
        collection,
        rule_of(state.storage_rules, RulesType::Storage, collection),
        state.controllers,
        caller,
    )
}

/// Deletes the assets of a collection, one after the other in the order of
/// the store, as far as the caller may write them. The first that it may
/// not write ends the call with a refusal; what was deleted before it stays
/// deleted.
pub fn del_assets(state: &mut State, caller: &Principal, collection: String) -> (r: Result<
    (),
    Error,
>)
    requires
        old(state).wf(),
    ensures
        final(state).wf(),
        final(state)@ == with_assets(
            old(state)@,
            del_assets_in(old(state)@, caller@, collection@).0,
        ),
        match r {
            Ok(_) => del_assets_in(old(state)@, caller@, collection@).1,
            Err(error) => !del_assets_in(old(state)@, caller@, collection@).1 && error.deep_view()
                == denied(collection@, Operation::Write),
        },
{
    delete_assets_store(
        &mut state.assets,
        &state.storage_rules,
        &state.controllers,
        caller,
        &collection,
    )
}

/// The number of assets of a collection that the caller may read: the
/// number that a listing of everything matches.
pub fn count_assets(state: &State, caller: &Principal, collection: String) -> (r: usize)
    requires
        state.wf(),
    ensures
        r == assets_matched(
            state@.assets,
            rule_of(state@.storage_rules, RulesType::Storage, collection@),
            state@.controllers,
            caller@,
            collection@,
            unfiltered(),
        ).len(),
{
    count_assets_store(&state.assets, &state.storage_rules, &state.controllers, caller, &collection)
}

/// Reads an asset, without its content.
pub fn get_asset(state: &State, caller: &Principal, collection: String, full_path: String) -> (r:
    Result<Option<AssetNoContent>, Error>)
    requires
        state.wf(),
    ensures
        match get_asset_in(state@, caller@, collection@, full_path@) {
            Ok(found) => r matches Ok(asset) && asset.deep_view() == summary_of(found),
            Err(refusal) => r matches Err(error) && error.deep_view() == refusal,
        },
{
    match get_asset_store(
        &state.assets,
        &state.storage_rules,
        &state.controllers,
        caller,
        &collection,
        full_path,
    ) {
        Ok(Some(asset)) => Ok(Some(AssetNoContent::from_asset(asset))),
        Ok(None) => Ok(None),
        Err(error) => Err(error),
    }
}

/// What reading several assets returns: each with its path, in the order
/// asked for, or the first refusal.
pub open spec fn get_many_assets_outcome(
    state: StateView,
    caller: Seq<u8>,
    requests: Seq<(Seq<char>, Seq<char>)>,
) -> Result<Seq<(Seq<char>, Option<AssetNoContentView>)>, ErrorView>
    decreases requests.len(),
{
    if requests.len() == 0 {
        Ok(Seq::empty())
    } else {
        match get_many_assets_outcome(state, caller, requests.drop_last()) {
            Err(refusal) => Err(refusal),
            Ok(found) => match get_asset_in(state, caller, requests.last().0, requests.last().1) {
                Ok(asset) => Ok(found.push((requests.last().1, summary_of(asset)))),
                Err(refusal) => Err(refusal),
            },
        }
    }
}

/// A refusal among the first requests is the refusal of all.
pub proof fn lemma_get_many_assets_stops(
    state: StateView,
    caller: Seq<u8>,
    requests: Seq<(Seq<char>, Seq<char>)>,
    n: int,
)
    requires
        0 <= n <= requests.len(),
        get_many_assets_outcome(state, caller, requests.take(n)) is Err,
    ensures
        get_many_assets_outcome(state, caller, requests) == get_many_assets_outcome(
            state,
            caller,
            requests.take(n),
        ),
    decreases requests.len() - n,
{
    if n < requests.len() {
        assert(requests.take(n + 1).drop_last() =~= requests.take(n));
        lemma_get_many_assets_stops(state, caller, requests, n + 1);
    } else {
        assert(requests.take(n) =~= requests);
    }
}

/// Reads several assets, without their content. The first refusal ends
/// the call.
pub fn get_many_assets(state: &State, caller: &Principal, assets: Vec<(String, String)>) -> (r:
    Result<Vec<(String, Option<AssetNoContent>)>, Error>)
    requires
        state.wf(),
    ensures
        match get_many_assets_outcome(state@, caller@, assets.deep_view()) {
            Ok(found) => r matches Ok(list) && list.deep_view() == found,
            Err(refusal) => r matches Err(error) && error.deep_view() == refusal,
        },
{
    let ghost all = assets.deep_view();
    let mut found: Vec<(String, Option<AssetNoContent>)> = Vec::new();
    let mut i: usize = 0;
    assert(all.take(0) =~= Seq::empty());
    assert(found.deep_view() =~= Seq::empty());
    while i < assets.len()
        invariant
            state.wf(),
            all == assets.deep_view(),
            i <= assets.len(),
            get_many_assets_outcome(state@, caller@, all.take(i as int)) == Ok::<
                Seq<(Seq<char>, Option<AssetNoContentView>)>,
                ErrorView,
            >(found.deep_view()),
        decreases assets.len() - i,
    {
        let ghost before = found.deep_view();
        let collection = assets[i].0.clone();
        let full_path = assets[i].1.clone();
        proof {
            assert(all.take(i + 1).drop_last() =~= all.take(i as int));
            assert(all.take(i + 1).last() == all[i as int]);
        }
        match get_asset(state, caller, collection, full_path) {
            Ok(asset) => {
                found.push((assets[i].1.clone(), asset));
                assert(found.deep_view() =~= before.push((all[i as int].1, asset.deep_view())));
            },
            Err(error) => {
                proof {
                    lemma_get_many_assets_stops(state@, caller@, all, i + 1);
                }
                return Err(error);
            },
        }
        i += 1;
    }
    assert(all.take(i as int) =~= all);
    Ok(found)
}

} // verus!
