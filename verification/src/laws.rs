//! What holds of the backend in every state.

use crate::api::{
    commit_in, del_asset_in, del_doc_in, set_doc_in, state_wf, with_docs, StateView,
};
use crate::auth::{permitted, Holders};
use crate::controllers::{spec_is_controller, ControllersView};
use crate::db::{docs_matched, holders_of, list_docs_outcome, DocView, SetDocView};
use crate::list::{lemma_sort_by_key, sort_by_key, unfiltered};
use crate::error::{denied, ErrorView, Operation};
use crate::hash::sha256;
use crate::http::{
    asset_reply,
    first_serving,
    lemma_served_wf,
    next_token,
    public_asset,
    served_encoding,
    serving_place,
    streaming_outcome,
    TokenView,
};
use crate::principal::anonymous_bytes;
use crate::rules::{rule_of, spec_permission_for, Permission, Rule, RulesType, RulesView};
use crate::storage::{
    asset_holders,
    asset_wf,
    assets_wf,
    batch_body,
    batch_usable,
    chunk_place,
    contents,
    create_batch_outcome,
    encodings_of,
    grown,
    lemma_chunk_place,
    AssetsView,
    BatchView,
    ChunkView,
    InitAssetKeyView,
    UploadsView,
};
use crate::table::{
    at_key, distinct_keys, has_key, index_of_key, lemma_index_unique, lemma_put, lookup,
};
use vstd::prelude::*;

verus! {

/// A caller that neither owns the record, nor is named by the roster, is
/// refused by a private rule.
pub proof fn law_private_rules_refuse_strangers(
    rule: Rule,
    operation: Operation,
    caller: Seq<u8>,
    controllers: ControllersView,
    owner: Seq<u8>,
    named: Seq<Seq<u8>>,
)
    requires
        spec_permission_for(rule, operation) == Permission::Private,
        owner != caller,
        !spec_is_controller(controllers, caller),
    ensures
        !permitted(rule, operation, caller, controllers, Some((owner, named))),
{
}

/// The anonymous caller passes public rules only.
pub proof fn law_anonymous_passes_public_rules_only(
    rule: Rule,
    operation: Operation,
    controllers: ControllersView,
    holders: Option<Holders>,
)
    ensures
        permitted(rule, operation, anonymous_bytes(), controllers, holders)
            <==> spec_permission_for(rule, operation) == Permission::Public,
{
}

/// Under a private write rule, a caller that is no controller cannot write
/// over or delete a document that another caller owns: both are refused
/// for want of permission, and so leave the store as it was.
pub proof fn law_private_documents_are_kept_from_strangers(
    state: StateView,
    caller: Seq<u8>,
    collection: Seq<char>,
    key: Seq<char>,
    owned: DocView,
    input: SetDocView,
    expected: Option<u64>,
    now: u64,
)
    requires
        rule_of(state.db_rules, RulesType::Db, collection).write == Permission::Private,
        lookup(state.docs, (collection, key)) == Some(owned),
        owned.owner != caller,
        !spec_is_controller(state.controllers, caller),
    ensures
        set_doc_in(state, caller, collection, key, input, now) is Err,
        set_doc_in(state, caller, collection, key, input, now)->Err_0 == denied(
            collection,
            Operation::Write,
        ),
        del_doc_in(state, caller, collection, key, expected) is Err,
        del_doc_in(state, caller, collection, key, expected)->Err_0 == denied(
            collection,
            Operation::Write,
        ),
{
}

/// Under a private write rule, a caller that is no controller cannot
/// start an upload over, nor delete, an asset that another caller owns.
pub proof fn law_private_assets_are_kept_from_strangers(
    state: StateView,
    caller: Seq<u8>,
    init: InitAssetKeyView,
    now: u64,
)
    requires
        rule_of(state.storage_rules, RulesType::Storage, init.collection).write
            == Permission::Private,
        lookup(state.assets, (init.collection, init.full_path)) matches Some(asset) && asset.owner
            != caller,
        !spec_is_controller(state.controllers, caller),
    ensures
        create_batch_outcome(
            state.uploads,
            state.assets,
            rule_of(state.storage_rules, RulesType::Storage, init.collection),
            state.controllers,
            caller,
            init,
            now,
        ) == Err::<(UploadsView, u64), ErrorView>(denied(init.collection, Operation::Write)),
        del_asset_in(state, caller, init.collection, init.full_path) is Err,
        del_asset_in(state, caller, init.collection, init.full_path)->Err_0 == denied(
            init.collection,
            Operation::Write,
        ),
{
}

/// The anonymous caller writes no document under a rule that is not
/// public, whether the document exists or not.
pub proof fn law_anonymous_writes_are_refused(
    state: StateView,
    collection: Seq<char>,
    key: Seq<char>,
    input: SetDocView,
    now: u64,
)
    requires
        rule_of(state.db_rules, RulesType::Db, collection).write != Permission::Public,
    ensures
        set_doc_in(state, anonymous_bytes(), collection, key, input, now) is Err,
        set_doc_in(state, anonymous_bytes(), collection, key, input, now)->Err_0 == denied(
            collection,
            Operation::Write,
        ),
{
}

/// A write that succeeds stores what it returns. A new document starts at
/// version 1 with the caller as owner; a document written over keeps its
/// owner and its time of creation, moves its version on by exactly one,
/// and its time of update strictly forward.
pub proof fn law_writes_move_the_version_by_one(
    state: StateView,
    caller: Seq<u8>,
    collection: Seq<char>,
    key: Seq<char>,
    input: SetDocView,
    now: u64,
)
    requires
        distinct_keys(state.docs),
        set_doc_in(state, caller, collection, key, input, now) is Ok,
    ensures
        ({
            let (stored, context) = set_doc_in(state, caller, collection, key, input, now)->Ok_0;
            let after = context.data.after;
            &&& distinct_keys(stored)
            &&& context.data.before == lookup(state.docs, (collection, key))
            &&& lookup(stored, (collection, key)) == Some(after)
            &&& after.data == input.data
            &&& match lookup(state.docs, (collection, key)) {
                None => after.version == 1 && after.owner == caller && after.updated_at == now,
                Some(before) => after.version == before.version + 1 && after.updated_at
                    > before.updated_at && after.updated_at >= now && after.owner == before.owner
                    && after.created_at == before.created_at,
            }
        }),
{
    let (stored, context) = set_doc_in(state, caller, collection, key, input, now)->Ok_0;
    lemma_put(state.docs, (collection, key), context.data.after, (collection, key));
}

/// A write leaves every other document as it was.
pub proof fn law_writes_touch_one_document(
    state: StateView,
    caller: Seq<u8>,
    collection: Seq<char>,
    key: Seq<char>,
    input: SetDocView,
    now: u64,
    other: (Seq<char>, Seq<char>),
)
    requires
        distinct_keys(state.docs),
        set_doc_in(state, caller, collection, key, input, now) is Ok,
        other != (collection, key),
    ensures
        lookup(set_doc_in(state, caller, collection, key, input, now)->Ok_0.0, other) == lookup(
            state.docs,
            other,
        ),
{
    let (stored, context) = set_doc_in(state, caller, collection, key, input, now)->Ok_0;
    lemma_put(state.docs, (collection, key), context.data.after, other);
}

/// Of two writes that expect the same version, the second fails once the
/// first has succeeded: with a conflict of versions where the caller is
/// still let through, for want of permission otherwise.
pub proof fn law_second_write_of_a_version_conflicts(
    state: StateView,
    caller: Seq<u8>,
    collection: Seq<char>,
    key: Seq<char>,
    first: SetDocView,
    second: SetDocView,
    version: u64,
    now: u64,
    later: u64,
)
    requires
        distinct_keys(state.docs),
        first.version == Some(version),
        second.version == Some(version),
        set_doc_in(state, caller, collection, key, first, now) is Ok,
    ensures
        ({
            let (stored, context) = set_doc_in(state, caller, collection, key, first, now)->Ok_0;
            let after = context.data.after;
            let then = with_docs(state, stored);
            let again = set_doc_in(then, caller, collection, key, second, later);
            &&& after.version == version + 1
            &&& again is Err
            &&& again->Err_0 == ErrorView::VersionConflict || again->Err_0 == denied(
                collection,
                Operation::Write,
            )
            &&& permitted(
                rule_of(state.db_rules, RulesType::Db, collection),
                Operation::Write,
                caller,
                state.controllers,
                holders_of(Some(after)),
            ) ==> again->Err_0 == ErrorView::VersionConflict
        }),
{
    let (stored, context) = set_doc_in(state, caller, collection, key, first, now)->Ok_0;
    lemma_put(state.docs, (collection, key), context.data.after, (collection, key));
}

/// What a commit writes is what the batch held: the asset at the path of
/// the batch has, under the name that the batch gave, an encoding whose
/// chunks are those of the batch in the order of their indexes, whose
/// length is that of their content, and whose hash is the SHA-256 digest
/// of their content put together.
pub proof fn law_commit_stores_the_content_of_the_batch(
    state: StateView,
    caller: Seq<u8>,
    batch: BatchView,
    batch_id: u64,
    headers: Seq<(Seq<char>, Seq<char>)>,
    now: u64,
)
    requires
        state_wf(state),
        lookup(state.uploads.batches, batch_id) == Some(batch),
        commit_in(state, caller, batch_id, headers, now) is Ok,
    ensures
        ({
            let (uploads, assets, asset) = commit_in(state, caller, batch_id, headers, now)->Ok_0;
            &&& lookup(assets, (batch.collection, batch.full_path)) == Some(asset)
            &&& !has_key(uploads.batches, batch_id)
            &&& lookup(asset.encodings, batch.encoding_type) matches Some(encoding)
                && encoding.content_chunks == contents(batch.chunks)
                && encoding.content_chunks.flatten() == batch_body(batch) && encoding.total_length
                == batch_body(batch).len() && encoding.sha256 == sha256(batch_body(batch))
        }),
{
    let (uploads, assets, asset) = commit_in(state, caller, batch_id, headers, now)->Ok_0;
    let place = (batch.collection, batch.full_path);
    let existing = lookup(state.assets, place);
    if has_key(state.assets, place) {
        let i = index_of_key(state.assets, place);
        assert(at_key(state.assets, i, place));
        assert(asset_wf(state.assets[i].1));
    }
    assert(distinct_keys(encodings_of(existing)));
    let fresh = lookup(asset.encodings, batch.encoding_type);
    lemma_put(
        encodings_of(existing),
        batch.encoding_type,
        crate::storage::assembled(batch, sha256(batch_body(batch)), now),
        batch.encoding_type,
    );
    lemma_put(state.assets, place, asset, place);
    crate::table::lemma_without(state.uploads.batches, batch_id, batch_id);
}

/// Content that is longer than the rule of its collection allows is not
/// committed. The commit is refused: for the length, where the batch is
/// live and the caller is let through, and else for what comes first. A
/// refused commit has no store to leave: uploads and assets stay as they
/// were.
pub proof fn law_content_over_the_limit_is_not_committed(
    state: StateView,
    caller: Seq<u8>,
    batch: BatchView,
    batch_id: u64,
    headers: Seq<(Seq<char>, Seq<char>)>,
    now: u64,
    limit: u64,
)
    requires
        lookup(state.uploads.batches, batch_id) == Some(batch),
        rule_of(state.storage_rules, RulesType::Storage, batch.collection).max_size == Some(limit),
        batch_body(batch).len() > limit,
    ensures
        commit_in(state, caller, batch_id, headers, now) is Err,
        now < batch.expires_at && batch_usable(batch, caller, state.controllers) && permitted(
            rule_of(state.storage_rules, RulesType::Storage, batch.collection),
            Operation::Write,
            caller,
            state.controllers,
            asset_holders(lookup(state.assets, (batch.collection, batch.full_path))),
        ) ==> commit_in(state, caller, batch_id, headers, now)->Err_0
            == ErrorView::SizeLimitExceeded,
{
}

/// A chunk whose order is above those of the chunks that a batch holds
/// goes behind them: chunks that arrive in order are stored in the order
/// of their arrival, and the content of the batch grows at its end.
pub proof fn law_chunks_in_order_append(batch: BatchView, added: ChunkView)
    requires
        forall|i: int|
            0 <= i < batch.chunks.len() ==> (#[trigger] batch.chunks[i]).order_id < added.order_id,
    ensures
        grown(batch, added).chunks == batch.chunks.push(added),
        batch_body(grown(batch, added)) == batch_body(batch) + added.content,
{
    let n = batch.chunks.len() as int;
    lemma_chunk_place(batch.chunks, added.order_id, n);
    assert(chunk_place(batch.chunks, added.order_id) == n);
    assert(batch.chunks.insert(n, added) =~= batch.chunks.push(added));
    assert(contents(batch.chunks.push(added)) =~= contents(batch.chunks).push(added.content));
    contents(batch.chunks).lemma_flatten_push(added.content);
}

/// A token that was issued for an encoding, presented while the store is
/// as it was, returns the chunk behind the one it was issued after, and
/// the token for the chunk after that, or none where that was the last.
pub proof fn law_stream_resumes_where_it_stopped(
    assets: AssetsView,
    rules: RulesView,
    full_path: Seq<char>,
    encoding_type: Seq<char>,
    headers: Seq<(Seq<char>, Seq<char>)>,
    index: int,
)
    requires
        0 <= index,
        public_asset(assets, rules, full_path) is Some,
        lookup(public_asset(assets, rules, full_path)->Some_0.encodings, encoding_type) is Some,
        next_token(
            full_path,
            encoding_type,
            headers,
            lookup(public_asset(assets, rules, full_path)->Some_0.encodings, encoding_type)->Some_0,
            index,
        ) is Some,
    ensures
        ({
            let encoding = lookup(
                public_asset(assets, rules, full_path)->Some_0.encodings,
                encoding_type,
            )->Some_0;
            let token = next_token(full_path, encoding_type, headers, encoding, index)->Some_0;
            streaming_outcome(assets, rules, token) == Ok::<
                (Seq<u8>, Option<TokenView>),
                ErrorView,
            >(
                (
                    encoding.content_chunks[index + 1],
                    next_token(full_path, encoding_type, headers, encoding, index + 1),
                ),
            )
        }),
{
}

/// The token that a first response carries, presented while the store is
/// as it was, returns the second chunk of the encoding that the response
/// began, and the token for the third, or none where there are two.
pub proof fn law_first_response_starts_the_stream(
    assets: AssetsView,
    rules: RulesView,
    path: Seq<char>,
    status_code: u16,
)
    requires
        assets_wf(assets),
        public_asset(assets, rules, path) is Some,
        asset_reply(
            public_asset(assets, rules, path)->Some_0,
            path,
            status_code,
        ).streaming_token is Some,
    ensures
        ({
            let asset = public_asset(assets, rules, path)->Some_0;
            let reply = asset_reply(asset, path, status_code);
            let served = served_encoding(asset.encodings);
            &&& reply.body == served.1.content_chunks[0]
            &&& streaming_outcome(assets, rules, reply.streaming_token->Some_0) == Ok::<
                (Seq<u8>, Option<TokenView>),
                ErrorView,
            >(
                (
                    served.1.content_chunks[1],
                    next_token(path, served.0, asset.headers, served.1, 1),
                ),
            )
        }),
{
    let asset = public_asset(assets, rules, path)->Some_0;
    lemma_served_wf(assets, rules, path);
    let encodings = asset.encodings;
    if has_key(encodings, "identity"@) {
        let i = index_of_key(encodings, "identity"@);
        assert(at_key(encodings, i, "identity"@));
        lemma_index_unique(encodings, i, "identity"@);
    } else {
        assert(at_key(encodings, 0, encodings[0].0));
        lemma_index_unique(encodings, 0, encodings[0].0);
    }
}

/// The hash of what is delivered is the digest of its content: the hash
/// that a token carries from a well-formed store is the SHA-256 digest of
/// the chunks of its encoding put together, and their length is the length
/// that the encoding records.
pub proof fn law_delivered_content_has_the_stored_hash(
    assets: AssetsView,
    rules: RulesView,
    token: TokenView,
)
    requires
        assets_wf(assets),
        streaming_outcome(assets, rules, token) is Ok,
    ensures
        public_asset(assets, rules, token.full_path) matches Some(asset) && lookup(
            asset.encodings,
            token.encoding_type,
        ) matches Some(encoding) && token.sha256 == sha256(encoding.content_chunks.flatten())
            && encoding.total_length == encoding.content_chunks.flatten().len(),
{
    lemma_served_wf(assets, rules, token.full_path);
    let asset = public_asset(assets, rules, token.full_path)->Some_0;
    let i = index_of_key(asset.encodings, token.encoding_type);
    assert(at_key(asset.encodings, i, token.encoding_type));
}

/// Under a private write rule, a caller that is no controller cannot commit
/// over an asset that another caller owns: where the batch is there and
/// has not lapsed, the commit is refused for want of permission.
pub proof fn law_private_assets_are_kept_from_strange_commits(
    state: StateView,
    caller: Seq<u8>,
    batch: BatchView,
    batch_id: u64,
    headers: Seq<(Seq<char>, Seq<char>)>,
    now: u64,
)
    requires
        lookup(state.uploads.batches, batch_id) == Some(batch),
        now < batch.expires_at,
        rule_of(state.storage_rules, RulesType::Storage, batch.collection).write
            == Permission::Private,
        lookup(state.assets, (batch.collection, batch.full_path)) matches Some(asset) && asset.owner
            != caller,
        !spec_is_controller(state.controllers, caller),
    ensures
        commit_in(state, caller, batch_id, headers, now) is Err,
        commit_in(state, caller, batch_id, headers, now)->Err_0 == denied(
            batch.collection,
            Operation::Write,
        ),
{
}

/// A count is the length of the listing of everything: the listing
/// without matcher, owner, cursor and limit shows, in the order of their
/// keys, the documents that the count counts.
pub proof fn law_count_is_the_length_of_the_listing(
    state: StateView,
    caller: Seq<u8>,
    collection: Seq<char>,
)
    ensures
        ({
            let matched = docs_matched(
                state.docs,
                rule_of(state.db_rules, RulesType::Db, collection),
                state.controllers,
                caller,
                collection,
                unfiltered(),
            );
            &&& list_docs_outcome(
                state.docs,
                rule_of(state.db_rules, RulesType::Db, collection),
                state.controllers,
                caller,
                collection,
                unfiltered(),
            ) == Ok::<(Seq<(Seq<char>, DocView)>, nat), ErrorView>(
                (sort_by_key(matched), matched.len()),
            )
            &&& sort_by_key(matched).len() == matched.len()
        }),
{
    let matched = docs_matched(
        state.docs,
        rule_of(state.db_rules, RulesType::Db, collection),
        state.controllers,
        caller,
        collection,
        unfiltered(),
    );
    lemma_sort_by_key(matched);
    let sorted = sort_by_key(matched);
    assert(sorted.subrange(0, sorted.len() as int) =~= sorted);
}

/// A token whose hash is not that of the encoding that is stored now is
/// refused: content that was replaced since the token was issued is never
/// handed out under it.
pub proof fn law_stream_fails_closed(assets: AssetsView, rules: RulesView, token: TokenView)
    requires
        public_asset(assets, rules, token.full_path) is Some,
        lookup(
            public_asset(assets, rules, token.full_path)->Some_0.encodings,
            token.encoding_type,
        ) is Some,
        lookup(
            public_asset(assets, rules, token.full_path)->Some_0.encodings,
            token.encoding_type,
        )->Some_0.sha256 != token.sha256,
    ensures
        streaming_outcome(assets, rules, token) == Err::<(Seq<u8>, Option<TokenView>), ErrorView>(
            ErrorView::IntegrityMismatch,
        ),
{
}

/// A commit between the issue of a token and its use ends the stream: once
/// content of another digest is committed under the path and the name of
/// the encoding of the token, and is what is delivered at that path, the
/// token is refused.
pub proof fn law_replaced_content_ends_the_stream(
    state: StateView,
    caller: Seq<u8>,
    batch: BatchView,
    batch_id: u64,
    headers: Seq<(Seq<char>, Seq<char>)>,
    now: u64,
    token: TokenView,
)
    requires
        state_wf(state),
        lookup(state.uploads.batches, batch_id) == Some(batch),
        commit_in(state, caller, batch_id, headers, now) is Ok,
        token.full_path == batch.full_path,
        token.encoding_type == batch.encoding_type,
        token.sha256 != sha256(batch_body(batch)),
        public_asset(
            commit_in(state, caller, batch_id, headers, now)->Ok_0.1,
            state.storage_rules,
            batch.full_path,
        ) == Some(commit_in(state, caller, batch_id, headers, now)->Ok_0.2),
    ensures
        streaming_outcome(
            commit_in(state, caller, batch_id, headers, now)->Ok_0.1,
            state.storage_rules,
            token,
        ) == Err::<(Seq<u8>, Option<TokenView>), ErrorView>(ErrorView::IntegrityMismatch),
{
    law_commit_stores_the_content_of_the_batch(state, caller, batch, batch_id, headers, now);
}

/// Whatever a token returns is a chunk of the encoding of its name, of
/// the asset that is delivered now at its path, and the hash of that
/// encoding is the hash of the token.
pub proof fn law_stream_serves_only_what_the_token_names(
    assets: AssetsView,
    rules: RulesView,
    token: TokenView,
)
    requires
        streaming_outcome(assets, rules, token) is Ok,
    ensures
        public_asset(assets, rules, token.full_path) matches Some(asset) && lookup(
            asset.encodings,
            token.encoding_type,
        ) matches Some(encoding) && encoding.sha256 == token.sha256 && token.index
            < encoding.content_chunks.len() && streaming_outcome(assets, rules, token)->Ok_0.0
            == encoding.content_chunks[token.index as int],
{
}

/// What is delivered for a path is an asset of the store at that path,
/// in a collection that anyone may read.
pub proof fn law_only_public_assets_are_delivered(
    assets: AssetsView,
    rules: RulesView,
    path: Seq<char>,
)
    requires
        public_asset(assets, rules, path) is Some,
    ensures
        exists|i: int|
            0 <= i < assets.len() && (#[trigger] assets[i]).0.1 == path && rule_of(
                rules,
                RulesType::Storage,
                assets[i].0.0,
            ).read == Permission::Public && public_asset(assets, rules, path) == Some(assets[i].1),
{
    let i = serving_place(assets, rules, path);
    assert(first_serving(assets, rules, i, path));
}

} // verus!
