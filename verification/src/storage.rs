//! The asset store and the upload pipeline that fills it.

use crate::auth::{authorize, permitted, Decision, Holders};
use crate::controllers::{is_controller, spec_is_controller, Controllers, ControllersView};
use crate::db::next_timestamp;
use crate::error::{denied, Error, ErrorView, Operation};
use crate::hash::{sha256, sha256_digest};
use crate::list::{
    arranged, key_matches, matches_key, owner_matches, page, paginate, sort_pairs, unfiltered,
    ListOrder, ListParams, ListParamsView, ListResults,
};
use crate::principal::{copy_bytes, same_bytes, Principal};
use crate::records::{
    blocked, clear_prefix, delete_all_outcome, delete_permitted, lemma_clear_prefix_bounds,
    outside_collection, Held,
};
use crate::rules::{get_rule, rule_of, Rule, Rules, RulesType, RulesView};
use crate::table::{
    at_key,
    copy_list,
    distinct_keys,
    has_key,
    index_of_key,
    lemma_put,
    lemma_without,
    lookup,
    put,
    without,
    Duplicate,
    Key,
    Table,
};
use vstd::prelude::*;

verus! {

/// How long an upload batch stays open, in nanoseconds.
pub const BATCH_EXPIRY: u64 = 300_000_000_000;

/// One encoding of an asset: its content in chunks, with the length and the
/// hash of the whole.
#[derive(Debug, Clone, PartialEq, Eq)]
pub struct Encoding {
    pub modified: u64,
    pub content_chunks: Vec<Vec<u8>>,
    pub total_length: u64,
    pub sha256: Vec<u8>,
}

/// The model of an [`Encoding`].
pub struct EncodingView {
    pub modified: u64,
    pub content_chunks: Seq<Seq<u8>>,
    pub total_length: u64,
    pub sha256: Seq<u8>,
}

/// The contents of a list of byte blocks.
pub open spec fn blocks(list: Seq<Vec<u8>>) -> Seq<Seq<u8>> {
    Seq::new(list.len(), |i: int| list[i]@)
}

impl DeepView for Encoding {
    type V = EncodingView;

    open spec fn deep_view(&self) -> EncodingView {
        EncodingView {
            modified: self.modified,
            content_chunks: blocks(self.content_chunks@),
            total_length: self.total_length,
            sha256: self.sha256@,
        }
    }
}

/// A copy of a list of byte blocks.
pub fn copy_blocks(list: &Vec<Vec<u8>>) -> (r: Vec<Vec<u8>>)
    ensures
        blocks(r@) == blocks(list@),
{
    let mut copy: Vec<Vec<u8>> = Vec::new();
    let mut i: usize = 0;
    while i < list.len()
        invariant
            i <= list.len(),
            copy.len() == i,
            forall|j: int| 0 <= j < i ==> copy@[j]@ == list@[j]@,
        decreases list.len() - i,
    {
        copy.push(copy_bytes(&list[i]));
        i += 1;
    }
    assert(blocks(copy@) =~= blocks(list@));
    copy
}

impl Duplicate for Encoding {
    fn duplicate(&self) -> (r: Encoding) {
        Encoding {
            modified: self.modified,
            content_chunks: copy_blocks(&self.content_chunks),
            total_length: self.total_length,
            sha256: copy_bytes(&self.sha256),
        }
    }
}

/// A stored asset. Its collection and full path are what it is filed under.
#[derive(Debug, Clone, PartialEq, Eq)]
pub struct Asset {
    pub name: String,
    pub owner: Principal,
    pub delegates: Vec<Principal>,
    pub headers: Vec<(String, String)>,
    pub encodings: Table<String, Encoding>,
    pub created_at: u64,
    pub updated_at: u64,
    pub version: u64,
}

/// The model of an [`Asset`].
pub struct AssetView {
    pub name: Seq<char>,
    pub owner: Seq<u8>,
    pub delegates: Seq<Seq<u8>>,
    pub headers: Seq<(Seq<char>, Seq<char>)>,
    pub encodings: Seq<(Seq<char>, EncodingView)>,
    pub created_at: u64,
    pub updated_at: u64,
    pub version: u64,
}

impl DeepView for Asset {
    type V = AssetView;

    open spec fn deep_view(&self) -> AssetView {
        AssetView {
            name: self.name@,
            owner: self.owner@,
            delegates: self.delegates.deep_view(),
            headers: self.headers.deep_view(),
            encodings: self.encodings@,
            created_at: self.created_at,
            updated_at: self.updated_at,
            version: self.version,
        }
    }
}

impl Duplicate for Asset {
    fn duplicate(&self) -> (r: Asset) {
        Asset {
            name: self.name.clone(),
            owner: self.owner.duplicate(),
            delegates: copy_list(&self.delegates),
            headers: copy_list(&self.headers),
            encodings: self.encodings.duplicate(),
            created_at: self.created_at,
            updated_at: self.updated_at,
            version: self.version,
        }
    }
}

/// The assets, filed under collection and full path.
pub type AssetStore = Table<(String, String), Asset>;

/// The model of one entry of the asset store.
pub type AssetEntry = ((Seq<char>, Seq<char>), AssetView);

/// The model of the asset store.
pub type AssetsView = Seq<AssetEntry>;

/// An encoding is well formed: the length that it records is that of its
/// content, and its hash is the SHA-256 digest of its content.
pub open spec fn encoding_wf(encoding: EncodingView) -> bool {
    &&& encoding.total_length == encoding.content_chunks.flatten().len()
    &&& encoding.sha256 == sha256(encoding.content_chunks.flatten())
}

/// An asset is well formed: it has an encoding, its encodings have
/// distinct names, and each is well formed.
pub open spec fn asset_wf(asset: AssetView) -> bool {
    &&& asset.encodings.len() > 0
    &&& distinct_keys(asset.encodings)
    &&& forall|i: int|
        0 <= i < asset.encodings.len() ==> encoding_wf((#[trigger] asset.encodings[i]).1)
}

/// The asset store is well formed: no place is filled twice, and every
/// asset is well formed.
pub open spec fn assets_wf(assets: AssetsView) -> bool {
    &&& distinct_keys(assets)
    &&& forall|i: int| 0 <= i < assets.len() ==> asset_wf((#[trigger] assets[i]).1)
}

/// One chunk of an upload.
#[derive(Debug, Clone, PartialEq, Eq)]
pub struct Chunk {
    pub chunk_id: u64,
    pub order_id: u64,
    pub content: Vec<u8>,
}

/// The model of a [`Chunk`].
pub struct ChunkView {
    pub chunk_id: u64,
    pub order_id: u64,
    pub content: Seq<u8>,
}

impl DeepView for Chunk {
    type V = ChunkView;

    open spec fn deep_view(&self) -> ChunkView {
        ChunkView { chunk_id: self.chunk_id, order_id: self.order_id, content: self.content@ }
    }
}

/// An upload in progress: where its content will go, who started it, when
/// it lapses, and the chunks received so far, by their order.
#[derive(Debug, Clone, PartialEq, Eq)]
pub struct Batch {
    pub collection: String,
    pub full_path: String,
    pub name: String,
    pub encoding_type: String,
    pub owner: Principal,
    pub delegates: Vec<Principal>,
    pub created_at: u64,
    pub expires_at: u64,
    pub chunks: Vec<Chunk>,
}

/// The model of a [`Batch`].
pub struct BatchView {
    pub collection: Seq<char>,
    pub full_path: Seq<char>,
    pub name: Seq<char>,
    pub encoding_type: Seq<char>,
    pub owner: Seq<u8>,
    pub delegates: Seq<Seq<u8>>,
    pub created_at: u64,
    pub expires_at: u64,
    pub chunks: Seq<ChunkView>,
}

impl DeepView for Batch {
    type V = BatchView;

    open spec fn deep_view(&self) -> BatchView {
        BatchView {
            collection: self.collection@,
            full_path: self.full_path@,
            name: self.name@,
            encoding_type: self.encoding_type@,
            owner: self.owner@,
            delegates: self.delegates.deep_view(),
            created_at: self.created_at,
            expires_at: self.expires_at,
            chunks: self.chunks.deep_view(),
        }
    }
}

/// The uploads in progress, and the ids that the next batch and the next
/// chunk will get.
pub struct Uploads {
    pub batches: Table<u64, Batch>,
    pub next_batch_id: u64,
    pub next_chunk_id: u64,
}

/// The model of [`Uploads`].
pub struct UploadsView {
    pub batches: Seq<(u64, BatchView)>,
    pub next_batch_id: u64,
    pub next_chunk_id: u64,
}

impl DeepView for Uploads {
    type V = UploadsView;

    open spec fn deep_view(&self) -> UploadsView {
        UploadsView {
            batches: self.batches@,
            next_batch_id: self.next_batch_id,
            next_chunk_id: self.next_chunk_id,
        }
    }
}

impl View for Uploads {
    type V = UploadsView;

    open spec fn view(&self) -> UploadsView {
        self.deep_view()
    }
}

/// The orders of the chunks go up strictly.
pub open spec fn chunks_ordered(chunks: Seq<ChunkView>) -> bool {
    forall|i: int, j: int|
        #![trigger chunks[i], chunks[j]]
        0 <= i < j < chunks.len() ==> chunks[i].order_id < chunks[j].order_id
}

/// The uploads are well formed: no batch id is used twice, every id in use
/// is below the next one to be given out, and the chunks of each batch are
/// in the order of their indexes.
pub open spec fn uploads_wf(uploads: UploadsView) -> bool {
    &&& distinct_keys(uploads.batches)
    &&& forall|i: int|
        0 <= i < uploads.batches.len() ==> (#[trigger] uploads.batches[i]).0
            < uploads.next_batch_id && chunks_ordered(uploads.batches[i].1.chunks)
}

impl Uploads {
    /// No uploads, and ids that start at zero.
    pub fn new() -> (r: Uploads)
        ensures
            r@.batches == Seq::<(u64, BatchView)>::empty(),
            r@.next_batch_id == 0,
            r@.next_chunk_id == 0,
            uploads_wf(r@),
    {
        Uploads { batches: Table::new(), next_batch_id: 0, next_chunk_id: 0 }
    }
}

/// What starts an upload.
#[derive(Debug, Clone, PartialEq, Eq)]
pub struct InitAssetKey {
    pub collection: String,
    pub full_path: String,
    pub name: String,
    pub encoding_type: String,
    pub delegates: Vec<Principal>,
}

/// The model of an [`InitAssetKey`].
pub struct InitAssetKeyView {
    pub collection: Seq<char>,
    pub full_path: Seq<char>,
    pub name: Seq<char>,
    pub encoding_type: Seq<char>,
    pub delegates: Seq<Seq<u8>>,
}

impl DeepView for InitAssetKey {
    type V = InitAssetKeyView;

    open spec fn deep_view(&self) -> InitAssetKeyView {
        InitAssetKeyView {
            collection: self.collection@,
            full_path: self.full_path@,
            name: self.name@,
            encoding_type: self.encoding_type@,
            delegates: self.delegates.deep_view(),
        }
    }
}

/// The batch that an upload got.
#[derive(Debug, Clone, Copy, PartialEq, Eq)]
pub struct InitUploadResult {
    pub batch_id: u64,
}

/// One chunk on its way into a batch.
#[derive(Debug, Clone, PartialEq, Eq)]
pub struct UploadChunk {
    pub batch_id: u64,
    pub content: Vec<u8>,
    pub order_id: u64,
}

/// The id that a chunk got.
#[derive(Debug, Clone, Copy, PartialEq, Eq)]
pub struct UploadChunkResult {
    pub chunk_id: u64,
}

/// What closes an upload: the batch, and the headers to serve the asset
/// with.
#[derive(Debug, Clone, PartialEq, Eq)]
pub struct CommitBatch {
    pub batch_id: u64,
    pub headers: Vec<(String, String)>,
}

/// The holders of an asset, where there is one.
pub open spec fn asset_holders(existing: Option<AssetView>) -> Option<Holders> {
    match existing {
        Some(asset) => Some((asset.owner, asset.delegates)),
        None => None,
    }
}

/// When a batch opened at `now` lapses.
pub open spec fn expiry_of(now: u64) -> u64 {
    if now + BATCH_EXPIRY > u64::MAX {
        u64::MAX
    } else {
        (now + BATCH_EXPIRY) as u64
    }
}

/// The batch that an upload starts with.
pub open spec fn opened(init: InitAssetKeyView, caller: Seq<u8>, now: u64) -> BatchView {
    BatchView {
        collection: init.collection,
        full_path: init.full_path,
        name: init.name,
        encoding_type: init.encoding_type,
        owner: caller,
        delegates: init.delegates,
        created_at: now,
        expires_at: expiry_of(now),
        chunks: Seq::empty(),
    }
}

/// What starting an upload does: the uploads it leaves and the id of the
/// new batch, or the refusal.
pub open spec fn create_batch_outcome(
    uploads: UploadsView,
    assets: AssetsView,
    rule: Rule,
    controllers: ControllersView,
    caller: Seq<u8>,
    init: InitAssetKeyView,
    now: u64,
) -> Result<(UploadsView, u64), ErrorView> {
    let existing = lookup(assets, (init.collection, init.full_path));
    if !permitted(rule, Operation::Write, caller, controllers, asset_holders(existing)) {
        Err(denied(init.collection, Operation::Write))
    } else if uploads.next_batch_id == u64::MAX {
        Err(ErrorView::InvalidInput)
    } else {
        Ok(
            (
                UploadsView {
                    batches: put(uploads.batches, uploads.next_batch_id, opened(init, caller, now)),
                    next_batch_id: (uploads.next_batch_id + 1) as u64,
                    next_chunk_id: uploads.next_chunk_id,
                },
                uploads.next_batch_id,
            ),
        )
    }
}

/// Whether `caller` may add to a batch and close it: who started it may,
/// and so may a controller.
pub open spec fn batch_usable(
    batch: BatchView,
    caller: Seq<u8>,
    controllers: ControllersView,
) -> bool {
    caller == batch.owner || spec_is_controller(controllers, caller)
}

/// Some chunk has this order.
pub open spec fn has_order(chunks: Seq<ChunkView>, order: u64) -> bool {
    exists|i: int| at_order(chunks, i, order)
}

/// Chunk `i` exists and has this order.
pub open spec fn at_order(chunks: Seq<ChunkView>, i: int, order: u64) -> bool {
    0 <= i < chunks.len() && chunks[i].order_id == order
}

/// Where a chunk of this order goes: behind the chunks of lower order.
pub open spec fn chunk_place(chunks: Seq<ChunkView>, order: u64) -> int
    decreases chunks.len(),
{
    if chunks.len() == 0 {
        0
    } else if chunks.last().order_id < order {
        chunks.len() as int
    } else {
        chunk_place(chunks.drop_last(), order)
    }
}

/// What characterises the place of an order.
pub open spec fn is_chunk_place(chunks: Seq<ChunkView>, order: u64, j: int) -> bool {
    &&& 0 <= j <= chunks.len()
    &&& forall|t: int| j <= t < chunks.len() ==> (#[trigger] chunks[t]).order_id >= order
    &&& j == 0 || chunks[j - 1].order_id < order
}

/// The place of an order is the one position that [`is_chunk_place`]
/// describes.
pub proof fn lemma_chunk_place(chunks: Seq<ChunkView>, order: u64, j: int)
    ensures
        is_chunk_place(chunks, order, chunk_place(chunks, order)),
        is_chunk_place(chunks, order, j) ==> j == chunk_place(chunks, order),
    decreases chunks.len(),
{
    if chunks.len() > 0 {
        let t = chunks.drop_last();
        lemma_chunk_place(t, order, j);
        lemma_chunk_place(t, order, chunk_place(t, order));
        if chunks.last().order_id >= order {
            let p = chunk_place(t, order);
            assert forall|x: int| p <= x < chunks.len() implies (#[trigger] chunks[x]).order_id
                >= order by {
                if x < t.len() {
                    assert(chunks[x] == t[x]);
                }
            }
            if p > 0 {
                assert(chunks[p - 1] == t[p - 1]);
            }
            if is_chunk_place(chunks, order, j) {
                if j == chunks.len() {
                    assert(chunks[j - 1].order_id < order);
                } else {
                    assert forall|x: int| j <= x < t.len() implies (#[trigger] t[x]).order_id
                        >= order by {
                        assert(t[x] == chunks[x]);
                    }
                    if j > 0 {
                        assert(t[j - 1] == chunks[j - 1]);
                    }
                    assert(is_chunk_place(t, order, j));
                }
            }
        } else {
            if is_chunk_place(chunks, order, j) && j < chunks.len() {
                assert(chunks[chunks.len() - 1].order_id >= order);
            }
        }
    }
}

/// Chunks in order stay in order when one of a new order goes in at its
/// place.
pub proof fn lemma_chunk_insert(chunks: Seq<ChunkView>, added: ChunkView)
    requires
        chunks_ordered(chunks),
        !has_order(chunks, added.order_id),
    ensures
        chunks_ordered(chunks.insert(chunk_place(chunks, added.order_id), added)),
{
    let p = chunk_place(chunks, added.order_id);
    lemma_chunk_place(chunks, added.order_id, p);
    let r = chunks.insert(p, added);
    assert forall|i: int, j: int| #![trigger r[i], r[j]] 0 <= i < j < r.len() implies r[i].order_id
        < r[j].order_id by {
        if j < p {
            assert(r[i] == chunks[i] && r[j] == chunks[j]);
        } else if j == p {
            assert(r[i] == chunks[i]);
            if i < p - 1 {
                assert(chunks[i].order_id < chunks[p - 1].order_id);
            }
        } else if i < p {
            assert(r[i] == chunks[i] && r[j] == chunks[j - 1]);
            if i < j - 1 {
                assert(chunks[i].order_id < chunks[j - 1].order_id);
            }
        } else if i == p {
            assert(r[j] == chunks[j - 1]);
            assert(!at_order(chunks, j - 1, added.order_id));
        } else {
            assert(r[i] == chunks[i - 1] && r[j] == chunks[j - 1]);
        }
    }
}

/// The model of an [`UploadChunk`].
pub struct UploadChunkView {
    pub batch_id: u64,
    pub content: Seq<u8>,
    pub order_id: u64,
}

impl DeepView for UploadChunk {
    type V = UploadChunkView;

    open spec fn deep_view(&self) -> UploadChunkView {
        UploadChunkView { batch_id: self.batch_id, content: self.content@, order_id: self.order_id }
    }
}

/// A batch with one more chunk, at the place of its order.
pub open spec fn grown(batch: BatchView, added: ChunkView) -> BatchView {
    BatchView {
        collection: batch.collection,
        full_path: batch.full_path,
        name: batch.name,
        encoding_type: batch.encoding_type,
        owner: batch.owner,
        delegates: batch.delegates,
        created_at: batch.created_at,
        expires_at: batch.expires_at,
        chunks: batch.chunks.insert(chunk_place(batch.chunks, added.order_id), added),
    }
}

/// What adding a chunk does: the uploads it leaves and the id of the
/// chunk, or the refusal.
pub open spec fn create_chunk_outcome(
    uploads: UploadsView,
    controllers: ControllersView,
    caller: Seq<u8>,
    chunk: UploadChunkView,
    now: u64,
) -> Result<(UploadsView, u64), ErrorView> {
    match lookup(uploads.batches, chunk.batch_id) {
        None => Err(ErrorView::BatchNotFound),
        Some(batch) => if now >= batch.expires_at {
            Err(ErrorView::BatchExpired)
        } else if !batch_usable(batch, caller, controllers) {
            Err(denied(batch.collection, Operation::Write))
        } else if has_order(batch.chunks, chunk.order_id) || uploads.next_chunk_id == u64::MAX {
            Err(ErrorView::InvalidInput)
        } else {
            let added = ChunkView {
                chunk_id: uploads.next_chunk_id,
                order_id: chunk.order_id,
                content: chunk.content,
            };
            Ok(
                (
                    UploadsView {
                        batches: put(uploads.batches, chunk.batch_id, grown(batch, added)),
                        next_batch_id: uploads.next_batch_id,
                        next_chunk_id: (uploads.next_chunk_id + 1) as u64,
                    },
                    uploads.next_chunk_id,
                ),
            )
        },
    }
}

/// Opens a batch for an upload to `init.full_path`.
pub fn create_batch_store(
    uploads: &mut Uploads,
    assets: &AssetStore,
    rules: &Rules,
    controllers: &Controllers,
    caller: &Principal,
    init: InitAssetKey,
    now: u64,
) -> (r: Result<u64, Error>)
    requires
        uploads_wf(old(uploads)@),
        assets.wf(),
        rules.wf(),
        controllers.wf(),
    ensures
        uploads_wf(final(uploads)@),
        match create_batch_outcome(
            old(uploads)@,
            assets@,
            rule_of(rules@, RulesType::Storage, init.collection@),
            controllers@,
            caller@,
            init.deep_view(),
            now,
        ) {
            Ok((left, id)) => r == Ok::<u64, Error>(id) && final(uploads)@ == left,
            Err(refusal) => r matches Err(error) && error.deep_view() == refusal && final(uploads)@
                == old(uploads)@,
        },
{
    let rule = get_rule(rules, RulesType::Storage, &init.collection);
    let id = (init.collection, init.full_path);
    let decision = match assets.get(&id) {
        Some(asset) => authorize(
            caller,
            &rule,
            Operation::Write,
            controllers,
            Some((&asset.owner, &asset.delegates)),
        ),
        None => authorize(caller, &rule, Operation::Write, controllers, None),
    };
    if decision == Decision::Deny {
        return Err(Error::PermissionDenied { collection: id.0, operation: Operation::Write });
    }
    if uploads.next_batch_id == u64::MAX {
        return Err(Error::InvalidInput);
    }
    let expires_at = if now > u64::MAX - BATCH_EXPIRY {
        u64::MAX
    } else {
        now + BATCH_EXPIRY
    };
    let batch = Batch {
        collection: id.0,
        full_path: id.1,
        name: init.name,
        encoding_type: init.encoding_type,
        owner: caller.duplicate(),
        delegates: init.delegates,
        created_at: now,
        expires_at,
        chunks: Vec::new(),
    };
    let batch_id = uploads.next_batch_id;
    let ghost before = uploads@;
    let ghost fresh = batch.deep_view();
    proof {
        assert(fresh.chunks =~= Seq::<ChunkView>::empty());
        assert(fresh == opened(init.deep_view(), caller@, now));
        assert(!has_key(before.batches, batch_id)) by {
            if has_key(before.batches, batch_id) {
                let i = index_of_key(before.batches, batch_id);
                assert(at_key(before.batches, i, batch_id));
            }
        }
        lemma_put(before.batches, batch_id, fresh, batch_id);
    }
    let gone = uploads.batches.put(batch_id, batch);
    uploads.next_batch_id = batch_id + 1;
    proof {
        let after = uploads@;
        assert(after.batches == before.batches.push((batch_id, fresh)));
        assert forall|i: int| 0 <= i < after.batches.len() implies (#[trigger] after.batches[i]).0
            < after.next_batch_id && chunks_ordered(after.batches[i].1.chunks) by {
            if i < before.batches.len() {
                assert(after.batches[i] == before.batches[i]);
            }
        }
    }
    Ok(batch_id)
}

/// The place of `order` among `chunks`, or `None` where a chunk has this
/// order already.
fn free_place(chunks: &Vec<Chunk>, order: u64) -> (r: Option<usize>)
    requires
        chunks_ordered(chunks.deep_view()),
    ensures
        match r {
            Some(j) => !has_order(chunks.deep_view(), order) && j == chunk_place(
                chunks.deep_view(),
                order,
            ),
            None => has_order(chunks.deep_view(), order),
        },
{
    let ghost all = chunks.deep_view();
    let mut j: usize = chunks.len();
    while j > 0
        invariant
            all == chunks.deep_view(),
            chunks_ordered(all),
            j <= chunks.len(),
            forall|t: int| j <= t < all.len() ==> (#[trigger] all[t]).order_id > order,
        decreases j,
    {
        let seen = chunks[j - 1].order_id;
        assert(seen == all[j - 1].order_id);
        if seen == order {
            assert(at_order(all, j - 1, order));
            return None;
        }
        if seen < order {
            proof {
                lemma_chunk_place(all, order, j as int);
                assert forall|i: int| !at_order(all, i, order) by {
                    if 0 <= i < j - 1 {
                        assert(all[i].order_id < all[j - 1].order_id);
                    }
                }
            }
            return Some(j);
        }
        j -= 1;
    }
    proof {
        lemma_chunk_place(all, order, 0);
        assert forall|i: int| !at_order(all, i, order) by {}
    }
    Some(0)
}

/// Adds a chunk to a batch, at the place of its order.
pub fn create_chunk_store(
    uploads: &mut Uploads,
    controllers: &Controllers,
    caller: &Principal,
    chunk: UploadChunk,
    now: u64,
) -> (r: Result<u64, Error>)
    requires
        uploads_wf(old(uploads)@),
        controllers.wf(),
    ensures
        uploads_wf(final(uploads)@),
        match create_chunk_outcome(old(uploads)@, controllers@, caller@, chunk.deep_view(), now) {
            Ok((left, id)) => r == Ok::<u64, Error>(id) && final(uploads)@ == left,
            Err(refusal) => r matches Err(error) && error.deep_view() == refusal && final(uploads)@
                == old(uploads)@,
        },
{
    let ghost before = uploads@;
    let at = match uploads.batches.position(&chunk.batch_id) {
        Some(at) => at,
        None => {
            return Err(Error::BatchNotFound);
        },
    };
    let batch = uploads.batches.value_at(at);
    assert(lookup(before.batches, chunk.batch_id) == Some(batch.deep_view()));
    if now >= batch.expires_at {
        return Err(Error::BatchExpired);
    }
    if !(caller.same(&batch.owner) || is_controller(controllers, caller)) {
        return Err(
            Error::PermissionDenied {
                collection: batch.collection.clone(),
                operation: Operation::Write,
            },
        );
    }
    assert(chunks_ordered(before.batches[at as int].1.chunks));
    let place = match free_place(&batch.chunks, chunk.order_id) {
        Some(place) => place,
        None => {
            return Err(Error::InvalidInput);
        },
    };
    if uploads.next_chunk_id == u64::MAX {
        return Err(Error::InvalidInput);
    }
    let chunk_id = uploads.next_chunk_id;
    let added = Chunk { chunk_id, order_id: chunk.order_id, content: chunk.content };
    let ghost added_view = added.deep_view();
    let ghost old_batch = batch.deep_view();
    let (id, taken) = uploads.batches.remove_at(at);
    let mut batch = taken;
    proof {
        assert(batch.deep_view() == old_batch);
        assert(batch.chunks.deep_view().len() == batch.chunks@.len());
        lemma_chunk_place(old_batch.chunks, added_view.order_id, place as int);
    }
    batch.chunks.insert(place, added);
    proof {
        assert(batch.chunks.deep_view() =~= old_batch.chunks.insert(place as int, added_view));
        assert(batch.deep_view() == grown(old_batch, added_view));
        lemma_chunk_insert(old_batch.chunks, added_view);
        lemma_without(before.batches, chunk.batch_id, chunk.batch_id);
        assert(before.batches.remove(at as int) == without(before.batches, chunk.batch_id));
    }
    let ghost new_batch = batch.deep_view();
    uploads.batches.insert_at(at, id, batch);
    uploads.next_chunk_id = chunk_id + 1;
    proof {
        let after = uploads@;
        assert(after.batches =~= before.batches.update(at as int, (chunk.batch_id, new_batch)));
        assert(after.batches == put(before.batches, chunk.batch_id, new_batch));
        assert forall|i: int| 0 <= i < after.batches.len() implies (#[trigger] after.batches[i]).0
            < after.next_batch_id && chunks_ordered(after.batches[i].1.chunks) by {
            if i != at {
                assert(after.batches[i] == before.batches[i]);
            } else {
                assert(before.batches[i].0 == chunk.batch_id);
            }
        }
    }
    Ok(chunk_id)
}


/// The contents of the chunks, in their order.
pub open spec fn contents(chunks: Seq<ChunkView>) -> Seq<Seq<u8>> {
    Seq::new(chunks.len(), |i: int| chunks[i].content)
}

/// The content that a batch holds: its chunks, one after the other in the
/// order of their indexes.
pub open spec fn batch_body(batch: BatchView) -> Seq<u8> {
    contents(batch.chunks).flatten()
}

/// Whether content of this length is more than can be stored under a rule
/// with this limit.
pub open spec fn too_long(length: nat, max_size: Option<u64>) -> bool {
    length > u64::MAX || match max_size {
        Some(limit) => length > limit,
        None => false,
    }
}

/// The encoding that a batch is assembled into.
pub open spec fn assembled(batch: BatchView, digest: Seq<u8>, now: u64) -> EncodingView {
    EncodingView {
        modified: now,
        content_chunks: contents(batch.chunks),
        total_length: batch_body(batch).len() as u64,
        sha256: digest,
    }
}

/// The encodings of an asset, where there is one.
pub open spec fn encodings_of(existing: Option<AssetView>) -> Seq<(Seq<char>, EncodingView)> {
    match existing {
        Some(asset) => asset.encodings,
        None => Seq::empty(),
    }
}

/// The asset that a commit leaves, or `None` where the version or the time
/// of the stored asset cannot be followed by another.
pub open spec fn committed(
    existing: Option<AssetView>,
    batch: BatchView,
    headers: Seq<(Seq<char>, Seq<char>)>,
    digest: Seq<u8>,
    now: u64,
) -> Option<AssetView> {
    let encodings = put(encodings_of(existing), batch.encoding_type, assembled(batch, digest, now));
    match existing {
        None => Some(
            AssetView {
                name: batch.name,
                owner: batch.owner,
                delegates: batch.delegates,
                headers,
                encodings,
                created_at: now,
                updated_at: now,
                version: 1,
            },
        ),
        Some(asset) => if asset.version == u64::MAX || next_timestamp(asset.updated_at, now)
            > u64::MAX {
            None
        } else {
            Some(
                AssetView {
                    name: batch.name,
                    owner: asset.owner,
                    delegates: batch.delegates,
                    headers,
                    encodings,
                    created_at: asset.created_at,
                    updated_at: next_timestamp(asset.updated_at, now) as u64,
                    version: (asset.version + 1) as u64,
                },
            )
        },
    }
}

/// The uploads without a batch.
pub open spec fn without_batch(uploads: UploadsView, batch_id: u64) -> UploadsView {
    UploadsView {
        batches: without(uploads.batches, batch_id),
        next_batch_id: uploads.next_batch_id,
        next_chunk_id: uploads.next_chunk_id,
    }
}

/// What a commit does, given the digest of the content of the batch: the
/// uploads and the assets it leaves and the asset it wrote, or the refusal.
pub open spec fn commit_outcome(
    uploads: UploadsView,
    assets: AssetsView,
    rules: RulesView,
    controllers: ControllersView,
    caller: Seq<u8>,
    batch_id: u64,
    headers: Seq<(Seq<char>, Seq<char>)>,
    now: u64,
    digest: Seq<u8>,
) -> Result<(UploadsView, AssetsView, AssetView), ErrorView> {
    match lookup(uploads.batches, batch_id) {
        None => Err(ErrorView::BatchNotFound),
        Some(batch) => {
            let place = (batch.collection, batch.full_path);
            let existing = lookup(assets, place);
            let rule = rule_of(rules, RulesType::Storage, batch.collection);
            if now >= batch.expires_at {
                Err(ErrorView::BatchExpired)
            } else if !batch_usable(batch, caller, controllers) || !permitted(
                rule,
                Operation::Write,
                caller,
                controllers,
                asset_holders(existing),
            ) {
                Err(denied(batch.collection, Operation::Write))
            } else if too_long(batch_body(batch).len(), rule.max_size) {
                Err(ErrorView::SizeLimitExceeded)
            } else {
                match committed(existing, batch, headers, digest, now) {
                    None => Err(ErrorView::InvalidInput),
                    Some(asset) => Ok(
                        (without_batch(uploads, batch_id), put(assets, place, asset), asset),
                    ),
                }
            }
        },
    }
}

/// The digest of the content of a batch, where there is this batch.
pub open spec fn body_digest(uploads: UploadsView, batch_id: u64) -> Seq<u8> {
    match lookup(uploads.batches, batch_id) {
        Some(batch) => sha256(batch_body(batch)),
        None => Seq::empty(),
    }
}

/// The content of the first chunks is no longer than that of all.
pub proof fn lemma_flatten_take(all: Seq<Seq<u8>>, n: int)
    requires
        0 <= n <= all.len(),
    ensures
        all.take(n).flatten().len() <= all.flatten().len(),
{
    vstd::seq_lib::lemma_flatten_concat(all.take(n), all.skip(n));
    assert(all.take(n) + all.skip(n) =~= all);
}

/// Appends the bytes of `block` to `body`.
pub fn append_bytes(body: &mut Vec<u8>, block: &Vec<u8>)
    ensures
        final(body)@ == old(body)@ + block@,
{
    let ghost before = body@;
    let mut i: usize = 0;
    while i < block.len()
        invariant
            i <= block.len(),
            body@ == before + block@.take(i as int),
        decreases block.len() - i,
    {
        body.push(block[i]);
        assert(block@.take(i + 1) =~= block@.take(i as int).push(block@[i as int]));
        i += 1;
    }
    assert(block@.take(i as int) =~= block@);
}

/// The content of the chunks, one after the other.
pub fn body_of(chunks: &Vec<Chunk>) -> (r: Vec<u8>)
    ensures
        r@ == contents(chunks.deep_view()).flatten(),
{
    let ghost all = contents(chunks.deep_view());
    let mut body: Vec<u8> = Vec::new();
    let mut i: usize = 0;
    assert(all.take(0) =~= Seq::<Seq<u8>>::empty());
    while i < chunks.len()
        invariant
            all == contents(chunks.deep_view()),
            i <= chunks.len(),
            body@ == all.take(i as int).flatten(),
        decreases chunks.len() - i,
    {
        proof {
            assert(all.take(i + 1) =~= all.take(i as int).push(all[i as int]));
            all.take(i as int).lemma_flatten_push(all[i as int]);
        }
        append_bytes(&mut body, &chunks[i].content);
        i += 1;
    }
    assert(all.take(i as int) =~= all);
    body
}

/// The contents of the chunks, block by block.
fn blocks_of(chunks: &Vec<Chunk>) -> (r: Vec<Vec<u8>>)
    ensures
        blocks(r@) == contents(chunks.deep_view()),
{
    let mut list: Vec<Vec<u8>> = Vec::new();
    let mut i: usize = 0;
    while i < chunks.len()
        invariant
            i <= chunks.len(),
            list.len() == i,
            forall|j: int| 0 <= j < i ==> list@[j]@ == chunks@[j].content@,
        decreases chunks.len() - i,
    {
        list.push(copy_bytes(&chunks[i].content));
        i += 1;
    }
    assert(blocks(list@) =~= contents(chunks.deep_view()));
    list
}

/// The length of the content of the chunks, or `None` where it is beyond
/// what 64 bits count.
fn length_of(chunks: &Vec<Chunk>) -> (r: Option<u64>)
    ensures
        match r {
            Some(n) => n == contents(chunks.deep_view()).flatten().len(),
            None => contents(chunks.deep_view()).flatten().len() > u64::MAX,
        },
{
    let ghost all = contents(chunks.deep_view());
    let mut total: u64 = 0;
    let mut i: usize = 0;
    assert(all.take(0) =~= Seq::<Seq<u8>>::empty());
    while i < chunks.len()
        invariant
            all == contents(chunks.deep_view()),
            i <= chunks.len(),
            total == all.take(i as int).flatten().len(),
        decreases chunks.len() - i,
    {
        proof {
            assert(all.take(i + 1) =~= all.take(i as int).push(all[i as int]));
            all.take(i as int).lemma_flatten_push(all[i as int]);
            lemma_flatten_take(all, i + 1);
        }
        let length = chunks[i].content.len() as u64;
        if length > u64::MAX - total {
            return None;
        }
        total = total + length;
        i += 1;
    }
    assert(all.take(i as int) =~= all);
    Some(total)
}

/// Closes an upload, given the digest of its content: writes the content
/// of the batch as one encoding of the asset at its path, with the digest
/// as its hash, and discards the batch. A refusal leaves the batch and the
/// assets as they were. The assets stay well formed where the digest is
/// that of the content.
pub fn commit_batch_digest(
    uploads: &mut Uploads,
    assets: &mut AssetStore,
    rules: &Rules,
    controllers: &Controllers,
    caller: &Principal,
    commit: CommitBatch,
    now: u64,
    digest: Vec<u8>,
) -> (r: Result<Asset, Error>)
    requires
        uploads_wf(old(uploads)@),
        assets_wf(old(assets)@),
        rules.wf(),
        controllers.wf(),
    ensures
        uploads_wf(final(uploads)@),
        digest@ == body_digest(old(uploads)@, commit.batch_id) ==> assets_wf(final(assets)@),
        match commit_outcome(
            old(uploads)@,
            old(assets)@,
            rules@,
            controllers@,
            caller@,
            commit.batch_id,
            commit.headers.deep_view(),
            now,
            digest@,
        ) {
            Ok((left, stored, asset)) => r matches Ok(written) && written.deep_view() == asset
                && final(uploads)@ == left && final(assets)@ == stored,
            Err(refusal) => r matches Err(error) && error.deep_view() == refusal && final(uploads)@
                == old(uploads)@ && final(assets)@ == old(assets)@,
        },
{
    let ghost uploads_before = uploads@;
    let ghost assets_before = assets@;
    let ghost given = digest@;
    let at = match uploads.batches.position(&commit.batch_id) {
        Some(at) => at,
        None => {
            return Err(Error::BatchNotFound);
        },
    };
    let batch = uploads.batches.value_at(at);
    let ghost batch_view = batch.deep_view();
    assert(lookup(uploads_before.batches, commit.batch_id) == Some(batch_view));
    if now >= batch.expires_at {
        return Err(Error::BatchExpired);
    }
    let rule = get_rule(rules, RulesType::Storage, &batch.collection);
    let id = (batch.collection.clone(), batch.full_path.clone());
    let place = assets.position(&id);
    let ghost existing = lookup(assets_before, (batch_view.collection, batch_view.full_path));
    let decision = match place {
        Some(i) => {
            let asset = assets.value_at(i);
            authorize(
                caller,
                &rule,
                Operation::Write,
                controllers,
                Some((&asset.owner, &asset.delegates)),
            )
        },
        None => authorize(caller, &rule, Operation::Write, controllers, None),
    };
    if !(caller.same(&batch.owner) || is_controller(controllers, caller)) || decision
        == Decision::Deny {
        return Err(Error::PermissionDenied { collection: id.0, operation: Operation::Write });
    }
    let total = match length_of(&batch.chunks) {
        Some(total) => total,
        None => {
            return Err(Error::SizeLimitExceeded);
        },
    };
    match rule.max_size {
        Some(limit) => {
            if total > limit {
                return Err(Error::SizeLimitExceeded);
            }
        },
        None => {},
    }
    match place {
        Some(i) => {
            let asset = assets.value_at(i);
            if asset.version == u64::MAX || (now <= asset.updated_at && asset.updated_at
                == u64::MAX) {
                return Err(Error::InvalidInput);
            }
        },
        None => {},
    }
    let encoding = Encoding {
        modified: now,
        content_chunks: blocks_of(&batch.chunks),
        total_length: total,
        sha256: digest,
    };
    let encoding_type = batch.encoding_type.clone();
    let name = batch.name.clone();
    let delegates = copy_list(&batch.delegates);
    let ghost fresh = encoding.deep_view();
    let ghost target = committed(existing, batch_view, commit.headers.deep_view(), given, now);
    let ghost honest = given == body_digest(uploads_before, commit.batch_id);
    proof {
        assert(fresh == assembled(batch_view, given, now));
        assert(honest ==> encoding_wf(fresh));
        assert(target is Some);
    }
    let asset = match place {
        None => {
            let owner = batch.owner.duplicate();
            let mut encodings: Table<String, Encoding> = Table::new();
            encodings.put(encoding_type, encoding);
            Asset {
                name,
                owner,
                delegates,
                headers: commit.headers,
                encodings,
                created_at: now,
                updated_at: now,
                version: 1,
            }
        },
        Some(i) => {
            proof {
                assert(asset_wf(assets_before[i as int].1));
                lemma_without(assets_before, id.deep_view(), id.deep_view());
            }
            let (_, old) = assets.remove_at(i);
            let updated_at = if now > old.updated_at {
                now
            } else {
                old.updated_at + 1
            };
            let mut encodings = old.encodings;
            encodings.put(encoding_type, encoding);
            Asset {
                name,
                owner: old.owner,
                delegates,
                headers: commit.headers,
                encodings,
                created_at: old.created_at,
                updated_at,
                version: old.version + 1,
            }
        },
    };
    let ghost asset_view = asset.deep_view();
    proof {
        assert(target == Some(asset_view));
        let kind = batch_view.encoding_type;
        lemma_put(encodings_of(existing), kind, fresh, kind);
        let after = asset_view.encodings;
        let older = encodings_of(existing);
        assert(after.len() > 0);
        assert forall|j: int| 0 <= j < after.len() && honest implies encoding_wf(
            (#[trigger] after[j]).1,
        ) by {
            if has_key(older, batch_view.encoding_type) {
                if j != index_of_key(older, batch_view.encoding_type) {
                    assert(after[j] == older[j]);
                }
            } else {
                if j < older.len() {
                    assert(after[j] == older[j]);
                }
            }
        }
        assert(honest ==> asset_wf(asset_view));
    }
    let copy = asset.duplicate();
    match place {
        None => {
            assets.put(id, asset);
        },
        Some(i) => {
            assets.insert_at(i, id, asset);
            proof {
                assert(assets@ =~= assets_before.update(
                    i as int,
                    ((batch_view.collection, batch_view.full_path), asset_view),
                ));
            }
        },
    }
    proof {
        let stored = assets@;
        let key = (batch_view.collection, batch_view.full_path);
        assert(stored == put(assets_before, key, asset_view));
        lemma_put(assets_before, key, asset_view, key);
        assert forall|j: int| 0 <= j < stored.len() && honest implies asset_wf(
            (#[trigger] stored[j]).1,
        ) by {
            if has_key(assets_before, key) {
                if j != index_of_key(assets_before, key) {
                    assert(stored[j] == assets_before[j]);
                }
            } else {
                if j < assets_before.len() {
                    assert(stored[j] == assets_before[j]);
                }
            }
        }
        lemma_without(uploads_before.batches, commit.batch_id, commit.batch_id);
    }
    let gone = uploads.batches.remove_at(at);
    proof {
        let left = uploads@;
        assert(left.batches == without(uploads_before.batches, commit.batch_id));
        assert forall|j: int| 0 <= j < left.batches.len() implies (#[trigger] left.batches[j]).0
            < left.next_batch_id && chunks_ordered(left.batches[j].1.chunks) by {
            let j0 = if j < at { j } else { j + 1 };
            assert(left.batches[j] == uploads_before.batches[j0]);
        }
    }
    Ok(copy)
}

/// Closes an upload: hashes the content of the batch and writes it as one
/// encoding of the asset at its path.
pub fn commit_batch_store(
    uploads: &mut Uploads,
    assets: &mut AssetStore,
    rules: &Rules,
    controllers: &Controllers,
    caller: &Principal,
    commit: CommitBatch,
    now: u64,
) -> (r: Result<Asset, Error>)
    requires
        uploads_wf(old(uploads)@),
        assets_wf(old(assets)@),
        rules.wf(),
        controllers.wf(),
    ensures
        uploads_wf(final(uploads)@),
        assets_wf(final(assets)@),
        match commit_outcome(
            old(uploads)@,
            old(assets)@,
            rules@,
            controllers@,
            caller@,
            commit.batch_id,
            commit.headers.deep_view(),
            now,
            body_digest(old(uploads)@, commit.batch_id),
        ) {
            Ok((left, stored, asset)) => r matches Ok(written) && written.deep_view() == asset
                && final(uploads)@ == left && final(assets)@ == stored,
            Err(refusal) => r matches Err(error) && error.deep_view() == refusal && final(uploads)@
                == old(uploads)@ && final(assets)@ == old(assets)@,
        },
{
    let digest = match uploads.batches.get(&commit.batch_id) {
        Some(batch) => {
            let body = body_of(&batch.chunks);
            sha256_digest(body.as_slice())
        },
        None => Vec::new(),
    };
    commit_batch_digest(uploads, assets, rules, controllers, caller, commit, now, digest)
}

/// Removes the batches that have lapsed at `now`, with their chunks.
pub fn delete_expired_batches(uploads: &mut Uploads, now: u64)
    requires
        uploads_wf(old(uploads)@),
    ensures
        uploads_wf(final(uploads)@),
        final(uploads)@.batches == old(uploads)@.batches.filter(live_at(now)),
        final(uploads)@.next_batch_id == old(uploads)@.next_batch_id,
        final(uploads)@.next_chunk_id == old(uploads)@.next_chunk_id,
{
    let ghost all = uploads@.batches;
    let ghost before = uploads@;
    let ghost keep = live_at(now);
    let ghost mut seen: int = 0;
    let mut i: usize = 0;
    assert(all.take(0).filter(keep) =~= Seq::<(u64, BatchView)>::empty()) by {
        reveal(Seq::filter);
    }
    assert(all.skip(0) =~= all);
    while i < uploads.batches.len()
        invariant
            uploads.batches.wf(),
            uploads@.next_batch_id == before.next_batch_id,
            uploads@.next_chunk_id == before.next_chunk_id,
            all == before.batches,
            uploads_wf(before),
            0 <= seen <= all.len(),
            keep == live_at(now),
            i == all.take(seen).filter(keep).len(),
            uploads@.batches == all.take(seen).filter(keep) + all.skip(seen),
        decreases all.len() - seen,
    {
        proof {
            assert(uploads@.batches[i as int] == all[seen]);
            assert(all.take(seen + 1) =~= all.take(seen).push(all[seen]));
            all.take(seen).lemma_filter_push(all[seen], keep);
        }
        if now >= uploads.batches.value_at(i).expires_at {
            let gone = uploads.batches.remove_at(i);
            proof {
                assert(uploads@.batches =~= all.take(seen + 1).filter(keep) + all.skip(seen + 1));
            }
        } else {
            proof {
                assert(uploads@.batches =~= all.take(seen + 1).filter(keep) + all.skip(seen + 1));
            }
            i += 1;
        }
        proof {
            seen = seen + 1;
        }
    }
    proof {
        assert(seen == all.len()) by {
            if seen < all.len() {
                assert(uploads@.batches.len() == i + all.skip(seen).len());
            }
        }
        assert(all.take(seen) =~= all);
        let left = uploads@.batches;
        assert(left =~= all.filter(keep));
        assert forall|j: int| 0 <= j < left.len() implies (#[trigger] left[j]).0
            < before.next_batch_id && chunks_ordered(left[j].1.chunks) by {
            assert(all.filter(keep).contains(left[j]));
            all.lemma_filter_contains_rev(keep, left[j]);
            let k = choose|k: int| 0 <= k < all.len() && all[k] == left[j];
            assert(all[k] == left[j]);
        }
    }
}

/// The batches that have not lapsed at `now`: a batch lapses at the
/// instant of its expiry.
pub open spec fn live_at(now: u64) -> spec_fn((u64, BatchView)) -> bool {
    |entry: (u64, BatchView)| now < entry.1.expires_at
}


/// An encoding without its content.
#[derive(Debug, Clone, PartialEq, Eq)]
pub struct EncodingNoContent {
    pub modified: u64,
    pub total_length: u64,
    pub sha256: Vec<u8>,
}

/// The model of an [`EncodingNoContent`].
pub struct EncodingNoContentView {
    pub modified: u64,
    pub total_length: u64,
    pub sha256: Seq<u8>,
}

impl DeepView for EncodingNoContent {
    type V = EncodingNoContentView;

    open spec fn deep_view(&self) -> EncodingNoContentView {
        EncodingNoContentView {
            modified: self.modified,
            total_length: self.total_length,
            sha256: self.sha256@,
        }
    }
}

/// An asset without the content of its encodings.
#[derive(Debug, Clone, PartialEq, Eq)]
pub struct AssetNoContent {
    pub name: String,
    pub owner: Principal,
    pub delegates: Vec<Principal>,
    pub headers: Vec<(String, String)>,
    pub encodings: Vec<(String, EncodingNoContent)>,
    pub created_at: u64,
    pub updated_at: u64,
    pub version: u64,
}

/// The model of an [`AssetNoContent`].
pub struct AssetNoContentView {
    pub name: Seq<char>,
    pub owner: Seq<u8>,
    pub delegates: Seq<Seq<u8>>,
    pub headers: Seq<(Seq<char>, Seq<char>)>,
    pub encodings: Seq<(Seq<char>, EncodingNoContentView)>,
    pub created_at: u64,
    pub updated_at: u64,
    pub version: u64,
}

impl DeepView for AssetNoContent {
    type V = AssetNoContentView;

    open spec fn deep_view(&self) -> AssetNoContentView {
        AssetNoContentView {
            name: self.name@,
            owner: self.owner@,
            delegates: self.delegates.deep_view(),
            headers: self.headers.deep_view(),
            encodings: self.encodings.deep_view(),
            created_at: self.created_at,
            updated_at: self.updated_at,
            version: self.version,
        }
    }
}

/// An encoding as a listing shows it.
pub open spec fn encoding_summary(entry: (Seq<char>, EncodingView)) -> (
    Seq<char>,
    EncodingNoContentView,
) {
    (
        entry.0,
        EncodingNoContentView {
            modified: entry.1.modified,
            total_length: entry.1.total_length,
            sha256: entry.1.sha256,
        },
    )
}

/// An asset as a listing shows it: all but the content.
pub open spec fn summary(asset: AssetView) -> AssetNoContentView {
    AssetNoContentView {
        name: asset.name,
        owner: asset.owner,
        delegates: asset.delegates,
        headers: asset.headers,
        encodings: Seq::new(asset.encodings.len(), |i: int| encoding_summary(asset.encodings[i])),
        created_at: asset.created_at,
        updated_at: asset.updated_at,
        version: asset.version,
    }
}

/// The summary of an asset, where there is one.
pub open spec fn summary_of(existing: Option<AssetView>) -> Option<AssetNoContentView> {
    match existing {
        Some(asset) => Some(summary(asset)),
        None => None,
    }
}

impl AssetNoContent {
    /// The asset without the content of its encodings.
    pub fn from_asset(asset: &Asset) -> (r: AssetNoContent)
        ensures
            r.deep_view() == summary(asset.deep_view()),
    {
        let mut encodings: Vec<(String, EncodingNoContent)> = Vec::new();
        let mut i: usize = 0;
        while i < asset.encodings.len()
            invariant
                i <= asset.encodings@.len(),
                encodings.len() == i,
                forall|j: int|
                    0 <= j < i ==> encodings@[j].deep_view() == encoding_summary(
                        asset.encodings@[j],
                    ),
            decreases asset.encodings@.len() - i,
        {
            let encoding = asset.encodings.value_at(i);
            encodings.push(
                (
                    asset.encodings.key_at(i).clone(),
                    EncodingNoContent {
                        modified: encoding.modified,
                        total_length: encoding.total_length,
                        sha256: copy_bytes(&encoding.sha256),
                    },
                ),
            );
            i += 1;
        }
        assert(encodings.deep_view() =~= summary(asset.deep_view()).encodings);
        AssetNoContent {
            name: asset.name.clone(),
            owner: asset.owner.duplicate(),
            delegates: copy_list(&asset.delegates),
            headers: copy_list(&asset.headers),
            encodings,
            created_at: asset.created_at,
            updated_at: asset.updated_at,
            version: asset.version,
        }
    }
}

/// What reading an asset returns: the asset, if there is one, or the
/// refusal.
pub open spec fn get_asset_outcome(
    assets: AssetsView,
    rule: Rule,
    controllers: ControllersView,
    caller: Seq<u8>,
    collection: Seq<char>,
    full_path: Seq<char>,
) -> Result<Option<AssetView>, ErrorView> {
    let existing = lookup(assets, (collection, full_path));
    if !permitted(rule, Operation::Read, caller, controllers, asset_holders(existing)) {
        Err(denied(collection, Operation::Read))
    } else {
        Ok(existing)
    }
}

/// What deleting an asset does: the assets it leaves and the asset it
/// removed, or the refusal.
pub open spec fn delete_asset_outcome(
    assets: AssetsView,
    rule: Rule,
    controllers: ControllersView,
    caller: Seq<u8>,
    collection: Seq<char>,
    full_path: Seq<char>,
) -> Result<(AssetsView, Option<AssetView>), ErrorView> {
    let existing = lookup(assets, (collection, full_path));
    if !permitted(rule, Operation::Write, caller, controllers, asset_holders(existing)) {
        Err(denied(collection, Operation::Write))
    } else {
        Ok((without(assets, (collection, full_path)), existing))
    }
}

/// Decides on an operation by `caller` on the asset at `place`.
fn decide(
    assets: &AssetStore,
    place: Option<usize>,
    caller: &Principal,
    rule: &Rule,
    operation: Operation,
    controllers: &Controllers,
) -> (r: Decision)
    requires
        assets.wf(),
        controllers.wf(),
        place matches Some(i) ==> i < assets@.len(),
    ensures
        (r == Decision::Allow) == permitted(
            *rule,
            operation,
            caller@,
            controllers@,
            asset_holders(
                match place {
                    Some(i) => Some(assets@[i as int].1),
                    None => None,
                },
            ),
        ),
{
    match place {
        Some(i) => {
            let asset = assets.value_at(i);
            authorize(caller, rule, operation, controllers, Some((&asset.owner, &asset.delegates)))
        },
        None => authorize(caller, rule, operation, controllers, None),
    }
}

/// Reads an asset. An absent asset is `None`, which is no refusal.
pub fn get_asset_store<'a>(
    assets: &'a AssetStore,
    rules: &Rules,
    controllers: &Controllers,
    caller: &Principal,
    collection: &String,
    full_path: String,
) -> (r: Result<Option<&'a Asset>, Error>)
    requires
        assets_wf(assets@),
        rules.wf(),
        controllers.wf(),
    ensures
        match get_asset_outcome(
            assets@,
            rule_of(rules@, RulesType::Storage, collection@),
            controllers@,
            caller@,
            collection@,
            full_path@,
        ) {
            Ok(found) => r matches Ok(asset) && asset.deep_view() == found,
            Err(refusal) => r matches Err(error) && error.deep_view() == refusal,
        },
{
    let rule = get_rule(rules, RulesType::Storage, collection);
    let id = (collection.clone(), full_path);
    let place = assets.position(&id);
    let decision = decide(assets, place, caller, &rule, Operation::Read, controllers);
    if decision == Decision::Deny {
        return Err(Error::PermissionDenied { collection: id.0, operation: Operation::Read });
    }
    match place {
        Some(i) => Ok(Some(assets.value_at(i))),
        None => Ok(None),
    }
}

/// Deletes an asset and hands back what was removed, `None` where there
/// was nothing.
pub fn delete_asset_store(
    assets: &mut AssetStore,
    rules: &Rules,
    controllers: &Controllers,
    caller: &Principal,
    collection: &String,
    full_path: String,
) -> (r: Result<Option<Asset>, Error>)
    requires
        assets_wf(old(assets)@),
        rules.wf(),
        controllers.wf(),
    ensures
        assets_wf(final(assets)@),
        match delete_asset_outcome(
            old(assets)@,
            rule_of(rules@, RulesType::Storage, collection@),
            controllers@,
            caller@,
            collection@,
            full_path@,
        ) {
            Ok((stored, removed)) => r matches Ok(asset) && asset.deep_view() == removed
                && final(assets)@ == stored,
            Err(refusal) => r matches Err(error) && error.deep_view() == refusal && final(assets)@
                == old(assets)@,
        },
{
    let ghost before = assets@;
    let rule = get_rule(rules, RulesType::Storage, collection);
    let id = (collection.clone(), full_path);
    let place = assets.position(&id);
    let decision = decide(assets, place, caller, &rule, Operation::Write, controllers);
    if decision == Decision::Deny {
        return Err(Error::PermissionDenied { collection: id.0, operation: Operation::Write });
    }
    let removed = assets.take(&id);
    proof {
        let left = assets@;
        assert forall|j: int| 0 <= j < left.len() implies asset_wf((#[trigger] left[j]).1) by {
            if has_key(before, id.deep_view()) {
                let at = index_of_key(before, id.deep_view());
                let j0 = if j < at { j } else { j + 1 };
                assert(left[j] == before[j0]);
            }
        }
    }
    Ok(removed)
}

/// Which entries of the store a listing of `collection` keeps: those of
/// the collection that pass the matcher and the owner asked for, and that
/// the caller may read.
pub open spec fn asset_listed(
    collection: Seq<char>,
    params: ListParamsView,
    rule: Rule,
    controllers: ControllersView,
    caller: Seq<u8>,
) -> spec_fn(AssetEntry) -> bool {
    |entry: AssetEntry|
        entry.0.0 == collection && key_matches(params.matcher, entry.0.1) && owner_matches(
            params.owner,
            entry.1.owner,
        ) && permitted(
            rule,
            Operation::Read,
            caller,
            controllers,
            Some((entry.1.owner, entry.1.delegates)),
        )
}

/// An entry of the store as a listing shows it: by its full path, and
/// without content.
pub open spec fn by_path() -> spec_fn(AssetEntry) -> (Seq<char>, AssetNoContentView) {
    |entry: AssetEntry| (entry.0.1, summary(entry.1))
}

/// The assets that a listing matches, in the order of the store.
pub open spec fn assets_matched(
    assets: AssetsView,
    rule: Rule,
    controllers: ControllersView,
    caller: Seq<u8>,
    collection: Seq<char>,
    params: ListParamsView,
) -> Seq<(Seq<char>, AssetNoContentView)> {
    assets.filter(asset_listed(collection, params, rule, controllers, caller)).map_values(by_path())
}

/// What a listing returns: the page, and the number of assets matched.
pub open spec fn list_assets_outcome(
    assets: AssetsView,
    rule: Rule,
    controllers: ControllersView,
    caller: Seq<u8>,
    collection: Seq<char>,
    params: ListParamsView,
) -> Result<(Seq<(Seq<char>, AssetNoContentView)>, nat), ErrorView> {
    let matched = assets_matched(assets, rule, controllers, caller, collection, params);
    match page(arranged(matched, params.order), params.start_after, params.limit) {
        Ok(items) => Ok((items, matched.len())),
        Err(refusal) => Err(refusal),
    }
}

/// Lists the assets of a collection that the caller may read, without
/// their content. Assets that the caller may not read are left out without
/// a refusal.
pub fn list_assets_store(
    assets: &AssetStore,
    rules: &Rules,
    controllers: &Controllers,
    caller: &Principal,
    collection: &String,
    filter: &ListParams,
) -> (r: Result<ListResults<AssetNoContent>, Error>)
    requires
        assets_wf(assets@),
        rules.wf(),
        controllers.wf(),
    ensures
        match list_assets_outcome(
            assets@,
            rule_of(rules@, RulesType::Storage, collection@),
            controllers@,
            caller@,
            collection@,
            filter.deep_view(),
        ) {
            Ok((items, total)) => r matches Ok(results) && results.items.deep_view() == items
                && results.items_length == items.len() && results.matches_length == total,
            Err(refusal) => r matches Err(error) && error.deep_view() == refusal,
        },
{
    let rule = get_rule(rules, RulesType::Storage, collection);
    let ghost keep = asset_listed(collection@, filter.deep_view(), rule, controllers@, caller@);
    let mut matched: Vec<(String, AssetNoContent)> = Vec::new();
    let mut i: usize = 0;
    assert(assets@.take(0).filter(keep) =~= Seq::<AssetEntry>::empty()) by {
        reveal(Seq::filter);
    }
    assert(matched.deep_view() =~= assets@.take(0).filter(keep).map_values(by_path()));
    while i < assets.len()
        invariant
            assets.wf(),
            controllers.wf(),
            i <= assets@.len(),
            matched.len() <= i,
            keep == asset_listed(collection@, filter.deep_view(), rule, controllers@, caller@),
            matched.deep_view() == assets@.take(i as int).filter(keep).map_values(by_path()),
        decreases assets@.len() - i,
    {
        let id = assets.key_at(i);
        let asset = assets.value_at(i);
        let ghost before = matched.deep_view();
        proof {
            assert(assets@.take(i + 1) =~= assets@.take(i as int).push(assets@[i as int]));
            assets@.take(i as int).lemma_filter_push(assets@[i as int], keep);
        }
        let owned = match &filter.owner {
            None => true,
            Some(who) => asset.owner.same(who),
        };
        if id.0 == *collection && matches_key(&filter.matcher, &id.1) && owned && authorize(
            caller,
            &rule,
            Operation::Read,
            controllers,
            Some((&asset.owner, &asset.delegates)),
        ) == Decision::Allow {
            matched.push((id.1.clone(), AssetNoContent::from_asset(asset)));
            proof {
                assert(keep(assets@[i as int]));
                assert(matched.deep_view() =~= before.push(by_path()(assets@[i as int])));
                assert(matched.deep_view() =~= assets@.take(i + 1).filter(keep).map_values(
                    by_path(),
                ));
            }
        } else {
            proof {
                assert(!keep(assets@[i as int]));
            }
        }
        i += 1;
    }
    assert(assets@.take(i as int) =~= assets@);
    let total = matched.len();
    let ordered = match filter.order {
        ListOrder::Keys => sort_pairs(matched),
        ListOrder::Insertion => matched,
    };
    match paginate(ordered, &filter.start_after, filter.limit) {
        Ok(items) => {
            let length = items.len();
            Ok(ListResults { items, items_length: length, matches_length: total })
        },
        Err(error) => Err(error),
    }
}

impl Held for Asset {
    open spec fn holders_in(view: AssetView) -> Holders {
        (view.owner, view.delegates)
    }

    fn owner(&self) -> (r: &Principal) {
        &self.owner
    }

    fn named(&self) -> (r: &Vec<Principal>) {
        &self.delegates
    }
}

/// The number of assets of a collection that the caller may read: the
/// number that a listing of everything matches.
pub fn count_assets_store(
    assets: &AssetStore,
    rules: &Rules,
    controllers: &Controllers,
    caller: &Principal,
    collection: &String,
) -> (r: usize)
    requires
        assets_wf(assets@),
        rules.wf(),
        controllers.wf(),
    ensures
        r == assets_matched(
            assets@,
            rule_of(rules@, RulesType::Storage, collection@),
            controllers@,
            caller@,
            collection@,
            unfiltered(),
        ).len(),
{
    let rule = get_rule(rules, RulesType::Storage, collection);
    let ghost keep = asset_listed(collection@, unfiltered(), rule, controllers@, caller@);
    let mut count: usize = 0;
    let mut i: usize = 0;
    assert(assets@.take(0).filter(keep).len() == 0) by {
        reveal(Seq::filter);
    }
    while i < assets.len()
        invariant
            assets.wf(),
            controllers.wf(),
            i <= assets@.len(),
            count <= i,
            keep == asset_listed(collection@, unfiltered(), rule, controllers@, caller@),
            count == assets@.take(i as int).filter(keep).len(),
        decreases assets@.len() - i,
    {
        proof {
            assert(assets@.take(i + 1) =~= assets@.take(i as int).push(assets@[i as int]));
            assets@.take(i as int).lemma_filter_push(assets@[i as int], keep);
        }
        let asset = assets.value_at(i);
        if assets.key_at(i).0 == *collection && authorize(
            caller,
            &rule,
            Operation::Read,
            controllers,
            Some((&asset.owner, &asset.delegates)),
        ) == Decision::Allow {
            assert(keep(assets@[i as int]));
            count += 1;
        } else {
            assert(!keep(assets@[i as int]));
        }
        i += 1;
    }
    assert(assets@.take(i as int) =~= assets@);
    count
}

/// Deletes the assets of a collection, one after the other, and stops at
/// the first that the caller may not write.
pub fn delete_assets_store(
    assets: &mut AssetStore,
    rules: &Rules,
    controllers: &Controllers,
    caller: &Principal,
    collection: &String,
) -> (r: Result<(), Error>)
    requires
        assets_wf(old(assets)@),
        rules.wf(),
        controllers.wf(),
    ensures
        assets_wf(final(assets)@),
        final(assets)@ == delete_all_outcome::<Asset>(
            old(assets)@,
            collection@,
            rule_of(rules@, RulesType::Storage, collection@),
            controllers@,
            caller@,
        ).0,
        match r {
            Ok(_) => delete_all_outcome::<Asset>(
                old(assets)@,
                collection@,
                rule_of(rules@, RulesType::Storage, collection@),
                controllers@,
                caller@,
            ).1,
            Err(error) => !delete_all_outcome::<Asset>(
                old(assets)@,
                collection@,
                rule_of(rules@, RulesType::Storage, collection@),
                controllers@,
                caller@,
            ).1 && error.deep_view() == denied(collection@, Operation::Write),
        },
{
    let ghost before = assets@;
    let rule = get_rule(rules, RulesType::Storage, collection);
    let r = delete_permitted(assets, &rule, controllers, caller, collection);
    proof {
        let left = assets@;
        let keep = outside_collection::<AssetView>(collection@);
        let reached = clear_prefix(
            before,
            blocked::<Asset>(collection@, rule, controllers@, caller@),
        );
        lemma_clear_prefix_bounds(
            before,
            blocked::<Asset>(collection@, rule, controllers@, caller@),
        );
        let kept = before.take(reached).filter(keep);
        assert forall|j: int| 0 <= j < left.len() implies asset_wf((#[trigger] left[j]).1) by {
            if j < kept.len() {
                assert(kept.contains(left[j]));
                before.take(reached).lemma_filter_contains_rev(keep, left[j]);
                let k = choose|k: int|
                    0 <= k < before.take(reached).len() && before.take(reached)[k] == left[j];
                assert(before[k] == left[j]);
            } else {
                assert(left[j] == before[reached + (j - kept.len())]);
            }
        }
    }
    r
}


/// The blocks one after the other.
pub fn join_blocks(list: &Vec<Vec<u8>>) -> (r: Vec<u8>)
    ensures
        r@ == blocks(list@).flatten(),
{
    let ghost all = blocks(list@);
    let mut body: Vec<u8> = Vec::new();
    let mut i: usize = 0;
    assert(all.take(0) =~= Seq::<Seq<u8>>::empty());
    while i < list.len()
        invariant
            all == blocks(list@),
            i <= list.len(),
            body@ == all.take(i as int).flatten(),
        decreases list.len() - i,
    {
        proof {
            assert(all.take(i + 1) =~= all.take(i as int).push(all[i as int]));
            all.take(i as int).lemma_flatten_push(all[i as int]);
        }
        append_bytes(&mut body, &list[i]);
        i += 1;
    }
    assert(all.take(i as int) =~= all);
    body
}

/// The length of the content of the blocks, or `None` where it is beyond
/// what 64 bits count.
fn blocks_length(list: &Vec<Vec<u8>>) -> (r: Option<u64>)
    ensures
        match r {
            Some(n) => n == blocks(list@).flatten().len(),
            None => blocks(list@).flatten().len() > u64::MAX,
        },
{
    let ghost all = blocks(list@);
    let mut total: u64 = 0;
    let mut i: usize = 0;
    assert(all.take(0) =~= Seq::<Seq<u8>>::empty());
    while i < list.len()
        invariant
            all == blocks(list@),
            i <= list.len(),
            total == all.take(i as int).flatten().len(),
        decreases list.len() - i,
    {
        proof {
            assert(all.take(i + 1) =~= all.take(i as int).push(all[i as int]));
            all.take(i as int).lemma_flatten_push(all[i as int]);
            lemma_flatten_take(all, i + 1);
        }
        let length = list[i].len() as u64;
        if length > u64::MAX - total {
            return None;
        }
        total = total + length;
        i += 1;
    }
    assert(all.take(i as int) =~= all);
    Some(total)
}

/// Whether an asset is well formed.
pub fn check_asset(asset: &Asset) -> (r: bool)
    ensures
        r == asset_wf(asset.deep_view()),
{
    if asset.encodings.len() == 0 || !asset.encodings.check() {
        return false;
    }
    let mut i: usize = 0;
    while i < asset.encodings.len()
        invariant
            i <= asset.encodings@.len(),
            forall|j: int| 0 <= j < i ==> encoding_wf((#[trigger] asset.encodings@[j]).1),
        decreases asset.encodings@.len() - i,
    {
        let encoding = asset.encodings.value_at(i);
        let measured = match blocks_length(&encoding.content_chunks) {
            Some(length) => length == encoding.total_length,
            None => false,
        };
        let body = join_blocks(&encoding.content_chunks);
        let sound = measured && same_bytes(&sha256_digest(body.as_slice()), &encoding.sha256);
        if !sound {
            assert(!encoding_wf(asset.encodings@[i as int].1));
            return false;
        }
        i += 1;
    }
    true
}

/// Whether the asset store is well formed.
pub fn check_assets(assets: &AssetStore) -> (r: bool)
    ensures
        r == assets_wf(assets@),
{
    if !assets.check() {
        return false;
    }
    let mut i: usize = 0;
    while i < assets.len()
        invariant
            i <= assets@.len(),
            forall|j: int| 0 <= j < i ==> asset_wf((#[trigger] assets@[j]).1),
        decreases assets@.len() - i,
    {
        if !check_asset(assets.value_at(i)) {
            assert(!asset_wf(assets@[i as int].1));
            return false;
        }
        i += 1;
    }
    true
}

/// Whether the orders of the chunks go up strictly.
pub fn check_chunks(chunks: &Vec<Chunk>) -> (r: bool)
    ensures
        r == chunks_ordered(chunks.deep_view()),
{
    let ghost all = chunks.deep_view();
    if chunks.len() < 2 {
        return true;
    }
    let mut i: usize = 1;
    while i < chunks.len()
        invariant
            all == chunks.deep_view(),
            1 <= i <= chunks.len(),
            forall|a: int, b: int|
                #![trigger all[a], all[b]]
                0 <= a < b < i ==> all[a].order_id < all[b].order_id,
        decreases chunks.len() - i,
    {
        if chunks[i - 1].order_id >= chunks[i].order_id {
            assert(all[i - 1].order_id >= all[i as int].order_id);
            return false;
        }
        proof {
            assert forall|a: int, b: int|
                #![trigger all[a], all[b]]
                0 <= a < b < i + 1 implies all[a].order_id < all[b].order_id by {
                if b == i && a < i - 1 {
                    assert(all[a].order_id < all[i - 1].order_id);
                }
            }
        }
        i += 1;
    }
    true
}

/// Whether the uploads are well formed.
pub fn check_uploads(uploads: &Uploads) -> (r: bool)
    ensures
        r == uploads_wf(uploads@),
{
    if !uploads.batches.check() {
        return false;
    }
    let mut i: usize = 0;
    while i < uploads.batches.len()
        invariant
            i <= uploads@.batches.len(),
            forall|j: int|
                0 <= j < i ==> (#[trigger] uploads@.batches[j]).0 < uploads@.next_batch_id
                    && chunks_ordered(uploads@.batches[j].1.chunks),
        decreases uploads@.batches.len() - i,
    {
        if *uploads.batches.key_at(i) >= uploads.next_batch_id || !check_chunks(
            &uploads.batches.value_at(i).chunks,
        ) {
            assert(!(uploads@.batches[i as int].0 < uploads@.next_batch_id && chunks_ordered(
                uploads@.batches[i as int].1.chunks,
            )));
            return false;
        }
        i += 1;
    }
    true
}

} // verus!
