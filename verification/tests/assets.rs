use satellite::api::{
    commit_asset_upload, count_assets, del_asset, del_assets, del_many_assets, get_asset,
    get_many_assets, init, init_asset_upload, list_assets, set_rule, upload_asset_chunk, State,
};
use satellite::controllers::{Controller, ControllerScope};
use satellite::error::{Error, Operation};
use satellite::list::{ListOrder, ListParams};
use satellite::principal::Principal;
use satellite::rules::{Permission, Rule, RulesType};
use satellite::storage::{
    body_of, delete_expired_batches, Chunk, CommitBatch, InitAssetKey, UploadChunk, BATCH_EXPIRY,
};
use satellite::table::Table;

fn user(n: u8) -> Principal {
    Principal::from_slice(&[n, 8, 8]).unwrap()
}

fn rule(read: Permission, write: Permission, max_size: Option<u64>) -> Rule {
    Rule { read, write, max_size, mutable_permissions: true, max_changes_per_user: None }
}

fn web(max_size: Option<u64>) -> State {
    let mut roster = Table::new();
    roster.put(
        user(9),
        Controller {
            metadata: Vec::new(),
            created_at: 0,
            updated_at: 0,
            expires_at: None,
            scope: ControllerScope::Admin,
        },
    );
    let mut state = init(roster);
    set_rule(
        &mut state,
        RulesType::Storage,
        "web".to_string(),
        rule(Permission::Public, Permission::Private, max_size),
    );
    state
}

fn key(path: &str) -> InitAssetKey {
    InitAssetKey {
        collection: "web".to_string(),
        full_path: path.to_string(),
        name: "file".to_string(),
        encoding_type: "identity".to_string(),
        delegates: Vec::new(),
    }
}

fn denied(operation: Operation) -> Error {
    Error::PermissionDenied { collection: "web".to_string(), operation }
}

fn upload(state: &mut State, caller: &Principal, path: &str, chunks: &[&[u8]], now: u64) -> u64 {
    let batch = init_asset_upload(state, caller, key(path), now).unwrap().batch_id;
    for (i, content) in chunks.iter().enumerate() {
        upload_asset_chunk(
            state,
            caller,
            UploadChunk { batch_id: batch, content: content.to_vec(), order_id: i as u64 },
            now,
        ).unwrap();
    }
    batch
}

fn hex(text: &str) -> Vec<u8> {
    (0..text.len() / 2).map(|i| u8::from_str_radix(&text[2 * i..2 * i + 2], 16).unwrap()).collect()
}

const SHA256_ABC: &str = "ba7816bf8f01cfea414140de5dae2223b00361a396177a9cb410ff61f20015ad";
const SHA256_EMPTY: &str = "e3b0c44298fc1c149afbf4c8996fb92427ae41e4649b934ca495991b7852b855";

#[test]
fn commit_round_trip() {
    let mut state = web(None);
    let a = user(1);
    let batch = upload(&mut state, &a, "/index.html", &[b"a", b"b", b"c"], 10);
    let asset = commit_asset_upload(
        &mut state,
        &a,
        CommitBatch { batch_id: batch, headers: vec![("content-type".to_string(), "text/html".to_string())] },
        20,
    ).unwrap();
    assert_eq!(asset.owner, a);
    assert_eq!(asset.version, 1);
    assert_eq!(asset.name, "file");
    assert_eq!((asset.created_at, asset.updated_at), (20, 20));
    let encoding = asset.encodings.get(&"identity".to_string()).unwrap();
    assert_eq!(encoding.content_chunks, vec![b"a".to_vec(), b"b".to_vec(), b"c".to_vec()]);
    assert_eq!(encoding.content_chunks.concat(), b"abc".to_vec());
    assert_eq!(encoding.total_length, 3);
    assert_eq!(encoding.sha256, hex(SHA256_ABC));
    assert_eq!(encoding.modified, 20);
    // the batch is gone
    assert_eq!(
        commit_asset_upload(&mut state, &a, CommitBatch { batch_id: batch, headers: Vec::new() }, 21),
        Err(Error::BatchNotFound)
    );
    let listed = get_asset(&state, &user(2), "web".to_string(), "/index.html".to_string())
        .unwrap()
        .unwrap();
    assert_eq!(listed.encodings.len(), 1);
    assert_eq!(listed.encodings[0].0, "identity");
    assert_eq!(listed.encodings[0].1.sha256, hex(SHA256_ABC));
    assert_eq!(listed.encodings[0].1.total_length, 3);
    assert_eq!(listed.headers, vec![("content-type".to_string(), "text/html".to_string())]);
}

#[test]
fn an_upload_without_chunks_commits_empty_content() {
    let mut state = web(None);
    let a = user(1);
    let batch = upload(&mut state, &a, "/empty", &[], 10);
    let asset =
        commit_asset_upload(&mut state, &a, CommitBatch { batch_id: batch, headers: Vec::new() }, 20)
            .unwrap();
    let encoding = asset.encodings.get(&"identity".to_string()).unwrap();
    assert_eq!(encoding.total_length, 0);
    assert_eq!(encoding.sha256, hex(SHA256_EMPTY));
    assert!(encoding.content_chunks.is_empty());
}

#[test]
fn chunks_are_stored_in_the_order_of_their_indexes() {
    let mut state = web(None);
    let a = user(1);
    let batch = init_asset_upload(&mut state, &a, key("/x"), 1).unwrap().batch_id;
    let mut ids = Vec::new();
    for (order, content) in [(7u64, b"c"), (0, b"a"), (3, b"b")] {
        let added = upload_asset_chunk(
            &mut state,
            &a,
            UploadChunk { batch_id: batch, content: content.to_vec(), order_id: order },
            2,
        ).unwrap();
        ids.push(added.chunk_id);
    }
    assert_eq!(ids, vec![0, 1, 2]);
    let asset =
        commit_asset_upload(&mut state, &a, CommitBatch { batch_id: batch, headers: Vec::new() }, 3)
            .unwrap();
    let encoding = asset.encodings.get(&"identity".to_string()).unwrap();
    assert_eq!(encoding.content_chunks.concat(), b"abc".to_vec());
    assert_eq!(encoding.sha256, hex(SHA256_ABC));
}

#[test]
fn a_second_chunk_of_the_same_order_is_refused() {
    let mut state = web(None);
    let a = user(1);
    let batch = upload(&mut state, &a, "/x", &[b"a", b"b"], 1);
    let again = upload_asset_chunk(
        &mut state,
        &a,
        UploadChunk { batch_id: batch, content: b"z".to_vec(), order_id: 1 },
        2,
    );
    assert_eq!(again, Err(Error::InvalidInput));
    let asset =
        commit_asset_upload(&mut state, &a, CommitBatch { batch_id: batch, headers: Vec::new() }, 3)
            .unwrap();
    assert_eq!(asset.encodings.get(&"identity".to_string()).unwrap().content_chunks.concat(), b"ab");
}

#[test]
fn size_limit_scenario() {
    let mut state = web(Some(2_000_000));
    let a = user(1);
    let block = vec![5u8; 1_000_000];
    let batch = upload(&mut state, &a, "/big", &[&block, &block, &block], 1);
    let r = commit_asset_upload(
        &mut state,
        &a,
        CommitBatch { batch_id: batch, headers: Vec::new() },
        2,
    );
    assert_eq!(r, Err(Error::SizeLimitExceeded));
    assert_eq!(count_assets(&state, &user(9), "web".to_string()), 0);
    assert_eq!(get_asset(&state, &a, "web".to_string(), "/big".to_string()), Ok(None));
}

#[test]
fn content_of_exactly_the_limit_is_stored() {
    let mut state = web(Some(4));
    let a = user(1);
    let batch = upload(&mut state, &a, "/four", &[b"ab", b"cd"], 1);
    assert!(
        commit_asset_upload(&mut state, &a, CommitBatch { batch_id: batch, headers: Vec::new() }, 2)
            .is_ok()
    );
    let batch = upload(&mut state, &a, "/five", &[b"ab", b"cde"], 3);
    assert_eq!(
        commit_asset_upload(&mut state, &a, CommitBatch { batch_id: batch, headers: Vec::new() }, 4),
        Err(Error::SizeLimitExceeded)
    );
}

#[test]
fn a_refused_commit_leaves_the_stored_asset_as_it_was() {
    let mut state = web(Some(3));
    let a = user(1);
    let batch = upload(&mut state, &a, "/x", &[b"abc"], 1);
    commit_asset_upload(&mut state, &a, CommitBatch { batch_id: batch, headers: Vec::new() }, 2)
        .unwrap();
    let batch = upload(&mut state, &a, "/x", &[b"abcd"], 3);
    assert_eq!(
        commit_asset_upload(&mut state, &a, CommitBatch { batch_id: batch, headers: Vec::new() }, 4),
        Err(Error::SizeLimitExceeded)
    );
    let kept = get_asset(&state, &a, "web".to_string(), "/x".to_string()).unwrap().unwrap();
    assert_eq!(kept.version, 1);
    assert_eq!(kept.encodings[0].1.sha256, hex(SHA256_ABC));
}

#[test]
fn a_new_commit_replaces_the_encoding_and_moves_the_version() {
    let mut state = web(None);
    let a = user(1);
    let batch = upload(&mut state, &a, "/x", &[b"old"], 1);
    commit_asset_upload(&mut state, &a, CommitBatch { batch_id: batch, headers: Vec::new() }, 2)
        .unwrap();
    let batch = upload(&mut state, &a, "/x", &[b"abc"], 3);
    let second =
        commit_asset_upload(&mut state, &a, CommitBatch { batch_id: batch, headers: Vec::new() }, 2)
            .unwrap();
    assert_eq!(second.version, 2);
    assert_eq!(second.created_at, 2);
    assert_eq!(second.updated_at, 3);
    assert_eq!(second.encodings.len(), 1);
    assert_eq!(second.encodings.get(&"identity".to_string()).unwrap().sha256, hex(SHA256_ABC));
    // another encoding of the same asset is kept beside the first
    let mut gzip = key("/x");
    gzip.encoding_type = "gzip".to_string();
    let batch = init_asset_upload(&mut state, &a, gzip, 5).unwrap().batch_id;
    let third =
        commit_asset_upload(&mut state, &a, CommitBatch { batch_id: batch, headers: Vec::new() }, 6)
            .unwrap();
    assert_eq!(third.version, 3);
    assert_eq!(third.encodings.len(), 2);
    assert_eq!(third.encodings.get(&"gzip".to_string()).unwrap().sha256, hex(SHA256_EMPTY));
}

#[test]
fn uploads_are_held_to_the_write_rule() {
    let mut state = web(None);
    let a = user(1);
    let b = user(2);
    assert_eq!(
        init_asset_upload(&mut state, &Principal::anonymous(), key("/x"), 1),
        Err(denied(Operation::Write))
    );
    let batch = upload(&mut state, &a, "/x", &[b"a"], 1);
    // another caller can neither add to the batch nor close it
    assert_eq!(
        upload_asset_chunk(
            &mut state,
            &b,
            UploadChunk { batch_id: batch, content: Vec::new(), order_id: 5 },
            2
        ),
        Err(denied(Operation::Write))
    );
    assert_eq!(
        commit_asset_upload(&mut state, &b, CommitBatch { batch_id: batch, headers: Vec::new() }, 2),
        Err(denied(Operation::Write))
    );
    commit_asset_upload(&mut state, &a, CommitBatch { batch_id: batch, headers: Vec::new() }, 2)
        .unwrap();
    // nor start an upload over the asset of another
    assert_eq!(init_asset_upload(&mut state, &b, key("/x"), 3), Err(denied(Operation::Write)));
    // a controller can
    assert!(init_asset_upload(&mut state, &user(9), key("/x"), 3).is_ok());
}

#[test]
fn the_rule_is_asked_again_at_commit() {
    let mut state = web(None);
    let a = user(1);
    let batch = upload(&mut state, &a, "/x", &[b"a"], 1);
    set_rule(
        &mut state,
        RulesType::Storage,
        "web".to_string(),
        rule(Permission::Public, Permission::Controllers, None),
    );
    assert_eq!(
        commit_asset_upload(&mut state, &a, CommitBatch { batch_id: batch, headers: Vec::new() }, 2),
        Err(denied(Operation::Write))
    );
    assert_eq!(count_assets(&state, &user(9), "web".to_string()), 0);
}

#[test]
fn batches_lapse_at_the_instant_of_their_expiry() {
    let mut state = web(None);
    let a = user(1);
    let batch = upload(&mut state, &a, "/x", &[b"a"], 100);
    let expiry = 100 + BATCH_EXPIRY;
    assert_eq!(state.uploads.batches.get(&batch).unwrap().expires_at, 100 + 300_000_000_000);
    assert!(
        upload_asset_chunk(
            &mut state,
            &a,
            UploadChunk { batch_id: batch, content: Vec::new(), order_id: 1 },
            expiry - 1
        ).is_ok()
    );
    assert_eq!(
        upload_asset_chunk(
            &mut state,
            &a,
            UploadChunk { batch_id: batch, content: Vec::new(), order_id: 2 },
            expiry
        ),
        Err(Error::BatchExpired)
    );
    assert_eq!(
        commit_asset_upload(
            &mut state,
            &a,
            CommitBatch { batch_id: batch, headers: Vec::new() },
            expiry
        ),
        Err(Error::BatchExpired)
    );
    assert_eq!(get_asset(&state, &a, "web".to_string(), "/x".to_string()), Ok(None));
    let other = upload(&mut state, &a, "/y", &[b"b"], expiry - 1);
    delete_expired_batches(&mut state.uploads, expiry);
    assert_eq!(
        commit_asset_upload(
            &mut state,
            &a,
            CommitBatch { batch_id: batch, headers: Vec::new() },
            expiry
        ),
        Err(Error::BatchNotFound)
    );
    assert!(
        commit_asset_upload(
            &mut state,
            &a,
            CommitBatch { batch_id: other, headers: Vec::new() },
            expiry
        ).is_ok()
    );
}

#[test]
fn a_batch_is_committed_up_to_the_instant_before_its_expiry() {
    let mut state = web(None);
    let a = user(1);
    let batch = upload(&mut state, &a, "/x", &[b"a"], 100);
    assert!(
        commit_asset_upload(
            &mut state,
            &a,
            CommitBatch { batch_id: batch, headers: Vec::new() },
            100 + BATCH_EXPIRY - 1
        ).is_ok()
    );
}

#[test]
fn a_batch_opened_near_the_end_of_time_lapses_at_the_end() {
    let mut state = web(None);
    let a = user(1);
    let batch = init_asset_upload(&mut state, &a, key("/x"), u64::MAX - 5).unwrap().batch_id;
    assert_eq!(state.uploads.batches.get(&batch).unwrap().expires_at, u64::MAX);
    assert!(
        upload_asset_chunk(
            &mut state,
            &a,
            UploadChunk { batch_id: batch, content: Vec::new(), order_id: 0 },
            u64::MAX - 1
        ).is_ok()
    );
    assert_eq!(
        upload_asset_chunk(
            &mut state,
            &a,
            UploadChunk { batch_id: batch, content: Vec::new(), order_id: 1 },
            u64::MAX
        ),
        Err(Error::BatchExpired)
    );
}

#[test]
fn batch_ids_count_up_and_unknown_batches_are_not_found() {
    let mut state = web(None);
    let a = user(1);
    assert_eq!(init_asset_upload(&mut state, &a, key("/x"), 1).unwrap().batch_id, 0);
    assert_eq!(init_asset_upload(&mut state, &a, key("/x"), 1).unwrap().batch_id, 1);
    assert_eq!(
        upload_asset_chunk(
            &mut state,
            &a,
            UploadChunk { batch_id: 2, content: Vec::new(), order_id: 0 },
            1
        ),
        Err(Error::BatchNotFound)
    );
}

#[test]
fn the_content_of_chunks_is_their_concatenation() {
    let chunks = vec![
        Chunk { chunk_id: 0, order_id: 0, content: b"ab".to_vec() },
        Chunk { chunk_id: 1, order_id: 1, content: Vec::new() },
        Chunk { chunk_id: 2, order_id: 2, content: b"c".to_vec() },
    ];
    assert_eq!(body_of(&chunks), b"abc".to_vec());
    assert_eq!(body_of(&Vec::new()), Vec::<u8>::new());
}

fn site() -> State {
    let mut state = web(None);
    set_rule(
        &mut state,
        RulesType::Storage,
        "files".to_string(),
        rule(Permission::Private, Permission::Private, None),
    );
    for (i, path) in ["/b", "/a", "/c"].iter().enumerate() {
        let owner = user(1 + (i % 2) as u8);
        let batch = upload(&mut state, &owner, path, &[path.as_bytes()], 1);
        commit_asset_upload(
            &mut state,
            &owner,
            CommitBatch { batch_id: batch, headers: Vec::new() },
            2,
        ).unwrap();
    }
    let mut private = key("/secret");
    private.collection = "files".to_string();
    let batch = init_asset_upload(&mut state, &user(1), private, 1).unwrap().batch_id;
    commit_asset_upload(
        &mut state,
        &user(1),
        CommitBatch { batch_id: batch, headers: Vec::new() },
        2,
    ).unwrap();
    state
}

fn all() -> ListParams {
    ListParams { matcher: None, owner: None, start_after: None, limit: None, order: ListOrder::Keys }
}

#[test]
fn assets_are_listed_without_content() {
    let state = site();
    let listed = list_assets(&state, &user(3), "web".to_string(), all()).unwrap();
    let paths: Vec<&str> = listed.items.iter().map(|(path, _)| path.as_str()).collect();
    assert_eq!(paths, vec!["/a", "/b", "/c"]);
    assert_eq!(listed.matches_length, 3);
    assert_eq!(listed.items[0].1.owner, user(2));
    assert_eq!(listed.items[0].1.encodings[0].1.total_length, 2);
    let inserted = ListParams { order: ListOrder::Insertion, limit: Some(2), ..all() };
    let listed = list_assets(&state, &user(3), "web".to_string(), inserted).unwrap();
    let paths: Vec<&str> = listed.items.iter().map(|(path, _)| path.as_str()).collect();
    assert_eq!(paths, vec!["/b", "/a"]);
    let hidden = list_assets(&state, &user(3), "files".to_string(), all()).unwrap();
    assert_eq!(hidden.items_length, 0);
    let mine = list_assets(&state, &user(1), "files".to_string(), all()).unwrap();
    assert_eq!(mine.items_length, 1);
}

#[test]
fn assets_are_read_deleted_and_counted() {
    let mut state = site();
    assert_eq!(count_assets(&state, &user(9), "web".to_string()), 3);
    assert_eq!(count_assets(&state, &user(9), "files".to_string()), 1);
    assert_eq!(
        get_asset(&state, &user(3), "files".to_string(), "/secret".to_string()),
        Err(Error::PermissionDenied { collection: "files".to_string(), operation: Operation::Read })
    );
    assert_eq!(get_asset(&state, &user(3), "web".to_string(), "/none".to_string()), Ok(None));
    assert_eq!(
        del_asset(&mut state, &user(2), "web".to_string(), "/b".to_string()),
        Err(denied(Operation::Write))
    );
    let gone = del_asset(&mut state, &user(1), "web".to_string(), "/b".to_string()).unwrap().unwrap();
    assert_eq!(gone.encodings.get(&"identity".to_string()).unwrap().content_chunks.concat(), b"/b");
    assert_eq!(del_asset(&mut state, &user(1), "web".to_string(), "/b".to_string()), Ok(None));
    assert_eq!(count_assets(&state, &user(9), "web".to_string()), 2);
    // what is left, in the order of the store: /a of 2, /c of 1
    assert_eq!(del_assets(&mut state, &user(1), "web".to_string()), Err(denied(Operation::Write)));
    assert_eq!(count_assets(&state, &user(9), "web".to_string()), 2);
    assert_eq!(del_assets(&mut state, &user(2), "web".to_string()), Err(denied(Operation::Write)));
    assert_eq!(count_assets(&state, &user(9), "web".to_string()), 1);
    assert_eq!(get_asset(&state, &user(3), "web".to_string(), "/a".to_string()), Ok(None));
    assert_eq!(del_assets(&mut state, &user(9), "web".to_string()), Ok(()));
    assert_eq!(count_assets(&state, &user(9), "web".to_string()), 0);
    assert_eq!(count_assets(&state, &user(9), "files".to_string()), 1);
}

#[test]
fn many_assets_are_read_and_deleted_in_order() {
    let mut state = site();
    let found = get_many_assets(
        &state,
        &user(3),
        vec![("web".to_string(), "/c".to_string()), ("web".to_string(), "/zz".to_string())],
    ).unwrap();
    assert_eq!(found[0].0, "/c");
    assert_eq!(found[0].1.as_ref().unwrap().owner, user(1));
    assert_eq!(found[1], ("/zz".to_string(), None));
    assert_eq!(
        get_many_assets(
            &state,
            &user(3),
            vec![("web".to_string(), "/c".to_string()), ("files".to_string(), "/secret".to_string())],
        ),
        Err(Error::PermissionDenied { collection: "files".to_string(), operation: Operation::Read })
    );
    let refused = del_many_assets(
        &mut state,
        &user(1),
        vec![
            ("web".to_string(), "/b".to_string()),
            ("web".to_string(), "/a".to_string()),
            ("web".to_string(), "/c".to_string()),
        ],
    );
    assert_eq!(refused, Err(denied(Operation::Write)));
    assert_eq!(count_assets(&state, &user(9), "web".to_string()), 2);
    let removed = del_many_assets(
        &mut state,
        &user(9),
        vec![("web".to_string(), "/a".to_string()), ("web".to_string(), "/b".to_string())],
    ).unwrap();
    assert!(removed[0].is_some());
    assert!(removed[1].is_none());
    assert_eq!(count_assets(&state, &user(9), "web".to_string()), 1);
}

#[test]
fn opening_a_batch_discards_the_lapsed_ones() {
    let mut state = web(None);
    let a = user(1);
    assert_eq!(BATCH_EXPIRY, 300_000_000_000);
    let early = upload(&mut state, &a, "/x", &[b"a"], 0);
    let late = upload(&mut state, &a, "/y", &[b"b"], 10);
    // a refused opening discards nothing
    assert!(init_asset_upload(&mut state, &Principal::anonymous(), key("/z"), BATCH_EXPIRY)
        .is_err());
    assert_eq!(state.uploads.batches.len(), 2);
    let fresh = init_asset_upload(&mut state, &a, key("/z"), BATCH_EXPIRY).unwrap().batch_id;
    assert_eq!(fresh, 2);
    let open: Vec<u64> =
        (0..state.uploads.batches.len()).map(|i| *state.uploads.batches.key_at(i)).collect();
    assert_eq!(open, vec![late, fresh]);
    assert_eq!(
        commit_asset_upload(
            &mut state,
            &a,
            CommitBatch { batch_id: early, headers: Vec::new() },
            BATCH_EXPIRY + 1
        ),
        Err(Error::BatchNotFound)
    );
}

#[test]
fn states_put_together_from_parts_can_be_checked() {
    let mut state = site();
    upload(&mut state, &user(1), "/pending", &[b"a", b"b"], 3);
    assert!(state.check());

    let mut wrong_length = site();
    let (key, mut asset) = wrong_length.assets.remove_at(0);
    let (kind, mut encoding) = asset.encodings.remove_at(0);
    encoding.total_length += 1;
    asset.encodings.put(kind, encoding);
    wrong_length.assets.insert_at(0, key, asset);
    assert!(!wrong_length.check());

    let mut wrong_hash = site();
    let (key, mut asset) = wrong_hash.assets.remove_at(0);
    let (kind, mut encoding) = asset.encodings.remove_at(0);
    encoding.sha256[0] ^= 1;
    asset.encodings.put(kind, encoding);
    wrong_hash.assets.insert_at(0, key, asset);
    assert!(!wrong_hash.check());

    let mut no_encoding = site();
    let (key, mut asset) = no_encoding.assets.remove_at(0);
    asset.encodings.remove_at(0);
    no_encoding.assets.insert_at(0, key, asset);
    assert!(!no_encoding.check());

    let mut wrong_order = site();
    let batch = upload(&mut wrong_order, &user(1), "/pending", &[b"a", b"b"], 3);
    let (id, mut pending) = wrong_order.uploads.batches.remove_at(0);
    assert_eq!(id, batch);
    pending.chunks.swap(0, 1);
    wrong_order.uploads.batches.insert_at(0, id, pending);
    assert!(!wrong_order.check());

    let mut wrong_id = site();
    upload(&mut wrong_id, &user(1), "/pending", &[], 3);
    wrong_id.uploads.next_batch_id = 0;
    assert!(!wrong_id.check());
}

#[test]
fn assets_are_counted_as_a_listing_shows_them() {
    let state = site();
    for who in [user(1), user(2), user(3), user(9), Principal::anonymous()] {
        for collection in ["web", "files", "none"] {
            let listed = list_assets(&state, &who, collection.to_string(), all()).unwrap();
            assert_eq!(count_assets(&state, &who, collection.to_string()), listed.items_length);
        }
    }
    assert_eq!(count_assets(&state, &Principal::anonymous(), "web".to_string()), 3);
    assert_eq!(count_assets(&state, &user(1), "files".to_string()), 1);
    assert_eq!(count_assets(&state, &user(2), "files".to_string()), 0);
}

#[test]
fn a_stranger_cannot_commit_over_a_private_asset() {
    let mut state = web(None);
    let a = user(1);
    let b = user(2);
    set_rule(
        &mut state,
        RulesType::Storage,
        "web".to_string(),
        rule(Permission::Public, Permission::Public, None),
    );
    let first = upload(&mut state, &a, "/x", &[b"abc"], 1);
    let second = upload(&mut state, &b, "/x", &[b"other"], 1);
    commit_asset_upload(&mut state, &a, CommitBatch { batch_id: first, headers: Vec::new() }, 2)
        .unwrap();
    // the rule changes between the opening of the batch and its commit
    set_rule(
        &mut state,
        RulesType::Storage,
        "web".to_string(),
        rule(Permission::Public, Permission::Private, None),
    );
    assert_eq!(
        commit_asset_upload(&mut state, &b, CommitBatch { batch_id: second, headers: Vec::new() }, 3),
        Err(denied(Operation::Write))
    );
    let kept = get_asset(&state, &b, "web".to_string(), "/x".to_string()).unwrap().unwrap();
    assert_eq!((kept.version, kept.updated_at), (1, 2));
    assert_eq!(kept.encodings[0].1.sha256, hex(SHA256_ABC));
}
