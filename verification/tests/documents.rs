use satellite::api::{
    count_docs, del_doc, del_docs, del_many_docs, del_rule, get_doc, get_many_docs, init, list_docs,
    list_rules, set_doc, set_many_docs, set_rule, State,
};
use satellite::controllers::{Controller, ControllerScope};
use satellite::db::{DelDoc, SetDoc};
use satellite::error::{Error, Operation};
use satellite::list::{KeyMatcher, ListOrder, ListParams};
use satellite::principal::Principal;
use satellite::rules::{default_rule, Permission, Rule, RulesType};
use satellite::table::Table;

fn user(n: u8) -> Principal {
    Principal::from_slice(&[n, 7, 7]).unwrap()
}

fn rule(read: Permission, write: Permission) -> Rule {
    Rule { read, write, max_size: None, mutable_permissions: true, max_changes_per_user: None }
}

fn payload(text: &str, version: Option<u64>) -> SetDoc {
    SetDoc { data: text.as_bytes().to_vec(), delegates: Vec::new(), version }
}

fn notes() -> State {
    let mut state = init(Table::new());
    set_rule(
        &mut state,
        RulesType::Db,
        "notes".to_string(),
        rule(Permission::Public, Permission::Private),
    );
    state
}

fn denied(collection: &str, operation: Operation) -> Error {
    Error::PermissionDenied { collection: collection.to_string(), operation }
}

fn all() -> ListParams {
    ListParams { matcher: None, owner: None, start_after: None, limit: None, order: ListOrder::Keys }
}

#[test]
fn private_notes_scenario() {
    let mut state = notes();
    let a = user(1);
    let b = user(2);
    let created =
        set_doc(&mut state, &a, "notes".to_string(), "n1".to_string(), payload("one", None), 10)
            .unwrap();
    assert_eq!(created.data.after.version, 1);
    assert_eq!(created.data.after.owner, a);
    assert_eq!(created.data.before, None);
    assert_eq!(created.key, "n1");
    assert_eq!(created.collection, "notes");

    let refused =
        set_doc(&mut state, &b, "notes".to_string(), "n1".to_string(), payload("two", None), 11);
    assert_eq!(refused, Err(denied("notes", Operation::Write)));

    let updated =
        set_doc(&mut state, &a, "notes".to_string(), "n1".to_string(), payload("three", Some(1)), 12)
            .unwrap();
    assert_eq!(updated.data.after.version, 2);
    assert_eq!(updated.data.after.owner, a);
    assert_eq!(updated.data.after.data, b"three".to_vec());
    assert_eq!(updated.data.before.unwrap().version, 1);

    for reader in [user(1), user(2), user(3), Principal::anonymous()] {
        let found = get_doc(&state, &reader, "notes".to_string(), "n1".to_string()).unwrap();
        assert_eq!(found.unwrap().version, 2);
    }
}

#[test]
fn second_write_with_the_same_expected_version_conflicts() {
    let mut state = notes();
    let a = user(1);
    set_doc(&mut state, &a, "notes".to_string(), "k".to_string(), payload("v0", None), 1).unwrap();
    let first =
        set_doc(&mut state, &a, "notes".to_string(), "k".to_string(), payload("v1", Some(1)), 2)
            .unwrap();
    assert_eq!(first.data.after.version, 2);
    let second =
        set_doc(&mut state, &a, "notes".to_string(), "k".to_string(), payload("v2", Some(1)), 3);
    assert_eq!(second, Err(Error::VersionConflict));
    let stored = get_doc(&state, &a, "notes".to_string(), "k".to_string()).unwrap().unwrap();
    assert_eq!(stored.data, b"v1".to_vec());
    assert_eq!(stored.version, 2);
}

#[test]
fn expected_version_without_a_record_conflicts() {
    let mut state = notes();
    let r = set_doc(
        &mut state,
        &user(1),
        "notes".to_string(),
        "new".to_string(),
        payload("x", Some(1)),
        1,
    );
    assert_eq!(r, Err(Error::VersionConflict));
    assert_eq!(count_docs(&state, &user(1), "notes".to_string()), 0);
}

#[test]
fn versions_count_up_and_times_move_forward() {
    let mut state = notes();
    let a = user(1);
    let mut last = set_doc(
        &mut state,
        &a,
        "notes".to_string(),
        "k".to_string(),
        payload("0", None),
        100,
    ).unwrap().data.after;
    assert_eq!((last.version, last.created_at, last.updated_at), (1, 100, 100));
    // the clock stands still, then goes back, then moves on
    for (i, now) in [100u64, 50, 200].iter().enumerate() {
        let next = set_doc(
            &mut state,
            &a,
            "notes".to_string(),
            "k".to_string(),
            payload("n", None),
            *now,
        ).unwrap().data.after;
        assert_eq!(next.version, last.version + 1);
        assert!(next.updated_at > last.updated_at);
        assert_eq!(next.created_at, 100);
        assert_eq!(next.version, i as u64 + 2);
        last = next;
    }
    assert_eq!(last.updated_at, 200);
}

#[test]
fn a_clock_that_stands_still_gives_the_next_instant() {
    let mut state = notes();
    let a = user(1);
    set_doc(&mut state, &a, "notes".to_string(), "k".to_string(), payload("0", None), 100).unwrap();
    let next =
        set_doc(&mut state, &a, "notes".to_string(), "k".to_string(), payload("1", None), 100)
            .unwrap();
    assert_eq!(next.data.after.updated_at, 101);
}

#[test]
fn a_record_at_the_last_instant_cannot_be_written_over() {
    let mut state = notes();
    let a = user(1);
    set_doc(&mut state, &a, "notes".to_string(), "k".to_string(), payload("0", None), u64::MAX)
        .unwrap();
    let r = set_doc(&mut state, &a, "notes".to_string(), "k".to_string(), payload("1", None), 5);
    assert_eq!(r, Err(Error::InvalidInput));
}

#[test]
fn anonymous_cannot_create_under_a_private_rule() {
    let mut state = notes();
    let r = set_doc(
        &mut state,
        &Principal::anonymous(),
        "notes".to_string(),
        "k".to_string(),
        payload("x", None),
        1,
    );
    assert_eq!(r, Err(denied("notes", Operation::Write)));
}

#[test]
fn a_collection_without_a_rule_is_written_by_controllers_only() {
    let mut roster = Table::new();
    roster.put(
        user(9),
        Controller {
            metadata: Vec::new(),
            created_at: 0,
            updated_at: 0,
            expires_at: None,
            scope: ControllerScope::Write,
        },
    );
    let mut state = init(roster);
    assert_eq!(
        default_rule(RulesType::Db),
        rule(Permission::Public, Permission::Controllers)
    );
    assert_eq!(
        default_rule(RulesType::Storage),
        rule(Permission::Controllers, Permission::Public)
    );
    let r = set_doc(&mut state, &user(1), "any".to_string(), "k".to_string(), payload("x", None), 1);
    assert_eq!(r, Err(denied("any", Operation::Write)));
    let ok = set_doc(&mut state, &user(9), "any".to_string(), "k".to_string(), payload("x", None), 1);
    assert_eq!(ok.unwrap().data.after.owner, user(9));
    let read = get_doc(&state, &Principal::anonymous(), "any".to_string(), "k".to_string());
    assert_eq!(read.unwrap().unwrap().data, b"x".to_vec());
}

#[test]
fn controllers_pass_private_rules() {
    let mut roster = Table::new();
    roster.put(
        user(9),
        Controller {
            metadata: Vec::new(),
            created_at: 0,
            updated_at: 0,
            expires_at: None,
            scope: ControllerScope::Admin,
        },
    );
    let mut state = init(roster);
    set_rule(
        &mut state,
        RulesType::Db,
        "notes".to_string(),
        rule(Permission::Private, Permission::Private),
    );
    set_doc(&mut state, &user(1), "notes".to_string(), "k".to_string(), payload("x", None), 1)
        .unwrap();
    let by_controller =
        set_doc(&mut state, &user(9), "notes".to_string(), "k".to_string(), payload("y", None), 2)
            .unwrap();
    assert_eq!(by_controller.data.after.owner, user(1));
    assert_eq!(by_controller.data.after.version, 2);
    assert_eq!(
        get_doc(&state, &user(2), "notes".to_string(), "k".to_string()),
        Err(denied("notes", Operation::Read))
    );
    assert!(get_doc(&state, &user(9), "notes".to_string(), "k".to_string()).unwrap().is_some());
}

#[test]
fn managed_rules_admit_the_callers_that_a_record_names() {
    let mut state = init(Table::new());
    set_rule(
        &mut state,
        RulesType::Db,
        "shared".to_string(),
        rule(Permission::Managed, Permission::Managed),
    );
    let doc = SetDoc { data: vec![1], delegates: vec![user(2)], version: None };
    set_doc(&mut state, &user(1), "shared".to_string(), "k".to_string(), doc, 1).unwrap();
    assert!(get_doc(&state, &user(2), "shared".to_string(), "k".to_string()).unwrap().is_some());
    assert_eq!(
        get_doc(&state, &user(3), "shared".to_string(), "k".to_string()),
        Err(denied("shared", Operation::Read))
    );
    // the delegate writes, keeps itself named, and the owner stays
    let again = SetDoc { data: vec![2], delegates: vec![user(2)], version: Some(1) };
    let written =
        set_doc(&mut state, &user(2), "shared".to_string(), "k".to_string(), again, 2).unwrap();
    assert_eq!(written.data.after.owner, user(1));
    assert_eq!(
        set_doc(&mut state, &user(3), "shared".to_string(), "k".to_string(), payload("x", None), 3),
        Err(denied("shared", Operation::Write))
    );
}

#[test]
fn controllers_rule_admits_controllers_only() {
    let mut state = notes();
    set_rule(
        &mut state,
        RulesType::Db,
        "locked".to_string(),
        rule(Permission::Controllers, Permission::Controllers),
    );
    assert_eq!(
        get_doc(&state, &user(1), "locked".to_string(), "k".to_string()),
        Err(denied("locked", Operation::Read))
    );
}

#[test]
fn absent_documents_are_none_and_no_refusal() {
    let state = notes();
    assert_eq!(get_doc(&state, &user(1), "notes".to_string(), "nothing".to_string()), Ok(None));
}

#[test]
fn delete_returns_what_was_removed() {
    let mut state = notes();
    let a = user(1);
    set_doc(&mut state, &a, "notes".to_string(), "k".to_string(), payload("x", None), 1).unwrap();
    assert_eq!(
        del_doc(&mut state, &user(2), "notes".to_string(), "k".to_string(), DelDoc { version: None }),
        Err(denied("notes", Operation::Write))
    );
    assert_eq!(
        del_doc(&mut state, &a, "notes".to_string(), "k".to_string(), DelDoc { version: Some(4) }),
        Err(Error::VersionConflict)
    );
    let gone =
        del_doc(&mut state, &a, "notes".to_string(), "k".to_string(), DelDoc { version: Some(1) })
            .unwrap();
    assert_eq!(gone.data.unwrap().data, b"x".to_vec());
    assert_eq!(get_doc(&state, &a, "notes".to_string(), "k".to_string()), Ok(None));
    let nothing =
        del_doc(&mut state, &a, "notes".to_string(), "k".to_string(), DelDoc { version: None })
            .unwrap();
    assert_eq!(nothing.data, None);
    // a deleted key starts again at version 1
    let again =
        set_doc(&mut state, &a, "notes".to_string(), "k".to_string(), payload("y", None), 9).unwrap();
    assert_eq!(again.data.after.version, 1);
}

fn filled() -> State {
    let mut state = notes();
    set_rule(
        &mut state,
        RulesType::Db,
        "other".to_string(),
        rule(Permission::Public, Permission::Public),
    );
    for (i, key) in ["b", "a/2", "c", "a/1", "ab"].iter().enumerate() {
        let owner = if i % 2 == 0 { user(1) } else { user(2) };
        set_doc(
            &mut state,
            &owner,
            "notes".to_string(),
            key.to_string(),
            payload(key, None),
            i as u64,
        ).unwrap();
    }
    set_doc(&mut state, &user(1), "other".to_string(), "z".to_string(), payload("z", None), 9)
        .unwrap();
    state
}

fn keys(state: &State, caller: &Principal, filter: ListParams) -> Vec<String> {
    let results = list_docs(state, caller, "notes".to_string(), filter).unwrap();
    assert_eq!(results.items_length, results.items.len());
    results.items.into_iter().map(|(key, _)| key).collect()
}

#[test]
fn listing_orders_by_key() {
    let state = filled();
    assert_eq!(keys(&state, &user(3), all()), vec!["a/1", "a/2", "ab", "b", "c"]);
}

#[test]
fn listing_in_insertion_order() {
    let state = filled();
    let filter = ListParams { order: ListOrder::Insertion, ..all() };
    assert_eq!(keys(&state, &user(3), filter), vec!["b", "a/2", "c", "a/1", "ab"]);
}

#[test]
fn listing_matches_prefix_key_and_owner() {
    let state = filled();
    let prefix = ListParams { matcher: Some(KeyMatcher::Prefix("a".to_string())), ..all() };
    assert_eq!(keys(&state, &user(3), prefix), vec!["a/1", "a/2", "ab"]);
    let equal = ListParams { matcher: Some(KeyMatcher::Equals("a".to_string())), ..all() };
    assert_eq!(keys(&state, &user(3), equal), Vec::<String>::new());
    let exact = ListParams { matcher: Some(KeyMatcher::Equals("ab".to_string())), ..all() };
    assert_eq!(keys(&state, &user(3), exact), vec!["ab"]);
    let owned = ListParams { owner: Some(user(2)), ..all() };
    assert_eq!(keys(&state, &user(3), owned), vec!["a/1", "a/2"]);
}

#[test]
fn listing_pages_behind_the_cursor() {
    let state = filled();
    let first = ListParams { limit: Some(2), ..all() };
    let page = list_docs(&state, &user(3), "notes".to_string(), first).unwrap();
    assert_eq!(page.items_length, 2);
    assert_eq!(page.matches_length, 5);
    assert_eq!(page.items[0].0, "a/1");
    assert_eq!(page.items[1].0, "a/2");
    let next = ListParams { start_after: Some("a/2".to_string()), limit: Some(2), ..all() };
    assert_eq!(keys(&state, &user(3), next), vec!["ab", "b"]);
    let last = ListParams { start_after: Some("b".to_string()), limit: Some(2), ..all() };
    assert_eq!(keys(&state, &user(3), last), vec!["c"]);
    let end = ListParams { start_after: Some("c".to_string()), ..all() };
    assert_eq!(keys(&state, &user(3), end), Vec::<String>::new());
    let none = ListParams { limit: Some(0), ..all() };
    assert_eq!(keys(&state, &user(3), none), Vec::<String>::new());
    let huge = ListParams { start_after: Some("a/1".to_string()), limit: Some(usize::MAX), ..all() };
    assert_eq!(keys(&state, &user(3), huge), vec!["a/2", "ab", "b", "c"]);
}

#[test]
fn a_cursor_that_is_not_listed_is_refused() {
    let state = filled();
    let filter = ListParams { start_after: Some("nowhere".to_string()), ..all() };
    assert_eq!(
        list_docs(&state, &user(3), "notes".to_string(), filter),
        Err(Error::InvalidInput)
    );
}

#[test]
fn listing_leaves_out_what_the_caller_may_not_read() {
    let mut state = init(Table::new());
    set_rule(
        &mut state,
        RulesType::Db,
        "notes".to_string(),
        rule(Permission::Private, Permission::Private),
    );
    set_doc(&mut state, &user(1), "notes".to_string(), "mine".to_string(), payload("1", None), 1)
        .unwrap();
    set_doc(&mut state, &user(2), "notes".to_string(), "yours".to_string(), payload("2", None), 2)
        .unwrap();
    let results = list_docs(&state, &user(1), "notes".to_string(), all()).unwrap();
    assert_eq!(results.matches_length, 1);
    assert_eq!(results.items[0].0, "mine");
    let nobody = list_docs(&state, &Principal::anonymous(), "notes".to_string(), all()).unwrap();
    assert_eq!(nobody.items_length, 0);
}

#[test]
fn keys_order_by_their_bytes() {
    let mut state = notes();
    for key in ["é", "z", "Z", "", "zz", "\u{10000}", "\u{ffff}"] {
        set_doc(&mut state, &user(1), "notes".to_string(), key.to_string(), payload(key, None), 1)
            .unwrap();
    }
    let mut expected: Vec<String> =
        ["é", "z", "Z", "", "zz", "\u{10000}", "\u{ffff}"].iter().map(|k| k.to_string()).collect();
    expected.sort();
    assert_eq!(keys(&state, &user(1), all()), expected);
}

#[test]
fn counting_is_per_collection_and_counts_what_the_caller_may_read() {
    let mut state = filled();
    assert_eq!(count_docs(&state, &user(1), "notes".to_string()), 5);
    assert_eq!(count_docs(&state, &Principal::anonymous(), "notes".to_string()), 5);
    assert_eq!(count_docs(&state, &user(1), "other".to_string()), 1);
    assert_eq!(count_docs(&state, &user(1), "none".to_string()), 0);
    // a count is the number of documents that a listing of everything shows
    set_rule(
        &mut state,
        RulesType::Db,
        "notes".to_string(),
        rule(Permission::Private, Permission::Private),
    );
    for who in [user(1), user(2), user(3), Principal::anonymous()] {
        let listed = list_docs(&state, &who, "notes".to_string(), all()).unwrap();
        assert_eq!(count_docs(&state, &who, "notes".to_string()), listed.items_length);
        assert_eq!(listed.items_length, listed.matches_length);
    }
    assert_eq!(count_docs(&state, &user(1), "notes".to_string()), 3);
    assert_eq!(count_docs(&state, &user(2), "notes".to_string()), 2);
    assert_eq!(count_docs(&state, &user(3), "notes".to_string()), 0);
}

#[test]
fn one_private_document_is_counted_for_its_owner_only() {
    let mut state = init(Table::new());
    set_rule(
        &mut state,
        RulesType::Db,
        "notes".to_string(),
        rule(Permission::Private, Permission::Private),
    );
    set_doc(&mut state, &user(1), "notes".to_string(), "k".to_string(), payload("x", None), 1)
        .unwrap();
    assert_eq!(count_docs(&state, &user(1), "notes".to_string()), 1);
    assert_eq!(count_docs(&state, &user(2), "notes".to_string()), 0);
    assert_eq!(list_docs(&state, &user(2), "notes".to_string(), all()).unwrap().items_length, 0);
}

#[test]
fn deleting_a_collection_stops_at_the_first_document_of_another() {
    let mut state = filled();
    // in the order of the store: b of 1, a/2 of 2, c of 1, a/1 of 2, ab of 1
    assert_eq!(
        del_docs(&mut state, &user(1), "notes".to_string()),
        Err(denied("notes", Operation::Write))
    );
    assert_eq!(
        keys(&state, &user(3), ListParams { order: ListOrder::Insertion, ..all() }),
        vec!["a/2", "c", "a/1", "ab"]
    );
    assert_eq!(
        del_docs(&mut state, &Principal::anonymous(), "notes".to_string()),
        Err(denied("notes", Operation::Write))
    );
    assert_eq!(count_docs(&state, &user(1), "notes".to_string()), 4);
    // the other collection is written by anyone, and left alone by the first call
    assert_eq!(count_docs(&state, &user(1), "other".to_string()), 1);
    assert_eq!(del_docs(&mut state, &Principal::anonymous(), "other".to_string()), Ok(()));
    assert_eq!(count_docs(&state, &user(1), "other".to_string()), 0);
    assert_eq!(count_docs(&state, &user(1), "notes".to_string()), 4);
    assert_eq!(del_docs(&mut state, &user(1), "empty".to_string()), Ok(()));
}

#[test]
fn a_controller_deletes_a_whole_collection() {
    let mut roster = Table::new();
    roster.put(
        user(9),
        Controller {
            metadata: Vec::new(),
            created_at: 0,
            updated_at: 0,
            expires_at: None,
            scope: ControllerScope::Write,
        },
    );
    let mut state = init(roster);
    set_rule(
        &mut state,
        RulesType::Db,
        "notes".to_string(),
        rule(Permission::Public, Permission::Private),
    );
    set_rule(
        &mut state,
        RulesType::Db,
        "other".to_string(),
        rule(Permission::Public, Permission::Private),
    );
    for (i, key) in ["a", "b", "c"].iter().enumerate() {
        let owner = user(1 + i as u8);
        set_doc(&mut state, &owner, "notes".to_string(), key.to_string(), payload(key, None), 1)
            .unwrap();
        set_doc(&mut state, &owner, "other".to_string(), key.to_string(), payload(key, None), 1)
            .unwrap();
    }
    assert_eq!(del_docs(&mut state, &user(9), "notes".to_string()), Ok(()));
    assert_eq!(count_docs(&state, &user(9), "notes".to_string()), 0);
    assert_eq!(count_docs(&state, &user(9), "other".to_string()), 3);
    // an owner deletes a collection that is all its own
    del_doc(&mut state, &user(2), "other".to_string(), "b".to_string(), DelDoc { version: None })
        .unwrap();
    del_doc(&mut state, &user(3), "other".to_string(), "c".to_string(), DelDoc { version: None })
        .unwrap();
    assert_eq!(del_docs(&mut state, &user(1), "other".to_string()), Ok(()));
    assert_eq!(count_docs(&state, &user(9), "other".to_string()), 0);
}

#[test]
fn reading_many_keeps_the_order_and_stops_at_a_refusal() {
    let mut state = filled();
    let found = get_many_docs(
        &state,
        &user(3),
        vec![
            ("notes".to_string(), "c".to_string()),
            ("notes".to_string(), "missing".to_string()),
            ("other".to_string(), "z".to_string()),
        ],
    ).unwrap();
    assert_eq!(found.len(), 3);
    assert_eq!(found[0].0, "c");
    assert_eq!(found[0].1.as_ref().unwrap().data, b"c".to_vec());
    assert_eq!(found[1], ("missing".to_string(), None));
    assert_eq!(found[2].1.as_ref().unwrap().data, b"z".to_vec());
    assert_eq!(get_many_docs(&state, &user(3), Vec::new()), Ok(Vec::new()));

    set_rule(
        &mut state,
        RulesType::Db,
        "other".to_string(),
        rule(Permission::Controllers, Permission::Public),
    );
    let refused = get_many_docs(
        &state,
        &user(3),
        vec![("notes".to_string(), "c".to_string()), ("other".to_string(), "z".to_string())],
    );
    assert_eq!(refused, Err(denied("other", Operation::Read)));
}

#[test]
fn writing_many_keeps_what_was_written_before_a_refusal() {
    let mut state = notes();
    let a = user(1);
    let written = set_many_docs(
        &mut state,
        &a,
        vec![
            ("notes".to_string(), "x".to_string(), payload("1", None)),
            ("notes".to_string(), "y".to_string(), payload("2", None)),
            ("notes".to_string(), "x".to_string(), payload("3", Some(1))),
        ],
        5,
    ).unwrap();
    assert_eq!(written.len(), 3);
    assert_eq!(written[2].data.after.version, 2);
    assert_eq!(written[2].data.before.as_ref().unwrap().data, b"1".to_vec());

    let refused = set_many_docs(
        &mut state,
        &a,
        vec![
            ("notes".to_string(), "z".to_string(), payload("4", None)),
            ("notes".to_string(), "y".to_string(), payload("5", Some(7))),
            ("notes".to_string(), "w".to_string(), payload("6", None)),
        ],
        6,
    );
    assert_eq!(refused, Err(Error::VersionConflict));
    assert!(get_doc(&state, &a, "notes".to_string(), "z".to_string()).unwrap().is_some());
    assert_eq!(
        get_doc(&state, &a, "notes".to_string(), "y".to_string()).unwrap().unwrap().data,
        b"2".to_vec()
    );
    assert_eq!(get_doc(&state, &a, "notes".to_string(), "w".to_string()), Ok(None));
}

#[test]
fn deleting_many_keeps_what_was_deleted_before_a_refusal() {
    let mut state = filled();
    let removed = del_many_docs(
        &mut state,
        &user(1),
        vec![
            ("notes".to_string(), "b".to_string(), DelDoc { version: Some(1) }),
            ("notes".to_string(), "gone".to_string(), DelDoc { version: None }),
        ],
    ).unwrap();
    assert_eq!(removed.len(), 2);
    assert_eq!(removed[0].data.as_ref().unwrap().data, b"b".to_vec());
    assert_eq!(removed[1].data, None);
    let refused = del_many_docs(
        &mut state,
        &user(1),
        vec![
            ("notes".to_string(), "c".to_string(), DelDoc { version: None }),
            ("notes".to_string(), "a/1".to_string(), DelDoc { version: None }),
            ("notes".to_string(), "ab".to_string(), DelDoc { version: None }),
        ],
    );
    assert_eq!(refused, Err(denied("notes", Operation::Write)));
    assert_eq!(count_docs(&state, &user(1), "notes".to_string()), 3);
    assert_eq!(get_doc(&state, &user(1), "notes".to_string(), "c".to_string()), Ok(None));
    assert!(get_doc(&state, &user(1), "notes".to_string(), "ab".to_string()).unwrap().is_some());
}

#[test]
fn rules_are_listed_set_and_removed_per_store() {
    let mut state = notes();
    let open = rule(Permission::Public, Permission::Public);
    set_rule(&mut state, RulesType::Storage, "files".to_string(), open);
    set_rule(&mut state, RulesType::Db, "more".to_string(), open);
    assert_eq!(
        list_rules(&state, RulesType::Db),
        vec![
            ("notes".to_string(), rule(Permission::Public, Permission::Private)),
            ("more".to_string(), open)
        ]
    );
    assert_eq!(list_rules(&state, RulesType::Storage), vec![("files".to_string(), open)]);
    let limited = Rule { max_size: Some(10), ..open };
    set_rule(&mut state, RulesType::Db, "notes".to_string(), limited);
    assert_eq!(list_rules(&state, RulesType::Db)[0], ("notes".to_string(), limited));
    del_rule(&mut state, RulesType::Db, "notes".to_string());
    assert_eq!(list_rules(&state, RulesType::Db), vec![("more".to_string(), open)]);
    del_rule(&mut state, RulesType::Db, "unknown".to_string());
    assert_eq!(list_rules(&state, RulesType::Db).len(), 1);
}

#[test]
fn refusals_say_what_they_are() {
    assert_eq!(
        denied("notes", Operation::Write).message(),
        "Writing is not permitted in collection notes"
    );
    assert_eq!(
        denied("notes", Operation::Read).message(),
        "Reading is not permitted in collection notes"
    );
    assert_eq!(Error::NotFound.message(), "Not found.");
    assert_eq!(Error::VersionConflict.message(), "The version is not the stored one.");
    assert_eq!(
        Error::SizeLimitExceeded.message(),
        "The content is larger than the collection allows."
    );
    assert_eq!(Error::BatchExpired.message(), "The batch has expired.");
    assert_eq!(Error::BatchNotFound.message(), "The batch does not exist.");
    assert_eq!(Error::IntegrityMismatch.message(), "The content has changed.");
    assert_eq!(Error::InvalidInput.message(), "The request cannot be carried out.");
}
