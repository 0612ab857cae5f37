use satellite::api::{
    del_controllers, del_custom_domain, init, list_controllers, list_custom_domains,
    set_controllers, set_custom_domain, State,
};
use satellite::auth::{authorize, Decision};
use satellite::controllers::{
    is_controller, ControllerScope, DeleteControllersArgs, SetController, SetControllersArgs,
    MAX_NUMBER_OF_CONTROLLERS,
};
use satellite::error::{Error, Operation};
use satellite::principal::{Principal, MAX_PRINCIPAL_LENGTH};
use satellite::rules::{Permission, Rule};
use satellite::table::Table;
use satellite::upgrade::{post_upgrade, pre_upgrade};

fn user(n: u8) -> Principal {
    Principal::from_slice(&[n, 3, 3]).unwrap()
}

fn args(ids: Vec<Principal>, scope: ControllerScope) -> SetControllersArgs {
    SetControllersArgs {
        controllers: ids,
        controller: SetController {
            metadata: vec![("name".to_string(), "ci".to_string())],
            expires_at: Some(99),
            scope,
        },
    }
}

fn ids(state: &State) -> Vec<Principal> {
    list_controllers(state).entries().into_iter().map(|(id, _)| id).collect()
}

#[test]
fn principals_are_at_most_29_bytes() {
    assert_eq!(MAX_PRINCIPAL_LENGTH, 29);
    assert!(Principal::from_slice(&[0; 29]).is_some());
    assert!(Principal::from_slice(&[0; 30]).is_none());
    let empty = Principal::from_slice(&[]).unwrap();
    assert_eq!(empty.as_slice(), &[] as &[u8]);
    let p = Principal::from_slice(&[1, 2, 3]).unwrap();
    assert_eq!(p.as_slice(), &[1, 2, 3]);
    assert_eq!(p.clone(), p);
    assert!(!p.is_anonymous());
}

#[test]
fn the_anonymous_principal_is_one_byte() {
    let anonymous = Principal::anonymous();
    assert_eq!(anonymous.as_slice(), &[4]);
    assert!(anonymous.is_anonymous());
    assert_eq!(anonymous.as_slice(), candid::Principal::anonymous().as_slice());
    assert!(!Principal::from_slice(&[4, 0]).unwrap().is_anonymous());
    assert!(!Principal::from_slice(&[5]).unwrap().is_anonymous());
}

#[test]
fn controllers_are_set_and_kept_in_order() {
    let mut state = init(Table::new());
    let roster =
        set_controllers(&mut state, args(vec![user(1), user(2)], ControllerScope::Admin), 10)
            .unwrap();
    assert_eq!(roster.len(), 2);
    let first = roster.get(&user(1)).unwrap();
    assert_eq!((first.created_at, first.updated_at, first.expires_at), (10, 10, Some(99)));
    assert_eq!(first.scope, ControllerScope::Admin);
    assert_eq!(first.metadata, vec![("name".to_string(), "ci".to_string())]);
    // setting again keeps the time of the first setting
    let roster =
        set_controllers(&mut state, args(vec![user(2), user(3)], ControllerScope::Write), 20)
            .unwrap();
    assert_eq!(ids(&state), vec![user(1), user(2), user(3)]);
    let second = roster.get(&user(2)).unwrap();
    assert_eq!((second.created_at, second.updated_at), (10, 20));
    assert_eq!(second.scope, ControllerScope::Write);
    assert_eq!(roster.get(&user(3)).unwrap().created_at, 20);
    assert!(is_controller(&state.controllers, &user(3)));
    assert!(!is_controller(&state.controllers, &user(4)));
}

#[test]
fn the_roster_takes_ten_administrators() {
    let mut state = init(Table::new());
    assert_eq!(MAX_NUMBER_OF_CONTROLLERS, 10);
    let ten: Vec<Principal> = (0..10).map(user).collect();
    assert!(set_controllers(&mut state, args(ten.clone(), ControllerScope::Admin), 1).is_ok());
    // those that are there already do not count again
    assert!(set_controllers(&mut state, args(ten, ControllerScope::Admin), 2).is_ok());
    assert_eq!(
        set_controllers(&mut state, args(vec![user(10)], ControllerScope::Admin), 3),
        Err(Error::InvalidInput)
    );
    assert_eq!(ids(&state).len(), 10);
    // the limit is on administrators: another scope is not counted
    assert!(set_controllers(&mut state, args(vec![user(10)], ControllerScope::Write), 3).is_ok());
    assert_eq!(ids(&state).len(), 11);
}

#[test]
fn names_given_twice_count_twice() {
    let mut state = init(Table::new());
    let nine: Vec<Principal> = (0..9).map(user).collect();
    set_controllers(&mut state, args(nine, ControllerScope::Admin), 1).unwrap();
    assert_eq!(
        set_controllers(&mut state, args(vec![user(20), user(20)], ControllerScope::Admin), 2),
        Err(Error::InvalidInput)
    );
    assert!(set_controllers(&mut state, args(vec![user(20)], ControllerScope::Admin), 2).is_ok());
}

#[test]
fn writers_count_as_new_among_administrators() {
    let mut state = init(Table::new());
    set_controllers(&mut state, args(vec![user(50)], ControllerScope::Write), 1).unwrap();
    let nine: Vec<Principal> = (0..9).map(user).collect();
    set_controllers(&mut state, args(nine, ControllerScope::Admin), 1).unwrap();
    // nine administrators and the writer, who counts as new: ten in all
    assert!(set_controllers(&mut state, args(vec![user(50)], ControllerScope::Admin), 2).is_ok());
    assert_eq!(
        set_controllers(&mut state, args(vec![user(60)], ControllerScope::Admin), 3),
        Err(Error::InvalidInput)
    );
}

#[test]
fn the_anonymous_and_the_revoked_principal_cannot_be_controllers() {
    let mut state = init(Table::new());
    for scope in [ControllerScope::Admin, ControllerScope::Write] {
        assert_eq!(
            set_controllers(&mut state, args(vec![user(1), Principal::anonymous()], scope), 1),
            Err(Error::InvalidInput)
        );
    }
    let revoked = candid::Principal::from_text(
        "535yc-uxytb-gfk7h-tny7p-vjkoe-i4krp-3qmcl-uqfgr-cpgej-yqtjq-rqe",
    ).unwrap();
    assert_eq!(
        revoked.as_slice(),
        &[
            248, 152, 76, 85, 124, 243, 110, 62, 250, 165, 78, 34, 56, 168, 191, 112, 96, 151, 72,
            20, 209, 19, 204, 68, 226, 19, 76, 35, 2
        ]
    );
    let revoked = Principal::from_slice(revoked.as_slice()).unwrap();
    assert_eq!(
        set_controllers(&mut state, args(vec![revoked], ControllerScope::Write), 1),
        Err(Error::InvalidInput)
    );
    let mut near = [
        248u8, 152, 76, 85, 124, 243, 110, 62, 250, 165, 78, 34, 56, 168, 191, 112, 96, 151, 72, 20,
        209, 19, 204, 68, 226, 19, 76, 35, 2,
    ];
    near[28] = 3;
    let near = Principal::from_slice(&near).unwrap();
    assert!(set_controllers(&mut state, args(vec![near], ControllerScope::Write), 1).is_ok());
    assert_eq!(ids(&state).len(), 1);
}

#[test]
fn controllers_are_removed() {
    let mut state = init(Table::new());
    set_controllers(&mut state, args(vec![user(1), user(2), user(3)], ControllerScope::Admin), 1)
        .unwrap();
    let roster = del_controllers(
        &mut state,
        DeleteControllersArgs { controllers: vec![user(2), user(7), user(2)] },
    );
    assert_eq!(roster.len(), 2);
    assert_eq!(ids(&state), vec![user(1), user(3)]);
}

fn rule(read: Permission, write: Permission) -> Rule {
    Rule { read, write, max_size: None, mutable_permissions: true, max_changes_per_user: None }
}

#[test]
fn authorization_by_permission() {
    let mut state = init(Table::new());
    set_controllers(&mut state, args(vec![user(9)], ControllerScope::Write), 1).unwrap();
    let roster = &state.controllers;
    let owner = user(1);
    let named = vec![user(2)];
    let held = Some((&owner, &named));
    let anonymous = Principal::anonymous();
    let decide = |who: &Principal, permission: Permission, holders| {
        authorize(who, &rule(permission, Permission::Public), Operation::Read, roster, holders)
    };
    for who in [&owner, &user(2), &user(3), &user(9), &anonymous] {
        assert_eq!(decide(who, Permission::Public, held), Decision::Allow);
        assert_eq!(decide(who, Permission::Public, None), Decision::Allow);
    }
    assert_eq!(decide(&owner, Permission::Private, held), Decision::Allow);
    assert_eq!(decide(&user(2), Permission::Private, held), Decision::Deny);
    assert_eq!(decide(&user(9), Permission::Private, held), Decision::Allow);
    assert_eq!(decide(&user(3), Permission::Private, None), Decision::Allow);
    assert_eq!(decide(&anonymous, Permission::Private, None), Decision::Deny);
    assert_eq!(decide(&owner, Permission::Managed, held), Decision::Allow);
    assert_eq!(decide(&user(2), Permission::Managed, held), Decision::Allow);
    assert_eq!(decide(&user(3), Permission::Managed, held), Decision::Deny);
    assert_eq!(decide(&user(9), Permission::Managed, held), Decision::Allow);
    assert_eq!(decide(&anonymous, Permission::Managed, held), Decision::Deny);
    assert_eq!(decide(&owner, Permission::Controllers, held), Decision::Deny);
    assert_eq!(decide(&user(9), Permission::Controllers, held), Decision::Allow);
    assert_eq!(decide(&user(9), Permission::Controllers, None), Decision::Allow);
    assert_eq!(decide(&anonymous, Permission::Controllers, None), Decision::Deny);
    // the operation picks the permission
    let split = rule(Permission::Controllers, Permission::Public);
    assert_eq!(authorize(&user(3), &split, Operation::Read, roster, None), Decision::Deny);
    assert_eq!(authorize(&user(3), &split, Operation::Write, roster, None), Decision::Allow);
    // an anonymous owner does not let the anonymous caller in
    let nobody = Principal::anonymous();
    let none: Vec<Principal> = Vec::new();
    assert_eq!(decide(&anonymous, Permission::Private, Some((&nobody, &none))), Decision::Deny);
}

#[test]
fn custom_domains_are_versioned() {
    let mut state = init(Table::new());
    set_custom_domain(&mut state, "a.example".to_string(), None, 5).unwrap();
    set_custom_domain(&mut state, "b.example".to_string(), Some("id".to_string()), 6).unwrap();
    set_custom_domain(&mut state, "a.example".to_string(), Some("bn".to_string()), 5).unwrap();
    let domains = list_custom_domains(&state);
    assert_eq!(domains.len(), 2);
    let a = domains.get(&"a.example".to_string()).unwrap();
    assert_eq!(a.bn_id, Some("bn".to_string()));
    assert_eq!((a.created_at, a.updated_at, a.version), (5, 6, 2));
    assert_eq!(domains.get(&"b.example".to_string()).unwrap().version, 1);
    assert_eq!(del_custom_domain(&mut state, "a.example".to_string()), Ok(()));
    assert_eq!(del_custom_domain(&mut state, "a.example".to_string()), Err(Error::NotFound));
    assert_eq!(list_custom_domains(&state).len(), 1);
    set_custom_domain(&mut state, "c.example".to_string(), None, u64::MAX).unwrap();
    assert_eq!(
        set_custom_domain(&mut state, "c.example".to_string(), None, 1),
        Err(Error::InvalidInput)
    );
}

#[test]
fn the_state_is_framed_by_its_length() {
    assert_eq!(pre_upgrade(&Vec::new()), vec![0, 0, 0, 0]);
    assert_eq!(pre_upgrade(&vec![7, 8, 9]), vec![3, 0, 0, 0, 7, 8, 9]);
    let long = vec![1u8; 0x01_02_03];
    let framed = pre_upgrade(&long);
    assert_eq!(&framed[..4], &[3, 2, 1, 0]);
    assert_eq!(&framed[..4], &(long.len() as u32).to_le_bytes());
    assert_eq!(framed.len(), long.len() + 4);
    assert_eq!(post_upgrade(&framed), Some(long.clone()));
    // what follows the frame in memory is not read
    let mut image = framed;
    image.extend_from_slice(&[0; 100]);
    assert_eq!(post_upgrade(&image), Some(long));
}

#[test]
fn an_image_shorter_than_its_frame_holds_no_state() {
    assert_eq!(post_upgrade(&Vec::new()), None);
    assert_eq!(post_upgrade(&vec![0, 0, 0]), None);
    assert_eq!(post_upgrade(&vec![0, 0, 0, 0]), Some(Vec::new()));
    assert_eq!(post_upgrade(&vec![2, 0, 0, 0, 9]), None);
    assert_eq!(post_upgrade(&vec![2, 0, 0, 0, 9, 8]), Some(vec![9, 8]));
    assert_eq!(post_upgrade(&vec![0, 0, 0, 1, 9, 8]), None);
    assert_eq!(post_upgrade(&vec![0, 1, 0, 0]), None);
}
