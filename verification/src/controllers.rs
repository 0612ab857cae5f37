//! The roster of controllers: the accounts that administer the backend.

use crate::error::{Error, ErrorView};
use crate::principal::{anonymous_bytes, Principal};
use crate::table::{copy_list, has_key, lookup, put, without, Duplicate, Table};
use candid::Principal as Id;
use junobuild_shared::segments::access_keys::{assert_controllers, assert_max_number_of_access_keys};
use junobuild_shared::types::state::{AccessKey, AccessKeyScope, AccessKeys};
use vstd::prelude::*;

verus! {

/// What a controller may do.
#[derive(Clone, Copy, Debug, PartialEq, Eq, Structural)]
pub enum ControllerScope {
    Write,
    Admin,
}

/// One controller of the roster.
#[derive(Debug, Clone, PartialEq, Eq)]
pub struct Controller {
    pub metadata: Vec<(String, String)>,
    pub created_at: u64,
    pub updated_at: u64,
    pub expires_at: Option<u64>,
    pub scope: ControllerScope,
}

/// The model of a [`Controller`].
pub struct ControllerView {
    pub metadata: Seq<(Seq<char>, Seq<char>)>,
    pub created_at: u64,
    pub updated_at: u64,
    pub expires_at: Option<u64>,
    pub scope: ControllerScope,
}

impl DeepView for Controller {
    type V = ControllerView;

    open spec fn deep_view(&self) -> ControllerView {
        ControllerView {
            metadata: self.metadata.deep_view(),
            created_at: self.created_at,
            updated_at: self.updated_at,
            expires_at: self.expires_at,
            scope: self.scope,
        }
    }
}

/// What a caller sets on the controllers it names.
#[derive(Debug, Clone, PartialEq, Eq)]
pub struct SetController {
    pub metadata: Vec<(String, String)>,
    pub expires_at: Option<u64>,
    pub scope: ControllerScope,
}

/// The controllers to set, and what to set on each.
#[derive(Debug, Clone, PartialEq, Eq)]
pub struct SetControllersArgs {
    pub controllers: Vec<Principal>,
    pub controller: SetController,
}

/// The controllers to remove.
#[derive(Debug, Clone, PartialEq, Eq)]
pub struct DeleteControllersArgs {
    pub controllers: Vec<Principal>,
}

/// The roster, by principal.
pub type Controllers = Table<Principal, Controller>;

/// The model of the roster.
pub type ControllersView = Seq<(Seq<u8>, ControllerView)>;

/// Whether the roster names `caller`. The anonymous caller is never a
/// controller.
pub open spec fn spec_is_controller(controllers: ControllersView, caller: Seq<u8>) -> bool {
    caller != anonymous_bytes() && has_key(controllers, caller)
}

/// Whether the roster names `caller`.
pub fn is_controller(controllers: &Controllers, caller: &Principal) -> (r: bool)
    requires
        controllers.wf(),
    ensures
        r == spec_is_controller(controllers@, caller@),
{
    !caller.is_anonymous() && controllers.position(caller).is_some()
}

impl Duplicate for Controller {
    fn duplicate(&self) -> (r: Controller) {
        Controller {
            metadata: copy_list(&self.metadata),
            created_at: self.created_at,
            updated_at: self.updated_at,
            expires_at: self.expires_at,
            scope: self.scope,
        }
    }
}

/// The most controllers of administrative scope that the roster takes.
pub const MAX_NUMBER_OF_CONTROLLERS: usize = 10;

/// The most controllers of another scope that the roster takes.
pub const MAX_NUMBER_OF_WRITERS: usize = 20;

/// The most controllers of a scope that the roster takes.
pub open spec fn limit_of(scope: ControllerScope) -> usize {
    match scope {
        ControllerScope::Admin => MAX_NUMBER_OF_CONTROLLERS,
        ControllerScope::Write => MAX_NUMBER_OF_WRITERS,
    }
}

/// The model of a [`SetController`].
pub struct SetControllerView {
    pub metadata: Seq<(Seq<char>, Seq<char>)>,
    pub expires_at: Option<u64>,
    pub scope: ControllerScope,
}

impl DeepView for SetController {
    type V = SetControllerView;

    open spec fn deep_view(&self) -> SetControllerView {
        SetControllerView {
            metadata: self.metadata.deep_view(),
            expires_at: self.expires_at,
            scope: self.scope,
        }
    }
}

/// The controllers of one scope.
pub open spec fn scoped(scope: ControllerScope) -> spec_fn((Seq<u8>, ControllerView)) -> bool {
    |entry: (Seq<u8>, ControllerView)| entry.1.scope == scope
}

/// The principal of an entry of the roster.
pub open spec fn id_of() -> spec_fn((Seq<u8>, ControllerView)) -> Seq<u8> {
    |entry: (Seq<u8>, ControllerView)| entry.0
}

/// The principals that are not among `known`.
pub open spec fn unknown_to(known: Seq<Seq<u8>>) -> spec_fn(Seq<u8>) -> bool {
    |id: Seq<u8>| !known.contains(id)
}

/// Whether the controllers of `scope` and those of `ids` that are not yet
/// among them are at most `max` together. A principal that `ids` names
/// twice counts twice.
pub open spec fn fits(
    controllers: ControllersView,
    ids: Seq<Seq<u8>>,
    scope: ControllerScope,
    max: usize,
) -> bool {
    let current = controllers.filter(scoped(scope)).map_values(id_of());
    current.len() + ids.filter(unknown_to(current)).len() <= max
}

/// The bytes of the principal whose control was revoked.
pub open spec fn revoked_bytes() -> Seq<u8> {
    seq![
        248u8, 152u8, 76u8, 85u8, 124u8, 243u8, 110u8, 62u8, 250u8, 165u8, 78u8, 34u8, 56u8, 168u8,
        191u8, 112u8, 96u8, 151u8, 72u8, 20u8, 209u8, 19u8, 204u8, 68u8, 226u8, 19u8, 76u8, 35u8,
        2u8,
    ]
}

/// Whether every principal of `ids` can be a controller: none is the
/// anonymous one, none the revoked one.
pub open spec fn acceptable(ids: Seq<Seq<u8>>) -> bool {
    forall|i: int|
        0 <= i < ids.len() ==> (#[trigger] ids[i]) != anonymous_bytes() && ids[i]
            != revoked_bytes()
}

/// Asks `junobuild_shared::segments::access_keys::assert_max_number_of_access_keys`
/// whether the roster has room for `ids` in `scope`, under the limit that
/// the function itself has for the scope.
///
/// Trusted: that function keeps the access keys of the scope asked for,
/// counts them, adds the number of `ids` that are not among their keys, and
/// fails where the sum is over its limit: 10 for the administrative scope,
/// 20 for any other. The roster is handed over entry
/// by entry; its principals are at most 29 bytes long, which is what their
/// conversion asks for.
#[verifier::external_body]
fn check_room(controllers: &Controllers, ids: &Vec<Principal>, scope: ControllerScope) -> (r:
    Result<(), String>)
    requires
        controllers.wf(),
    ensures
        r is Ok <==> fits(controllers@, ids.deep_view(), scope, limit_of(scope)),
{
    let to = |s: ControllerScope| match s {
        ControllerScope::Write => AccessKeyScope::Write,
        ControllerScope::Admin => AccessKeyScope::Admin,
    };
    let current: AccessKeys = controllers.entries().into_iter().map(|(k, c)| (
        Id::from_slice(k.as_slice()),
        AccessKey { metadata: c.metadata.into_iter().collect(), created_at: c.created_at,
            updated_at: c.updated_at, expires_at: c.expires_at, scope: to(c.scope), kind: None },
    )).collect();
    let ids: Vec<Id> = ids.iter().map(|p| Id::from_slice(p.as_slice())).collect();
    assert_max_number_of_access_keys(&current, &ids, &to(scope), None)
}

/// Asks `junobuild_shared::segments::access_keys::assert_controllers`
/// whether `ids` can be controllers.
///
/// Trusted: that function fails where one of the principals is the
/// anonymous one, or the one that its source lists as revoked, and
/// succeeds otherwise.
#[verifier::external_body]
fn check_ids(ids: &Vec<Principal>) -> (r: Result<(), String>)
    ensures
        r is Ok <==> acceptable(ids.deep_view()),
{
    let ids: Vec<Id> = ids.iter().map(|p| Id::from_slice(p.as_slice())).collect();
    assert_controllers(&ids)
}

/// The controller that setting leaves: as asked for, with the time of its
/// first setting kept.
pub open spec fn controller_set(existing: Option<ControllerView>, data: SetControllerView, now: u64)
    -> ControllerView {
    ControllerView {
        metadata: data.metadata,
        created_at: match existing {
            Some(controller) => controller.created_at,
            None => now,
        },
        updated_at: now,
        expires_at: data.expires_at,
        scope: data.scope,
    }
}

/// The roster after setting `data` on each of `ids`, one after the other.
pub open spec fn set_all(
    controllers: ControllersView,
    ids: Seq<Seq<u8>>,
    data: SetControllerView,
    now: u64,
) -> ControllersView
    decreases ids.len(),
{
    if ids.len() == 0 {
        controllers
    } else {
        let before = set_all(controllers, ids.drop_last(), data, now);
        put(before, ids.last(), controller_set(lookup(before, ids.last()), data, now))
    }
}

/// The roster without the principals of `ids`.
pub open spec fn remove_all(controllers: ControllersView, ids: Seq<Seq<u8>>) -> ControllersView
    decreases ids.len(),
{
    if ids.len() == 0 {
        controllers
    } else {
        without(remove_all(controllers, ids.drop_last()), ids.last())
    }
}

/// What setting controllers does, given whether the roster has room and
/// whether the principals can be controllers: the roster it leaves, or the
/// refusal. Room is asked for only where the scope is administrative.
pub open spec fn set_controllers_outcome(
    controllers: ControllersView,
    ids: Seq<Seq<u8>>,
    data: SetControllerView,
    now: u64,
    room: bool,
    accepted: bool,
) -> Result<ControllersView, ErrorView> {
    if data.scope == ControllerScope::Admin && !room {
        Err(ErrorView::InvalidInput)
    } else if !accepted {
        Err(ErrorView::InvalidInput)
    } else {
        Ok(set_all(controllers, ids, data, now))
    }
}

/// Sets `data` on each of `ids`, unconditionally.
pub fn set_controllers_store(
    controllers: &mut Controllers,
    ids: &Vec<Principal>,
    data: &SetController,
    now: u64,
)
    requires
        old(controllers).wf(),
    ensures
        final(controllers).wf(),
        final(controllers)@ == set_all(old(controllers)@, ids.deep_view(), data.deep_view(), now),
{
    let ghost before = controllers@;
    let ghost all = ids.deep_view();
    let mut i: usize = 0;
    assert(all.take(0) =~= Seq::<Seq<u8>>::empty());
    while i < ids.len()
        invariant
            controllers.wf(),
            all == ids.deep_view(),
            i <= ids.len(),
            controllers@ == set_all(before, all.take(i as int), data.deep_view(), now),
        decreases ids.len() - i,
    {
        let id = &ids[i];
        proof {
            assert(all.take(i + 1).drop_last() =~= all.take(i as int));
            assert(all.take(i + 1).last() == id@);
        }
        let created_at = match controllers.get(id) {
            Some(existing) => existing.created_at,
            None => now,
        };
        let controller = Controller {
            metadata: copy_list(&data.metadata),
            created_at,
            updated_at: now,
            expires_at: data.expires_at,
            scope: data.scope,
        };
        controllers.put(id.duplicate(), controller);
        i += 1;
    }
    assert(all.take(i as int) =~= all);
}

/// Removes each of `ids` from the roster.
pub fn delete_controllers_store(controllers: &mut Controllers, ids: &Vec<Principal>)
    requires
        old(controllers).wf(),
    ensures
        final(controllers).wf(),
        final(controllers)@ == remove_all(old(controllers)@, ids.deep_view()),
{
    let ghost before = controllers@;
    let ghost all = ids.deep_view();
    let mut i: usize = 0;
    assert(all.take(0) =~= Seq::<Seq<u8>>::empty());
    while i < ids.len()
        invariant
            controllers.wf(),
            all == ids.deep_view(),
            i <= ids.len(),
            controllers@ == remove_all(before, all.take(i as int)),
        decreases ids.len() - i,
    {
        let id = &ids[i];
        proof {
            assert(all.take(i + 1).drop_last() =~= all.take(i as int));
            assert(all.take(i + 1).last() == id@);
        }
        controllers.take(id);
        i += 1;
    }
    assert(all.take(i as int) =~= all);
}

/// Sets controllers, given what was found of room and of the principals.
pub fn set_controllers_checked(
    controllers: &mut Controllers,
    args: &SetControllersArgs,
    now: u64,
    room: bool,
    accepted: bool,
) -> (r: Result<(), Error>)
    requires
        old(controllers).wf(),
    ensures
        final(controllers).wf(),
        match set_controllers_outcome(
            old(controllers)@,
            args.controllers.deep_view(),
            args.controller.deep_view(),
            now,
            room,
            accepted,
        ) {
            Ok(roster) => r is Ok && final(controllers)@ == roster,
            Err(refusal) => r matches Err(error) && error.deep_view() == refusal
                && final(controllers)@ == old(controllers)@,
        },
{
    let admin = match args.controller.scope {
        ControllerScope::Admin => true,
        ControllerScope::Write => false,
    };
    if admin && !room {
        return Err(Error::InvalidInput);
    }
    if !accepted {
        return Err(Error::InvalidInput);
    }
    set_controllers_store(controllers, &args.controllers, &args.controller, now);
    Ok(())
}

/// Sets controllers: refuses where the roster has no room for more
/// administrators, or where a principal cannot be a controller.
pub fn set_controllers_guarded(controllers: &mut Controllers, args: &SetControllersArgs, now: u64)
    -> (r: Result<(), Error>)
    requires
        old(controllers).wf(),
    ensures
        final(controllers).wf(),
        match set_controllers_outcome(
            old(controllers)@,
            args.controllers.deep_view(),
            args.controller.deep_view(),
            now,
            fits(
                old(controllers)@,
                args.controllers.deep_view(),
                ControllerScope::Admin,
                MAX_NUMBER_OF_CONTROLLERS,
            ),
            acceptable(args.controllers.deep_view()),
        ) {
            Ok(roster) => r is Ok && final(controllers)@ == roster,
            Err(refusal) => r matches Err(error) && error.deep_view() == refusal
                && final(controllers)@ == old(controllers)@,
        },
{
    let room = check_room(controllers, &args.controllers, ControllerScope::Admin).is_ok();
    let accepted = check_ids(&args.controllers).is_ok();
    set_controllers_checked(controllers, args, now, room, accepted)
}

} // verus!
