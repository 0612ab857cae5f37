//! The decision that gates every read and write.

use crate::controllers::{is_controller, spec_is_controller, Controllers, ControllersView};
use crate::error::Operation;
use crate::principal::{anonymous_bytes, names, Principal};
use crate::rules::{permission_for, spec_permission_for, Permission, Rule};
use crate::table::Key;
use vstd::prelude::*;

verus! {

/// The outcome of an authorization.
#[derive(Clone, Copy, Debug, PartialEq, Eq, Structural)]
pub enum Decision {
    Allow,
    Deny,
}

/// Who holds a record: its owner, and the callers that the record names.
pub type Holders = (Seq<u8>, Seq<Seq<u8>>);

/// Whether `permission` lets `caller` through.
///
/// `controller` says whether the roster names the caller. `holders` is the
/// owner and the named callers of the record that the operation is about,
/// or `None` where there is no such record yet: then whoever is let through
/// becomes its owner.
pub open spec fn allowed(
    permission: Permission,
    caller: Seq<u8>,
    controller: bool,
    holders: Option<Holders>,
) -> bool {
    match permission {
        Permission::Public => true,
        Permission::Private => caller != anonymous_bytes() && (controller || match holders {
            None => true,
            Some((owner, _)) => owner == caller,
        }),
        Permission::Managed => caller != anonymous_bytes() && (controller || match holders {
            None => true,
            Some((owner, named)) => owner == caller || named.contains(caller),
        }),
        Permission::Controllers => caller != anonymous_bytes() && controller,
    }
}

/// Whether `rule` lets `caller` perform `operation`, given the roster and
/// the holders of the record concerned.
pub open spec fn permitted(
    rule: Rule,
    operation: Operation,
    caller: Seq<u8>,
    controllers: ControllersView,
    holders: Option<Holders>,
) -> bool {
    allowed(
        spec_permission_for(rule, operation),
        caller,
        spec_is_controller(controllers, caller),
        holders,
    )
}

/// Decides whether `caller` may perform `operation` under `rule`.
pub fn authorize(
    caller: &Principal,
    rule: &Rule,
    operation: Operation,
    controllers: &Controllers,
    holders: Option<(&Principal, &Vec<Principal>)>,
) -> (r: Decision)
    requires
        controllers.wf(),
    ensures
        (r == Decision::Allow) == permitted(
            *rule,
            operation,
            caller@,
            controllers@,
            holders.deep_view(),
        ),
        r == Decision::Allow || r == Decision::Deny,
{
    let permission = permission_for(*rule, operation);
    let open = match permission {
        Permission::Public => true,
        Permission::Private => !caller.is_anonymous() && (is_controller(controllers, caller)
            || match holders {
            None => true,
            Some((owner, _)) => owner.same(caller),
        }),
        Permission::Managed => !caller.is_anonymous() && (is_controller(controllers, caller)
            || match holders {
            None => true,
            Some((owner, named)) => owner.same(caller) || names(named, caller),
        }),
        Permission::Controllers => is_controller(controllers, caller),
    };
    if open {
        Decision::Allow
    } else {
        Decision::Deny
    }
}

} // verus!
