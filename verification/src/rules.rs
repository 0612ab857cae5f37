//! The permission rules of the collections.

use crate::error::Operation;
use crate::table::{lookup, Duplicate, Table};
use vstd::prelude::*;

verus! {

/// Who may read or write the records of a collection.
#[derive(Clone, Copy, Debug, PartialEq, Eq, Structural)]
pub enum Permission {
    /// Any caller.
    Public,
    /// The owner of the record, or a controller.
    Private,
    /// The owner, a controller, or a caller that the record names.
    Managed,
    /// Controllers only.
    Controllers,
}

/// The two stores, each with rules of its own.
#[derive(Clone, Copy, Debug, PartialEq, Eq, Structural)]
pub enum RulesType {
    Db,
    Storage,
}

/// The rule of one collection.
#[derive(Clone, Copy, Debug, PartialEq, Eq)]
pub struct Rule {
    pub read: Permission,
    pub write: Permission,
    pub max_size: Option<u64>,
    pub mutable_permissions: bool,
    pub max_changes_per_user: Option<u32>,
}

impl DeepView for Rule {
    type V = Rule;

    open spec fn deep_view(&self) -> Rule {
        *self
    }
}

impl Duplicate for Rule {
    fn duplicate(&self) -> (r: Rule) {
        *self
    }
}

/// The rules of one store, by collection.
pub type Rules = Table<String, Rule>;

/// The model of [`Rules`].
pub type RulesView = Seq<(Seq<char>, Rule)>;

/// The rule of a collection that has none of its own: documents can be read
/// by anyone and written by controllers, assets the other way round.
pub open spec fn spec_default_rule(kind: RulesType) -> Rule {
    match kind {
        RulesType::Db => Rule {
            read: Permission::Public,
            write: Permission::Controllers,
            max_size: None,
            mutable_permissions: true,
            max_changes_per_user: None,
        },
        RulesType::Storage => Rule {
            read: Permission::Controllers,
            write: Permission::Public,
            max_size: None,
            mutable_permissions: true,
            max_changes_per_user: None,
        },
    }
}

/// The rule that governs `collection`: its own, or the default of the store.
pub open spec fn rule_of(rules: RulesView, kind: RulesType, collection: Seq<char>) -> Rule {
    match lookup(rules, collection) {
        Some(rule) => rule,
        None => spec_default_rule(kind),
    }
}

/// The permission of `rule` that `operation` is held to.
pub open spec fn spec_permission_for(rule: Rule, operation: Operation) -> Permission {
    match operation {
        Operation::Read => rule.read,
        Operation::Write => rule.write,
    }
}

/// The rule of a collection that has none of its own.
#[verifier::when_used_as_spec(spec_default_rule)]
pub fn default_rule(kind: RulesType) -> (r: Rule)
    ensures
        r == spec_default_rule(kind),
{
    match kind {
        RulesType::Db => Rule {
            read: Permission::Public,
            write: Permission::Controllers,
            max_size: None,
            mutable_permissions: true,
            max_changes_per_user: None,
        },
        RulesType::Storage => Rule {
            read: Permission::Controllers,
            write: Permission::Public,
            max_size: None,
            mutable_permissions: true,
            max_changes_per_user: None,
        },
    }
}

/// The permission of `rule` that `operation` is held to.
#[verifier::when_used_as_spec(spec_permission_for)]
pub fn permission_for(rule: Rule, operation: Operation) -> (r: Permission)
    ensures
        r == spec_permission_for(rule, operation),
{
    match operation {
        Operation::Read => rule.read,
        Operation::Write => rule.write,
    }
}

/// The rule that governs `collection` in the store of the given kind.
pub fn get_rule(rules: &Rules, kind: RulesType, collection: &String) -> (r: Rule)
    requires
        rules.wf(),
    ensures
        r == rule_of(rules@, kind, collection@),
{
    match rules.get(collection) {
        Some(rule) => *rule,
        None => default_rule(kind),
    }
}

} // verus!
