//! Records filed under a collection and a key within it, each held by an
//! owner and the callers it names.

use crate::auth::{authorize, permitted, Decision, Holders};
use crate::controllers::{Controllers, ControllersView};
use crate::error::{denied, Error, Operation};
use crate::principal::Principal;
use crate::rules::Rule;
use crate::table::Table;
use vstd::prelude::*;

verus! {

/// A record with holders: an owner, and the callers that the record names.
pub trait Held: DeepView {
    /// The holders of a record, by its model.
    spec fn holders_in(view: Self::V) -> Holders;

    /// The owner of the record.
    fn owner(&self) -> (r: &Principal)
        ensures
            r@ == Self::holders_in(self.deep_view()).0,
    ;

    /// The callers that the record names.
    fn named(&self) -> (r: &Vec<Principal>)
        ensures
            r.deep_view() == Self::holders_in(self.deep_view()).1,
    ;
}

/// The entries that are filed under another collection than `collection`.
pub open spec fn outside_collection<V>(collection: Seq<char>) -> spec_fn(
    ((Seq<char>, Seq<char>), V),
) -> bool {
    |entry: ((Seq<char>, Seq<char>), V)| entry.0.0 != collection
}

/// The entries of `collection` that `caller` may not write.
pub open spec fn blocked<V: Held>(
    collection: Seq<char>,
    rule: Rule,
    controllers: ControllersView,
    caller: Seq<u8>,
) -> spec_fn(((Seq<char>, Seq<char>), V::V)) -> bool {
    |entry: ((Seq<char>, Seq<char>), V::V)|
        entry.0.0 == collection && !permitted(
            rule,
            Operation::Write,
            caller,
            controllers,
            Some(V::holders_in(entry.1)),
        )
}

/// The number of entries at the beginning of `s` before the first at which
/// `stop` holds: all of them where it holds at none.
pub open spec fn clear_prefix<E>(s: Seq<E>, stop: spec_fn(E) -> bool) -> int
    decreases s.len(),
{
    if s.len() == 0 {
        0
    } else {
        let before = clear_prefix(s.drop_last(), stop);
        if before == s.len() - 1 && !stop(s.last()) {
            s.len() as int
        } else {
            before
        }
    }
}

/// The number lies within the sequence.
pub proof fn lemma_clear_prefix_bounds<E>(s: Seq<E>, stop: spec_fn(E) -> bool)
    ensures
        0 <= clear_prefix(s, stop) <= s.len(),
    decreases s.len(),
{
    if s.len() > 0 {
        lemma_clear_prefix_bounds(s.drop_last(), stop);
    }
}

/// Once `stop` held among the first `n` entries, what follows them does
/// not matter.
pub proof fn lemma_clear_prefix_stops<E>(s: Seq<E>, stop: spec_fn(E) -> bool, n: int)
    requires
        0 <= n <= s.len(),
        clear_prefix(s.take(n), stop) < n,
    ensures
        clear_prefix(s, stop) == clear_prefix(s.take(n), stop),
    decreases s.len() - n,
{
    if n < s.len() {
        assert(s.take(n + 1).drop_last() =~= s.take(n));
        lemma_clear_prefix_stops(s, stop, n + 1);
    } else {
        assert(s.take(n) =~= s);
    }
}

/// What deleting a whole collection does: the records it leaves, and
/// whether it came to the end. The records of the collection are deleted
/// one after the other, in the order of the store, up to the first that
/// the caller may not write; that one and all behind it stay.
pub open spec fn delete_all_outcome<V: Held>(
    records: Seq<((Seq<char>, Seq<char>), V::V)>,
    collection: Seq<char>,
    rule: Rule,
    controllers: ControllersView,
    caller: Seq<u8>,
) -> (Seq<((Seq<char>, Seq<char>), V::V)>, bool) {
    let reached = clear_prefix(records, blocked::<V>(collection, rule, controllers, caller));
    (
        records.take(reached).filter(outside_collection(collection)) + records.skip(reached),
        reached == records.len(),
    )
}

/// Deletes the records of a collection, one after the other, and stops at
/// the first that the caller may not write. What was deleted before stays
/// deleted.
pub fn delete_permitted<V: Held>(
    records: &mut Table<(String, String), V>,
    rule: &Rule,
    controllers: &Controllers,
    caller: &Principal,
    collection: &String,
) -> (r: Result<(), Error>)
    requires
        old(records).wf(),
        controllers.wf(),
    ensures
        final(records).wf(),
        final(records)@ == delete_all_outcome::<V>(
            old(records)@,
            collection@,
            *rule,
            controllers@,
            caller@,
        ).0,
        match r {
            Ok(_) => delete_all_outcome::<V>(
                old(records)@,
                collection@,
                *rule,
                controllers@,
                caller@,
            ).1,
            Err(error) => !delete_all_outcome::<V>(
                old(records)@,
                collection@,
                *rule,
                controllers@,
                caller@,
            ).1 && error.deep_view() == denied(collection@, Operation::Write),
        },
{
    let ghost all = records@;
    let ghost keep = outside_collection::<V::V>(collection@);
    let ghost stop = blocked::<V>(collection@, *rule, controllers@, caller@);
    let ghost mut seen: int = 0;
    let mut i: usize = 0;
    assert(all.take(0).filter(keep) =~= Seq::<((Seq<char>, Seq<char>), V::V)>::empty()) by {
        reveal(Seq::filter);
    }
    assert(all.skip(0) =~= all);
    while i < records.len()
        invariant
            records.wf(),
            controllers.wf(),
            all == old(records)@,
            0 <= seen <= all.len(),
            keep == outside_collection::<V::V>(collection@),
            stop == blocked::<V>(collection@, *rule, controllers@, caller@),
            clear_prefix(all.take(seen), stop) == seen,
            i == all.take(seen).filter(keep).len(),
            records@ == all.take(seen).filter(keep) + all.skip(seen),
        decreases all.len() - seen,
    {
        proof {
            assert(records@[i as int] == all[seen]);
            assert(all.take(seen + 1) =~= all.take(seen).push(all[seen]));
            assert(all.take(seen + 1).drop_last() =~= all.take(seen));
            all.take(seen).lemma_filter_push(all[seen], keep);
        }
        if records.key_at(i).0 == *collection {
            let record = records.value_at(i);
            let decision = authorize(
                caller,
                rule,
                Operation::Write,
                controllers,
                Some((record.owner(), record.named())),
            );
            if decision == Decision::Deny {
                proof {
                    assert(stop(all[seen]));
                    lemma_clear_prefix_stops(all, stop, seen + 1);
                }
                return Err(
                    Error::PermissionDenied {
                        collection: collection.clone(),
                        operation: Operation::Write,
                    },
                );
            }
            let gone = records.remove_at(i);
            proof {
                assert(!stop(all[seen]));
                assert(records@ =~= all.take(seen + 1).filter(keep) + all.skip(seen + 1));
            }
        } else {
            proof {
                assert(!stop(all[seen]));
                assert(records@ =~= all.take(seen + 1).filter(keep) + all.skip(seen + 1));
            }
            i += 1;
        }
        proof {
            seen = seen + 1;
        }
    }
    proof {
        assert(seen == all.len()) by {
            if seen < all.len() {
                assert(records@.len() == i + all.skip(seen).len());
            }
        }
        assert(all.take(seen) =~= all);
    }
    Ok(())
}

} // verus!
