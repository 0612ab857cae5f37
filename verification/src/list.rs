//! Listing: matching, ordering by key, and paging.

use crate::error::{Error, ErrorView};
use crate::principal::Principal;
use crate::table::at_key;
use vstd::prelude::*;
use vstd::seq_lib::group_to_multiset_ensures;
use vstd::utf8::encode_utf8;

verus! {

/// Which keys a listing keeps.
#[derive(Debug, Clone, PartialEq, Eq)]
pub enum KeyMatcher {
    /// The key itself.
    Equals(String),
    /// Every key that starts with this text.
    Prefix(String),
}

/// The model of a [`KeyMatcher`].
pub enum KeyMatcherView {
    Equals(Seq<char>),
    Prefix(Seq<char>),
}

impl DeepView for KeyMatcher {
    type V = KeyMatcherView;

    open spec fn deep_view(&self) -> KeyMatcherView {
        match self {
            KeyMatcher::Equals(key) => KeyMatcherView::Equals(key@),
            KeyMatcher::Prefix(start) => KeyMatcherView::Prefix(start@),
        }
    }
}

/// The order of a listing.
#[derive(Clone, Copy, Debug, PartialEq, Eq, Structural)]
pub enum ListOrder {
    /// By key, as strings compare: byte by byte.
    Keys,
    /// In the order in which the records were first written.
    Insertion,
}

/// What a listing is asked for.
#[derive(Debug, Clone, PartialEq, Eq)]
pub struct ListParams {
    pub matcher: Option<KeyMatcher>,
    pub owner: Option<Principal>,
    pub start_after: Option<String>,
    pub limit: Option<usize>,
    pub order: ListOrder,
}

/// The model of [`ListParams`].
pub struct ListParamsView {
    pub matcher: Option<KeyMatcherView>,
    pub owner: Option<Seq<u8>>,
    pub start_after: Option<Seq<char>>,
    pub limit: Option<usize>,
    pub order: ListOrder,
}

impl DeepView for ListParams {
    type V = ListParamsView;

    open spec fn deep_view(&self) -> ListParamsView {
        ListParamsView {
            matcher: self.matcher.deep_view(),
            owner: self.owner.deep_view(),
            start_after: self.start_after.deep_view(),
            limit: self.limit,
            order: self.order,
        }
    }
}

/// What a listing of everything asks for: no matcher, no owner, no
/// cursor, no limit, the order of the keys.
pub open spec fn unfiltered() -> ListParamsView {
    ListParamsView {
        matcher: None,
        owner: None,
        start_after: None,
        limit: None,
        order: ListOrder::Keys,
    }
}

/// One page of a listing: its items by key, their number, and the number
/// of records that matched before paging.
#[derive(Debug, Clone, PartialEq, Eq)]
pub struct ListResults<T> {
    pub items: Vec<(String, T)>,
    pub items_length: usize,
    pub matches_length: usize,
}

/// `a` is a prefix of `b`.
pub open spec fn starts_with(b: Seq<u8>, a: Seq<u8>) -> bool {
    a.len() <= b.len() && forall|i: int| 0 <= i < a.len() ==> a[i] == b[i]
}

/// Whether `key` passes the matcher. Texts are compared by their UTF-8
/// bytes.
pub open spec fn key_matches(matcher: Option<KeyMatcherView>, key: Seq<char>) -> bool {
    match matcher {
        None => true,
        Some(KeyMatcherView::Equals(wanted)) => key == wanted,
        Some(KeyMatcherView::Prefix(start)) => starts_with(encode_utf8(key), encode_utf8(start)),
    }
}

/// Whether `owner` is the one asked for, if one is.
pub open spec fn owner_matches(wanted: Option<Seq<u8>>, owner: Seq<u8>) -> bool {
    match wanted {
        None => true,
        Some(who) => owner == who,
    }
}

/// `a` comes before `b`, or is `b`, from place `i` on, where they agree
/// before `i`.
pub open spec fn le_from(a: Seq<u8>, b: Seq<u8>, i: int) -> bool
    decreases a.len() - i,
{
    if i < 0 || i >= a.len() {
        true
    } else if i >= b.len() {
        false
    } else if a[i] != b[i] {
        a[i] < b[i]
    } else {
        le_from(a, b, i + 1)
    }
}

/// The order of byte strings: at the first place where two differ the
/// smaller byte decides, and a prefix comes before what extends it.
pub open spec fn bytes_le(a: Seq<u8>, b: Seq<u8>) -> bool {
    le_from(a, b, 0)
}

/// The order of keys: that of their UTF-8 bytes.
pub open spec fn key_le(a: Seq<char>, b: Seq<char>) -> bool {
    bytes_le(encode_utf8(a), encode_utf8(b))
}

/// Of two byte strings one comes before the other, or they are the same.
pub proof fn lemma_le_total(a: Seq<u8>, b: Seq<u8>, i: int)
    ensures
        le_from(a, b, i) || le_from(b, a, i),
    decreases a.len() - i,
{
    if 0 <= i < a.len() && i < b.len() && a[i] == b[i] {
        lemma_le_total(a, b, i + 1);
    }
}

/// The order of byte strings is transitive.
pub proof fn lemma_le_transitive(a: Seq<u8>, b: Seq<u8>, c: Seq<u8>, i: int)
    requires
        le_from(a, b, i),
        le_from(b, c, i),
    ensures
        le_from(a, c, i),
    decreases a.len() - i,
{
    if 0 <= i < a.len() {
        if a[i] == b[i] && b[i] == c[i] {
            lemma_le_transitive(a, b, c, i + 1);
        }
    }
}

/// The keys of `s` never go down.
pub open spec fn ordered_by_key<W>(s: Seq<(Seq<char>, W)>) -> bool {
    forall|i: int, j: int| #![trigger s[i], s[j]] 0 <= i < j < s.len() ==> key_le(s[i].0, s[j].0)
}

/// Where an entry with key `k` goes into `s`: before the entries at the end
/// of `s` whose keys are not below `k`.
pub open spec fn place<W>(s: Seq<(Seq<char>, W)>, k: Seq<char>) -> int
    decreases s.len(),
{
    if s.len() == 0 {
        0
    } else if !key_le(k, s.last().0) {
        s.len() as int
    } else {
        place(s.drop_last(), k)
    }
}

/// `s` with `e` put in at its place.
pub open spec fn insert_sorted<W>(s: Seq<(Seq<char>, W)>, e: (Seq<char>, W)) -> Seq<
    (Seq<char>, W),
> {
    s.insert(place(s, e.0), e)
}

/// The entries of `s` in the order of their keys; entries with the same
/// key stay in the order they had.
pub open spec fn sort_by_key<W>(s: Seq<(Seq<char>, W)>) -> Seq<(Seq<char>, W)>
    decreases s.len(),
{
    if s.len() == 0 {
        s
    } else {
        insert_sorted(sort_by_key(s.drop_first()), s.first())
    }
}

/// What characterises the place of a key.
pub open spec fn is_place<W>(s: Seq<(Seq<char>, W)>, k: Seq<char>, j: int) -> bool {
    &&& 0 <= j <= s.len()
    &&& forall|t: int| j <= t < s.len() ==> key_le(k, #[trigger] s[t].0)
    &&& j == 0 || !key_le(k, s[j - 1].0)
}

/// The place of a key is the one position that [`is_place`] describes.
pub proof fn lemma_place<W>(s: Seq<(Seq<char>, W)>, k: Seq<char>, j: int)
    ensures
        is_place(s, k, place(s, k)),
        is_place(s, k, j) ==> j == place(s, k),
    decreases s.len(),
{
    if s.len() > 0 {
        let t = s.drop_last();
        lemma_place(t, k, j);
        lemma_place(t, k, place(t, k));
        if key_le(k, s.last().0) {
            let p = place(t, k);
            assert(is_place(t, k, p));
            assert forall|x: int| p <= x < s.len() implies key_le(k, #[trigger] s[x].0) by {
                if x < t.len() {
                    assert(s[x] == t[x]);
                }
            }
            if p > 0 {
                assert(s[p - 1] == t[p - 1]);
            }
            if is_place(s, k, j) {
                if j == s.len() {
                    assert(!key_le(k, s[j - 1].0));
                } else {
                    assert forall|x: int| j <= x < t.len() implies key_le(k, #[trigger] t[x].0) by {
                        assert(t[x] == s[x]);
                    }
                    if j > 0 {
                        assert(t[j - 1] == s[j - 1]);
                    }
                    assert(is_place(t, k, j));
                }
            }
        } else {
            if is_place(s, k, j) && j < s.len() {
                assert(key_le(k, s[s.len() - 1].0));
            }
        }
    }
}

/// Putting an entry in at its place keeps the keys in order, and adds this
/// entry and no other.
pub proof fn lemma_insert_sorted<W>(s: Seq<(Seq<char>, W)>, e: (Seq<char>, W))
    requires
        ordered_by_key(s),
    ensures
        ordered_by_key(insert_sorted(s, e)),
        insert_sorted(s, e).to_multiset() == s.to_multiset().insert(e),
        insert_sorted(s, e).len() == s.len() + 1,
{
    broadcast use group_to_multiset_ensures;

    let p = place(s, e.0);
    lemma_place(s, e.0, p);
    let r = insert_sorted(s, e);
    assert forall|i: int, j: int| #![trigger r[i], r[j]] 0 <= i < j < r.len() implies key_le(
        r[i].0,
        r[j].0,
    ) by {
        if j < p {
            assert(r[i] == s[i] && r[j] == s[j]);
        } else if j == p {
            assert(r[i] == s[i]);
            assert(!key_le(e.0, s[p - 1].0));
            lemma_le_total(encode_utf8(e.0), encode_utf8(s[p - 1].0), 0);
            if i < p - 1 {
                assert(key_le(s[i].0, s[p - 1].0));
                lemma_le_transitive(
                    encode_utf8(s[i].0),
                    encode_utf8(s[p - 1].0),
                    encode_utf8(e.0),
                    0,
                );
            }
        } else if i < p {
            assert(r[i] == s[i] && r[j] == s[j - 1]);
            if i < j - 1 {
                assert(key_le(s[i].0, s[j - 1].0));
            }
        } else if i == p {
            assert(r[j] == s[j - 1]);
            assert(key_le(e.0, s[j - 1].0));
        } else {
            assert(r[i] == s[i - 1] && r[j] == s[j - 1]);
        }
    }
}

/// Sorting puts the keys in order and keeps every entry, each as often as
/// it was there.
pub proof fn lemma_sort_by_key<W>(s: Seq<(Seq<char>, W)>)
    ensures
        ordered_by_key(sort_by_key(s)),
        sort_by_key(s).to_multiset() == s.to_multiset(),
        sort_by_key(s).len() == s.len(),
    decreases s.len(),
{
    broadcast use group_to_multiset_ensures;

    if s.len() > 0 {
        let rest = s.drop_first();
        lemma_sort_by_key(rest);
        lemma_insert_sorted(sort_by_key(rest), s.first());
        assert(s =~= rest.insert(0, s.first()));
        assert(s.to_multiset() == rest.to_multiset().insert(s.first()));
    }
}

/// The entries in the order asked for.
pub open spec fn arranged<W>(s: Seq<(Seq<char>, W)>, order: ListOrder) -> Seq<(Seq<char>, W)> {
    match order {
        ListOrder::Keys => sort_by_key(s),
        ListOrder::Insertion => s,
    }
}

/// `i` is the first place of `s` that is filed under `k`.
pub open spec fn first_at<W>(s: Seq<(Seq<char>, W)>, i: int, k: Seq<char>) -> bool {
    at_key(s, i, k) && forall|j: int| 0 <= j < i ==> (#[trigger] s[j]).0 != k
}

/// Some place of `s` is filed under `k`.
pub open spec fn has_place<W>(s: Seq<(Seq<char>, W)>, k: Seq<char>) -> bool {
    exists|i: int| first_at(s, i, k)
}

/// The first place of `s` that is filed under `k`, where there is one.
pub open spec fn first_place<W>(s: Seq<(Seq<char>, W)>, k: Seq<char>) -> int {
    choose|i: int| first_at(s, i, k)
}

/// Where the page starts: behind the first entry filed under the cursor,
/// or at the beginning where no cursor is given. `None` where the cursor
/// is not among the entries.
pub open spec fn page_start<W>(s: Seq<(Seq<char>, W)>, cursor: Option<Seq<char>>) -> Option<int> {
    match cursor {
        None => Some(0),
        Some(k) => if has_place(s, k) {
            Some(first_place(s, k) + 1)
        } else {
            None
        },
    }
}

/// Where the page that starts at `start` ends.
pub open spec fn page_end(len: int, start: int, limit: Option<usize>) -> int {
    match limit {
        Some(n) if start + n < len => start + n,
        _ => len,
    }
}

/// The page of `s` behind the cursor, of at most `limit` entries. A cursor
/// that is not among the entries is refused.
pub open spec fn page<W>(
    s: Seq<(Seq<char>, W)>,
    cursor: Option<Seq<char>>,
    limit: Option<usize>,
) -> Result<Seq<(Seq<char>, W)>, ErrorView> {
    match page_start(s, cursor) {
        None => Err(ErrorView::InvalidInput),
        Some(start) => Ok(s.subrange(start, page_end(s.len() as int, start, limit))),
    }
}

/// The UTF-8 bytes of a string.
pub fn bytes_of(text: &String) -> (r: &[u8])
    ensures
        r@ == encode_utf8(text@),
{
    text.as_str().as_bytes()
}

/// Whether `text` starts with `start`, byte by byte.
pub fn text_starts_with(text: &String, start: &String) -> (r: bool)
    ensures
        r == starts_with(encode_utf8(text@), encode_utf8(start@)),
{
    let b = bytes_of(text);
    let a = bytes_of(start);
    if a.len() > b.len() {
        return false;
    }
    let mut i: usize = 0;
    while i < a.len()
        invariant
            a@ == encode_utf8(start@),
            b@ == encode_utf8(text@),
            i <= a.len(),
            a.len() <= b.len(),
            forall|j: int| 0 <= j < i ==> a@[j] == b@[j],
        decreases a.len() - i,
    {
        if a[i] != b[i] {
            return false;
        }
        i += 1;
    }
    true
}

/// Whether `key` passes the matcher.
pub fn matches_key(matcher: &Option<KeyMatcher>, key: &String) -> (r: bool)
    ensures
        r == key_matches(matcher.deep_view(), key@),
{
    match matcher {
        None => true,
        Some(KeyMatcher::Equals(wanted)) => *key == *wanted,
        Some(KeyMatcher::Prefix(start)) => text_starts_with(key, start),
    }
}

/// Whether `a` comes before `b` in the order of keys, or is `b`.
pub fn key_not_after(a: &String, b: &String) -> (r: bool)
    ensures
        r == key_le(a@, b@),
{
    let x = bytes_of(a);
    let y = bytes_of(b);
    let mut i: usize = 0;
    while i < x.len()
        invariant
            x@ == encode_utf8(a@),
            y@ == encode_utf8(b@),
            i <= x.len(),
            bytes_le(x@, y@) == le_from(x@, y@, i as int),
        decreases x.len() - i,
    {
        if i >= y.len() {
            return false;
        }
        if x[i] != y[i] {
            return x[i] < y[i];
        }
        i += 1;
    }
    true
}

/// The place of `key` among `sorted`.
fn place_of<T: DeepView>(sorted: &Vec<(String, T)>, key: &String) -> (r: usize)
    ensures
        r == place(sorted.deep_view(), key@),
{
    let mut j: usize = sorted.len();
    while j > 0
        invariant
            j <= sorted.len(),
            forall|t: int|
                j <= t < sorted.len() ==> key_le(key@, #[trigger] sorted.deep_view()[t].0),
        decreases j,
    {
        if !key_not_after(key, &sorted[j - 1].0) {
            proof {
                lemma_place(sorted.deep_view(), key@, j as int);
            }
            return j;
        }
        j -= 1;
    }
    proof {
        lemma_place(sorted.deep_view(), key@, 0);
    }
    0
}

/// Sorts entries by their keys.
pub fn sort_pairs<T: DeepView>(pairs: Vec<(String, T)>) -> (r: Vec<(String, T)>)
    ensures
        r.deep_view() == sort_by_key(pairs.deep_view()),
{
    let ghost all = pairs.deep_view();
    let mut rest = pairs;
    let mut sorted: Vec<(String, T)> = Vec::new();
    assert(all.skip(all.len() as int) =~= Seq::empty());
    assert(rest.deep_view() =~= all.take(all.len() as int));
    while rest.len() > 0
        invariant
            rest.len() <= all.len(),
            rest.deep_view() == all.take(rest.len() as int),
            sorted.deep_view() == sort_by_key(all.skip(rest.len() as int)),
        decreases rest.len(),
    {
        let ghost before = rest.deep_view();
        let ghost n = rest.len() as int;
        let entry = rest.pop().unwrap();
        let at = place_of(&sorted, &entry.0);
        proof {
            assert(entry.deep_view() == before[n - 1]);
            assert(entry.deep_view() == all[n - 1]);
            assert(rest.deep_view() =~= all.take(n - 1));
            assert(all.skip(n - 1).drop_first() =~= all.skip(n));
            assert(all.skip(n - 1).first() == all[n - 1]);
            lemma_place(sorted.deep_view(), entry.0@, at as int);
        }
        let ghost previous = sorted.deep_view();
        sorted.insert(at, entry);
        proof {
            assert(sorted.deep_view() =~= previous.insert(at as int, all[n - 1]));
        }
    }
    assert(all.skip(0) =~= all);
    sorted
}

/// The first place of `entries` that is filed under `key`.
pub fn find_first<T: DeepView>(entries: &Vec<(String, T)>, key: &String) -> (r: Option<usize>)
    ensures
        match r {
            Some(at) => at < entries.len() && has_place(entries.deep_view(), key@) && first_place(
                entries.deep_view(),
                key@,
            ) == at,
            None => !has_place(entries.deep_view(), key@),
        },
{
    let ghost all = entries.deep_view();
    let mut i: usize = 0;
    while i < entries.len()
        invariant
            all == entries.deep_view(),
            i <= entries.len(),
            forall|j: int| 0 <= j < i ==> (#[trigger] all[j]).0 != key@,
        decreases entries.len() - i,
    {
        if entries[i].0 == *key {
            proof {
                assert(all[i as int].0 == key@);
                assert(first_at(all, i as int, key@));
                let chosen = first_place(all, key@);
                assert(first_at(all, chosen, key@));
                if chosen < i {
                    assert(all[chosen].0 != key@);
                } else if i < chosen {
                    assert(all[i as int].0 != key@);
                }
            }
            return Some(i);
        }
        i += 1;
    }
    proof {
        assert forall|k: int| !first_at(all, k, key@) by {
            if first_at(all, k, key@) {
                assert(all[k].0 == key@);
            }
        }
    }
    None
}

/// Cuts the page behind the cursor out of `entries`.
pub fn paginate<T: DeepView>(
    entries: Vec<(String, T)>,
    cursor: &Option<String>,
    limit: Option<usize>,
) -> (r: Result<Vec<(String, T)>, Error>)
    ensures
        match page(entries.deep_view(), cursor.deep_view(), limit) {
            Ok(items) => r matches Ok(found) && found.deep_view() == items,
            Err(refusal) => r matches Err(error) && error.deep_view() == refusal,
        },
{
    let ghost all = entries.deep_view();
    let mut rest = entries;
    let start: usize = match cursor {
        None => 0,
        Some(key) => match find_first(&rest, key) {
            Some(at) => at + 1,
            None => {
                return Err(Error::InvalidInput);
            },
        },
    };
    let end: usize = match limit {
        Some(n) => if n < rest.len() - start {
            start + n
        } else {
            rest.len()
        },
        None => rest.len(),
    };
    rest.truncate(end);
    let items = rest.split_off(start);
    assert(items.deep_view() =~= all.subrange(start as int, end as int));
    Ok(items)
}

} // verus!
