//! The table of peers that a device learns of from presence announcements.

use vstd::prelude::*;

use crate::text::{
    chars_of, lemma_text_lt_irreflexive, lemma_text_lt_total, lemma_text_lt_transitive, text_lt,
    text_order, TextOrder,
};

verus! {

/// Keys in strictly increasing order (hence without repeats).
pub open spec fn sorted_keys(keys: Seq<Seq<char>>) -> bool {
    forall|i: int, j: int| 0 <= i < j < keys.len() ==> text_lt(#[trigger] keys[i], #[trigger] keys[j])
}

/// A position at which `k` stands among the keys.
pub open spec fn key_position(keys: Seq<Seq<char>>, k: Seq<char>) -> int {
    choose|i: int| 0 <= i < keys.len() && keys[i] == k
}

/// The map from each key to the item at the same position.
pub open spec fn table_map<T>(keys: Seq<Seq<char>>, items: Seq<T>) -> Map<Seq<char>, T> {
    Map::new(|k: Seq<char>| keys.contains(k), |k: Seq<char>| items[key_position(keys, k)])
}

/// `own` names the device `device_id`.
pub open spec fn is_own(own: Option<&str>, device_id: Seq<char>) -> bool {
    own matches Some(s) && s@ == device_id
}

/// The model of an optional device id.
pub open spec fn own_view(own: Option<&str>) -> Option<Seq<char>> {
    match own {
        Some(s) => Some(s@),
        None => None,
    }
}

/// The peers after an announcement of `device_id`: the device's own
/// announcement changes nothing, a departing device is forgotten, and any
/// other announcement is remembered in place of the one before.
pub open spec fn presence_step<T>(
    peers: Map<Seq<char>, T>,
    own: Option<Seq<char>>,
    device_id: Seq<char>,
    departing: Option<bool>,
    item: T,
) -> Map<Seq<char>, T> {
    if own == Some(device_id) {
        peers
    } else if departing == Some(true) {
        peers.remove(device_id)
    } else {
        peers.insert(device_id, item)
    }
}

/// How often a device announces its presence, in seconds.
pub const PRESENCE_INTERVAL_SECS: u64 = 5;

/// What an announcement did to the table.
#[derive(Clone, Copy, Debug, PartialEq, Eq, Structural)]
pub enum PresenceEffect {
    /// The announcement was the device's own and was ignored.
    IgnoredOwn,
    /// The announcing device is departing and was removed.
    Removed,
    /// The announcement was stored under the device's id.
    Stored,
}

/// Peers by device id: a vector of `(id, item)` entries kept in strictly
/// increasing order of id by [`text_lt`], the char-by-char order in which
/// `String`s compare. Each id occurs once, and walking the entries gives the
/// peers in the order of their ids.
pub struct PeerTable<T> {
    entries: Vec<(String, T)>,
}

proof fn lemma_table_lookup<T>(keys: Seq<Seq<char>>, items: Seq<T>, i: int)
    requires
        sorted_keys(keys),
        keys.len() == items.len(),
        0 <= i < keys.len(),
    ensures
        table_map(keys, items).contains_key(keys[i]),
        table_map(keys, items)[keys[i]] == items[i],
{
    let k = keys[i];
    assert(keys.contains(k));
    assert(exists|j: int| 0 <= j < keys.len() && keys[j] == k);
    let j = key_position(keys, k);
    assert(table_map(keys, items).dom().contains(k));
    assert(table_map(keys, items)[k] == items[j]);
    if j < i {
        lemma_text_lt_irreflexive(k);
        assert(text_lt(keys[j], keys[i]));
    } else if i < j {
        lemma_text_lt_irreflexive(k);
        assert(text_lt(keys[i], keys[j]));
    }
}

proof fn lemma_sorted_distinct(keys: Seq<Seq<char>>, i: int, j: int)
    requires
        sorted_keys(keys),
        0 <= i < keys.len(),
        0 <= j < keys.len(),
        i != j,
    ensures
        keys[i] != keys[j],
{
    lemma_text_lt_irreflexive(keys[i]);
    if i < j {
        assert(text_lt(keys[i], keys[j]));
    } else {
        assert(text_lt(keys[j], keys[i]));
    }
}

/// The ids of a sequence of entries.
pub open spec fn entry_keys<T>(es: Seq<(String, T)>) -> Seq<Seq<char>> {
    es.map_values(|e: (String, T)| e.0@)
}

/// The items of a sequence of entries.
pub open spec fn entry_items<T>(es: Seq<(String, T)>) -> Seq<T> {
    es.map_values(|e: (String, T)| e.1)
}

/// Where `key` stands or would stand among sorted entries: every id before
/// `pos` is smaller, and `found` tells whether the id at `pos` is `key`.
fn locate<T>(es: &Vec<(String, T)>, key: &Vec<char>) -> (r: (bool, usize))
    requires
        sorted_keys(entry_keys(es@)),
    ensures
        r.1 <= es@.len(),
        forall|j: int| 0 <= j < r.1 ==> text_lt(#[trigger] entry_keys(es@)[j], key@),
        r.0 ==> r.1 < es@.len() && entry_keys(es@)[r.1 as int] == key@,
        !r.0 ==> r.1 == es@.len() || text_lt(key@, entry_keys(es@)[r.1 as int]),
{
    let n = es.len();
    let mut i: usize = 0;
    while i < n
        invariant
            0 <= i <= n,
            n == es@.len(),
            sorted_keys(entry_keys(es@)),
            forall|j: int| 0 <= j < i ==> text_lt(#[trigger] entry_keys(es@)[j], key@),
        decreases n - i,
    {
        let k = chars_of(es[i].0.as_str());
        assert(k@ == entry_keys(es@)[i as int]);
        match text_order(&k, key) {
            TextOrder::Before => {},
            TextOrder::Same => {
                return (true, i);
            },
            TextOrder::After => {
                return (false, i);
            },
        }
        i = i + 1;
    }
    (false, n)
}

proof fn lemma_absent_at<T>(es: Seq<(String, T)>, k: Seq<char>, pos: int)
    requires
        sorted_keys(entry_keys(es)),
        0 <= pos <= es.len(),
        forall|j: int| 0 <= j < pos ==> text_lt(#[trigger] entry_keys(es)[j], k),
        pos == es.len() || text_lt(k, entry_keys(es)[pos]),
    ensures
        !entry_keys(es).contains(k),
{
    let keys = entry_keys(es);
    if keys.contains(k) {
        let j = choose|j: int| 0 <= j < keys.len() && keys[j] == k;
        lemma_text_lt_irreflexive(k);
        if j > pos {
            assert(text_lt(keys[pos], keys[j]));
            lemma_text_lt_transitive(k, keys[pos], keys[j]);
        }
    }
}

proof fn lemma_remove_view<T>(keys0: Seq<Seq<char>>, items0: Seq<T>, p: int)
    requires
        sorted_keys(keys0),
        keys0.len() == items0.len(),
        0 <= p < keys0.len(),
    ensures
        sorted_keys(keys0.remove(p)),
        table_map(keys0.remove(p), items0.remove(p)) == table_map(keys0, items0).remove(keys0[p]),
{
    let keys = keys0.remove(p);
    let items = items0.remove(p);
    assert(sorted_keys(keys)) by {
        assert forall|i: int, j: int| 0 <= i < j < keys.len() implies text_lt(#[trigger] keys[i], #[trigger] keys[j]) by {
            let i0 = if i < p { i } else { i + 1 };
            let j0 = if j < p { j } else { j + 1 };
            assert(keys[i] == keys0[i0]);
            assert(keys[j] == keys0[j0]);
        }
    }
    let m = table_map(keys, items);
    let m0 = table_map(keys0, items0);
    let k = keys0[p];
    assert forall|x: Seq<char>| #[trigger] m.contains_key(x) == m0.remove(k).contains_key(x) by {
        if keys.contains(x) {
            let i = choose|i: int| 0 <= i < keys.len() && keys[i] == x;
            let i0 = if i < p { i } else { i + 1 };
            assert(keys0[i0] == x);
            lemma_sorted_distinct(keys0, i0, p);
            assert(keys0.contains(x));
        }
        if keys0.contains(x) && x != k {
            let i0 = choose|i: int| 0 <= i < keys0.len() && keys0[i] == x;
            let i = if i0 < p { i0 } else { i0 - 1 };
            assert(i0 != p);
            assert(keys[i] == x);
        }
    }
    assert forall|x: Seq<char>| #[trigger] m.contains_key(x) implies m[x] == m0.remove(k)[x] by {
        let i = choose|i: int| 0 <= i < keys.len() && keys[i] == x;
        let i0 = if i < p { i } else { i + 1 };
        lemma_table_lookup(keys, items, i);
        lemma_table_lookup(keys0, items0, i0);
    }
    assert(m =~= m0.remove(k));
}

proof fn lemma_update_view<T>(keys0: Seq<Seq<char>>, items0: Seq<T>, p: int, item: T)
    requires
        sorted_keys(keys0),
        keys0.len() == items0.len(),
        0 <= p < keys0.len(),
    ensures
        table_map(keys0, items0.update(p, item)) == table_map(keys0, items0).insert(keys0[p], item),
{
    let m = table_map(keys0, items0.update(p, item));
    let m0 = table_map(keys0, items0);
    assert forall|x: Seq<char>| #[trigger] m.contains_key(x) implies m[x] == m0.insert(keys0[p], item)[x] by {
        let i = choose|i: int| 0 <= i < keys0.len() && keys0[i] == x;
        lemma_table_lookup(keys0, items0.update(p, item), i);
        lemma_table_lookup(keys0, items0, i);
        if i != p {
            lemma_sorted_distinct(keys0, i, p);
        }
    }
    assert(m =~= m0.insert(keys0[p], item));
}

proof fn lemma_insert_view<T>(keys0: Seq<Seq<char>>, items0: Seq<T>, p: int, k: Seq<char>, item: T)
    requires
        sorted_keys(keys0),
        keys0.len() == items0.len(),
        0 <= p <= keys0.len(),
        !keys0.contains(k),
        sorted_keys(keys0.insert(p, k)),
    ensures
        table_map(keys0.insert(p, k), items0.insert(p, item)) == table_map(keys0, items0).insert(k, item),
{
    let keys = keys0.insert(p, k);
    let items = items0.insert(p, item);
    let m = table_map(keys, items);
    let m0 = table_map(keys0, items0);
    assert forall|x: Seq<char>| #[trigger] m.contains_key(x) == m0.insert(k, item).contains_key(x) by {
        if keys.contains(x) && x != k {
            let i = choose|i: int| 0 <= i < keys.len() && keys[i] == x;
            let i0 = if i < p { i } else { i - 1 };
            assert(i != p);
            assert(keys0[i0] == x);
        }
        if keys0.contains(x) {
            let i0 = choose|i: int| 0 <= i < keys0.len() && keys0[i] == x;
            let i = if i0 < p { i0 } else { i0 + 1 };
            assert(keys[i] == x);
        }
        assert(keys[p] == k);
    }
    assert forall|x: Seq<char>| #[trigger] m.contains_key(x) implies m[x] == m0.insert(k, item)[x] by {
        let i = choose|i: int| 0 <= i < keys.len() && keys[i] == x;
        lemma_table_lookup(keys, items, i);
        if i != p {
            let i0 = if i < p { i } else { i - 1 };
            assert(keys0[i0] == x);
            lemma_table_lookup(keys0, items0, i0);
        }
    }
    assert(m =~= m0.insert(k, item));
}

/// The table as a map from device id to item.
impl<T> View for PeerTable<T> {
    type V = Map<Seq<char>, T>;

    open spec fn view(&self) -> Map<Seq<char>, T> {
        table_map(self.keys(), self.items())
    }
}

impl<T> PeerTable<T> {
    /// The table's invariant: ids strictly increasing.
    #[verifier::type_invariant]
    closed spec fn wf(self) -> bool {
        sorted_keys(entry_keys(self.entries@))
    }

    /// The ids of the peers, in increasing order.
    pub closed spec fn keys(&self) -> Seq<Seq<char>> {
        entry_keys(self.entries@)
    }

    /// The peers' items, in the order of their ids.
    pub closed spec fn items(&self) -> Seq<T> {
        entry_items(self.entries@)
    }

    /// An empty table.
    pub fn new() -> (r: Self)
        ensures
            r.keys().len() == 0,
            r@ == Map::<Seq<char>, T>::empty(),
    {
        let r = PeerTable { entries: Vec::new() };
        proof {
            assert(r@ =~= Map::<Seq<char>, T>::empty());
        }
        r
    }

    /// The number of peers.
    pub fn len(&self) -> (r: usize)
        ensures
            r == self.keys().len(),
            r == self@.len(),
    {
        proof {
            use_type_invariant(self);
            lemma_table_len(self.keys(), self.items());
        }
        self.entries.len()
    }

    /// Records a presence announcement of `device_id`: the device's own
    /// announcement is ignored, a departing device is removed, and any other
    /// announcement is stored, replacing the one before it.
    pub fn observe(&mut self, own_device_id: Option<&str>, device_id: String, departing: Option<bool>, item: T) -> (r: PresenceEffect)
        ensures
            final(self)@ == presence_step(old(self)@, own_view(own_device_id), device_id@, departing, item),
            is_own(own_device_id, device_id@) ==> r == PresenceEffect::IgnoredOwn,
            !is_own(own_device_id, device_id@) && departing == Some(true) ==> r == PresenceEffect::Removed,
            !is_own(own_device_id, device_id@) && departing != Some(true) ==> r == PresenceEffect::Stored,
    {
        proof {
            use_type_invariant(&*self);
        }
        if let Some(own) = own_device_id {
            let a = own.to_string();
            if crate::text::text_eq(&a, &device_id) {
                return PresenceEffect::IgnoredOwn;
            }
        }
        let mut es: Vec<(String, T)> = Vec::new();
        std::mem::swap(&mut es, &mut self.entries);
        let ghost keys0 = entry_keys(es@);
        let ghost items0 = entry_items(es@);
        let ghost m0 = table_map(keys0, items0);
        let key = chars_of(device_id.as_str());
        let (found, pos) = locate(&es, &key);
        let is_departing = match departing {
            Some(b) => b,
            None => false,
        };
        let effect = if is_departing {
            if found {
                let _ = es.remove(pos);
                proof {
                    assert(entry_keys(es@) =~= keys0.remove(pos as int));
                    assert(entry_items(es@) =~= items0.remove(pos as int));
                    lemma_remove_view(keys0, items0, pos as int);
                }
            } else {
                proof {
                    lemma_absent_at(es@, device_id@, pos as int);
                    assert(m0 =~= m0.remove(device_id@));
                }
            }
            PresenceEffect::Removed
        } else {
            if found {
                es.set(pos, (device_id, item));
                proof {
                    assert(entry_keys(es@) =~= keys0);
                    assert(entry_items(es@) =~= items0.update(pos as int, item));
                    lemma_update_view(keys0, items0, pos as int, item);
                }
            } else {
                let ghost k = device_id@;
                proof {
                    lemma_absent_at(es@, k, pos as int);
                    lemma_insert_sorted(keys0, k, pos as int);
                }
                es.insert(pos, (device_id, item));
                proof {
                    assert(entry_keys(es@) =~= keys0.insert(pos as int, k));
                    assert(entry_items(es@) =~= items0.insert(pos as int, item));
                    lemma_insert_view(keys0, items0, pos as int, k, item);
                }
            }
            PresenceEffect::Stored
        };
        self.entries = es;
        effect
    }

    /// The item stored for `device_id`, if any.
    pub fn get(&self, device_id: &str) -> (r: Option<&T>)
        ensures
            self@.contains_key(device_id@) ==> r == Some(&self@[device_id@]),
            !self@.contains_key(device_id@) ==> r is None,
    {
        proof {
            use_type_invariant(self);
        }
        let key = chars_of(device_id);
        let (found, pos) = locate(&self.entries, &key);
        if found {
            proof {
                lemma_table_lookup(self.keys(), self.items(), pos as int);
            }
            Some(&self.entries[pos].1)
        } else {
            proof {
                lemma_absent_at(self.entries@, device_id@, pos as int);
            }
            None
        }
    }

    /// The items of all peers, in increasing order of their ids.
    pub fn values(&self) -> (r: Vec<&T>)
        ensures
            sorted_keys(self.keys()),
            self.keys().len() == self.items().len(),
            r@.len() == self.items().len(),
            forall|i: int| 0 <= i < r@.len() ==> *r@[i] == self.items()[i],
            forall|i: int| 0 <= i < r@.len() ==> self@.contains_key(self.keys()[i]) && self@[self.keys()[i]] == *r@[i],
    {
        proof {
            use_type_invariant(self);
            assert forall|i: int| 0 <= i < self.keys().len() implies self@.contains_key(self.keys()[i]) && self@[self.keys()[i]] == self.items()[i] by {
                lemma_table_lookup(self.keys(), self.items(), i);
            }
        }
        let n = self.entries.len();
        let mut out: Vec<&T> = Vec::new();
        for i in 0..n
            invariant
                n == self.entries@.len(),
                out@.len() == i,
                forall|j: int| 0 <= j < i ==> *out@[j] == self.items()[j],
        {
            out.push(&self.entries[i].1);
        }
        out
    }
}

proof fn lemma_table_len<T>(keys: Seq<Seq<char>>, items: Seq<T>)
    requires
        sorted_keys(keys),
        keys.len() == items.len(),
    ensures
        table_map(keys, items).len() == keys.len(),
        table_map(keys, items).dom() == keys.to_set(),
{
    assert(table_map(keys, items).dom() =~= keys.to_set());
    assert(keys.no_duplicates()) by {
        assert forall|i: int, j: int| 0 <= i < keys.len() && 0 <= j < keys.len() && i != j implies keys[i] != keys[j] by {
            lemma_sorted_distinct(keys, i, j);
        }
    }
    keys.unique_seq_to_set();
}

proof fn lemma_insert_sorted(keys: Seq<Seq<char>>, k: Seq<char>, p: int)
    requires
        sorted_keys(keys),
        0 <= p <= keys.len(),
        forall|j: int| 0 <= j < p ==> text_lt(#[trigger] keys[j], k),
        p == keys.len() || text_lt(k, keys[p]),
    ensures
        sorted_keys(keys.insert(p, k)),
        !keys.contains(k),
{
    let ks = keys.insert(p, k);
    assert forall|i: int, j: int| 0 <= i < j < ks.len() implies text_lt(#[trigger] ks[i], #[trigger] ks[j]) by {
        if j == p {
            assert(ks[i] == keys[i]);
        } else if i == p {
            assert(ks[j] == keys[j - 1]);
            if j - 1 > p {
                assert(text_lt(keys[p], keys[j - 1]));
                lemma_text_lt_transitive(k, keys[p], keys[j - 1]);
            }
        } else if i < p && j > p {
            assert(ks[i] == keys[i]);
            assert(ks[j] == keys[j - 1]);
            assert(text_lt(keys[i], k));
            if j - 1 > p {
                assert(text_lt(keys[p], keys[j - 1]));
                lemma_text_lt_transitive(k, keys[p], keys[j - 1]);
            }
            lemma_text_lt_transitive(keys[i], k, keys[j - 1]);
        } else if j < p {
            assert(ks[i] == keys[i]);
            assert(ks[j] == keys[j]);
        } else {
            assert(ks[i] == keys[i - 1]);
            assert(ks[j] == keys[j - 1]);
        }
    }
    if keys.contains(k) {
        let j = choose|j: int| 0 <= j < keys.len() && keys[j] == k;
        lemma_text_lt_irreflexive(k);
        if j >= p {
            if j > p {
                assert(text_lt(keys[p], keys[j]));
                lemma_text_lt_transitive(k, keys[p], keys[j]);
            }
        }
    }
}


/// A device never lists itself: if the table does not hold the device's own
/// id, no announcement, its own or another's, adds it.
pub proof fn lemma_own_device_never_listed<T>(
    peers: Map<Seq<char>, T>,
    own: Seq<char>,
    device_id: Seq<char>,
    departing: Option<bool>,
    item: T,
)
    requires
        !peers.contains_key(own),
    ensures
        !presence_step(peers, Some(own), device_id, departing, item).contains_key(own),
{
}

/// After another device announces itself (not departing), the table gives
/// back exactly that announcement for its id.
pub proof fn lemma_announcement_remembered<T>(
    peers: Map<Seq<char>, T>,
    own: Option<Seq<char>>,
    device_id: Seq<char>,
    departing: Option<bool>,
    item: T,
)
    requires
        own != Some(device_id),
        departing != Some(true),
    ensures
        presence_step(peers, own, device_id, departing, item).contains_key(device_id),
        presence_step(peers, own, device_id, departing, item)[device_id] == item,
{
}

/// After another device announces its departure, the table no longer holds
/// it.
pub proof fn lemma_departure_forgotten<T>(
    peers: Map<Seq<char>, T>,
    own: Option<Seq<char>>,
    device_id: Seq<char>,
    item: T,
)
    requires
        own != Some(device_id),
    ensures
        !presence_step(peers, own, device_id, Some(true), item).contains_key(device_id),
{
}

/// An announcement touches only the announcing device's entry.
pub proof fn lemma_other_peers_untouched<T>(
    peers: Map<Seq<char>, T>,
    own: Option<Seq<char>>,
    device_id: Seq<char>,
    departing: Option<bool>,
    item: T,
    other: Seq<char>,
)
    requires
        other != device_id,
    ensures
        presence_step(peers, own, device_id, departing, item).contains_key(other) == peers.contains_key(other),
        peers.contains_key(other) ==> presence_step(peers, own, device_id, departing, item)[other] == peers[other],
{
}

/// The peers after the announcements in order, each a device id, whether it
/// announced its departure, and its item.
pub open spec fn presence_after<T>(
    peers: Map<Seq<char>, T>,
    own: Option<Seq<char>>,
    announcements: Seq<(Seq<char>, Option<bool>, T)>,
) -> Map<Seq<char>, T>
    decreases announcements.len(),
{
    if announcements.len() == 0 {
        peers
    } else {
        let a = announcements.last();
        presence_step(presence_after(peers, own, announcements.drop_last()), own, a.0, a.1, a.2)
    }
}

/// A device never lists itself, however many announcements it hears: from
/// an empty table, or any table without its own id, no sequence of
/// announcements adds it.
pub proof fn lemma_own_device_never_listed_after<T>(
    peers: Map<Seq<char>, T>,
    own: Seq<char>,
    announcements: Seq<(Seq<char>, Option<bool>, T)>,
)
    requires
        !peers.contains_key(own),
    ensures
        !presence_after(peers, Some(own), announcements).contains_key(own),
    decreases announcements.len(),
{
    if announcements.len() > 0 {
        let a = announcements.last();
        lemma_own_device_never_listed_after(peers, own, announcements.drop_last());
        lemma_own_device_never_listed(
            presence_after(peers, Some(own), announcements.drop_last()),
            own,
            a.0,
            a.1,
            a.2,
        );
    }
}

} // verus!
