//! The wishlist registry held in memory: per user, series of wished-for
//! items, keyed by normalized search keys. A series exists exactly while it
//! holds at least one item.

use vstd::prelude::*;
use crate::normalize::{card_to_search_term, item_key, series_key, series_to_search_term};

verus! {

/// One wished-for item: its display name and its search key.
pub struct Item {
    pub name: String,
    pub search: String,
}

/// One series of one user's wishlist, with its items.
pub struct SeriesEntry {
    pub user: String,
    pub name: String,
    pub search: String,
    pub items: Vec<Item>,
}

/// An item as (display name, search key).
pub type ItemView = (Seq<char>, Seq<char>);

/// A series entry as plain values.
pub struct SeriesView {
    pub user: Seq<char>,
    pub name: Seq<char>,
    pub key: Seq<char>,
    pub items: Seq<ItemView>,
}

pub open spec fn item_view(i: Item) -> ItemView {
    (i.name@, i.search@)
}

pub open spec fn items_view(items: Seq<Item>) -> Seq<ItemView> {
    items.map_values(|i: Item| item_view(i))
}

pub open spec fn entry_view(e: SeriesEntry) -> SeriesView {
    SeriesView { user: e.user@, name: e.name@, key: e.search@, items: items_view(e.items@) }
}

pub open spec fn keys_of(items: Seq<ItemView>) -> Seq<Seq<char>> {
    items.map_values(|p: ItemView| p.1)
}

pub open spec fn names_view(names: Seq<&str>) -> Seq<Seq<char>> {
    names.map_values(|n: &str| n@)
}

pub open spec fn is_for(e: SeriesView, user: Seq<char>, skey: Seq<char>) -> bool {
    e.user == user && e.key == skey
}

pub open spec fn has_series(v: Seq<SeriesView>, user: Seq<char>, skey: Seq<char>) -> bool {
    exists|j: int| 0 <= j < v.len() && is_for(#[trigger] v[j], user, skey)
}

pub open spec fn series_index(v: Seq<SeriesView>, user: Seq<char>, skey: Seq<char>) -> int {
    choose|j: int| 0 <= j < v.len() && is_for(#[trigger] v[j], user, skey)
}

/// The items of `user` under series key `skey`; none when there is no such
/// series.
pub open spec fn items_in(v: Seq<SeriesView>, user: Seq<char>, skey: Seq<char>) -> Seq<ItemView> {
    if has_series(v, user, skey) {
        v[series_index(v, user, skey)].items
    } else {
        Seq::empty()
    }
}

/// Items whose keys are distinct and derived from their names.
pub open spec fn items_wf(items: Seq<ItemView>) -> bool {
    &&& keys_of(items).no_duplicates()
    &&& forall|t: int| 0 <= t < items.len() ==> (#[trigger] items[t]).1 == item_key(items[t].0)
}

/// Every series is non-empty, its key derived from its name, its items
/// well formed; no two series share a user and a key.
pub open spec fn wf_view(v: Seq<SeriesView>) -> bool {
    &&& forall|j: int| 0 <= j < v.len() ==> (#[trigger] v[j]).items.len() > 0
    &&& forall|j: int| 0 <= j < v.len() ==> (#[trigger] v[j]).key == series_key(v[j].name)
    &&& forall|j: int| 0 <= j < v.len() ==> items_wf(#[trigger] v[j].items)
    &&& forall|j1: int, j2: int|
        0 <= j1 < v.len() && 0 <= j2 < v.len() && j1 != j2 ==> !is_for(
            #[trigger] v[j1],
            #[trigger] v[j2].user,
            v[j2].key,
        )
}

/// `items` with each name of `names` added in order, unless an item of the
/// same key is already there.
pub open spec fn add_items(items: Seq<ItemView>, names: Seq<Seq<char>>) -> Seq<ItemView>
    decreases names.len(),
{
    if names.len() == 0 {
        items
    } else {
        let prev = add_items(items, names.drop_last());
        let k = item_key(names.last());
        if keys_of(prev).contains(k) {
            prev
        } else {
            prev.push((names.last(), k))
        }
    }
}

/// The registry after adding `names` under series `sname` for `user`: the
/// series is created when it is absent and some name is given.
pub open spec fn add_spec(
    v: Seq<SeriesView>,
    user: Seq<char>,
    sname: Seq<char>,
    names: Seq<Seq<char>>,
) -> Seq<SeriesView> {
    let sk = series_key(sname);
    if has_series(v, user, sk) {
        let j = series_index(v, user, sk);
        v.update(
            j,
            SeriesView {
                user: v[j].user,
                name: v[j].name,
                key: v[j].key,
                items: add_items(v[j].items, names),
            },
        )
    } else if names.len() == 0 {
        v
    } else {
        v.push(
            SeriesView { user, name: sname, key: sk, items: add_items(Seq::empty(), names) },
        )
    }
}

proof fn lemma_index(v: Seq<SeriesView>, j: int)
    requires
        wf_view(v),
        0 <= j < v.len(),
    ensures
        has_series(v, v[j].user, v[j].key),
        series_index(v, v[j].user, v[j].key) == j,
        items_in(v, v[j].user, v[j].key) == v[j].items,
{
    assert(is_for(v[j], v[j].user, v[j].key));
    let i = series_index(v, v[j].user, v[j].key);
    if i != j {
        assert(!is_for(v[i], v[j].user, v[j].key));
    }
}

/// The wishlists of all users.
pub struct WishlistDB {
    entries: Vec<SeriesEntry>,
}

impl View for WishlistDB {
    type V = Seq<SeriesView>;

    closed spec fn view(&self) -> Seq<SeriesView> {
        entries_view(self.entries@)
    }
}

pub open spec fn entries_view(es: Seq<SeriesEntry>) -> Seq<SeriesView> {
    es.map_values(|e: SeriesEntry| entry_view(e))
}

impl WishlistDB {
    /// Holds of every registry.
    #[verifier::type_invariant]
    pub open spec fn wf(&self) -> bool {
        wf_view(self@)
    }

    /// The entries, taken out of the registry, which is left empty.
    fn take_entries(&mut self) -> (r: Vec<SeriesEntry>)
        ensures
            entries_view(r@) == old(self)@,
            wf_view(entries_view(r@)),
    {
        proof {
            use_type_invariant(&*self);
        }
        let mut entries: Vec<SeriesEntry> = Vec::new();
        std::mem::swap(&mut entries, &mut self.entries);
        entries
    }

    /// The item count of `user` under series `series`, as the model has it.
    pub open spec fn count(&self, user: Seq<char>, series: Seq<char>) -> nat {
        items_in(self@, user, series_key(series)).len()
    }

    /// An empty registry.
    pub fn new() -> (r: WishlistDB)
        ensures
            r.wf(),
            r@ == Seq::<SeriesView>::empty(),
    {
        let r = WishlistDB { entries: Vec::new() };
        assert(r@ =~= Seq::<SeriesView>::empty());
        r
    }

    /// The index of the series of `user` with key `skey`.
    fn find(&self, user: &String, skey: &String) -> (r: Option<usize>)
        ensures
            match r {
                Some(j) => j < self@.len() && is_for(self@[j as int], user@, skey@),
                None => !has_series(self@, user@, skey@),
            },
    {
        let mut j: usize = 0;
        while j < self.entries.len()
            invariant
                j <= self.entries@.len(),
                self@.len() == self.entries@.len(),
                forall|i: int| 0 <= i < j ==> !is_for(#[trigger] self@[i], user@, skey@),
            decreases self.entries@.len() - j,
        {
            assert(self@[j as int] == entry_view(self.entries@[j as int]));
            if self.entries[j].user == *user && self.entries[j].search == *skey {
                return Some(j);
            }
            j = j + 1;
        }
        None
    }
}

/// Whether some item of `items` has key `key`.
fn contains_key(items: &Vec<Item>, key: &String) -> (r: bool)
    ensures
        r == keys_of(items_view(items@)).contains(key@),
{
    let ghost ks = keys_of(items_view(items@));
    let mut t: usize = 0;
    while t < items.len()
        invariant
            t <= items@.len(),
            ks == keys_of(items_view(items@)),
            ks.len() == items@.len(),
            forall|i: int| 0 <= i < t ==> ks[i] != key@,
        decreases items@.len() - t,
    {
        assert(ks[t as int] == items@[t as int].search@);
        if items[t].search == *key {
            assert(ks[t as int] == key@);
            return true;
        }
        t = t + 1;
    }
    false
}

/// `items` with each of `names` added, as `add_items` says.
fn add_names(items: Vec<Item>, names: &Vec<&str>) -> (r: Vec<Item>)
    requires
        items_wf(items_view(items@)),
    ensures
        items_view(r@) == add_items(items_view(items@), names_view(names@)),
        items_wf(items_view(r@)),
        r@.len() >= items@.len(),
{
    let ghost start = items_view(items@);
    let ghost nv = names_view(names@);
    let mut r = items;
    let mut i: usize = 0;
    proof {
        assert(nv.take(0) =~= Seq::<Seq<char>>::empty());
    }
    while i < names.len()
        invariant
            i <= names@.len(),
            nv == names_view(names@),
            items_view(r@) == add_items(start, nv.take(i as int)),
            items_wf(items_view(r@)),
            r@.len() >= start.len(),
        decreases names@.len() - i,
    {
        let name = names[i];
        let key = card_to_search_term(name);
        let ghost prev = items_view(r@);
        proof {
            assert(nv.take(i + 1).drop_last() =~= nv.take(i as int));
            assert(nv.take(i + 1).last() == name@);
        }
        if !contains_key(&r, &key) {
            r.push(Item { name: String::from_str(name), search: key });
            proof {
                assert(items_view(r@) =~= prev.push((name@, key@)));
                assert(keys_of(items_view(r@)) =~= keys_of(prev).push(key@));
                let ks = keys_of(items_view(r@));
                assert forall|a: int, b: int| 0 <= a < ks.len() && 0 <= b < ks.len() && a != b implies ks[a] != ks[b] by {
                    if a < prev.len() && b < prev.len() {
                        assert(keys_of(prev)[a] == ks[a]);
                        assert(keys_of(prev)[b] == ks[b]);
                    } else if a == prev.len() {
                        assert(keys_of(prev)[b] == ks[b]);
                    } else {
                        assert(keys_of(prev)[a] == ks[a]);
                    }
                }
            }
        }
        i = i + 1;
    }
    proof {
        assert(nv.take(names@.len() as int) =~= nv);
    }
    r
}

impl WishlistDB {
    /// Adds `card_names` to `user_id`'s series `series`, creating the series
    /// if it is absent; names whose keys are already there, or repeat an
    /// earlier name's key, are skipped. Returns how many items the series
    /// gained.
    pub fn add_all_to_wishlist(&mut self, user_id: &str, series: &str, card_names: Vec<&str>) -> (r: usize)
        ensures
            final(self).wf(),
            final(self)@ == add_spec(old(self)@, user_id@, series@, names_view(card_names@)),
            r == final(self).count(user_id@, series@) - old(self).count(user_id@, series@),
    {
        proof {
            use_type_invariant(&*self);
        }
        let sk = series_to_search_term(series);
        let user = String::from_str(user_id);
        let ghost v = self@;
        let ghost nv = names_view(card_names@);
        match self.find(&user, &sk) {
            Some(j) => {
                proof {
                    lemma_index(v, j as int);
                }
                let mut entries = self.take_entries();
                let e = entries.remove(j);
                assert(entry_view(e) == v[j as int]);
                let before = e.items.len();
                let items = add_names(e.items, &card_names);
                let after = items.len();
                let ne = SeriesEntry { user: e.user, name: e.name, search: e.search, items };
                entries.insert(j, ne);
                let ghost nsv = SeriesView {
                    user: v[j as int].user,
                    name: v[j as int].name,
                    key: v[j as int].key,
                    items: add_items(v[j as int].items, nv),
                };
                proof {
                    assert(entries_view(entries@) =~= v.update(j as int, nsv));
                    assert forall|a: int, b: int|
                        0 <= a < entries_view(entries@).len() && 0 <= b < entries_view(entries@).len() && a != b implies !is_for(
                        #[trigger] entries_view(entries@)[a],
                        #[trigger] entries_view(entries@)[b].user,
                        entries_view(entries@)[b].key,
                    ) by {
                        assert(!is_for(v[a], v[b].user, v[b].key));
                    }
                    assert(wf_view(entries_view(entries@)));
                    lemma_index(entries_view(entries@), j as int);
                }
                self.entries = entries;
                after - before
            },
            None => {
                if card_names.len() == 0 {
                    proof {
                        assert(nv.len() == 0);
                    }
                    return 0;
                }
                let empty: Vec<Item> = Vec::new();
                proof {
                    assert(items_view(empty@) =~= Seq::<ItemView>::empty());
                    assert(keys_of(items_view(empty@)) =~= Seq::<Seq<char>>::empty());
                }
                let items = add_names(empty, &card_names);
                proof {
                    assert(add_items(Seq::empty(), nv).len() > 0) by {
                        lemma_add_items_nonempty(Seq::empty(), nv);
                    }
                }
                let n = items.len();
                let mut entries = self.take_entries();
                entries.push(SeriesEntry { user, name: String::from_str(series), search: sk, items });
                let ghost nsv = SeriesView {
                    user: user_id@,
                    name: series@,
                    key: series_key(series@),
                    items: add_items(Seq::empty(), nv),
                };
                proof {
                    assert(entries_view(entries@) =~= v.push(nsv));
                    assert forall|a: int, b: int|
                        0 <= a < entries_view(entries@).len() && 0 <= b < entries_view(entries@).len() && a != b implies !is_for(
                        #[trigger] entries_view(entries@)[a],
                        #[trigger] entries_view(entries@)[b].user,
                        entries_view(entries@)[b].key,
                    ) by {
                        if a < v.len() && b < v.len() {
                            assert(!is_for(v[a], v[b].user, v[b].key));
                        } else if a < v.len() {
                            assert(!is_for(v[a], user_id@, series_key(series@)));
                        } else {
                            assert(!is_for(v[b], user_id@, series_key(series@)));
                        }
                    }
                    assert(wf_view(entries_view(entries@)));
                    lemma_index(entries_view(entries@), v.len() as int);
                }
                self.entries = entries;
                n
            },
        }
    }
}

proof fn lemma_add_items_nonempty(items: Seq<ItemView>, names: Seq<Seq<char>>)
    requires
        names.len() > 0,
    ensures
        add_items(items, names).len() > 0,
    decreases names.len(),
{
    if names.len() > 1 {
        lemma_add_items_nonempty(items, names.drop_last());
    } else {
        assert(add_items(items, names.drop_last()) == items);
    }
}


/// Keeps the items whose key is not among `keys`.
pub open spec fn not_in(keys: Seq<Seq<char>>) -> spec_fn(ItemView) -> bool {
    |p: ItemView| !keys.contains(p.1)
}

/// The search keys of `names`.
pub open spec fn item_keys_of(names: Seq<Seq<char>>) -> Seq<Seq<char>> {
    names.map_values(|n: Seq<char>| item_key(n))
}

/// The registry after removing the items with the keys of `names` from
/// `user`'s series `sname`; a series left empty is removed with them.
pub open spec fn remove_spec(
    v: Seq<SeriesView>,
    user: Seq<char>,
    sname: Seq<char>,
    names: Seq<Seq<char>>,
) -> Seq<SeriesView> {
    let sk = series_key(sname);
    if has_series(v, user, sk) {
        let j = series_index(v, user, sk);
        let left = v[j].items.filter(not_in(item_keys_of(names)));
        if left.len() == 0 {
            v.remove(j)
        } else {
            v.update(
                j,
                SeriesView { user: v[j].user, name: v[j].name, key: v[j].key, items: left },
            )
        }
    } else {
        v
    }
}

/// The registry without `user`'s series `sname`.
pub open spec fn remove_series_spec(v: Seq<SeriesView>, user: Seq<char>, sname: Seq<char>) -> Seq<
    SeriesView,
> {
    let sk = series_key(sname);
    if has_series(v, user, sk) {
        v.remove(series_index(v, user, sk))
    } else {
        v
    }
}

pub open spec fn owned_by(user: Seq<char>) -> spec_fn(SeriesView) -> bool {
    |e: SeriesView| e.user == user
}

/// The display names of `user`'s series, in registry order.
pub open spec fn series_names(v: Seq<SeriesView>, user: Seq<char>) -> Seq<Seq<char>> {
    v.filter(owned_by(user)).map_values(|e: SeriesView| e.name)
}

pub open spec fn strings_view(v: Seq<String>) -> Seq<Seq<char>> {
    v.map_values(|s: String| s@)
}

proof fn lemma_filter_map_push<A, B>(s: Seq<A>, x: A, p: spec_fn(A) -> bool, f: spec_fn(A) -> B)
    ensures
        s.push(x).filter(p).map_values(f) == (if p(x) {
            s.filter(p).map_values(f).push(f(x))
        } else {
            s.filter(p).map_values(f)
        }),
{
    s.lemma_filter_push(x, p);
    if p(x) {
        assert(s.filter(p).push(x).map_values(f) =~= s.filter(p).map_values(f).push(f(x)));
    }
}

proof fn lemma_wf_remove(v: Seq<SeriesView>, j: int)
    requires
        wf_view(v),
        0 <= j < v.len(),
    ensures
        wf_view(v.remove(j)),
{
    let w = v.remove(j);
    assert forall|a: int, b: int|
        0 <= a < w.len() && 0 <= b < w.len() && a != b implies !is_for(
        #[trigger] w[a],
        #[trigger] w[b].user,
        w[b].key,
    ) by {
        let a2 = if a < j { a } else { a + 1 };
        let b2 = if b < j { b } else { b + 1 };
        assert(w[a] == v[a2]);
        assert(w[b] == v[b2]);
        assert(!is_for(v[a2], v[b2].user, v[b2].key));
    }
    assert forall|a: int| 0 <= a < w.len() implies (#[trigger] w[a]).items.len() > 0 && w[a].key
        == series_key(w[a].name) && items_wf(w[a].items) by {
        let a2 = if a < j { a } else { a + 1 };
        assert(w[a] == v[a2]);
    }
}

/// The keys of `names`.
fn keys_for(names: &Vec<&str>) -> (r: Vec<String>)
    ensures
        strings_view(r@) == item_keys_of(names_view(names@)),
{
    let mut r: Vec<String> = Vec::new();
    let mut i: usize = 0;
    while i < names.len()
        invariant
            i <= names@.len(),
            r@.len() == i,
            forall|a: int| 0 <= a < i ==> (#[trigger] r@[a])@ == item_key(names@[a]@),
        decreases names@.len() - i,
    {
        r.push(card_to_search_term(names[i]));
        i = i + 1;
    }
    assert(strings_view(r@) =~= item_keys_of(names_view(names@)));
    r
}

/// Whether `k` is one of `keys`.
fn has_string(keys: &Vec<String>, k: &String) -> (r: bool)
    ensures
        r == strings_view(keys@).contains(k@),
{
    let mut i: usize = 0;
    while i < keys.len()
        invariant
            i <= keys@.len(),
            forall|a: int| 0 <= a < i ==> (#[trigger] keys@[a])@ != k@,
        decreases keys@.len() - i,
    {
        if keys[i] == *k {
            assert(strings_view(keys@)[i as int] == k@);
            return true;
        }
        i = i + 1;
    }
    false
}

/// A copy of `i`.
fn copy_item(i: &Item) -> (r: Item)
    ensures
        item_view(r) == item_view(*i),
{
    Item { name: i.name.clone(), search: i.search.clone() }
}

/// The items of `items` whose key is not among `keys`, in order.
fn keep_items(items: &Vec<Item>, keys: &Vec<String>) -> (r: Vec<Item>)
    requires
        items_wf(items_view(items@)),
    ensures
        items_view(r@) == items_view(items@).filter(not_in(strings_view(keys@))),
        items_wf(items_view(r@)),
        r@.len() <= items@.len(),
{
    let ghost iv = items_view(items@);
    let ghost ks = strings_view(keys@);
    let mut r: Vec<Item> = Vec::new();
    let mut i: usize = 0;
    proof {
        assert(iv.take(0) =~= Seq::<ItemView>::empty());
        assert(items_view(r@) =~= Seq::<ItemView>::empty());
    }
    while i < items.len()
        invariant
            i <= items@.len(),
            iv == items_view(items@),
            items_wf(iv),
            ks == strings_view(keys@),
            r@.len() <= i,
            items_view(r@) == iv.take(i as int).filter(not_in(ks)),
            items_wf(items_view(r@)),
            forall|a: int|
                0 <= a < r@.len() ==> keys_of(iv.take(i as int)).contains(
                    (#[trigger] items_view(r@)[a]).1,
                ),
        decreases items@.len() - i,
    {
        let ghost prev = items_view(r@);
        proof {
            assert(iv.take(i + 1) =~= iv.take(i as int).push(iv[i as int]));
            iv.take(i as int).lemma_filter_push(iv[i as int], not_in(ks));
            assert(iv[i as int] == item_view(items@[i as int]));
        }
        if !has_string(keys, &items[i].search) {
            r.push(copy_item(&items[i]));
            proof {
                assert(items_view(r@) =~= prev.push(iv[i as int]));
                assert(keys_of(items_view(r@)) =~= keys_of(prev).push(iv[i as int].1));
                assert(!keys_of(iv.take(i as int)).contains(iv[i as int].1)) by {
                    if keys_of(iv.take(i as int)).contains(iv[i as int].1) {
                        let b = choose|b: int|
                            0 <= b < keys_of(iv.take(i as int)).len() && keys_of(
                                iv.take(i as int),
                            )[b] == iv[i as int].1;
                        assert(keys_of(iv)[b] == keys_of(iv)[i as int]);
                    }
                }
                let kr = keys_of(items_view(r@));
                assert forall|a: int, b: int| 0 <= a < kr.len() && 0 <= b < kr.len() && a != b implies kr[a] != kr[b] by {
                    if a < prev.len() && b < prev.len() {
                        assert(keys_of(prev)[a] == kr[a]);
                        assert(keys_of(prev)[b] == kr[b]);
                    } else if a == prev.len() {
                        assert(keys_of(iv.take(i as int)).contains(prev[b].1));
                    } else {
                        assert(keys_of(iv.take(i as int)).contains(prev[a].1));
                    }
                }
                assert forall|a: int| 0 <= a < r@.len() implies keys_of(iv.take(i + 1)).contains(
                    (#[trigger] items_view(r@)[a]).1,
                ) by {
                    if a < prev.len() {
                        let ghost b = choose|b: int|
                            0 <= b < keys_of(iv.take(i as int)).len() && keys_of(
                                iv.take(i as int),
                            )[b] == prev[a].1;
                        assert(keys_of(iv.take(i + 1))[b] == prev[a].1);
                    } else {
                        assert(keys_of(iv.take(i + 1))[i as int] == iv[i as int].1);
                    }
                }
            }
        } else {
            proof {
                assert forall|a: int| 0 <= a < r@.len() implies keys_of(iv.take(i + 1)).contains(
                    (#[trigger] items_view(r@)[a]).1,
                ) by {
                    let ghost b = choose|b: int|
                        0 <= b < keys_of(iv.take(i as int)).len() && keys_of(iv.take(i as int))[b]
                            == prev[a].1;
                    assert(keys_of(iv.take(i + 1))[b] == prev[a].1);
                }
            }
        }
        i = i + 1;
    }
    proof {
        assert(iv.take(items@.len() as int) =~= iv);
    }
    r
}

impl WishlistDB {
    /// Removes from `user_id`'s series `series` the items with the keys of
    /// `card_names`. Returns (how many were removed, how many are left); a
    /// series left empty is deleted in the same step.
    pub fn remove_all_from_wishlist(&mut self, user_id: &str, series: &str, card_names: Vec<&str>) -> (r: (usize, usize))
        ensures
            final(self).wf(),
            final(self)@ == remove_spec(old(self)@, user_id@, series@, names_view(card_names@)),
            r.0 == old(self).count(user_id@, series@) - final(self).count(user_id@, series@),
            r.1 == final(self).count(user_id@, series@),
            r.1 == items_in(old(self)@, user_id@, series_key(series@)).filter(
                not_in(item_keys_of(names_view(card_names@))),
            ).len(),
    {
        proof {
            use_type_invariant(&*self);
        }
        let sk = series_to_search_term(series);
        let user = String::from_str(user_id);
        let keys = keys_for(&card_names);
        let ghost v = self@;
        let ghost ks = item_keys_of(names_view(card_names@));
        match self.find(&user, &sk) {
            None => {
                proof {
                    assert(Seq::<ItemView>::empty().filter(not_in(ks)) =~= Seq::<ItemView>::empty())
                        by {
                        reveal(Seq::filter);
                    }
                }
                (0, 0)
            },
            Some(j) => {
                proof {
                    lemma_index(v, j as int);
                }
                let mut entries = self.take_entries();
                let e = entries.remove(j);
                assert(entry_view(e) == v[j as int]);
                let before = e.items.len();
                let kept = keep_items(&e.items, &keys);
                let after = kept.len();
                if after == 0 {
                    proof {
                        assert(entries_view(entries@) =~= v.remove(j as int));
                        lemma_wf_remove(v, j as int);
                        assert(!has_series(entries_view(entries@), user_id@, series_key(series@))) by {
                            if has_series(entries_view(entries@), user_id@, series_key(series@)) {
                                let a = choose|a: int|
                                    0 <= a < entries_view(entries@).len() && is_for(
                                        #[trigger] entries_view(entries@)[a],
                                        user_id@,
                                        series_key(series@),
                                    );
                                let a2 = if a < j { a } else { a + 1 };
                                assert(entries_view(entries@)[a] == v[a2]);
                                assert(!is_for(v[a2], v[j as int].user, v[j as int].key));
                            }
                        }
                    }
                } else {
                    let ne = SeriesEntry { user: e.user, name: e.name, search: e.search, items: kept };
                    entries.insert(j, ne);
                    proof {
                        let nsv = SeriesView {
                            user: v[j as int].user,
                            name: v[j as int].name,
                            key: v[j as int].key,
                            items: v[j as int].items.filter(not_in(ks)),
                        };
                        assert(entries_view(entries@) =~= v.update(j as int, nsv));
                        assert forall|a: int, b: int|
                            0 <= a < entries_view(entries@).len() && 0 <= b < entries_view(entries@).len() && a != b implies !is_for(
                            #[trigger] entries_view(entries@)[a],
                            #[trigger] entries_view(entries@)[b].user,
                            entries_view(entries@)[b].key,
                        ) by {
                            assert(!is_for(v[a], v[b].user, v[b].key));
                        }
                        assert(wf_view(entries_view(entries@)));
                        lemma_index(entries_view(entries@), j as int);
                    }
                }
                self.entries = entries;
                (before - after, after)
            },
        }
    }

    /// Deletes `user_id`'s series `series` whole. Returns how many items it
    /// held.
    pub fn remove_series_from_wishlist(&mut self, user_id: &str, series: &str) -> (r: usize)
        ensures
            final(self).wf(),
            final(self)@ == remove_series_spec(old(self)@, user_id@, series@),
            r == old(self).count(user_id@, series@),
            !has_series(final(self)@, user_id@, series_key(series@)),
    {
        proof {
            use_type_invariant(&*self);
        }
        let sk = series_to_search_term(series);
        let user = String::from_str(user_id);
        let ghost v = self@;
        match self.find(&user, &sk) {
            None => 0,
            Some(j) => {
                proof {
                    lemma_index(v, j as int);
                }
                let mut entries = self.take_entries();
                let e = entries.remove(j);
                assert(entry_view(e) == v[j as int]);
                proof {
                    assert(entries_view(entries@) =~= v.remove(j as int));
                    lemma_wf_remove(v, j as int);
                    assert(!has_series(entries_view(entries@), user_id@, series_key(series@))) by {
                        if has_series(entries_view(entries@), user_id@, series_key(series@)) {
                            let a = choose|a: int|
                                0 <= a < entries_view(entries@).len() && is_for(
                                    #[trigger] entries_view(entries@)[a],
                                    user_id@,
                                    series_key(series@),
                                );
                            let a2 = if a < j { a } else { a + 1 };
                            assert(entries_view(entries@)[a] == v[a2]);
                            assert(!is_for(v[a2], v[j as int].user, v[j as int].key));
                        }
                    }
                }
                self.entries = entries;
                e.items.len()
            },
        }
    }

    /// The display names of `user_id`'s series.
    pub fn get_user_wishlisted_series(&self, user_id: &str) -> (r: Vec<String>)
        ensures
            strings_view(r@) == series_names(self@, user_id@),
    {
        let user = String::from_str(user_id);
        let ghost v = self@;
        let mut r: Vec<String> = Vec::new();
        let mut j: usize = 0;
        proof {
            assert(v.take(0) =~= Seq::<SeriesView>::empty());
            assert(strings_view(r@) =~= Seq::<Seq<char>>::empty());
            assert(series_names(Seq::<SeriesView>::empty(), user_id@) =~= Seq::<Seq<char>>::empty()) by {
                reveal(Seq::filter);
            }
        }
        while j < self.entries.len()
            invariant
                j <= self.entries@.len(),
                v == self@,
                v.len() == self.entries@.len(),
                user@ == user_id@,
                strings_view(r@) == series_names(v.take(j as int), user_id@),
            decreases self.entries@.len() - j,
        {
            proof {
                assert(v.take(j + 1) =~= v.take(j as int).push(v[j as int]));
                lemma_filter_map_push(v.take(j as int), v[j as int], owned_by(user_id@), |e: SeriesView| e.name);
                assert(v[j as int] == entry_view(self.entries@[j as int]));
            }
            let ghost prev = r@;
            if self.entries[j].user == user {
                r.push(self.entries[j].name.clone());
                proof {
                    assert(strings_view(r@) =~= strings_view(prev).push(v[j as int].name));
                }
            }
            j = j + 1;
        }
        proof {
            assert(v.take(v.len() as int) =~= v);
        }
        r
    }

    /// How many items `user_id` wishes for in series `series`.
    pub fn get_user_wishlisted_cards_count(&self, user_id: &str, series: &str) -> (r: usize)
        ensures
            r == self.count(user_id@, series@),
    {
        proof {
            use_type_invariant(self);
        }
        let sk = series_to_search_term(series);
        let user = String::from_str(user_id);
        match self.find(&user, &sk) {
            None => 0,
            Some(j) => {
                proof {
                    lemma_index(self@, j as int);
                    assert(self@[j as int] == entry_view(self.entries@[j as int]));
                }
                self.entries[j].items.len()
            },
        }
    }

    /// The display names of the items `user_id` wishes for in series
    /// `series`.
    pub fn get_user_wishlisted_cards(&self, user_id: &str, series: &str) -> (r: Vec<String>)
        ensures
            strings_view(r@) == items_in(self@, user_id@, series_key(series@)).map_values(
                |p: ItemView| p.0,
            ),
    {
        proof {
            use_type_invariant(self);
        }
        let sk = series_to_search_term(series);
        let user = String::from_str(user_id);
        let mut r: Vec<String> = Vec::new();
        match self.find(&user, &sk) {
            None => {
                assert(strings_view(r@) =~= Seq::<Seq<char>>::empty());
                assert(items_in(self@, user_id@, series_key(series@)).map_values(|p: ItemView| p.0)
                    =~= Seq::<Seq<char>>::empty());
                r
            },
            Some(j) => {
                proof {
                    lemma_index(self@, j as int);
                    assert(self@[j as int] == entry_view(self.entries@[j as int]));
                }
                let items = &self.entries[j].items;
                let ghost iv = items_view(items@);
                let mut t: usize = 0;
                while t < items.len()
                    invariant
                        t <= items@.len(),
                        iv == items_view(items@),
                        r@.len() == t,
                        forall|a: int| 0 <= a < t ==> (#[trigger] r@[a])@ == iv[a].0,
                    decreases items@.len() - t,
                {
                    r.push(items[t].name.clone());
                    t = t + 1;
                }
                assert(strings_view(r@) =~= iv.map_values(|p: ItemView| p.0));
                r
            },
        }
    }

    /// Whether `user_id` wishes for item `card` of series `series`, by keys.
    pub fn user_has_card(&self, user_id: &str, series: &str, card: &str) -> (r: bool)
        ensures
            r == keys_of(items_in(self@, user_id@, series_key(series@))).contains(item_key(card@)),
    {
        proof {
            use_type_invariant(self);
        }
        let sk = series_to_search_term(series);
        let ck = card_to_search_term(card);
        let user = String::from_str(user_id);
        match self.find(&user, &sk) {
            None => {
                assert(keys_of(items_in(self@, user_id@, series_key(series@))) =~= Seq::<
                    Seq<char>,
                >::empty());
                false
            },
            Some(j) => {
                proof {
                    lemma_index(self@, j as int);
                    assert(self@[j as int] == entry_view(self.entries@[j as int]));
                }
                contains_key(&self.entries[j].items, &ck)
            },
        }
    }
}


/// A series that holds item key `ikey` under series key `skey`.
pub open spec fn wants_item(skey: Seq<char>, ikey: Seq<char>) -> spec_fn(SeriesView) -> bool {
    |e: SeriesView| e.key == skey && keys_of(e.items).contains(ikey)
}

/// The users who wish for item key `ikey` of series key `skey`, in registry
/// order.
pub open spec fn users_for_item(v: Seq<SeriesView>, skey: Seq<char>, ikey: Seq<char>) -> Seq<
    Seq<char>,
> {
    v.filter(wants_item(skey, ikey)).map_values(|e: SeriesView| e.user)
}

pub type PairView = (Seq<char>, Seq<char>);

pub type ItemMatch = (PairView, Seq<Seq<char>>);

pub open spec fn item_match(v: Seq<SeriesView>) -> spec_fn(PairView) -> ItemMatch {
    |p: PairView| (p, users_for_item(v, series_key(p.0), item_key(p.1)))
}

pub open spec fn has_users<K, U>() -> spec_fn((K, Seq<U>)) -> bool {
    |m: (K, Seq<U>)| m.1.len() > 0
}

/// For each (series, item) pair in order, the pair with the users who wish
/// for it; pairs that no one wishes for are left out.
pub open spec fn item_matches(v: Seq<SeriesView>, pairs: Seq<PairView>) -> Seq<ItemMatch> {
    pairs.map_values(item_match(v)).filter(has_users())
}

/// A series with key `skey`.
pub open spec fn in_series(skey: Seq<char>) -> spec_fn(SeriesView) -> bool {
    |e: SeriesView| e.key == skey
}

/// The users who wish for items of series key `skey`, each with how many,
/// in registry order.
pub open spec fn users_for_series(v: Seq<SeriesView>, skey: Seq<char>) -> Seq<(Seq<char>, nat)> {
    v.filter(in_series(skey)).map_values(|e: SeriesView| (e.user, e.items.len()))
}

pub type SeriesMatch = (Seq<char>, Seq<(Seq<char>, nat)>);

pub open spec fn series_match(v: Seq<SeriesView>) -> spec_fn(Seq<char>) -> SeriesMatch {
    |s: Seq<char>| (s, users_for_series(v, series_key(s)))
}

/// For each series name in order, the name with its interested users and
/// their counts; names that no one wishes for are left out.
pub open spec fn series_matches(v: Seq<SeriesView>, names: Seq<Seq<char>>) -> Seq<SeriesMatch> {
    names.map_values(series_match(v)).filter(has_users())
}

pub open spec fn pairs_view(p: Seq<(&str, &str)>) -> Seq<PairView> {
    p.map_values(|x: (&str, &str)| (x.0@, x.1@))
}

pub open spec fn item_matches_view(r: Seq<((&str, &str), Vec<String>)>) -> Seq<ItemMatch> {
    r.map_values(|m: ((&str, &str), Vec<String>)| ((m.0.0@, m.0.1@), strings_view(m.1@)))
}

pub open spec fn counts_view(r: Seq<(String, usize)>) -> Seq<(Seq<char>, nat)> {
    r.map_values(|c: (String, usize)| (c.0@, c.1 as nat))
}

pub open spec fn series_matches_view(r: Seq<(&str, Vec<(String, usize)>)>) -> Seq<SeriesMatch> {
    r.map_values(|m: (&str, Vec<(String, usize)>)| (m.0@, counts_view(m.1@)))
}

impl WishlistDB {
    /// The users who wish for item key `ikey` of series key `skey`.
    fn users_with_item(&self, skey: &String, ikey: &String) -> (r: Vec<String>)
        ensures
            strings_view(r@) == users_for_item(self@, skey@, ikey@),
    {
        let ghost v = self@;
        let ghost p = wants_item(skey@, ikey@);
        let mut r: Vec<String> = Vec::new();
        let mut j: usize = 0;
        proof {
            assert(v.take(0) =~= Seq::<SeriesView>::empty());
            assert(strings_view(r@) =~= Seq::<Seq<char>>::empty());
            assert(users_for_item(Seq::<SeriesView>::empty(), skey@, ikey@) =~= Seq::<Seq<char>>::empty()) by {
                reveal(Seq::filter);
            }
        }
        while j < self.entries.len()
            invariant
                j <= self.entries@.len(),
                v == self@,
                v.len() == self.entries@.len(),
                p == wants_item(skey@, ikey@),
                strings_view(r@) == users_for_item(v.take(j as int), skey@, ikey@),
            decreases self.entries@.len() - j,
        {
            proof {
                assert(v.take(j + 1) =~= v.take(j as int).push(v[j as int]));
                lemma_filter_map_push(v.take(j as int), v[j as int], p, |e: SeriesView| e.user);
                assert(v[j as int] == entry_view(self.entries@[j as int]));
            }
            let ghost prev = r@;
            if self.entries[j].search == *skey && contains_key(&self.entries[j].items, ikey) {
                r.push(self.entries[j].user.clone());
                proof {
                    assert(strings_view(r@) =~= strings_view(prev).push(v[j as int].user));
                }
            }
            j = j + 1;
        }
        proof {
            assert(v.take(v.len() as int) =~= v);
        }
        r
    }

    /// For each (series, item) pair of `cards`, the users who wish for that
    /// item, by keys; a pair that no one wishes for is left out, and each
    /// result carries the pair it answers.
    pub fn get_users_with_series_card<'a>(&self, cards: Vec<(&'a str, &'a str)>) -> (r: Vec<
        ((&'a str, &'a str), Vec<String>),
    >)
        ensures
            item_matches_view(r@) == item_matches(self@, pairs_view(cards@)),
            forall|i: int| 0 <= i < r@.len() ==> (#[trigger] r@[i]).1@.len() > 0,
            forall|i: int| 0 <= i < r@.len() ==> cards@.contains((#[trigger] r@[i]).0),
    {
        let ghost v = self@;
        let ghost pv = pairs_view(cards@);
        let ghost f = item_match(v);
        let ghost h = has_users::<PairView, Seq<char>>();
        let mut r: Vec<((&'a str, &'a str), Vec<String>)> = Vec::new();
        let mut i: usize = 0;
        proof {
            assert(pv.take(0).map_values(f) =~= Seq::<ItemMatch>::empty());
            assert(Seq::<ItemMatch>::empty().filter(h) =~= Seq::<ItemMatch>::empty()) by {
                reveal(Seq::filter);
            }
            assert(item_matches_view(r@) =~= Seq::<ItemMatch>::empty());
        }
        while i < cards.len()
            invariant
                i <= cards@.len(),
                v == self@,
                pv == pairs_view(cards@),
                f == item_match(v),
                h == has_users::<PairView, Seq<char>>(),
                item_matches_view(r@) == pv.take(i as int).map_values(f).filter(h),
                forall|a: int| 0 <= a < r@.len() ==> (#[trigger] r@[a]).1@.len() > 0,
                forall|a: int| 0 <= a < r@.len() ==> cards@.contains((#[trigger] r@[a]).0),
            decreases cards@.len() - i,
        {
            let (series, card) = cards[i];
            let sk = series_to_search_term(series);
            let ck = card_to_search_term(card);
            let users = self.users_with_item(&sk, &ck);
            let ghost prev = r@;
            proof {
                assert(pv.take(i + 1).map_values(f) =~= pv.take(i as int).map_values(f).push(
                    f(pv[i as int]),
                ));
                pv.take(i as int).map_values(f).lemma_filter_push(f(pv[i as int]), h);
                assert(pv[i as int] == (series@, card@));
                assert(cards@[i as int] == (series, card));
            }
            if users.len() > 0 {
                r.push(((series, card), users));
                proof {
                    assert(item_matches_view(r@) =~= item_matches_view(prev).push(f(pv[i as int])));
                }
            }
            i = i + 1;
        }
        proof {
            assert(pv.take(cards@.len() as int) =~= pv);
        }
        r
    }

    /// The users with items of series key `skey`, each with its count.
    fn users_in_series(&self, skey: &String) -> (r: Vec<(String, usize)>)
        ensures
            counts_view(r@) == users_for_series(self@, skey@),
    {
        let ghost v = self@;
        let ghost p = in_series(skey@);
        let ghost g = |e: SeriesView| (e.user, e.items.len());
        let mut r: Vec<(String, usize)> = Vec::new();
        let mut j: usize = 0;
        proof {
            assert(v.take(0) =~= Seq::<SeriesView>::empty());
            assert(counts_view(r@) =~= Seq::<(Seq<char>, nat)>::empty());
            assert(users_for_series(Seq::<SeriesView>::empty(), skey@) =~= Seq::<(Seq<char>, nat)>::empty()) by {
                reveal(Seq::filter);
            }
        }
        while j < self.entries.len()
            invariant
                j <= self.entries@.len(),
                v == self@,
                v.len() == self.entries@.len(),
                p == in_series(skey@),
                g == (|e: SeriesView| (e.user, e.items.len())),
                counts_view(r@) == users_for_series(v.take(j as int), skey@),
            decreases self.entries@.len() - j,
        {
            proof {
                assert(v.take(j + 1) =~= v.take(j as int).push(v[j as int]));
                lemma_filter_map_push(v.take(j as int), v[j as int], p, g);
                assert(v[j as int] == entry_view(self.entries@[j as int]));
            }
            let ghost prev = r@;
            if self.entries[j].search == *skey {
                r.push((self.entries[j].user.clone(), self.entries[j].items.len()));
                proof {
                    assert(counts_view(r@) =~= counts_view(prev).push(g(v[j as int])));
                }
            }
            j = j + 1;
        }
        proof {
            assert(v.take(v.len() as int) =~= v);
        }
        r
    }

    /// For each series name of `series`, the users who wish for items of
    /// that series, each with how many; a series that no one wishes for is
    /// left out, and each result carries the name it answers.
    pub fn get_users_with_series<'a>(&self, series: &Vec<&'a str>) -> (r: Vec<
        (&'a str, Vec<(String, usize)>),
    >)
        ensures
            series_matches_view(r@) == series_matches(self@, names_view(series@)),
            forall|i: int| 0 <= i < r@.len() ==> (#[trigger] r@[i]).1@.len() > 0,
            forall|i: int| 0 <= i < r@.len() ==> series@.contains((#[trigger] r@[i]).0),
    {
        let ghost v = self@;
        let ghost nv = names_view(series@);
        let ghost f = series_match(v);
        let ghost h = has_users::<Seq<char>, (Seq<char>, nat)>();
        let mut r: Vec<(&'a str, Vec<(String, usize)>)> = Vec::new();
        let mut i: usize = 0;
        proof {
            assert(nv.take(0).map_values(f) =~= Seq::<SeriesMatch>::empty());
            assert(Seq::<SeriesMatch>::empty().filter(h) =~= Seq::<SeriesMatch>::empty()) by {
                reveal(Seq::filter);
            }
            assert(series_matches_view(r@) =~= Seq::<SeriesMatch>::empty());
        }
        while i < series.len()
            invariant
                i <= series@.len(),
                v == self@,
                nv == names_view(series@),
                f == series_match(v),
                h == has_users::<Seq<char>, (Seq<char>, nat)>(),
                series_matches_view(r@) == nv.take(i as int).map_values(f).filter(h),
                forall|a: int| 0 <= a < r@.len() ==> (#[trigger] r@[a]).1@.len() > 0,
                forall|a: int| 0 <= a < r@.len() ==> series@.contains((#[trigger] r@[a]).0),
            decreases series@.len() - i,
        {
            let name = series[i];
            let sk = series_to_search_term(name);
            let users = self.users_in_series(&sk);
            let ghost prev = r@;
            proof {
                assert(nv.take(i + 1).map_values(f) =~= nv.take(i as int).map_values(f).push(
                    f(nv[i as int]),
                ));
                nv.take(i as int).map_values(f).lemma_filter_push(f(nv[i as int]), h);
                assert(nv[i as int] == name@);
                assert(series@[i as int] == name);
            }
            if users.len() > 0 {
                r.push((name, users));
                proof {
                    assert(series_matches_view(r@) =~= series_matches_view(prev).push(f(nv[i as int])));
                }
            }
            i = i + 1;
        }
        proof {
            assert(nv.take(series@.len() as int) =~= nv);
        }
        r
    }
}


proof fn lemma_filter_keeps_all<A>(s: Seq<A>, p: spec_fn(A) -> bool)
    requires
        forall|i: int| 0 <= i < s.len() ==> p(#[trigger] s[i]),
    ensures
        s.filter(p) == s,
    decreases s.len(),
{
    reveal(Seq::filter);
    if s.len() > 0 {
        lemma_filter_keeps_all(s.drop_last(), p);
        assert(s.drop_last().push(s.last()) =~= s);
    }
}

proof fn lemma_drop_one_key(items: Seq<ItemView>, k: Seq<char>)
    requires
        keys_of(items).no_duplicates(),
    ensures
        items.filter(not_in(seq![k])).len() + 1 >= items.len(),
    decreases items.len(),
{
    reveal(Seq::filter);
    if items.len() > 0 {
        let d = items.drop_last();
        let p = not_in(seq![k]);
        assert(keys_of(d) =~= keys_of(items).drop_last());
        if p(items.last()) {
            lemma_drop_one_key(d, k);
        } else {
            assert(seq![k].contains(items.last().1)) by {
                assert(seq![k][0] == k);
            }
            assert(items.last().1 == k);
            assert forall|i: int| 0 <= i < d.len() implies p(#[trigger] d[i]) by {
                assert(keys_of(items)[i] != keys_of(items)[items.len() - 1]);
                if seq![k].contains(d[i].1) {
                    let t = choose|t: int| 0 <= t < 1 && seq![k][t] == d[i].1;
                    assert(t == 0);
                }
            }
            lemma_filter_keeps_all(d, p);
        }
    }
}

/// Removing one item name from a series takes out at most one item: item
/// keys within a series are distinct.
pub proof fn lemma_single_removal(v: Seq<SeriesView>, user: Seq<char>, sname: Seq<char>, item: Seq<char>)
    requires
        wf_view(v),
    ensures
        items_in(v, user, series_key(sname)).filter(not_in(item_keys_of(seq![item]))).len() + 1
            >= items_in(v, user, series_key(sname)).len(),
{
    let sk = series_key(sname);
    assert(item_keys_of(seq![item]) =~= seq![item_key(item)]);
    if has_series(v, user, sk) {
        let j = series_index(v, user, sk);
        assert(items_wf(v[j].items));
        lemma_drop_one_key(v[j].items, item_key(item));
    }
}


/// A series listed for a user always holds items: a series left without
/// items is never kept.
pub proof fn lemma_listed_series_has_items(v: Seq<SeriesView>, user: Seq<char>, sname: Seq<char>)
    requires
        wf_view(v),
    ensures
        series_names(v, user).contains(sname) ==> items_in(v, user, series_key(sname)).len() > 0,
{
    if series_names(v, user).contains(sname) {
        let f = v.filter(owned_by(user));
        let k = choose|k: int| 0 <= k < series_names(v, user).len() && #[trigger] series_names(v, user)[k] == sname;
        assert(f[k].name == sname);
        broadcast use vstd::seq_lib::group_filter_ensures;

        assert(owned_by(user)(f[k]));
        assert(f.contains(f[k]));
        v.lemma_filter_contains_rev(owned_by(user), f[k]);
        let j = choose|j: int| 0 <= j < v.len() && v[j] == f[k];
        assert(is_for(v[j], user, series_key(sname)));
        lemma_index(v, j);
    }
}

impl WishlistDB {
    /// The users who wish for item `card_name` of series `series`, by keys.
    pub fn get_wishlisted_users(&self, series: &str, card_name: &str) -> (r: Vec<String>)
        ensures
            strings_view(r@) == users_for_item(self@, series_key(series@), item_key(card_name@)),
    {
        let sk = series_to_search_term(series);
        let ck = card_to_search_term(card_name);
        self.users_with_item(&sk, &ck)
    }
}

} // verus!
