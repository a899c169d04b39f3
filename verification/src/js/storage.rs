//! `localStorage` and `sessionStorage`: areas that hold texts by their keys.
//!
//! A change of `localStorage` is also told to the session that owns the page,
//! by a message. An area that takes every message holds what the script's area holds.
use vstd::prelude::*;
use vstd::string::*;

use crate::codec;
use crate::js::arg;
use crate::js::arg::Arg;
use crate::strmap::StringMap;

verus! {

/// A change of `localStorage`, as it is told to the session.
#[derive(Debug, PartialEq, Eq)]
pub enum LocalStorageMsg {
    /// `localStorage.setItem(key, value)`
    SetItem(String, String),
    /// `localStorage.removeItem(key)`
    RemoveItem(String),
    /// `localStorage.clear()`
    Clear,
}

/// What an area holds.
pub type Contents = Map<Seq<char>, Seq<char>>;

/// What an area holds after a change that was told.
pub open spec fn changed(m: Contents, msg: LocalStorageMsg) -> Contents {
    match msg {
        LocalStorageMsg::SetItem(k, v) => m.insert(k@, v@),
        LocalStorageMsg::RemoveItem(k) => m.remove(k@),
        LocalStorageMsg::Clear => Map::empty(),
    }
}

/// What an area holds after a change, if there was one.
pub open spec fn changed_by(m: Contents, msg: Option<LocalStorageMsg>) -> Contents {
    match msg {
        Some(c) => changed(m, c),
        None => m,
    }
}

/// What an area holds after changes that were told one after another.
pub open spec fn changed_by_all(m: Contents, msgs: Seq<Option<LocalStorageMsg>>) -> Contents
    decreases msgs.len(),
{
    if msgs.len() == 0 {
        m
    } else {
        changed_by(changed_by_all(m, msgs.drop_last()), msgs.last())
    }
}

/// A storage area.
pub struct StorageArea {
    items: StringMap<String>,
}

impl View for StorageArea {
    type V = Contents;

    closed spec fn view(&self) -> Contents {
        self.items@.map_values(|t: String| t@)
    }
}

impl StorageArea {
    /// The area holds no key twice.
    pub closed spec fn wf(&self) -> bool {
        self.items.wf()
    }

    /// The keys of the area, in the order in which `key` counts them.
    pub closed spec fn keys(&self) -> Seq<Seq<char>> {
        self.items.keys()
    }

    /// The keys that `key` counts are those of the area, each once.
    pub proof fn lemma_keys(&self)
        requires
            self.wf(),
        ensures
            self.keys().no_duplicates(),
            forall|k: Seq<char>| #[trigger] self@.contains_key(k) <==> self.keys().contains(k),
    {
        self.items.lemma_keys();
    }

    /// An area that holds nothing.
    pub fn new() -> (r: StorageArea)
        ensures
            r.wf(),
            r@ == Contents::empty(),
            r.keys() == Seq::<Seq<char>>::empty(),
    {
        let r: StorageArea = StorageArea { items: StringMap::new() };
        assert(r@ =~= Contents::empty());
        r
    }

    /// `getItem(key)`: the text kept under a key, if there is one.
    pub fn get_item(&self, args: &[Arg]) -> (r: Option<String>)
        requires
            self.wf(),
        ensures
            codec::text_view(r) == if self@.contains_key(arg::shown_at(args@, 0)) {
                Some(self@[arg::shown_at(args@, 0)])
            } else {
                None
            },
    {
        let key: String = arg::shown(args, 0);
        match self.items.get(key.as_str()) {
            Some(v) => Some(v.clone()),
            None => None,
        }
    }

    /// `setItem(key, value)`: keeps a text under a key. With fewer than two
    /// arguments nothing happens.
    pub fn set_item(&mut self, args: &[Arg]) -> (r: Option<LocalStorageMsg>)
        requires
            old(self).wf(),
        ensures
            final(self).wf(),
            r is Some <==> args@.len() >= 2,
            r matches Some(m) ==> (m matches LocalStorageMsg::SetItem(k, v) && k@ == arg::shown_at(
                args@,
                0,
            ) && v@ == arg::shown_at(args@, 1)),
            final(self)@ == changed_by(old(self)@, r),
    {
        if args.len() < 2 {
            return None;
        }
        let key: String = arg::shown(args, 0);
        let value: String = arg::shown(args, 1);
        self.items.insert(key.clone(), value.clone());
        assert(self@ =~= old(self)@.insert(key@, value@));
        Some(LocalStorageMsg::SetItem(key, value))
    }

    /// `removeItem(key)`: forgets what is kept under a key. Without an
    /// argument nothing happens.
    pub fn remove_item(&mut self, args: &[Arg]) -> (r: Option<LocalStorageMsg>)
        requires
            old(self).wf(),
        ensures
            final(self).wf(),
            r is Some <==> args@.len() >= 1,
            r matches Some(m) ==> (m matches LocalStorageMsg::RemoveItem(k) && k@ == arg::shown_at(
                args@,
                0,
            )),
            final(self)@ == changed_by(old(self)@, r),
    {
        if args.len() == 0 {
            return None;
        }
        let key: String = arg::shown(args, 0);
        self.items.remove(key.as_str());
        assert(self@ =~= old(self)@.remove(key@));
        Some(LocalStorageMsg::RemoveItem(key))
    }

    /// `clear()`: forgets everything.
    pub fn clear(&mut self) -> (r: Option<LocalStorageMsg>)
        ensures
            final(self).wf(),
            r == Some(LocalStorageMsg::Clear),
            final(self)@ == changed_by(old(self)@, r),
    {
        self.items.clear();
        assert(self@ =~= Contents::empty());
        Some(LocalStorageMsg::Clear)
    }

    /// `key(index)`: the key at a place, if there is one. `index` is missing
    /// where the script gave none.
    pub fn key(&self, index: Option<usize>) -> (r: Option<String>)
        requires
            self.wf(),
        ensures
            codec::text_view(r) == match index {
                Some(i) => if i < self.keys().len() {
                    Some(self.keys()[i as int])
                } else {
                    None
                },
                None => None,
            },
    {
        match index {
            Some(i) => match self.items.key_at(i) {
                Some(k) => Some(k.clone()),
                None => None,
            },
            None => None,
        }
    }

    /// How many texts are kept.
    pub fn len(&self) -> (r: usize)
        ensures
            r == self.keys().len(),
    {
        self.items.len()
    }

    /// Makes a change that another area told.
    pub fn apply(&mut self, msg: LocalStorageMsg)
        requires
            old(self).wf(),
        ensures
            final(self).wf(),
            final(self)@ == changed(old(self)@, msg),
    {
        match msg {
            LocalStorageMsg::SetItem(k, v) => {
                let ghost key = k@;
                let ghost value = v@;
                self.items.insert(k, v);
                assert(self@ =~= old(self)@.insert(key, value));
            },
            LocalStorageMsg::RemoveItem(k) => {
                self.items.remove(k.as_str());
                assert(self@ =~= old(self)@.remove(k@));
            },
            LocalStorageMsg::Clear => {
                self.items.clear();
                assert(self@ =~= Contents::empty());
            },
        }
    }
}

/// What was set last under a key is what is got, and keys that no change
/// speaks of keep what they had.
pub proof fn lemma_set_get(m: Contents, key: Seq<char>, value: String, other: Seq<char>, k: String)
    requires
        k@ == key,
        other != key,
    ensures
        changed(m, LocalStorageMsg::SetItem(k, value))[key] == value@,
        !changed(m, LocalStorageMsg::RemoveItem(k)).contains_key(key),
        changed(m, LocalStorageMsg::SetItem(k, value)).contains_key(other) == m.contains_key(other),
        changed(m, LocalStorageMsg::RemoveItem(k)).contains_key(other) == m.contains_key(other),
        m.contains_key(other) ==> changed(m, LocalStorageMsg::SetItem(k, value))[other] == m[other],
        m.contains_key(other) ==> changed(m, LocalStorageMsg::RemoveItem(k))[other] == m[other],
        !changed(m, LocalStorageMsg::Clear).contains_key(key),
{
}

/// The session's copy follows the script's area: where both held the same,
/// they hold the same after every one of the changes that were told.
pub proof fn lemma_copy_follows(
    area: Seq<Contents>,
    msgs: Seq<Option<LocalStorageMsg>>,
    copy: Contents,
)
    requires
        area.len() == msgs.len() + 1,
        area[0] == copy,
        forall|i: int|
            0 <= i < msgs.len() ==> #[trigger] area[i + 1] == changed_by(area[i], msgs[i]),
    ensures
        changed_by_all(copy, msgs) == area.last(),
    decreases msgs.len(),
{
    if msgs.len() > 0 {
        let n = msgs.len() as int;
        assert forall|i: int| 0 <= i < n - 1 implies #[trigger] area.drop_last()[i + 1]
            == changed_by(area.drop_last()[i], msgs.drop_last()[i]) by {
            assert(area[i + 1] == changed_by(area[i], msgs[i]));
        }
        lemma_copy_follows(area.drop_last(), msgs.drop_last(), copy);
        assert(area[(n - 1) + 1] == changed_by(area[n - 1], msgs[n - 1]));
    }
}

/// A change that was told is made, and where none was told nothing changes.
pub proof fn lemma_told_change(m: Contents, k: String, v: String)
    ensures
        changed_by(m, Some(LocalStorageMsg::SetItem(k, v)))[k@] == v@,
        !changed_by(m, Some(LocalStorageMsg::RemoveItem(k))).contains_key(k@),
        !changed_by(m, Some(LocalStorageMsg::Clear)).contains_key(k@),
        changed_by(m, None) == m,
{
}

} // verus!
