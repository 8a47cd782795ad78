//! The key/value store and the execution of one command against it.

use vstd::prelude::*;
use vstd::slice::slice_to_vec;
use vstd::string::StringExecFns;
use crate::command::{Command, CommandView};
use crate::error::{Error, ErrorView};
use crate::frame::{Frame, FrameView};

verus! {

/// Keys (text) mapped to values (bytes).
pub struct Storage {
    entries: Vec<(String, Vec<u8>)>,
    model: Ghost<Map<Seq<char>, Seq<u8>>>,
}

impl View for Storage {
    type V = Map<Seq<char>, Seq<u8>>;

    closed spec fn view(&self) -> Map<Seq<char>, Seq<u8>> {
        self.model@
    }
}

impl Storage {
    closed spec fn key_at(&self, i: int) -> Seq<char> {
        self.entries@[i].0@
    }

    /// Each key stands once in `entries`, and the model maps it to its value.
    pub closed spec fn wf(&self) -> bool {
        &&& self.model@.dom().finite()
        &&& self.model@.dom().len() == self.entries@.len()
        &&& forall|i: int, j: int|
            0 <= i < j < self.entries@.len() ==> #[trigger] self.key_at(i) != #[trigger] self.key_at(j)
        &&& forall|i: int|
            0 <= i < self.entries@.len() ==> self.model@.contains_key(#[trigger] self.key_at(i))
                && self.model@[self.key_at(i)] == self.entries@[i].1@
        &&& forall|k: Seq<char>|
            #[trigger] self.model@.contains_key(k) ==> exists|i: int|
                0 <= i < self.entries@.len() && self.key_at(i) == k
    }

    pub fn new() -> (r: Storage)
        ensures
            r.wf(),
            r@ == Map::<Seq<char>, Seq<u8>>::empty(),
    {
        Storage { entries: Vec::new(), model: Ghost(Map::empty()) }
    }

    fn find(&self, key: &String) -> (r: Option<usize>)
        requires
            self.wf(),
        ensures
            match r {
                Some(i) => i < self.entries@.len() && self.key_at(i as int) == key@,
                None => !self@.contains_key(key@),
            },
    {
        let mut i: usize = 0;
        while i < self.entries.len()
            invariant
                self.wf(),
                i <= self.entries@.len(),
                forall|j: int| 0 <= j < i ==> self.key_at(j) != key@,
            decreases self.entries@.len() - i,
        {
            if self.entries[i].0 == *key {
                return Some(i);
            }
            i = i + 1;
        }
        None
    }

    /// The value stored under `key`.
    pub fn get(&self, key: &String) -> (r: Option<Vec<u8>>)
        requires
            self.wf(),
        ensures
            match r {
                Some(v) => self@.contains_key(key@) && v@ == self@[key@],
                None => !self@.contains_key(key@),
            },
    {
        match self.find(key) {
            Some(i) => Some(slice_to_vec(self.entries[i].1.as_slice())),
            None => None,
        }
    }

    /// Stores `value` under `key`, replacing what was there.
    pub fn insert(&mut self, key: String, value: Vec<u8>)
        requires
            old(self).wf(),
        ensures
            final(self).wf(),
            final(self)@ == old(self)@.insert(key@, value@),
    {
        let ghost k = key@;
        let ghost v = value@;
        match self.find(&key) {
            Some(i) => {
                self.entries[i] = (key, value);
                self.model = Ghost(self.model@.insert(k, v));
                assert(self.model@.dom() =~= old(self).model@.dom());
                assert forall|j: int| 0 <= j < self.entries@.len() && j != i implies
                    #[trigger] self.key_at(j) == old(self).key_at(j) by {}
                assert forall|kk: Seq<char>| #[trigger] self.model@.contains_key(kk) implies exists|j: int|
                    0 <= j < self.entries@.len() && self.key_at(j) == kk by {
                    if kk != k {
                        let j = choose|j: int| 0 <= j < old(self).entries@.len() && old(self).key_at(j) == kk;
                        assert(self.key_at(j) == kk);
                    } else {
                        assert(self.key_at(i as int) == kk);
                    }
                }
            },
            None => {
                self.entries.push((key, value));
                self.model = Ghost(self.model@.insert(k, v));
                let ghost n = old(self).entries@.len() as int;
                assert forall|j: int| 0 <= j < n implies #[trigger] self.key_at(j) == old(self).key_at(j) by {}
                assert(self.key_at(n) == k);
                assert forall|kk: Seq<char>| #[trigger] self.model@.contains_key(kk) implies exists|j: int|
                    0 <= j < self.entries@.len() && self.key_at(j) == kk by {
                    if kk != k {
                        let j = choose|j: int| 0 <= j < n && old(self).key_at(j) == kk;
                        assert(self.key_at(j) == kk);
                    } else {
                        assert(self.key_at(n) == kk);
                    }
                }
            },
        }
    }

    /// Removes `key`; whether it was there.
    pub fn remove(&mut self, key: &String) -> (r: bool)
        requires
            old(self).wf(),
        ensures
            final(self).wf(),
            r == old(self)@.contains_key(key@),
            final(self)@ == old(self)@.remove(key@),
    {
        match self.find(key) {
            Some(i) => {
                let ghost k = key@;
                let ghost n = old(self).entries@.len() as int;
                self.entries.swap_remove(i);
                self.model = Ghost(self.model@.remove(k));
                assert forall|j: int| 0 <= j < self.entries@.len() implies
                    #[trigger] self.key_at(j) == (if j == i { old(self).key_at(n - 1) } else { old(self).key_at(j) }) by {}
                assert forall|kk: Seq<char>| #[trigger] self.model@.contains_key(kk) implies exists|j: int|
                    0 <= j < self.entries@.len() && self.key_at(j) == kk by {
                    let j = choose|j: int| 0 <= j < n && old(self).key_at(j) == kk;
                    if j == n - 1 {
                        assert(self.key_at(i as int) == kk);
                    } else {
                        assert(self.key_at(j) == kk);
                    }
                }
                true
            },
            None => {
                assert(self.model@.remove(key@) =~= self.model@);
                false
            },
        }
    }

    /// How many keys are stored.
    pub fn len(&self) -> (r: usize)
        requires
            self.wf(),
        ensures
            r == self@.len(),
    {
        self.entries.len()
    }

    /// Every stored value, once each, in no promised order.
    pub fn values(&self) -> (r: Vec<Vec<u8>>)
        requires
            self.wf(),
        ensures
            exists|ks: Seq<Seq<char>>| #[trigger] lists_map(ks, byte_views(r@), self@),
    {
        let mut out: Vec<Vec<u8>> = Vec::new();
        let mut i: usize = 0;
        while i < self.entries.len()
            invariant
                self.wf(),
                i <= self.entries@.len(),
                out@.len() == i,
                forall|j: int| 0 <= j < i ==> (#[trigger] out@[j])@ == self.entries@[j].1@,
            decreases self.entries@.len() - i,
        {
            out.push(slice_to_vec(self.entries[i].1.as_slice()));
            i = i + 1;
        }
        let ghost ks = Seq::new(self.entries@.len(), |j: int| self.key_at(j));
        proof {
            assert(ks.no_duplicates());
            assert(ks.to_set() =~= self@.dom()) by {
                assert forall|k: Seq<char>| self@.dom().contains(k) implies ks.to_set().contains(k) by {
                    let j = choose|j: int| 0 <= j < self.entries@.len() && self.key_at(j) == k;
                    assert(ks[j] == k);
                }
            }
            assert(byte_views(out@) =~= Seq::new(self.entries@.len(), |j: int| self.entries@[j].1@));
            assert(lists_map(ks, byte_views(out@), self@));
        }
        out
    }
}

pub open spec fn byte_views(v: Seq<Vec<u8>>) -> Seq<Seq<u8>> {
    Seq::new(v.len(), |i: int| v[i]@)
}

/// `vs` holds the value of each key of `m` once: `ks` names the key of each
/// position.
pub open spec fn lists_map(ks: Seq<Seq<char>>, vs: Seq<Seq<u8>>, m: Map<Seq<char>, Seq<u8>>) -> bool {
    &&& ks.no_duplicates()
    &&& ks.to_set() == m.dom()
    &&& ks.len() == vs.len()
    &&& forall|i: int| 0 <= i < ks.len() ==> vs[i] == m[#[trigger] ks[i]]
}

/// The values of `items`, where each is a bulk string.
pub open spec fn bulk_values(items: Seq<FrameView>) -> Seq<Seq<u8>> {
    Seq::new(items.len(), |i: int| items[i]->Bulk_0)
}

/// What executing `c` on the map `m` answers and leaves, where the answer
/// does not depend on an order (all but `All`).
pub open spec fn executes(c: CommandView, m: Map<Seq<char>, Seq<u8>>, r: Result<FrameView, ErrorView>, after: Map<Seq<char>, Seq<u8>>) -> bool {
    match c {
        CommandView::Get(k) => after == m && r == if m.contains_key(k) {
            Ok::<FrameView, ErrorView>(FrameView::Bulk(m[k]))
        } else {
            Ok(FrameView::Null)
        },
        CommandView::SetValue(k, v) => after == m.insert(k, v) && r == Ok::<FrameView, ErrorView>(FrameView::Simple("Ok"@)),
        CommandView::Delete(k) => after == m.remove(k) && r == if m.contains_key(k) {
            Ok::<FrameView, ErrorView>(FrameView::Simple("Ok"@))
        } else {
            Err(ErrorView::Storage("remove failed"@))
        },
        CommandView::Len => after == m && r == Ok::<FrameView, ErrorView>(FrameView::Integer(m.len() as u64)),
        CommandView::All => after == m && (r matches Ok(FrameView::Array(items))
            && (forall|i: int| 0 <= i < items.len() ==> #[trigger] items[i] is Bulk)
            && exists|ks: Seq<Seq<char>>| #[trigger] lists_map(ks, bulk_values(items), m)),
        CommandView::Ping => after == m && r == Ok::<FrameView, ErrorView>(FrameView::Simple("PONG"@)),
    }
}

pub open spec fn result_view(r: Result<Frame, Error>) -> Result<FrameView, ErrorView> {
    match r {
        Ok(f) => Ok(f@),
        Err(e) => Err(e@),
    }
}

/// Runs one command against the store and gives the response frame.
pub fn execute(command: Command, storage: &mut Storage) -> (r: Result<Frame, Error>)
    requires
        old(storage).wf(),
    ensures
        final(storage).wf(),
        executes(command@, old(storage)@, result_view(r), final(storage)@),
{
    let ghost c = command@;
    match command {
        Command::Get(get) => match storage.get(get.key()) {
            Some(value) => Ok(Frame::BulkString(value)),
            None => Ok(Frame::Null),
        },
        Command::SetValue(set) => {
            let key = String::from_str(set.key().as_str());
            let value = slice_to_vec(set.value().as_slice());
            storage.insert(key, value);
            Ok(Frame::Simple(String::from_str("Ok")))
        },
        Command::Delete(delete) => {
            if storage.remove(delete.key()) {
                Ok(Frame::Simple(String::from_str("Ok")))
            } else {
                Err(Error::Storage(String::from_str("remove failed")))
            }
        },
        Command::Len => {
            let len = storage.len() as u64;
            Ok(Frame::Integer(len))
        },
        Command::All => {
            let values = storage.values();
            let ghost vs = byte_views(values@);
            let mut all: Vec<Frame> = Vec::new();
            let mut i: usize = 0;
            while i < values.len()
                invariant
                    i <= values@.len(),
                    all@.len() == i,
                    vs == byte_views(values@),
                    forall|j: int| 0 <= j < i ==> (#[trigger] all@[j])@ == FrameView::Bulk(vs[j]),
                decreases values@.len() - i,
            {
                all.push(Frame::BulkString(slice_to_vec(values[i].as_slice())));
                i = i + 1;
            }
            let r = Frame::Array(all);
            proof {
                if let FrameView::Array(items) = r@ {
                    assert(bulk_values(items) =~= vs);
                }
            }
            Ok(r)
        },
        Command::Ping => Ok(Frame::Simple(String::from_str("PONG"))),
    }
}

} // verus!
