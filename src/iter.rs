//! Walks over the entries of a `RandMap`, in the table's own order.
use crate::handle::Handle;
use crate::map::RandMap;
use vstd::prelude::*;

verus! {

/// Walks over `(handle, &value)` for every entry of a map.
pub struct Iter<'a, V> {
    map: &'a RandMap<V>,
    keys: Vec<u64>,
    pos: usize,
}

impl<'a, V> Iter<'a, V> {
    /// The entries being walked over.
    pub closed spec fn source(&self) -> Map<u64, V> {
        self.map@
    }

    /// The raw handles still to come, in order.
    pub closed spec fn remaining(&self) -> Seq<u64> {
        self.keys@.subrange(self.pos as int, self.keys@.len() as int)
    }

    /// Every handle still to come is an entry of the source, and comes once.
    pub closed spec fn wf(&self) -> bool {
        &&& self.pos <= self.keys@.len()
        &&& self.keys@.no_duplicates()
        &&& self.keys@.to_set() == self.map@.dom()
    }

    /// Starts a walk over `map`, which hands out every entry once.
    pub fn new(map: &'a RandMap<V>) -> (it: Self)
        ensures
            it.wf(),
            it.source() == map@,
            it.remaining().no_duplicates(),
            it.remaining().to_set() == map@.dom(),
    {
        let keys = map.keys();
        let it = Iter { map, keys, pos: 0 };
        assert(it.remaining() == keys@);
        it
    }

    /// The next entry, or `None` once every entry has been handed out.
    pub fn next(&mut self) -> (r: Option<(Handle<V>, &'a V)>)
        requires
            old(self).wf(),
        ensures
            final(self).wf(),
            final(self).source() == old(self).source(),
            match r {
                Some((h, v)) => {
                    &&& old(self).remaining().len() > 0
                    &&& h.raw == old(self).remaining()[0]
                    &&& old(self).source().contains_key(h.raw)
                    &&& *v == old(self).source()[h.raw]
                    &&& final(self).remaining() == old(self).remaining().drop_first()
                },
                None => old(self).remaining().len() == 0 && final(self).remaining() == old(
                    self,
                ).remaining(),
            },
    {
        if self.pos >= self.keys.len() {
            return None;
        }
        let k = self.keys[self.pos];
        assert(self.keys@.to_set().contains(k));
        self.pos = self.pos + 1;
        assert(self.remaining() =~= old(self).remaining().drop_first());
        let h = Handle::from_u64(k);
        match self.map.get(h) {
            Some(v) => Some((h, v)),
            None => None,
        }
    }
}

/// The handles of `items`, each with the value that its place holds now.
pub open spec fn pairs_of<'a, V>(items: Seq<(u64, &'a mut V)>) -> Seq<(u64, V)> {
    items.map_values(|p: (u64, &'a mut V)| (p.0, *p.1))
}

/// Walks over `(handle, &mut value)` for every entry of a map. Each value
/// may be changed in place; no entry is added or taken away.
///
/// `items` holds the entries still to come, each with a place for its value;
/// they are handed out from the back.
pub struct IterMut<'a, V> {
    pub items: Vec<(u64, &'a mut V)>,
}

impl<'a, V> IterMut<'a, V> {
    /// The next entry, with a place for its value, or `None` once every
    /// entry has been handed out.
    pub fn next(&mut self) -> (r: Option<(Handle<V>, &'a mut V)>)
        ensures
            match r {
                Some((h, v)) => {
                    &&& old(self).items@.len() > 0
                    &&& h.raw == old(self).items@.last().0
                    &&& *v == *old(self).items@.last().1
                    &&& *final(v) == *final(old(self).items@.last().1)
                    &&& final(self).items@ == old(self).items@.drop_last()
                },
                None => old(self).items@.len() == 0 && final(self).items@ == old(self).items@,
            },
    {
        match self.items.pop() {
            Some((k, v)) => Some((Handle::from_u64(k), v)),
            None => None,
        }
    }
}

} // verus!
