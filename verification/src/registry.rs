//! The supervisors' single-instance guard: one watcher and one poller per
//! project key. Registering a key twice is refused; stopping drains every
//! key at once.
use vstd::prelude::*;
use vstd::string::*;
use crate::strutil::{seq_contains_str, vec_contains_str};

verus! {

/// The set of project keys with a running instance, as the order they were
/// registered in.
pub struct Registry {
    keys: Vec<String>,
}

impl View for Registry {
    type V = Seq<Seq<char>>;

    closed spec fn view(&self) -> Seq<Seq<char>> {
        self.keys@.map_values(|x: String| x@)
    }
}

impl Registry {
    pub open spec fn wf(self) -> bool {
        forall|p: int, q: int| 0 <= p < q < self@.len() ==> self@[p] != self@[q]
    }

    pub fn new() -> (r: Self)
        ensures
            r.wf(),
            r@.len() == 0,
    {
        let r = Registry { keys: Vec::new() };
        proof {
            assert(r@ =~= Seq::<Seq<char>>::empty());
        }
        r
    }

    pub fn is_registered(&self, key: &str) -> (r: bool)
        ensures
            r == seq_contains_str(self@, key@),
    {
        vec_contains_str(&self.keys, key)
    }

    /// Registers a key; refused exactly when it is already registered, in
    /// which case nothing changes.
    pub fn try_register(&mut self, key: String) -> (r: bool)
        requires
            old(self).wf(),
        ensures
            final(self).wf(),
            r == !seq_contains_str(old(self)@, key@),
            r ==> final(self)@ == old(self)@.push(key@),
            !r ==> final(self)@ == old(self)@,
    {
        if vec_contains_str(&self.keys, key.as_str()) {
            false
        } else {
            let ghost kb = self@;
            self.keys.push(key);
            proof {
                assert(self@ =~= kb.push(self.keys@.last()@));
                assert(forall|p: int| 0 <= p < kb.len() ==> self@[p] == kb[p]);
            }
            true
        }
    }

    /// Removes and returns every registered key, so each running instance
    /// can be sent its stop signal.
    pub fn drain(&mut self) -> (r: Vec<String>)
        requires
            old(self).wf(),
        ensures
            final(self).wf(),
            final(self)@.len() == 0,
            r@.map_values(|x: String| x@) == old(self)@,
    {
        let mut out: Vec<String> = Vec::new();
        core::mem::swap(&mut out, &mut self.keys);
        proof {
            assert(self@ =~= Seq::<Seq<char>>::empty());
        }
        out
    }
}

} // verus!
