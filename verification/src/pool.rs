use vstd::prelude::*;

verus! {

/// The free slots of the sandbox pool, in first-in first-out order. The
/// waiting and waking around it belong to the runtime; this state says which
/// slots are free.
#[derive(Debug)]
pub struct SlotPool {
    pub free: Vec<usize>,
}

impl View for SlotPool {
    type V = Seq<usize>;

    open spec fn view(&self) -> Seq<usize> {
        self.free@
    }
}

impl SlotPool {
    /// The pool of slots `0` to `n - 1`, all free.
    pub fn new(n: usize) -> (r: SlotPool)
        ensures
            r@ == Seq::new(n as nat, |i: int| i as usize),
    {
        let mut free: Vec<usize> = Vec::new();
        let mut i: usize = 0;
        while i < n
            invariant
                0 <= i <= n,
                free@ =~= Seq::new(i as nat, |k: int| k as usize),
            decreases n - i,
        {
            free.push(i);
            proof {
                assert(free@ =~= Seq::new((i + 1) as nat, |k: int| k as usize));
            }
            i = i + 1;
        }
        SlotPool { free }
    }

    /// Leases the slot that has been free longest; nothing where none is free.
    pub fn try_take(&mut self) -> (r: Option<usize>)
        ensures
            match r {
                Some(id) => old(self)@.len() > 0 && id == old(self)@[0] && final(self)@ == old(
                    self,
                )@.skip(1),
                None => old(self)@.len() == 0 && final(self)@ == old(self)@,
            },
    {
        if self.free.len() == 0 {
            return None;
        }
        let id = self.free.remove(0);
        proof {
            assert(self@ =~= old(self)@.skip(1));
        }
        Some(id)
    }

    /// Returns a slot to the back of the queue.
    pub fn put(&mut self, id: usize)
        ensures
            final(self)@ == old(self)@.push(id),
    {
        self.free.push(id);
    }

    pub fn len(&self) -> (r: usize)
        ensures
            r == self@.len(),
    {
        self.free.len()
    }
}

/// Taking a slot and putting it straight back never changes what the pool
/// holds: the two states carry the same multiset of slot ids.
pub proof fn lemma_put_after_take_is_noop(s: Seq<usize>)
    requires
        s.len() > 0,
    ensures
        s.skip(1).push(s[0]).to_multiset() =~= s.to_multiset(),
{
    broadcast use vstd::seq_lib::group_to_multiset_ensures;

    assert(s.skip(1) =~= s.remove(0));
    assert(s.remove(0).to_multiset() =~= s.to_multiset().remove(s[0]));
    assert(s.skip(1).push(s[0]).to_multiset() =~= s.skip(1).to_multiset().insert(s[0]));
    assert(s.contains(s[0]));
    assert(s.to_multiset().count(s[0]) > 0);
    assert forall|x: usize|
        s.to_multiset().remove(s[0]).insert(s[0]).count(x) == s.to_multiset().count(x) by {
    }
    assert(s.to_multiset().remove(s[0]).insert(s[0]) =~= s.to_multiset());
}

} // verus!
