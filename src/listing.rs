//! Instructions stored by the address they came from.
use vstd::prelude::*;
use crate::ir::{Addr, Inst};
use std::collections::BTreeMap;
use vstd::std_specs::btree::spec_keys_iter;
use vstd::std_specs::iter::IteratorSpec;
use vstd::std_specs::cmp::OrdSpec;

verus! {

broadcast use vstd::std_specs::btree::group_btree_axioms, vstd::laws_cmp::group_laws_cmp;

/// An address-ordered store of the instructions found at each address, in the
/// order they were added.
#[derive(Debug)]
pub struct CodeListing(BTreeMap<Addr, Vec<Inst>>);

impl View for CodeListing {
    type V = Map<Addr, Seq<Inst>>;

    closed spec fn view(&self) -> Map<Addr, Seq<Inst>> {
        self.0@.map_values(|v: Vec<Inst>| v@)
    }
}

/// The instructions stored at `addr`, none where nothing is.
pub open spec fn at_address(m: Map<Addr, Seq<Inst>>, addr: Addr) -> Seq<Inst> {
    if m.contains_key(addr) {
        m[addr]
    } else {
        Seq::empty()
    }
}

impl CodeListing {
    /// An empty listing.
    pub fn new() -> (r: Self)
        ensures
            r@ == Map::<Addr, Seq<Inst>>::empty(),
    {
        let r = CodeListing(BTreeMap::new());
        assert(r@ =~= Map::<Addr, Seq<Inst>>::empty());
        r
    }

    /// Appends `inst` to the instructions stored at `addr`.
    pub fn insert(&mut self, addr: Addr, inst: Inst)
        ensures
            final(self)@ == old(self)@.insert(addr, at_address(old(self)@, addr).push(inst)),
    {
        let ghost before = self@;
        let mut list = match self.0.remove(&addr) {
            Some(v) => v,
            None => Vec::new(),
        };
        assert(list@ =~= at_address(before, addr));
        list.push(inst);
        self.0.insert(addr, list);
        assert(self@ =~= before.insert(addr, at_address(before, addr).push(inst)));
    }

    /// The instructions stored at `addr`, if any.
    pub fn get(&self, addr: Addr) -> (r: Option<&Vec<Inst>>)
        ensures
            match r {
                Some(v) => self@.contains_key(addr) && v@ == self@[addr],
                None => !self@.contains_key(addr),
            },
    {
        self.0.get(&addr)
    }

    /// The addresses that hold instructions, in increasing order.
    pub fn addresses(&self) -> (r: Vec<Addr>)
        ensures
            r@.to_set() == self@.dom(),
            forall|i: int, j: int| 0 <= i < j < r@.len() ==> r@[i] < r@[j],
    {
        let mut r: Vec<Addr> = Vec::new();
        for a in it: self.0.keys()
            invariant
                r@.len() == it.index(),
                it.seq() == spec_keys_iter(&self.0).remaining(),
                forall|k: int| 0 <= k < r@.len() ==> r@[k] == *it.seq()[k],
        {
            r.push(*a);
        }
        proof {
            let ks = spec_keys_iter(&self.0).remaining();
            assert(r@ =~= ks.unref());
            assert(vstd::laws_cmp::obeys_cmp::<&u32>());
            assert(vstd::std_specs::btree::increasing_seq(ks));
            assert forall|i: int, j: int| 0 <= i < j < r@.len() implies r@[i] < r@[j] by {
                assert(<&u32 as OrdSpec>::cmp_spec(&ks[i], &ks[j]) is Less);
            }
            assert(self@.dom() =~= self.0@.dom());
        }
        r
    }

    /// The number of addresses that hold instructions.
    pub fn len(&self) -> (r: usize)
        ensures
            r == self@.len(),
    {
        proof {
            assert(self@.dom() =~= self.0@.dom());
        }
        self.0.len()
    }
}

} // verus!
