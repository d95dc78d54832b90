//! The set of Oximeter producers that have registered with the conduit.
//!
//! A producer announces its UUID, the address its collect server actually
//! bound to and its collection interval; the registry records it with the
//! moment it was last heard from. Registration is keyed by the UUID:
//! a renewal, or a restart on another port, overwrites the earlier entry.

use std::collections::HashMap;
use core::time::Duration;

use vstd::prelude::*;
use vstd::std_specs::iter::IteratorSpec;

verus! {

broadcast use vstd::std_specs::hash::group_hash_axioms;

/// The registration a producer sends: its id (the UUID as a 128-bit
/// integer), the text of the address its collect server listens on, and
/// the interval at which it expects to be collected.
pub struct ProducerEndpoint {
    pub id: u128,
    pub address: String,
    pub interval: Duration,
}

/// One registered producer and the moment we last heard from it (milliseconds
/// since the Unix epoch).
pub struct Producer {
    pub id: u128,
    pub address: String,
    pub interval: Duration,
    pub last_heard_ms: i64,
}

/// The mathematical value of a [`Producer`].
pub struct ProducerView {
    pub id: u128,
    pub address: Seq<char>,
    pub interval: Duration,
    pub last_heard_ms: i64,
}

impl View for Producer {
    type V = ProducerView;

    open spec fn view(&self) -> ProducerView {
        ProducerView {
            id: self.id,
            address: self.address@,
            interval: self.interval,
            last_heard_ms: self.last_heard_ms,
        }
    }
}

/// The producer recorded from a registration heard at `now_ms`.
pub open spec fn heard_from(endpoint: ProducerEndpoint, now_ms: i64) -> ProducerView {
    ProducerView {
        id: endpoint.id,
        address: endpoint.address@,
        interval: endpoint.interval,
        last_heard_ms: now_ms,
    }
}

impl Clone for Producer {
    fn clone(&self) -> (res: Self)
        ensures
            res@ == self@,
    {
        Producer {
            id: self.id,
            address: self.address.clone(),
            interval: self.interval,
            last_heard_ms: self.last_heard_ms,
        }
    }
}

/// Registered producers keyed by producer id.
pub struct Registry {
    producers: HashMap<u128, Producer>,
}

impl Registry {
    /// Every entry is filed under its own producer's id.
    #[verifier::type_invariant]
    spec fn keyed_by_id(self) -> bool {
        forall|k: u128| #[trigger]
            self.producers@.contains_key(k) ==> self.producers@[k].id == k
    }

    /// The registered producers, by id.
    pub closed spec fn entries(self) -> Map<u128, ProducerView> {
        self.producers@.map_values(|p: Producer| p@)
    }
}

impl View for Registry {
    type V = Map<u128, ProducerView>;

    open spec fn view(&self) -> Map<u128, ProducerView> {
        self.entries()
    }
}

/// The views of a sequence of producers.
pub open spec fn producer_views(ps: Seq<Producer>) -> Seq<ProducerView> {
    ps.map_values(|p: Producer| p@)
}

/// `s` lists the producers of `m`, each exactly once: it is as long as `m`,
/// each entry is the producer that `m` holds under that entry's id, every
/// id of `m` occurs, and no id occurs twice.
pub open spec fn lists_each_once(m: Map<u128, ProducerView>, s: Seq<ProducerView>) -> bool {
    &&& s.len() == m.len()
    &&& forall|i: int| 0 <= i < s.len() ==> m.contains_key(#[trigger] s[i].id) && m[s[i].id] == s[i]
    &&& forall|k: u128| #[trigger] m.contains_key(k) ==> exists|i: int| 0 <= i < s.len() && #[trigger] s[i].id == k
    &&& forall|i: int, j: int| 0 <= i < s.len() && 0 <= j < s.len() && i != j ==> #[trigger] s[i].id != #[trigger] s[j].id
}

impl Registry {
    /// An empty registry.
    pub fn new() -> (res: Self)
        ensures
            res@ == Map::<u128, ProducerView>::empty(),
    {
        let r = Registry { producers: HashMap::new() };
        assert(r@ =~= Map::<u128, ProducerView>::empty());
        r
    }

    /// Records (or refreshes) a producer from its registration, heard at
    /// `now_ms`: the entry for its id becomes exactly what it announced, last
    /// heard from at `now_ms`, and no other entry changes.
    pub fn upsert(&mut self, endpoint: &ProducerEndpoint, now_ms: i64)
        ensures
            final(self)@ == old(self)@.insert(endpoint.id, heard_from(*endpoint, now_ms)),
    {
        proof {
            use_type_invariant(&*self);
        }
        let producer = Producer {
            id: endpoint.id,
            address: endpoint.address.clone(),
            interval: endpoint.interval,
            last_heard_ms: now_ms,
        };
        let ghost before = self.producers@;
        let mut producers: HashMap<u128, Producer> = HashMap::new();
        std::mem::swap(&mut producers, &mut self.producers);
        producers.insert(endpoint.id, producer);
        assert(producers@ == before.insert(endpoint.id, producer));
        self.producers = producers;
        assert(self@ =~= old(self)@.insert(endpoint.id, heard_from(*endpoint, now_ms)));
    }

    /// Every registered producer, once each, in no particular order.
    pub fn snapshot(&self) -> (res: Vec<Producer>)
        ensures
            lists_each_once(self@, producer_views(res@)),
    {
        proof {
            use_type_invariant(self);
        }
        let mut res: Vec<Producer> = Vec::new();
        for (k, p) in it: self.producers.iter()
            invariant
                res.len() == it.index(),
                it.seq() == vstd::std_specs::hash::spec_hash_map_iter(&self.producers).remaining(),
                forall|i: int| 0 <= i < it.index() ==> #[trigger] res@[i]@ == (*it.seq()[i].1)@,
        {
            res.push(p.clone());
        }
        proof {
            let v = vstd::std_specs::hash::spec_hash_map_iter(&self.producers).remaining();
            let m = self.producers@;
            assert(self@.dom() =~= m.dom());
            let rv = producer_views(res@);
            assert forall|i: int| 0 <= i < rv.len() implies self@.contains_key(
                #[trigger] rv[i].id,
            ) && self@[rv[i].id] == rv[i] by {
                let key = *v[i].0;
                assert(m.contains_key(key) && m[key] == *v[i].1);
                assert(m[key].id == key);
                assert(res@[i]@ == (*v[i].1)@);
                assert(self@[key] == m[key]@);
            }
            assert forall|k: u128| #[trigger] self@.contains_key(k) implies exists|i: int|
                0 <= i < rv.len() && #[trigger] rv[i].id == k by {
                assert(m.contains_key(k));
                assert(v.contains((&k, &m[k])));
                let i = choose|i: int| 0 <= i < v.len() && v[i] == (&k, &m[k]);
                assert(res@[i]@ == m[k]@);
                assert(rv[i].id == k);
            }
            assert forall|i: int, j: int| 0 <= i < rv.len() && 0 <= j < rv.len() && i != j
                implies #[trigger] rv[i].id != #[trigger] rv[j].id by {
                let ki = *v[i].0;
                let kj = *v[j].0;
                assert(m.contains_key(ki) && m[ki] == *v[i].1);
                assert(m.contains_key(kj) && m[kj] == *v[j].1);
                assert(m[ki].id == ki);
                assert(m[kj].id == kj);
                assert(res@[i]@ == (*v[i].1)@);
                assert(res@[j]@ == (*v[j].1)@);
                if ki == kj {
                    assert(v[i] == v[j]);
                }
            }
        }
        res
    }
}


/// After a producer registers, a snapshot lists it exactly once, as it last
/// announced itself and with the moment of that registration; a renewal (same id) does not grow the registry, a new
/// id grows it by one.
pub proof fn lemma_registration_visible_once(
    before: Map<u128, ProducerView>,
    endpoint: ProducerView,
    listed: Seq<ProducerView>,
)
    requires
        lists_each_once(before.insert(endpoint.id, endpoint), listed),
    ensures
        exists|i: int| 0 <= i < listed.len() && #[trigger] listed[i] == endpoint,
        forall|i: int, j: int|
            0 <= i < listed.len() && 0 <= j < listed.len() && #[trigger] listed[i].id == endpoint.id
                && #[trigger] listed[j].id == endpoint.id ==> i == j,
        before.dom().finite() ==> listed.len() == if before.contains_key(endpoint.id) {
            before.len()
        } else {
            before.len() + 1
        },
{
    let after = before.insert(endpoint.id, endpoint);
    assert(after.contains_key(endpoint.id));
    let i = choose|i: int| 0 <= i < listed.len() && #[trigger] listed[i].id == endpoint.id;
    assert(after[listed[i].id] == listed[i]);
    if before.dom().finite() {
        if before.contains_key(endpoint.id) {
            assert(after.dom() =~= before.dom());
        } else {
            assert(after.dom() =~= before.dom().insert(endpoint.id));
        }
    }
}

} // verus!
