//! What a server announced in its reply to `EHLO`: its name and its capabilities.

use vstd::prelude::*;
use crate::data_types::{params_view, Capability, Domain, EhloParam};
use crate::grammar::{is_keyword, upper};

verus! {

/// The capabilities of a server as mathematics: from each keyword, in upper
/// case, to the texts of its parameters in their order.
pub type Capabilities = Map<Seq<char>, Seq<Seq<char>>>;

/// The map that holds, for each position, the value at that position under
/// the key at that position; of two equal keys the later one counts.
pub open spec fn map_of(keys: Seq<Seq<char>>, values: Seq<Seq<Seq<char>>>) -> Capabilities
    recommends
        keys.len() == values.len(),
    decreases keys.len(),
{
    if keys.len() == 0 {
        Map::empty()
    } else {
        map_of(keys.drop_last(), values.drop_last()).insert(keys.last(), values.last())
    }
}

/// No key stands at two positions.
pub open spec fn distinct(keys: Seq<Seq<char>>) -> bool {
    forall|i: int, j: int| 0 <= i < j < keys.len() ==> keys[i] != keys[j]
}

/// The keys of `map_of` are the keys listed; where they are distinct, each has
/// the value at its own position and the map has as many entries as the list.
pub proof fn lemma_map_of(keys: Seq<Seq<char>>, values: Seq<Seq<Seq<char>>>)
    requires
        keys.len() == values.len(),
    ensures
        map_of(keys, values).dom().finite(),
        forall|k: Seq<char>| #[trigger]
            map_of(keys, values).contains_key(k) <==> exists|i: int|
                0 <= i < keys.len() && keys[i] == k,
        distinct(keys) ==> map_of(keys, values).len() == keys.len(),
        distinct(keys) ==> forall|i: int|
            0 <= i < keys.len() ==> map_of(keys, values)[#[trigger] keys[i]] == values[i],
    decreases keys.len(),
{
    if keys.len() > 0 {
        let ks = keys.drop_last();
        let vs = values.drop_last();
        let m = map_of(ks, vs);
        lemma_map_of(ks, vs);
        assert forall|k: Seq<char>| #[trigger]
            map_of(keys, values).contains_key(k) <==> exists|i: int|
                0 <= i < keys.len() && keys[i] == k by {
            if m.contains_key(k) {
                let i = choose|i: int| 0 <= i < ks.len() && ks[i] == k;
                assert(keys[i] == k);
            }
            if k == keys.last() {
                assert(keys[keys.len() - 1] == k);
            }
            if exists|i: int| 0 <= i < keys.len() && keys[i] == k {
                let i = choose|i: int| 0 <= i < keys.len() && keys[i] == k;
                if i < ks.len() {
                    assert(ks[i] == k);
                }
            }
        }
        if distinct(keys) {
            assert(distinct(ks)) by {
                assert forall|i: int, j: int| 0 <= i < j < ks.len() implies ks[i] != ks[j] by {
                    assert(keys[i] != keys[j]);
                }
            }
            assert(!m.contains_key(keys.last())) by {
                if m.contains_key(keys.last()) {
                    let i = choose|i: int| 0 <= i < ks.len() && ks[i] == keys.last();
                    assert(keys[i] != keys[keys.len() - 1]);
                }
            }
            assert forall|i: int| 0 <= i < keys.len() implies map_of(
                keys,
                values,
            )[#[trigger] keys[i]] == values[i] by {
                if i < ks.len() {
                    assert(keys[i] != keys[keys.len() - 1]);
                    assert(ks[i] == keys[i]);
                    assert(m[ks[i]] == vs[i]);
                }
            }
        }
    }
}

/// The texts of the keys held.
pub open spec fn key_views(keys: Seq<Capability>) -> Seq<Seq<char>> {
    Seq::new(keys.len(), |i: int| keys[i]@)
}

/// The texts of the parameter lists held.
pub open spec fn value_views(values: Seq<Vec<EhloParam>>) -> Seq<Seq<Seq<char>>> {
    Seq::new(values.len(), |i: int| params_view(values[i]@))
}

/// The capabilities of a server, each with its parameters. No capability is
/// held twice.
#[derive(Debug)]
pub struct CapabilityMap {
    keys: Vec<Capability>,
    values: Vec<Vec<EhloParam>>,
}

impl View for CapabilityMap {
    type V = Capabilities;

    closed spec fn view(&self) -> Capabilities {
        map_of(key_views(self.keys@), value_views(self.values@))
    }
}

impl CapabilityMap {
    #[verifier::type_invariant]
    spec fn valid(&self) -> bool {
        &&& self.keys@.len() == self.values@.len()
        &&& distinct(key_views(self.keys@))
    }

    /// The map without entries.
    pub fn new() -> (r: CapabilityMap)
        ensures
            r@ == Capabilities::empty(),
    {
        CapabilityMap { keys: Vec::new(), values: Vec::new() }
    }

    /// The number of capabilities.
    pub fn len(&self) -> (n: usize)
        ensures
            self@.dom().finite(),
            n == self@.len(),
    {
        proof {
            use_type_invariant(self);
            lemma_map_of(key_views(self.keys@), value_views(self.values@));
        }
        self.keys.len()
    }

    /// Whether there is no capability.
    pub fn is_empty(&self) -> (r: bool)
        ensures
            r == (self@ == Capabilities::empty()),
    {
        proof {
            use_type_invariant(self);
            lemma_map_of(key_views(self.keys@), value_views(self.values@));
            if self.keys@.len() > 0 {
                assert(self@.contains_key(key_views(self.keys@)[0]));
            }
        }
        self.keys.len() == 0
    }

    /// Where `key` is held.
    fn position(&self, key: &Capability) -> (r: Option<usize>)
        ensures
            match r {
                Some(i) => i < self.keys@.len() && self.keys@[i as int]@ == key@,
                None => forall|i: int| 0 <= i < self.keys@.len() ==> self.keys@[i]@ != key@,
            },
    {
        let mut i: usize = 0;
        while i < self.keys.len()
            invariant
                i <= self.keys@.len(),
                forall|j: int| 0 <= j < i ==> self.keys@[j]@ != key@,
            decreases self.keys@.len() - i,
        {
            if self.keys[i].same_as(key) {
                return Some(i);
            }
            i += 1;
        }
        None
    }

    /// Whether the capability is held.
    pub fn contains(&self, key: &Capability) -> (r: bool)
        ensures
            r == self@.contains_key(key@),
    {
        proof {
            use_type_invariant(self);
            lemma_map_of(key_views(self.keys@), value_views(self.values@));
        }
        match self.position(key) {
            Some(i) => {
                assert(key_views(self.keys@)[i as int] == key@);
                true
            },
            None => false,
        }
    }

    /// The parameters of the capability, where it is held.
    pub fn get(&self, key: &Capability) -> (r: Option<&Vec<EhloParam>>)
        ensures
            match r {
                Some(params) => self@.contains_key(key@) && params_view(params@) == self@[key@],
                None => !self@.contains_key(key@),
            },
    {
        proof {
            use_type_invariant(self);
            lemma_map_of(key_views(self.keys@), value_views(self.values@));
        }
        match self.position(key) {
            Some(i) => {
                assert(key_views(self.keys@)[i as int] == key@);
                Some(&self.values[i])
            },
            None => None,
        }
    }

    /// Puts the capability in with these parameters, in place of those it had
    /// if it was held.
    pub fn insert(&mut self, key: Capability, params: Vec<EhloParam>)
        ensures
            final(self)@ == old(self)@.insert(key@, params_view(params@)),
    {
        proof {
            use_type_invariant(&*self);
        }
        let ghost ks = key_views(self.keys@);
        let ghost vs = value_views(self.values@);
        let ghost v = params_view(params@);
        let found = self.position(&key);
        let mut taken = CapabilityMap::new();
        core::mem::swap(self, &mut taken);
        let CapabilityMap { mut keys, mut values } = taken;
        match found {
            Some(i) => {
                values[i] = params;
                proof {
                    let ws = value_views(values@);
                    assert(ws =~= vs.update(i as int, v));
                    assert(ks[i as int] == key@);
                    lemma_map_of(ks, vs);
                    lemma_map_of(ks, ws);
                    assert(map_of(ks, ws) =~= map_of(ks, vs).insert(key@, v)) by {
                        assert forall|k: Seq<char>| #[trigger]
                            map_of(ks, ws).contains_key(k) implies map_of(ks, ws)[k] == map_of(
                            ks,
                            vs,
                        ).insert(key@, v)[k] by {
                            let j = choose|j: int| 0 <= j < ks.len() && ks[j] == k;
                            assert(map_of(ks, ws)[ks[j]] == ws[j]);
                            assert(map_of(ks, vs)[ks[j]] == vs[j]);
                        }
                    }
                }
            },
            None => {
                keys.push(key);
                values.push(params);
                proof {
                    let ks2 = key_views(keys@);
                    let ws = value_views(values@);
                    assert(ks2.drop_last() =~= ks);
                    assert(ws.drop_last() =~= vs);
                    assert(ks2.last() == key@);
                    assert(ws.last() == v);
                    assert(distinct(ks2)) by {
                        assert forall|a: int, b: int| 0 <= a < b < ks2.len() implies ks2[a]
                            != ks2[b] by {
                            if b < ks.len() {
                                assert(ks[a] != ks[b]);
                            }
                        }
                    }
                }
            },
        }
        *self = CapabilityMap { keys, values };
    }
}

/// What an `EhloData` holds, as mathematics.
pub ghost struct EhloDataView {
    /// The name that the server gave itself.
    pub domain: Seq<char>,
    /// The capabilities that it announced.
    pub capabilities: Capabilities,
}

/// The name and the capabilities that a server announced in one reply.
#[derive(Debug)]
pub struct EhloData {
    domain: Domain,
    capabilities: CapabilityMap,
}

impl View for EhloData {
    type V = EhloDataView;

    closed spec fn view(&self) -> EhloDataView {
        EhloDataView { domain: self.domain@, capabilities: self.capabilities@ }
    }
}

impl EhloData {
    /// Puts a name and capabilities together.
    pub fn new(domain: Domain, capabilities: CapabilityMap) -> (r: EhloData)
        ensures
            r@ == (EhloDataView { domain: domain@, capabilities: capabilities@ }),
    {
        EhloData { domain, capabilities }
    }

    /// The name that the server gave itself.
    pub fn domain(&self) -> (d: &Domain)
        ensures
            d@ == self@.domain,
    {
        &self.domain
    }

    /// The capabilities that the server announced.
    pub fn capability_map(&self) -> (m: &CapabilityMap)
        ensures
            m@ == self@.capabilities,
    {
        &self.capabilities
    }

    /// Whether the server announced the capability of this name, in whatever
    /// case the name is written. A text that is no keyword names none.
    pub fn has_capability(&self, name: &str) -> (r: bool)
        ensures
            r == (is_keyword(name@) && self@.capabilities.contains_key(upper(name@))),
    {
        match Capability::parse(name) {
            Ok(key) => self.capabilities.contains(&key),
            Err(_) => false,
        }
    }

    /// The parameters that the server gave for the capability of this name,
    /// where it announced it.
    pub fn get_capability_params(&self, name: &str) -> (r: Option<&[EhloParam]>)
        ensures
            match r {
                Some(params) => is_keyword(name@) && self@.capabilities.contains_key(upper(name@))
                    && params_view(params@) == self@.capabilities[upper(name@)],
                None => !(is_keyword(name@) && self@.capabilities.contains_key(upper(name@))),
            },
    {
        match Capability::parse(name) {
            Ok(key) => match self.capabilities.get(&key) {
                Some(params) => Some(params.as_slice()),
                None => None,
            },
            Err(_) => None,
        }
    }
}

} // verus!
