use vstd::prelude::*;

use crate::defs::{def_key, def_val, dv_key, DefView, PadDefinition, PadDefinitionUpdates, PadUpdate};
use crate::keyed::{
    key_map, lemma_key_map_absent, lemma_key_map_dom, lemma_key_map_len, lemma_key_map_push,
    lemma_key_map_remove, lemma_key_map_update, lemma_key_map_val, removed_keys, unique_keys,
    upserted,
};

verus! {

/// The mapping a sequence of definitions denotes.
pub open spec fn defs_map(s: Seq<PadDefinition>) -> Map<u32, DefView> {
    key_map(s, def_key(), def_val())
}

/// No two definitions in the sequence concern the same AS.
pub open spec fn defs_unique(s: Seq<PadDefinition>) -> bool {
    unique_keys(s, def_key())
}

/// The table of current PAD definitions: at most one per AS number.
#[derive(Debug)]
pub struct PadDefinitions {
    defs: Vec<PadDefinition>,
}

impl View for PadDefinitions {
    type V = Map<u32, DefView>;

    closed spec fn view(&self) -> Map<u32, DefView> {
        defs_map(self.defs@)
    }
}

impl Default for PadDefinitions {
    /// The empty table.
    fn default() -> (r: Self)
        ensures
            r@ == Map::<u32, DefView>::empty(),
            r@.dom().finite(),
    {
        let defs: Vec<PadDefinition> = Vec::new();
        proof {
            lemma_key_map_len(defs@, def_key(), def_val());
        }
        PadDefinitions { defs }
    }
}

/// Locate the definition for an AS, if the sequence holds one.
fn find_def(defs: &Vec<PadDefinition>, asn: u32) -> (r: Option<usize>)
    ensures
        match r {
            Some(i) => i < defs@.len() && defs@[i as int]@.asn == asn,
            None => forall|j: int| 0 <= j < defs@.len() ==> defs@[j]@.asn != asn,
        },
{
    let mut i: usize = 0;
    while i < defs.len()
        invariant
            i <= defs@.len(),
            forall|j: int| 0 <= j < i ==> defs@[j]@.asn != asn,
        decreases defs@.len() - i,
    {
        if defs[i].asn() == asn {
            return Some(i);
        }
        i += 1;
    }
    None
}

/// The mapping of a keyed definition sequence sends each AS to a definition
/// for that very AS.
proof fn lemma_view_key(s: Seq<PadDefinition>)
    requires
        defs_unique(s),
    ensures
        forall|a: u32| #[trigger] defs_map(s).contains_key(a) ==> defs_map(s)[a].asn == a,
{
    lemma_key_map_dom(s, def_key(), def_val());
    lemma_key_map_val(s, def_key(), def_val());
    assert forall|a: u32| #[trigger] defs_map(s).contains_key(a) implies defs_map(s)[a].asn
        == a by {
        let j = choose|j: int| 0 <= j < s.len() && (def_key())(s[j]) == a;
        assert(defs_map(s)[(def_key())(s[j])] == (def_val())(s[j]));
    }
}

impl PadDefinitions {
    #[verifier::type_invariant]
    spec fn inv(self) -> bool {
        defs_unique(self.defs@)
    }

    /// Insert the definition, replacing any present one for the same AS.
    pub fn add_or_replace(&mut self, pad_def: PadDefinition)
        ensures
            final(self)@ == old(self)@.insert(pad_def@.asn, pad_def@),
            final(self)@.dom().finite(),
            !old(self)@.contains_key(pad_def@.asn) ==> final(self)@.len() == old(self)@.len() + 1,
    {
        proof {
            use_type_invariant(&*self);
        }
        let ghost m0 = self@;
        let ghost dv = pad_def@;
        let mut defs: Vec<PadDefinition> = Vec::new();
        std::mem::swap(&mut defs, &mut self.defs);
        let ghost s0 = defs@;
        proof {
            lemma_key_map_len(s0, def_key(), def_val());
            lemma_key_map_dom(s0, def_key(), def_val());
        }
        let asn = pad_def.asn();
        match find_def(&defs, asn) {
            Some(i) => {
                proof {
                    lemma_key_map_update(s0, i as int, pad_def, def_key(), def_val());
                    assert(m0.contains_key(asn));
                }
                defs[i] = pad_def;
            },
            None => {
                proof {
                    lemma_key_map_push(s0, pad_def, def_key(), def_val());
                }
                defs.push(pad_def);
            },
        }
        self.defs = defs;
        proof {
            assert(self@ == m0.insert(asn, dv));
            lemma_key_map_len(self.defs@, def_key(), def_val());
        }
    }

    /// Delete the definition for the AS; absence is not an error.
    pub fn remove(&mut self, asn: u32)
        ensures
            final(self)@ == old(self)@.remove(asn),
            final(self)@.dom().finite(),
            old(self)@.contains_key(asn) ==> final(self)@.len() == old(self)@.len() - 1,
    {
        proof {
            use_type_invariant(&*self);
        }
        let ghost m0 = self@;
        let mut defs: Vec<PadDefinition> = Vec::new();
        std::mem::swap(&mut defs, &mut self.defs);
        let ghost s0 = defs@;
        proof {
            lemma_key_map_len(s0, def_key(), def_val());
            lemma_key_map_dom(s0, def_key(), def_val());
        }
        match find_def(&defs, asn) {
            Some(i) => {
                proof {
                    lemma_key_map_remove(s0, i as int, def_key(), def_val());
                }
                defs.remove(i);
            },
            None => {
                proof {
                    lemma_key_map_absent(s0, asn, def_key(), def_val());
                }
            },
        }
        self.defs = defs;
        proof {
            assert(self@ == m0.remove(asn));
            lemma_key_map_len(self.defs@, def_key(), def_val());
        }
    }

    /// Replace the target URI of the definition for this AS, or, if the
    /// table holds none, insert a fresh definition built from the update.
    pub fn apply_update(&mut self, asn: u32, update: &PadUpdate)
        ensures
            final(self)@ == old(self)@.insert(asn, DefView { asn, uri: update@ }),
            final(self)@.dom().finite(),
            !old(self)@.contains_key(asn) ==> final(self)@.len() == old(self)@.len() + 1,
    {
        proof {
            use_type_invariant(&*self);
            lemma_view_key(self.defs@);
        }
        let d = match self.get(asn) {
            Some(current) => {
                let mut d = current.clone();
                d.apply_update(update);
                d
            },
            None => PadDefinition::new(asn, update.peering_api_uri().clone()),
        };
        proof {
            assert(d@ =~= DefView { asn, uri: update@ });
        }
        self.add_or_replace(d);
    }

    /// Apply a batch update: insert or replace each listed definition under
    /// its AS, then drop each listed AS. Removal of an absent AS is a no-op.
    pub fn apply_delta(&mut self, delta: PadDefinitionUpdates)
        ensures
            final(self)@ == removed_keys(
                upserted(old(self)@, delta@.update, dv_key()),
                delta@.remove,
            ),
            final(self)@.dom().finite(),
    {
        let ghost d = delta@;
        let ghost m0 = self@;
        let (update, remove) = delta.unpack();
        let mut i: usize = 0;
        while i < update.len()
            invariant
                i <= update@.len(),
                update@.map_values(def_val()) == d.update,
                self@ == upserted(m0, d.update.take(i as int), dv_key()),
            decreases update@.len() - i,
        {
            let pad_def = update[i].clone();
            proof {
                assert((def_val())(update@[i as int]) == d.update[i as int]);
            }
            self.add_or_replace(pad_def);
            proof {
                let post = d.update.take(i as int + 1);
                assert(post.drop_last() =~= d.update.take(i as int));
                assert(post.last() == d.update[i as int]);
            }
            i += 1;
        }
        proof {
            assert(d.update.take(update@.len() as int) =~= d.update);
        }
        let mut j: usize = 0;
        while j < remove.len()
            invariant
                j <= remove@.len(),
                remove@ == d.remove,
                self@ == removed_keys(upserted(m0, d.update, dv_key()), d.remove.take(j as int)),
            decreases remove@.len() - j,
        {
            let asn = remove[j];
            self.remove(asn);
            proof {
                let post = d.remove.take(j as int + 1);
                assert(post.drop_last() =~= d.remove.take(j as int));
                assert(post.last() == d.remove[j as int]);
            }
            j += 1;
        }
        proof {
            assert(d.remove.take(remove@.len() as int) =~= d.remove);
            use_type_invariant(&*self);
            lemma_key_map_len(self.defs@, def_key(), def_val());
        }
    }

    /// The current definitions, one per AS, in unspecified order.
    pub fn all(&self) -> (r: &Vec<PadDefinition>)
        ensures
            defs_unique(r@),
            r@.len() == self@.len(),
            self@.dom().finite(),
            forall|a: u32| #[trigger] self@.contains_key(a) ==> self@[a].asn == a,
            forall|i: int|
                0 <= i < r@.len() ==> self@.contains_key(#[trigger] r@[i]@.asn) && self@[r@[i]@.asn]
                    == r@[i]@,
            forall|a: u32| #[trigger] self@.contains_key(a) ==> exists|i: int|
                0 <= i < r@.len() && r@[i]@.asn == a,
    {
        proof {
            use_type_invariant(&*self);
            lemma_key_map_dom(self.defs@, def_key(), def_val());
            lemma_key_map_val(self.defs@, def_key(), def_val());
            lemma_key_map_len(self.defs@, def_key(), def_val());
            lemma_view_key(self.defs@);
        }
        &self.defs
    }

    /// The definition for this AS, if the table holds one.
    pub fn get(&self, asn: u32) -> (r: Option<&PadDefinition>)
        ensures
            match r {
                Some(d) => self@.contains_key(asn) && d@ == self@[asn],
                None => !self@.contains_key(asn),
            },
    {
        proof {
            use_type_invariant(&*self);
            lemma_key_map_dom(self.defs@, def_key(), def_val());
            lemma_key_map_val(self.defs@, def_key(), def_val());
        }
        match find_def(&self.defs, asn) {
            Some(i) => Some(&self.defs[i]),
            None => None,
        }
    }

    /// Whether the table holds a definition for this AS.
    pub fn has(&self, asn: u32) -> (r: bool)
        ensures
            r == self@.contains_key(asn),
    {
        self.get(asn).is_some()
    }

    /// How many definitions the table holds.
    pub fn len(&self) -> (r: usize)
        ensures
            r == self@.len(),
            self@.dom().finite(),
    {
        proof {
            use_type_invariant(&*self);
            lemma_key_map_len(self.defs@, def_key(), def_val());
        }
        self.defs.len()
    }

    /// Whether the table holds no definition at all.
    pub fn is_empty(&self) -> (r: bool)
        ensures
            r == (self@.len() == 0),
            r <==> (forall|a: u32| !(#[trigger] self@.contains_key(a))),
            self@.dom().finite(),
    {
        proof {
            use_type_invariant(&*self);
            lemma_key_map_len(self.defs@, def_key(), def_val());
            lemma_key_map_dom(self.defs@, def_key(), def_val());
            if self.defs@.len() > 0 {
                assert(self@.contains_key((def_key())(self.defs@[0])));
            }
        }
        self.defs.is_empty()
    }
}

/// Law: upserting a definition a second time changes nothing; after either
/// upsert the table maps the definition's AS to exactly that definition.
pub proof fn lemma_upsert_idempotent(m: Map<u32, DefView>, d: DefView)
    ensures
        m.insert(d.asn, d).insert(d.asn, d) == m.insert(d.asn, d),
        m.insert(d.asn, d).contains_key(d.asn),
        m.insert(d.asn, d)[d.asn] == d,
{
    assert(m.insert(d.asn, d).insert(d.asn, d) =~= m.insert(d.asn, d));
}

/// Law: removing an AS a second time is a no-op, and after either removal
/// the table holds nothing for that AS.
pub proof fn lemma_remove_idempotent(m: Map<u32, DefView>, asn: u32)
    ensures
        m.remove(asn).remove(asn) == m.remove(asn),
        !m.remove(asn).contains_key(asn),
{
    assert(m.remove(asn).remove(asn) =~= m.remove(asn));
}

} // verus!
