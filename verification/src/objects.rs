use vstd::prelude::*;

use crate::batch::{BatchView, PadObjectsUpdates};
use crate::defs::{DefView, PadDefinition};
use crate::keyed::{
    key_map, lemma_key_map_absent, lemma_key_map_dom, lemma_key_map_len, lemma_key_map_push,
    lemma_key_map_remove, lemma_key_map_update, lemma_key_map_val, lemma_removed_keys,
    lemma_upserted, removed_keys, unique_keys, upserted,
};
use crate::record::{info_key, info_val, wf_record, InfoView, PadInfo};
use crate::signer::{IssuanceTiming, SignedArtifact, Signer, SigningError, Validity};
use crate::table::{defs_unique, PadDefinitions};

verus! {

/// The set of AS numbers bound to the issuing key's current certificate.
#[derive(Debug)]
pub struct AsnSet {
    asns: Vec<u32>,
}

impl View for AsnSet {
    type V = Set<u32>;

    closed spec fn view(&self) -> Set<u32> {
        Set::new(|a: u32| self.asns@.contains(a))
    }
}

impl AsnSet {
    /// The set holding exactly the given AS numbers.
    pub fn from_vec(asns: Vec<u32>) -> (r: Self)
        ensures
            r@ == Set::new(|a: u32| asns@.contains(a)),
    {
        AsnSet { asns }
    }

    /// Membership test.
    pub fn contains(&self, asn: u32) -> (r: bool)
        ensures
            r == self@.contains(asn),
    {
        let mut i: usize = 0;
        while i < self.asns.len()
            invariant
                i <= self.asns@.len(),
                forall|j: int| 0 <= j < i ==> self.asns@[j] != asn,
            decreases self.asns@.len() - i,
        {
            if self.asns[i] == asn {
                return true;
            }
            i += 1;
        }
        proof {
            assert(!self.asns@.contains(asn));
        }
        false
    }
}

/// The subject is covered: it has a definition and lies within the issuing
/// key's resources.
pub open spec fn covered(defs: Map<u32, DefView>, res: Set<u32>, a: u32) -> bool {
    defs.contains_key(a) && res.contains(a)
}

/// The store owes an issuance for this definition: it holds no record for
/// the AS, or the held record embeds a different definition.
pub open spec fn needs_issue(store: Map<u32, InfoView>, d: DefView) -> bool {
    !store.contains_key(d.asn) || store[d.asn].definition != d
}

/// Whether a record is due for renewal; no threshold means renew
/// unconditionally.
pub open spec fn should_renew(info: InfoView, threshold: Option<i64>) -> bool {
    match threshold {
        None => true,
        Some(t) => info.validity.not_after < t,
    }
}

/// The key a batch record is stored under.
pub open spec fn rec_key() -> spec_fn(InfoView) -> u32 {
    |rec: InfoView| rec.definition.asn
}

/// The store after a batch is committed: every record inserted under its AS,
/// then every listed AS removed.
pub open spec fn applied_batch(store: Map<u32, InfoView>, b: BatchView) -> Map<u32, InfoView> {
    removed_keys(upserted(store, b.updated, rec_key()), b.removed)
}

/// Everything a reconciliation pass promises of the batch it returns.
///
/// Removals list exactly the stored subjects that are no longer covered,
/// each at most once. Upserts hold, for exactly the covered subjects owed an
/// issuance, a record embedding the subject's current definition and the
/// requested validity window; no subject appears twice on either side.
pub open spec fn update_batch_ok(
    store: Map<u32, InfoView>,
    defs: Map<u32, DefView>,
    res: Set<u32>,
    v: Validity,
    b: BatchView,
) -> bool {
    &&& forall|a: u32|
        #[trigger] b.removed.contains(a) <==> (store.contains_key(a) && !covered(defs, res, a))
    &&& forall|k: int, l: int|
        0 <= k < b.removed.len() && 0 <= l < b.removed.len() && k != l ==> b.removed[k]
            != b.removed[l]
    &&& forall|k: int|
        0 <= k < b.updated.len() ==> {
            let rec = #[trigger] b.updated[k];
            &&& covered(defs, res, rec.definition.asn)
            &&& defs[rec.definition.asn] == rec.definition
            &&& needs_issue(store, rec.definition)
            &&& rec.validity == v
            &&& wf_record(rec)
        }
    &&& forall|a: u32|
        #![trigger covered(defs, res, a)]
        covered(defs, res, a) && needs_issue(store, defs[a]) ==> exists|k: int|
            0 <= k < b.updated.len() && (#[trigger] b.updated[k]).definition.asn == a
    &&& unique_keys(b.updated, rec_key())
}

/// Everything a renewal pass promises of the batch it returns: no removals,
/// and, for exactly the stored records due against the threshold, a fresh
/// record embedding the same definition and the requested window.
pub open spec fn renew_batch_ok(
    store: Map<u32, InfoView>,
    threshold: Option<i64>,
    v: Validity,
    b: BatchView,
) -> bool {
    &&& b.removed.len() == 0
    &&& forall|k: int|
        0 <= k < b.updated.len() ==> {
            let rec = #[trigger] b.updated[k];
            &&& store.contains_key(rec.definition.asn)
            &&& rec.definition == store[rec.definition.asn].definition
            &&& should_renew(store[rec.definition.asn], threshold)
            &&& rec.validity == v
            &&& wf_record(rec)
        }
    &&& forall|a: u32|
        #[trigger] store.contains_key(a) && should_renew(store[a], threshold) ==> exists|k: int|
            0 <= k < b.updated.len() && (#[trigger] b.updated[k]).definition.asn == a
    &&& unique_keys(b.updated, rec_key())
}

/// Build and sign one PAD object through the signing boundary.
pub fn make_pad_object<S: Signer>(
    pad_def: &PadDefinition,
    validity: Validity,
    signer: &mut S,
) -> (r: Result<SignedArtifact, SigningError>)
    ensures
        r matches Ok(a) ==> a@.validity == validity && a@.signed_object_uri is Some,
{
    signer.sign(pad_def, validity)
}

/// Locate the record for an AS, if the sequence holds one.
fn find_info(objects: &Vec<PadInfo>, asn: u32) -> (r: Option<usize>)
    ensures
        match r {
            Some(i) => i < objects@.len() && objects@[i as int]@.definition.asn == asn,
            None => forall|j: int| 0 <= j < objects@.len() ==> objects@[j]@.definition.asn != asn,
        },
{
    let mut i: usize = 0;
    while i < objects.len()
        invariant
            i <= objects@.len(),
            forall|j: int| 0 <= j < i ==> objects@[j]@.definition.asn != asn,
        decreases objects@.len() - i,
    {
        if objects[i].asn() == asn {
            return Some(i);
        }
        i += 1;
    }
    None
}

/// The issued-object store: at most one issued PAD object per AS number.
#[derive(Debug)]
pub struct PadObjects {
    objects: Vec<PadInfo>,
}

impl View for PadObjects {
    type V = Map<u32, InfoView>;

    closed spec fn view(&self) -> Map<u32, InfoView> {
        key_map(self.objects@, info_key(), info_val())
    }
}

impl Default for PadObjects {
    /// The empty store.
    fn default() -> (r: Self)
        ensures
            r@ == Map::<u32, InfoView>::empty(),
            r@.dom().finite(),
    {
        let objects: Vec<PadInfo> = Vec::new();
        proof {
            lemma_key_map_len(objects@, info_key(), info_val());
        }
        PadObjects { objects }
    }
}

impl PadObjects {
    #[verifier::type_invariant]
    spec fn inv(self) -> bool {
        unique_keys(self.objects@, info_key())
    }

    /// The record for this AS, if the store holds one.
    pub fn get(&self, asn: u32) -> (r: Option<&PadInfo>)
        ensures
            match r {
                Some(p) => self@.contains_key(asn) && p@ == self@[asn],
                None => !self@.contains_key(asn),
            },
    {
        proof {
            use_type_invariant(&*self);
            lemma_key_map_dom(self.objects@, info_key(), info_val());
            lemma_key_map_val(self.objects@, info_key(), info_val());
        }
        match find_info(&self.objects, asn) {
            Some(i) => Some(&self.objects[i]),
            None => None,
        }
    }

    /// Whether the store holds no record at all.
    pub fn is_empty(&self) -> (r: bool)
        ensures
            r == (self@.len() == 0),
            r <==> (forall|a: u32| !(#[trigger] self@.contains_key(a))),
            self@.dom().finite(),
    {
        proof {
            use_type_invariant(&*self);
            lemma_key_map_len(self.objects@, info_key(), info_val());
            lemma_key_map_dom(self.objects@, info_key(), info_val());
            if self.objects@.len() > 0 {
                assert(self@.contains_key((info_key())(self.objects@[0])));
            }
        }
        self.objects.is_empty()
    }

    /// How many records the store holds.
    pub fn len(&self) -> (r: usize)
        ensures
            r == self@.len(),
            self@.dom().finite(),
    {
        proof {
            use_type_invariant(&*self);
            lemma_key_map_len(self.objects@, info_key(), info_val());
        }
        self.objects.len()
    }

    /// Insert the record, replacing any present one for the same AS.
    fn insert_info(&mut self, info: PadInfo)
        ensures
            final(self)@ == old(self)@.insert(info@.definition.asn, info@),
    {
        proof {
            use_type_invariant(&*self);
        }
        let ghost m0 = self@;
        let mut objects: Vec<PadInfo> = Vec::new();
        std::mem::swap(&mut objects, &mut self.objects);
        let ghost s0 = objects@;
        let asn = info.asn();
        match find_info(&objects, asn) {
            Some(i) => {
                proof {
                    lemma_key_map_update(s0, i as int, info, info_key(), info_val());
                }
                objects[i] = info;
            },
            None => {
                proof {
                    lemma_key_map_push(s0, info, info_key(), info_val());
                }
                objects.push(info);
            },
        }
        self.objects = objects;
        proof {
            assert(self@ == m0.insert(asn, (info_val())(info)));
        }
    }

    /// Delete the record for the AS; absence is not an error.
    fn remove_asn(&mut self, asn: u32)
        ensures
            final(self)@ == old(self)@.remove(asn),
    {
        proof {
            use_type_invariant(&*self);
        }
        let ghost m0 = self@;
        let mut objects: Vec<PadInfo> = Vec::new();
        std::mem::swap(&mut objects, &mut self.objects);
        let ghost s0 = objects@;
        match find_info(&objects, asn) {
            Some(i) => {
                proof {
                    lemma_key_map_remove(s0, i as int, info_key(), info_val());
                }
                objects.remove(i);
            },
            None => {
                proof {
                    lemma_key_map_absent(s0, asn, info_key(), info_val());
                }
            },
        }
        self.objects = objects;
        proof {
            assert(self@ == m0.remove(asn));
        }
    }

    /// Sign one PAD object for this definition and derive its record.
    pub fn make_pad<S: Signer>(
        &self,
        pad_def: PadDefinition,
        issuance_timing: &IssuanceTiming,
        now: i64,
        signer: &mut S,
    ) -> (r: Result<PadInfo, SigningError>)
        requires
            issuance_timing.fits(now),
        ensures
            r matches Ok(info) ==> info@.definition == pad_def@ && info@.validity
                == issuance_timing.validity_at(now) && wf_record(info@),
    {
        let validity = issuance_timing.new_pad_validity(now);
        let pad = match make_pad_object(&pad_def, validity, signer) {
            Ok(p) => p,
            Err(e) => {
                return Err(e);
            },
        };
        Ok(PadInfo::new_pad(pad_def, pad))
    }

    /// One reconciliation pass: compute the batch that brings the store into
    /// agreement with the definition table and the key's resources.
    ///
    /// For every covered definition owed an issuance a fresh object is signed
    /// and queued for upsert; every stored subject that is no longer covered
    /// is queued for removal. The first signing failure aborts the whole
    /// pass; since this method never mutates the store, an aborted pass
    /// leaves no partial state. A pass that owes no issuance cannot fail.
    pub fn update<S: Signer>(
        &self,
        all_pad_defs: &PadDefinitions,
        resources: &AsnSet,
        issuance_timing: &IssuanceTiming,
        now: i64,
        signer: &mut S,
    ) -> (r: Result<PadObjectsUpdates, SigningError>)
        requires
            issuance_timing.fits(now),
        ensures
            r matches Ok(b) ==> update_batch_ok(
                self@,
                all_pad_defs@,
                resources@,
                issuance_timing.validity_at(now),
                b@,
            ),
            r is Err ==> exists|a: u32|
                #![trigger covered(all_pad_defs@, resources@, a)]
                covered(all_pad_defs@, resources@, a) && needs_issue(self@, all_pad_defs@[a]),
    {
        let ghost store = self@;
        let ghost defsm = all_pad_defs@;
        let ghost res = resources@;
        let ghost v = issuance_timing.validity_at(now);
        proof {
            use_type_invariant(&*self);
            lemma_key_map_dom(self.objects@, info_key(), info_val());
            lemma_key_map_val(self.objects@, info_key(), info_val());
        }
        let mut object_updates = PadObjectsUpdates::default();
        let defs = all_pad_defs.all();
        let ghost ds = defs@;
        let mut idx: usize = 0;
        while idx < defs.len()
            invariant
                idx <= ds.len(),
                defs@ == ds,
                store == self@,
                defsm == all_pad_defs@,
                res == resources@,
                v == issuance_timing.validity_at(now),
                issuance_timing.fits(now),
                defs_unique(ds),
                forall|i: int|
                    0 <= i < ds.len() ==> defsm.contains_key((#[trigger] ds[i])@.asn)
                        && defsm[ds[i]@.asn] == ds[i]@,
                forall|a: u32| #[trigger] defsm.contains_key(a) ==> exists|i: int|
                    0 <= i < ds.len() && ds[i]@.asn == a,
                object_updates@.removed.len() == 0,
                forall|k: int|
                    0 <= k < object_updates@.updated.len() ==> {
                        let rec = #[trigger] object_updates@.updated[k];
                        &&& covered(defsm, res, rec.definition.asn)
                        &&& defsm[rec.definition.asn] == rec.definition
                        &&& needs_issue(store, rec.definition)
                        &&& rec.validity == v
                        &&& wf_record(rec)
                    },
                forall|k: int| 0 <= k < object_updates@.updated.len() ==> exists|i: int|
                    0 <= i < idx && (#[trigger] object_updates@.updated[k]).definition.asn
                        == ds[i]@.asn,
                forall|i: int|
                    #![trigger ds[i]]
                    0 <= i < idx && covered(defsm, res, ds[i]@.asn) && needs_issue(store, ds[i]@)
                        ==> exists|k: int|
                        0 <= k < object_updates@.updated.len()
                            && (#[trigger] object_updates@.updated[k]).definition.asn == ds[i]@.asn,
                unique_keys(object_updates@.updated, rec_key()),
            decreases ds.len() - idx,
        {
            let d = &defs[idx];
            if resources.contains(d.asn()) {
                let need_to_issue = match self.get(d.asn()) {
                    Some(existing) => !existing.definition().same_as(d),
                    None => true,
                };
                proof {
                    assert(need_to_issue == needs_issue(store, ds[idx as int]@));
                }
                if need_to_issue {
                    let pad_info = match self.make_pad(d.clone(), issuance_timing, now, signer) {
                        Ok(p) => p,
                        Err(e) => {
                            proof {
                                assert(covered(defsm, res, ds[idx as int]@.asn) && needs_issue(
                                    store,
                                    defsm[ds[idx as int]@.asn],
                                ));
                            }
                            return Err(e);
                        },
                    };
                    let ghost ups0 = object_updates@.updated;
                    object_updates.add_updated(pad_info);
                    proof {
                        let ups1 = object_updates@.updated;
                        let n = ups0.len() as int;
                        assert(ups1[n] == pad_info@);
                        assert forall|k: int| 0 <= k < ups1.len() implies exists|i: int|
                            0 <= i < idx + 1 && (#[trigger] ups1[k]).definition.asn
                                == ds[i]@.asn by {
                            if k < n {
                                assert(ups1[k] == ups0[k]);
                                let i = choose|i: int|
                                    0 <= i < idx && (#[trigger] ups0[k]).definition.asn
                                        == ds[i]@.asn;
                                assert(ups1[k].definition.asn == ds[i]@.asn);
                            } else {
                                assert(ups1[k].definition.asn == ds[idx as int]@.asn);
                            }
                        }
                        assert(unique_keys(ups1, rec_key())) by {
                            assert forall|k: int, l: int|
                                0 <= k < ups1.len() && 0 <= l < ups1.len() && k != l implies (
                            rec_key())(ups1[k]) != (rec_key())(ups1[l]) by {
                                if k < n && l < n {
                                    assert(ups1[k] == ups0[k] && ups1[l] == ups0[l]);
                                } else if k < n {
                                    assert(ups1[l] == pad_info@);
                                    let i = choose|i: int|
                                        0 <= i < idx && (#[trigger] ups0[k]).definition.asn
                                            == ds[i]@.asn;
                                    assert(ds[i]@.asn != ds[idx as int]@.asn);
                                } else {
                                    assert(ups1[k] == pad_info@);
                                    let i = choose|i: int|
                                        0 <= i < idx && (#[trigger] ups0[l]).definition.asn
                                            == ds[i]@.asn;
                                    assert(ds[i]@.asn != ds[idx as int]@.asn);
                                }
                            }
                        }
                        assert forall|i: int|
                            #![trigger ds[i]]
                            0 <= i < idx + 1 && covered(defsm, res, ds[i]@.asn) && needs_issue(
                                store,
                                ds[i]@,
                            ) implies exists|k: int|
                            0 <= k < ups1.len() && (#[trigger] ups1[k]).definition.asn
                                == ds[i]@.asn by {
                            if i < idx {
                                let k = choose|k: int|
                                    0 <= k < ups0.len() && (#[trigger] ups0[k]).definition.asn
                                        == ds[i]@.asn;
                                assert(ups1[k] == ups0[k]);
                                assert(ups1[k].definition.asn == ds[i]@.asn);
                            } else {
                                assert(ups1[n].definition.asn == ds[i]@.asn);
                            }
                        }
                    }
                }
            }
            idx += 1;
        }
        let ghost ups = object_updates@.updated;
        let mut j: usize = 0;
        while j < self.objects.len()
            invariant
                j <= self.objects@.len(),
                store == self@,
                defsm == all_pad_defs@,
                res == resources@,
                unique_keys(self.objects@, info_key()),
                forall|jj: int|
                    0 <= jj < self.objects@.len() ==> store.contains_key(
                        (#[trigger] self.objects@[jj])@.definition.asn,
                    ),
                object_updates@.updated == ups,
                forall|a: u32|
                    #[trigger] object_updates@.removed.contains(a) ==> store.contains_key(a)
                        && !covered(defsm, res, a),
                forall|jj: int|
                    0 <= jj < j ==> covered(
                        defsm,
                        res,
                        (#[trigger] self.objects@[jj])@.definition.asn,
                    ) || object_updates@.removed.contains(self.objects@[jj]@.definition.asn),
                forall|k: int| 0 <= k < object_updates@.removed.len() ==> exists|jj: int|
                    0 <= jj < j && #[trigger] object_updates@.removed[k]
                        == self.objects@[jj]@.definition.asn,
                forall|k: int, l: int|
                    0 <= k < object_updates@.removed.len() && 0 <= l
                        < object_updates@.removed.len() && k != l
                        ==> object_updates@.removed[k] != object_updates@.removed[l],
            decreases self.objects@.len() - j,
        {
            let asn = self.objects[j].asn();
            if !(all_pad_defs.has(asn) && resources.contains(asn)) {
                let ghost rems0 = object_updates@.removed;
                object_updates.add_removed(asn);
                proof {
                    let rems1 = object_updates@.removed;
                    let n = rems0.len() as int;
                    assert(rems1[n] == asn);
                    assert(rems1.contains(asn));
                    assert forall|a: u32| #[trigger] rems1.contains(a) implies store.contains_key(a)
                        && !covered(defsm, res, a) by {
                        let k = choose|k: int| 0 <= k < rems1.len() && rems1[k] == a;
                        if k < rems0.len() {
                            assert(rems0[k] == a);
                            assert(rems0.contains(a));
                        }
                    }
                    assert forall|k: int| 0 <= k < rems1.len() implies exists|jj: int|
                        0 <= jj < j + 1 && #[trigger] rems1[k]
                            == self.objects@[jj]@.definition.asn by {
                        if k < n {
                            assert(rems1[k] == rems0[k]);
                            let jj = choose|jj: int|
                                0 <= jj < j && #[trigger] rems0[k]
                                    == self.objects@[jj]@.definition.asn;
                            assert(rems1[k] == self.objects@[jj]@.definition.asn);
                        } else {
                            assert(rems1[k] == self.objects@[j as int]@.definition.asn);
                        }
                    }
                    assert forall|k: int, l: int|
                        0 <= k < rems1.len() && 0 <= l < rems1.len() && k != l implies rems1[k]
                        != rems1[l] by {
                        if k < n && l < n {
                            assert(rems1[k] == rems0[k] && rems1[l] == rems0[l]);
                        } else if k < n {
                            let jj = choose|jj: int|
                                0 <= jj < j && #[trigger] rems0[k]
                                    == self.objects@[jj]@.definition.asn;
                            assert((info_key())(self.objects@[jj]) != (info_key())(
                                self.objects@[j as int],
                            ));
                        } else if l < n {
                            let jj = choose|jj: int|
                                0 <= jj < j && #[trigger] rems0[l]
                                    == self.objects@[jj]@.definition.asn;
                            assert((info_key())(self.objects@[jj]) != (info_key())(
                                self.objects@[j as int],
                            ));
                        }
                    }
                    assert forall|jj: int|
                        0 <= jj < j + 1 implies covered(
                        defsm,
                        res,
                        (#[trigger] self.objects@[jj])@.definition.asn,
                    ) || rems1.contains(self.objects@[jj]@.definition.asn) by {
                        let a = self.objects@[jj]@.definition.asn;
                        if jj < j && !covered(defsm, res, a) {
                            assert(rems0.contains(a));
                            let k = choose|k: int| 0 <= k < rems0.len() && rems0[k] == a;
                            assert(rems1[k] == a);
                        }
                    }
                }
            }
            j += 1;
        }
        proof {
            lemma_key_map_dom(self.objects@, info_key(), info_val());
            lemma_key_map_val(self.objects@, info_key(), info_val());
            let b = object_updates@;
            assert forall|a: u32| #[trigger] b.removed.contains(a) <==> (store.contains_key(a)
                && !covered(defsm, res, a)) by {
                if store.contains_key(a) && !covered(defsm, res, a) {
                    let jj = choose|jj: int|
                        0 <= jj < self.objects@.len() && (info_key())(
                            #[trigger] self.objects@[jj],
                        ) == a;
                    assert(self.objects@[jj]@.definition.asn == a);
                    assert(b.removed.contains(a));
                }
            }
            assert forall|a: u32|
                #![trigger covered(defsm, res, a)]
                covered(defsm, res, a) && needs_issue(store, defsm[a]) implies exists|k: int|
                0 <= k < b.updated.len() && (#[trigger] b.updated[k]).definition.asn == a by {
                let i = choose|i: int| 0 <= i < ds.len() && (#[trigger] ds[i])@.asn == a;
                assert(ds[i]@ == defsm[a]);
                assert(covered(defsm, res, ds[i]@.asn) && needs_issue(store, ds[i]@));
            }
            assert(update_batch_ok(store, defsm, res, v, b));
        }
        Ok(object_updates)
    }

    /// The renewal pass: re-issue stored objects against a time threshold.
    ///
    /// Every stored record whose object expires before the threshold — every
    /// record at all, when no threshold is given — is re-signed with its
    /// unchanged embedded definition and a fresh validity window. Renewal
    /// never removes anything; the first signing failure aborts the pass,
    /// and the store is not touched. A pass that owes no renewal cannot fail.
    pub fn renew<S: Signer>(
        &self,
        renew_threshold: Option<i64>,
        issuance_timing: &IssuanceTiming,
        now: i64,
        signer: &mut S,
    ) -> (r: Result<PadObjectsUpdates, SigningError>)
        requires
            issuance_timing.fits(now),
        ensures
            r matches Ok(b) ==> renew_batch_ok(
                self@,
                renew_threshold,
                issuance_timing.validity_at(now),
                b@,
            ),
            r is Err ==> exists|a: u32|
                #[trigger] self@.contains_key(a) && should_renew(self@[a], renew_threshold),
    {
        let ghost store = self@;
        let ghost v = issuance_timing.validity_at(now);
        proof {
            use_type_invariant(&*self);
            lemma_key_map_dom(self.objects@, info_key(), info_val());
            lemma_key_map_val(self.objects@, info_key(), info_val());
        }
        let mut updates = PadObjectsUpdates::default();
        let ghost os = self.objects@;
        let mut i: usize = 0;
        while i < self.objects.len()
            invariant
                i <= os.len(),
                self.objects@ == os,
                store == self@,
                v == issuance_timing.validity_at(now),
                issuance_timing.fits(now),
                unique_keys(os, info_key()),
                forall|jj: int|
                    0 <= jj < os.len() ==> store.contains_key((#[trigger] os[jj])@.definition.asn)
                        && store[os[jj]@.definition.asn] == os[jj]@,
                updates@.removed.len() == 0,
                forall|k: int|
                    0 <= k < updates@.updated.len() ==> {
                        let rec = #[trigger] updates@.updated[k];
                        &&& store.contains_key(rec.definition.asn)
                        &&& rec.definition == store[rec.definition.asn].definition
                        &&& should_renew(store[rec.definition.asn], renew_threshold)
                        &&& rec.validity == v
                        &&& wf_record(rec)
                    },
                forall|k: int| 0 <= k < updates@.updated.len() ==> exists|jj: int|
                    0 <= jj < i && (#[trigger] updates@.updated[k]).definition.asn
                        == os[jj]@.definition.asn,
                forall|jj: int|
                    #![trigger os[jj]]
                    0 <= jj < i && should_renew(os[jj]@, renew_threshold) ==> exists|k: int|
                        0 <= k < updates@.updated.len()
                            && (#[trigger] updates@.updated[k]).definition.asn
                            == os[jj]@.definition.asn,
                unique_keys(updates@.updated, rec_key()),
            decreases os.len() - i,
        {
            let pad = &self.objects[i];
            let due = match renew_threshold {
                None => true,
                Some(threshold) => pad.expires() < threshold,
            };
            if due {
                let pad_definition = pad.definition().clone();
                let new_pad = match self.make_pad(pad_definition, issuance_timing, now, signer) {
                    Ok(p) => p,
                    Err(e) => {
                        proof {
                            assert(store.contains_key(os[i as int]@.definition.asn));
                            assert(should_renew(store[os[i as int]@.definition.asn], renew_threshold));
                        }
                        return Err(e);
                    },
                };
                let ghost ups0 = updates@.updated;
                updates.add_updated(new_pad);
                proof {
                    let ups1 = updates@.updated;
                    let n = ups0.len() as int;
                    assert(ups1[n] == new_pad@);
                    assert forall|k: int| 0 <= k < ups1.len() implies exists|jj: int|
                        0 <= jj < i + 1 && (#[trigger] ups1[k]).definition.asn
                            == os[jj]@.definition.asn by {
                        if k < n {
                            assert(ups1[k] == ups0[k]);
                            let jj = choose|jj: int|
                                0 <= jj < i && (#[trigger] ups0[k]).definition.asn
                                    == os[jj]@.definition.asn;
                            assert(ups1[k].definition.asn == os[jj]@.definition.asn);
                        } else {
                            assert(ups1[k].definition.asn == os[i as int]@.definition.asn);
                        }
                    }
                    assert(unique_keys(ups1, rec_key())) by {
                        assert forall|k: int, l: int|
                            0 <= k < ups1.len() && 0 <= l < ups1.len() && k != l implies (rec_key())(
                            ups1[k],
                        ) != (rec_key())(ups1[l]) by {
                            if k < n && l < n {
                                assert(ups1[k] == ups0[k] && ups1[l] == ups0[l]);
                            } else if k < n {
                                assert(ups1[l] == new_pad@);
                                let jj = choose|jj: int|
                                    0 <= jj < i && (#[trigger] ups0[k]).definition.asn
                                        == os[jj]@.definition.asn;
                                assert((info_key())(os[jj]) != (info_key())(os[i as int]));
                            } else {
                                assert(ups1[k] == new_pad@);
                                let jj = choose|jj: int|
                                    0 <= jj < i && (#[trigger] ups0[l]).definition.asn
                                        == os[jj]@.definition.asn;
                                assert((info_key())(os[jj]) != (info_key())(os[i as int]));
                            }
                        }
                    }
                    assert forall|jj: int|
                        #![trigger os[jj]]
                        0 <= jj < i + 1 && should_renew(os[jj]@, renew_threshold) implies exists|
                        k: int,
                    |
                        0 <= k < ups1.len() && (#[trigger] ups1[k]).definition.asn
                            == os[jj]@.definition.asn by {
                        if jj < i {
                            let k = choose|k: int|
                                0 <= k < ups0.len() && (#[trigger] ups0[k]).definition.asn
                                    == os[jj]@.definition.asn;
                            assert(ups1[k] == ups0[k]);
                            assert(ups1[k].definition.asn == os[jj]@.definition.asn);
                        } else {
                            assert(ups1[n].definition.asn == os[jj]@.definition.asn);
                        }
                    }
                }
            }
            i += 1;
        }
        proof {
            let b = updates@;
            assert forall|a: u32|
                #[trigger] store.contains_key(a) && should_renew(store[a], renew_threshold) implies
                exists|k: int|
                    0 <= k < b.updated.len() && (#[trigger] b.updated[k]).definition.asn == a by {
                let jj = choose|jj: int|
                    0 <= jj < os.len() && (info_key())(#[trigger] os[jj]) == a;
                assert(store[a] == os[jj]@);
                assert(should_renew(os[jj]@, renew_threshold));
            }
            assert(renew_batch_ok(store, renew_threshold, v, b));
        }
        Ok(updates)
    }

    /// Commit a reconciliation batch: insert or replace every record in the
    /// batch under its AS, then drop every AS the batch removes. This step
    /// performs no signing and cannot fail; it is the only operation that
    /// mutates the store.
    pub fn updated(&mut self, updates: PadObjectsUpdates)
        ensures
            final(self)@ == applied_batch(old(self)@, updates@),
            final(self)@.dom().finite(),
    {
        let ghost b = updates@;
        let ghost m0 = self@;
        let (updated, removed) = updates.unpack();
        let mut i: usize = 0;
        while i < updated.len()
            invariant
                i <= updated@.len(),
                updated@.map_values(info_val()) == b.updated,
                self@ == upserted(m0, b.updated.take(i as int), rec_key()),
            decreases updated@.len() - i,
        {
            let info = updated[i].clone();
            proof {
                assert((info_val())(updated@[i as int]) == b.updated[i as int]);
            }
            self.insert_info(info);
            proof {
                let pre = b.updated.take(i as int);
                let post = b.updated.take(i as int + 1);
                assert(post.drop_last() =~= pre);
                assert(post.last() == b.updated[i as int]);
            }
            i += 1;
        }
        proof {
            assert(b.updated.take(updated@.len() as int) =~= b.updated);
        }
        let mut j: usize = 0;
        while j < removed.len()
            invariant
                j <= removed@.len(),
                removed@ == b.removed,
                self@ == removed_keys(upserted(m0, b.updated, rec_key()), b.removed.take(j as int)),
            decreases removed@.len() - j,
        {
            let asn = removed[j];
            self.remove_asn(asn);
            proof {
                let pre = b.removed.take(j as int);
                let post = b.removed.take(j as int + 1);
                assert(post.drop_last() =~= pre);
                assert(post.last() == b.removed[j as int]);
            }
            j += 1;
        }
        proof {
            assert(b.removed.take(removed@.len() as int) =~= b.removed);
            use_type_invariant(&*self);
            lemma_key_map_len(self.objects@, info_key(), info_val());
        }
    }
}

/// Law: committing a reconciliation batch restores the coverage invariant.
/// Afterwards the store holds a record exactly for the covered subjects, and
/// each held record embeds the subject's current definition.
pub proof fn lemma_reconciliation_coverage(
    store: Map<u32, InfoView>,
    defs: Map<u32, DefView>,
    res: Set<u32>,
    v: Validity,
    b: BatchView,
)
    requires
        update_batch_ok(store, defs, res, v, b),
        forall|a: u32| #[trigger] defs.contains_key(a) ==> defs[a].asn == a,
    ensures
        forall|a: u32|
            #[trigger] applied_batch(store, b).contains_key(a) <==> covered(defs, res, a),
        forall|a: u32|
            #![trigger covered(defs, res, a)]
            covered(defs, res, a) ==> applied_batch(store, b)[a].definition == defs[a],
{
    let up = upserted(store, b.updated, rec_key());
    lemma_upserted(store, b.updated, rec_key());
    lemma_removed_keys(up, b.removed);
    assert forall|a: u32|
        #[trigger] applied_batch(store, b).contains_key(a) <==> covered(defs, res, a) by {
        assert(covered(defs, res, a) || !covered(defs, res, a));
        if covered(defs, res, a) {
            assert(!b.removed.contains(a));
            if needs_issue(store, defs[a]) {
                let k = choose|k: int|
                    0 <= k < b.updated.len() && (#[trigger] b.updated[k]).definition.asn == a;
                assert((rec_key())(b.updated[k]) == a);
                assert(up.contains_key(a));
            } else {
                assert(store.contains_key(a));
                assert(up.contains_key(a));
            }
        } else {
            assert(!(exists|k: int|
                0 <= k < b.updated.len() && (rec_key())(#[trigger] b.updated[k]) == a)) by {
                if exists|k: int|
                    0 <= k < b.updated.len() && (rec_key())(#[trigger] b.updated[k]) == a {
                    let k = choose|k: int|
                        0 <= k < b.updated.len() && (rec_key())(#[trigger] b.updated[k]) == a;
                    assert(covered(defs, res, b.updated[k].definition.asn));
                }
            }
            if store.contains_key(a) {
                assert(b.removed.contains(a));
            }
        }
    }
    assert forall|a: u32|
        #![trigger covered(defs, res, a)]
        covered(defs, res, a) implies applied_batch(store, b)[a].definition == defs[a] by {
        assert(!b.removed.contains(a));
        if exists|k: int| 0 <= k < b.updated.len() && (rec_key())(#[trigger] b.updated[k]) == a {
            let k = choose|k: int|
                0 <= k < b.updated.len() && (rec_key())(#[trigger] b.updated[k]) == a;
            assert(up[(rec_key())(b.updated[k])] == b.updated[k]);
            assert(up[a].definition == defs[a]);
        } else {
            assert(!needs_issue(store, defs[a]));
            assert(store.contains_key(a) && store[a].definition == defs[a]);
            assert(up[a] == store[a]);
        }
        assert(applied_batch(store, b)[a] == up[a]);
    }
}

/// Law: no subject appears in both lists of a reconciliation batch. Upserts
/// concern covered subjects only, removals uncovered ones only.
pub proof fn lemma_batch_lists_disjoint(
    store: Map<u32, InfoView>,
    defs: Map<u32, DefView>,
    res: Set<u32>,
    v: Validity,
    b: BatchView,
)
    requires
        update_batch_ok(store, defs, res, v, b),
    ensures
        forall|k: int|
            0 <= k < b.updated.len() ==> !b.removed.contains(
                (#[trigger] b.updated[k]).definition.asn,
            ),
{
    assert forall|k: int| 0 <= k < b.updated.len() implies !b.removed.contains(
        (#[trigger] b.updated[k]).definition.asn,
    ) by {
        let a = b.updated[k].definition.asn;
        assert(covered(defs, res, a));
    }
}

/// Law: reconciliation is stable. A second pass run against the committed
/// outcome of a first pass, with the same definitions and resources, owes
/// nothing: its batch re-issues nothing and removes nothing.
pub proof fn lemma_update_noop(
    store: Map<u32, InfoView>,
    defs: Map<u32, DefView>,
    res: Set<u32>,
    v: Validity,
    b: BatchView,
    v2: Validity,
    b2: BatchView,
)
    requires
        update_batch_ok(store, defs, res, v, b),
        update_batch_ok(applied_batch(store, b), defs, res, v2, b2),
        forall|a: u32| #[trigger] defs.contains_key(a) ==> defs[a].asn == a,
    ensures
        b2.updated.len() == 0,
        b2.removed.len() == 0,
{
    lemma_reconciliation_coverage(store, defs, res, v, b);
    let store1 = applied_batch(store, b);
    if b2.updated.len() > 0 {
        let rec = b2.updated[0];
        assert(covered(defs, res, rec.definition.asn));
        assert(store1.contains_key(rec.definition.asn));
        assert(store1[rec.definition.asn].definition == defs[rec.definition.asn]);
        assert(!needs_issue(store1, rec.definition));
        assert(false);
    }
    if b2.removed.len() > 0 {
        let a = b2.removed[0];
        assert(b2.removed.contains(a));
        assert(store1.contains_key(a) && !covered(defs, res, a));
        assert(false);
    }
}

} // verus!
