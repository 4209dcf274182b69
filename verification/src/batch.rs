use vstd::prelude::*;

use crate::record::{info_val, InfoView, PadInfo};

verus! {

/// Mathematical value of an update batch.
#[verifier::ext_equal]
pub ghost struct BatchView {
    pub updated: Seq<InfoView>,
    pub removed: Seq<u32>,
}

/// What one reconciliation pass decided: records to insert or replace in the
/// issued-object store, and AS numbers whose records are to be dropped. A
/// batch is built only after every needed signing call succeeded, and is
/// applied to the store in one step.
#[derive(Debug)]
pub struct PadObjectsUpdates {
    updated: Vec<PadInfo>,
    removed: Vec<u32>,
}

impl View for PadObjectsUpdates {
    type V = BatchView;

    closed spec fn view(&self) -> BatchView {
        BatchView { updated: self.updated@.map_values(info_val()), removed: self.removed@ }
    }
}

impl Default for PadObjectsUpdates {
    /// The empty batch.
    fn default() -> (r: Self)
        ensures
            r@.updated.len() == 0,
            r@.removed.len() == 0,
    {
        PadObjectsUpdates { updated: Vec::new(), removed: Vec::new() }
    }
}

impl PadObjectsUpdates {
    /// Record one object to insert or replace.
    pub fn add_updated(&mut self, info: PadInfo)
        ensures
            final(self)@.updated == old(self)@.updated.push(info@),
            final(self)@.removed == old(self)@.removed,
    {
        self.updated.push(info);
        proof {
            assert(self@.updated =~= old(self)@.updated.push(info@));
        }
    }

    /// Record one AS whose object is to be dropped.
    pub fn add_removed(&mut self, asn: u32)
        ensures
            final(self)@.removed == old(self)@.removed.push(asn),
            final(self)@.updated == old(self)@.updated,
    {
        self.removed.push(asn);
    }

    /// Take the batch apart.
    pub fn unpack(self) -> (r: (Vec<PadInfo>, Vec<u32>))
        ensures
            r.0@.map_values(info_val()) == self@.updated,
            r.1@ == self@.removed,
    {
        (self.updated, self.removed)
    }
}

} // verus!
