//! Where a mutation stands in its vbucket's history.
use vstd::prelude::*;

verus! {

#[derive(Debug, Clone, Copy, PartialEq, Eq, Structural)]
pub struct MutationToken {
    vbid: u16,
    vbuuid: u64,
    seqno: u64,
}

impl MutationToken {
    pub closed spec fn spec_vbid(&self) -> u16 {
        self.vbid
    }

    pub closed spec fn spec_vbuuid(&self) -> u64 {
        self.vbuuid
    }

    pub closed spec fn spec_seqno(&self) -> u64 {
        self.seqno
    }

    pub fn new(vbid: u16, vbuuid: u64, seqno: u64) -> (r: Self)
        ensures
            r.spec_vbid() == vbid,
            r.spec_vbuuid() == vbuuid,
            r.spec_seqno() == seqno,
    {
        MutationToken { vbid, vbuuid, seqno }
    }

    pub fn vbid(&self) -> (r: u16)
        ensures
            r == self.spec_vbid(),
    {
        self.vbid
    }

    pub fn vbuuid(&self) -> (r: u64)
        ensures
            r == self.spec_vbuuid(),
    {
        self.vbuuid
    }

    pub fn seqno(&self) -> (r: u64)
        ensures
            r == self.spec_seqno(),
    {
        self.seqno
    }
}

} // verus!
