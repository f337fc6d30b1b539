//! What the proxy does to a matched response before it answers the client.

use vstd::prelude::*;
use crate::name::spec_dotted;
use crate::packet::{records_view, records_wf, DNSPacket, PacketView};
use crate::record::{Record, RecordView, TYPE_ADDRESS};

verus! {

/// The policy applied to each matched response. It is a value handed to the
/// proxy, so a caller chooses it freely.
#[derive(Clone, Debug, PartialEq, Eq)]
pub enum TransformPolicy {
    /// Leaves every response as it is.
    NoOp,
    /// Where the first question of the response asks for `target`, written
    /// with dots, every address record among the answers gets `address` as
    /// its data.
    RewriteAddress { target: Vec<u8>, address: [u8; 4] },
}

/// A policy as a mathematical value.
pub enum PolicyView {
    NoOp,
    RewriteAddress { target: Seq<u8>, address: Seq<u8> },
}

impl View for TransformPolicy {
    type V = PolicyView;

    open spec fn view(&self) -> PolicyView {
        match self {
            TransformPolicy::NoOp => PolicyView::NoOp,
            TransformPolicy::RewriteAddress { target, address } => PolicyView::RewriteAddress {
                target: target@,
                address: address@,
            },
        }
    }
}

/// The record with `address` as its data where it is an address record, and
/// unchanged where it is not.
pub open spec fn spec_rewrite_record(r: RecordView, address: Seq<u8>) -> RecordView {
    if r.ty == TYPE_ADDRESS {
        RecordView {
            name: r.name,
            ty: r.ty,
            class: r.class,
            ttl: r.ttl,
            rdlength: address.len() as u16,
            rdata: address,
        }
    } else {
        r
    }
}

/// The message asks first for the name that `target` spells with dots.
pub open spec fn spec_asks_for(p: PacketView, target: Seq<u8>) -> bool {
    p.questions.len() > 0 && spec_dotted(p.questions[0].name) == target
}

/// The message that a policy makes of `p`.
pub open spec fn spec_apply_policy(policy: PolicyView, p: PacketView) -> PacketView {
    match policy {
        PolicyView::NoOp => p,
        PolicyView::RewriteAddress { target, address } => if spec_asks_for(p, target) {
            PacketView {
                header: p.header,
                questions: p.questions,
                answers: p.answers.map_values(|r: RecordView| spec_rewrite_record(r, address)),
                authorities: p.authorities,
                additionals: p.additionals,
            }
        } else {
            p
        },
    }
}

/// Tells whether two byte strings are the same.
pub fn same_bytes(a: &Vec<u8>, b: &Vec<u8>) -> (same: bool)
    ensures
        same == (a@ == b@),
{
    if a.len() != b.len() {
        return false;
    }
    let mut i: usize = 0;
    while i < a.len()
        invariant
            i <= a.len(),
            a.len() == b.len(),
            forall|j: int| 0 <= j < i ==> a@[j] == b@[j],
        decreases a.len() - i,
    {
        if a[i] != b[i] {
            return false;
        }
        i = i + 1;
    }
    assert(a@ =~= b@);
    true
}

/// Gives every address record among `records` the data `address`.
fn rewrite_addresses(records: &mut Vec<Record>, address: &[u8; 4])
    ensures
        records_view(final(records)@) == records_view(old(records)@).map_values(
            |r: RecordView| spec_rewrite_record(r, address@),
        ),
{
    let ghost before = records_view(records@);
    let ghost rewrite = |r: RecordView| spec_rewrite_record(r, address@);
    let mut i: usize = 0;
    while i < records.len()
        invariant
            i <= records.len(),
            records@.len() == before.len(),
            before == records_view(old(records)@),
            rewrite == |r: RecordView| spec_rewrite_record(r, address@),
            forall|j: int| 0 <= j < i ==> (#[trigger] records@[j])@ == rewrite(before[j]),
            forall|j: int| i <= j < records@.len() ==> (#[trigger] records@[j])@ == before[j],
        decreases records.len() - i,
    {
        if records[i].ty == TYPE_ADDRESS {
            let mut data: Vec<u8> = Vec::new();
            data.push(address[0]);
            data.push(address[1]);
            data.push(address[2]);
            data.push(address[3]);
            assert(data@ =~= address@);
            records[i].rdlength = 4;
            records[i].rdata = data;
        }
        i = i + 1;
    }
    assert(records_view(records@) =~= before.map_values(rewrite));
}

impl TransformPolicy {
    /// Applies the policy to a response. The no-op policy hands the response
    /// back as it is. A well-formed response stays well formed, and the
    /// header is never touched.
    pub fn apply(&self, packet: DNSPacket) -> (out: DNSPacket)
        ensures
            out@ == spec_apply_policy(self@, packet@),
            *self == TransformPolicy::NoOp ==> out == packet,
            out.header == packet.header,
            packet.wf() ==> out.wf(),
            out@.counts_match() == packet@.counts_match(),
    {
        proof {
            if packet.wf() {
                lemma_policy_keeps_wf(self@, packet@);
            }
            lemma_policy_keeps_lengths(self@, packet@);
        }
        match self {
            TransformPolicy::NoOp => packet,
            TransformPolicy::RewriteAddress { target, address } => {
                if packet.questions.len() == 0 {
                    return packet;
                }
                let asked = packet.questions[0].name.dotted();
                if !same_bytes(&asked, target) {
                    return packet;
                }
                let mut out = packet;
                rewrite_addresses(&mut out.answers, address);
                out
            },
        }
    }
}

/// A policy changes neither the header nor the length of any section.
pub proof fn lemma_policy_keeps_lengths(policy: PolicyView, p: PacketView)
    ensures
        spec_apply_policy(policy, p).header == p.header,
        spec_apply_policy(policy, p).questions == p.questions,
        spec_apply_policy(policy, p).answers.len() == p.answers.len(),
        spec_apply_policy(policy, p).authorities == p.authorities,
        spec_apply_policy(policy, p).additionals == p.additionals,
        spec_apply_policy(policy, p).counts_match() == p.counts_match(),
{
}

/// A policy whose address has 4 bytes keeps a well-formed message well
/// formed.
pub proof fn lemma_policy_keeps_wf(policy: PolicyView, p: PacketView)
    requires
        p.wf(),
        policy is RewriteAddress ==> policy->address.len() == 4,
    ensures
        spec_apply_policy(policy, p).wf(),
{
    let out = spec_apply_policy(policy, p);
    assert(records_wf(out.answers)) by {
        assert forall|i: int| 0 <= i < out.answers.len() implies (
        #[trigger] out.answers[i]).wf() by {
            assert(p.answers[i].wf());
        }
    }
}

/// The no-op policy changes nothing.
pub proof fn lemma_no_op_is_identity(p: PacketView)
    ensures
        spec_apply_policy(PolicyView::NoOp, p) == p,
{
}

} // verus!
