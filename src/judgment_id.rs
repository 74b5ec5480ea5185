//! Content-derived judgment identities and outcome records that link back
//! to them.
use vstd::prelude::*;

use crate::canonical::{judgment_text, push_judgment};
use crate::digest::{digest_hex, sha256_hex};
use crate::error::OpenTrustError;
use crate::judgment::{
    append_chain, chain_view, degree_error, valid_degrees, validate_degrees, EntryView,
    JudgmentView, NeutrosophicJudgment, ProvenanceEntry,
};

verus! {

/// The identity of a judgment: the hex digest of its canonical text, which
/// holds its degrees and its chain without seals.
pub open spec fn identity_of(t: u32, i: u32, f: u32, chain: Seq<EntryView>) -> Seq<char> {
    digest_hex(judgment_text(t, i, f, chain))
}

/// Computes the identity of `judgment`; a stored identity is ignored.
pub fn generate_judgment_id(judgment: &NeutrosophicJudgment) -> (r: Result<String, OpenTrustError>)
    ensures
        r matches Ok(id) && id@ == identity_of(judgment.t, judgment.i, judgment.f, judgment@.chain)
            && id@.len() == 64,
{
    let mut text: Vec<char> = Vec::new();
    push_judgment(&mut text, judgment);
    assert(text@ =~= judgment_text(judgment.t, judgment.i, judgment.f, judgment@.chain));
    Ok(sha256_hex(&text))
}

/// The judgment with an identity: a stored one is kept, else one is computed.
pub fn ensure_judgment_id(judgment: NeutrosophicJudgment) -> (r: Result<
    NeutrosophicJudgment,
    OpenTrustError,
>)
    ensures
        r matches Ok(j) && j@ == (JudgmentView {
            judgment_id: if judgment.judgment_id is Some {
                judgment@.judgment_id
            } else {
                Some(identity_of(judgment.t, judgment.i, judgment.f, judgment@.chain))
            },
            ..judgment@
        }),
{
    let mut judgment = judgment;
    if judgment.judgment_id.is_none() {
        match generate_judgment_id(&judgment) {
            Ok(id) => {
                judgment.judgment_id = Some(id);
            },
            Err(e) => {
                return Err(e);
            },
        }
    }
    Ok(judgment)
}

/// What happened in the world after a decision.
#[derive(Debug, Clone, Copy, PartialEq, Eq, Structural)]
pub enum OutcomeType {
    Success,
    Failure,
    Partial,
}

impl OutcomeType {
    /// The lowercase name of the outcome.
    pub fn name(&self) -> (r: &'static str)
        ensures
            r@ == match self {
                OutcomeType::Success => "success"@,
                OutcomeType::Failure => "failure"@,
                OutcomeType::Partial => "partial"@,
            },
    {
        match self {
            OutcomeType::Success => "success",
            OutcomeType::Failure => "failure",
            OutcomeType::Partial => "partial",
        }
    }
}

/// A real-world result, linked to the identity of the judgment it evaluates.
#[derive(Debug, Clone)]
pub struct OutcomeJudgment {
    /// Identity of this outcome, computed from its judgment-shaped projection.
    pub judgment_id: String,
    /// Identity of the decision judgment this outcome evaluates.
    pub links_to_judgment_id: String,
    pub t: u32,
    pub i: u32,
    pub f: u32,
    pub outcome_type: OutcomeType,
    /// The oracle that recorded the outcome.
    pub oracle_source: String,
    pub provenance_chain: Vec<ProvenanceEntry>,
}

impl OutcomeJudgment {
    /// Validates the degrees and stamps the outcome with its own identity.
    pub fn new(
        links_to_judgment_id: String,
        t: u32,
        i: u32,
        f: u32,
        outcome_type: OutcomeType,
        oracle_source: String,
        provenance_chain: Vec<ProvenanceEntry>,
    ) -> (r: Result<Self, OpenTrustError>)
        ensures
            r is Ok <==> valid_degrees(t as int, i as int, f as int),
            r matches Err(e) ==> degree_error(t, i, f, e),
            r matches Ok(o) ==> {
                &&& o.judgment_id@ == identity_of(t, i, f, chain_view(provenance_chain@))
                &&& o.links_to_judgment_id == links_to_judgment_id
                &&& o.t == t && o.i == i && o.f == f
                &&& o.outcome_type == outcome_type
                &&& o.oracle_source == oracle_source
                &&& chain_view(o.provenance_chain@) == chain_view(provenance_chain@)
            },
    {
        match validate_degrees(t, i, f) {
            Ok(()) => {},
            Err(e) => {
                return Err(e);
            },
        }
        let projection = NeutrosophicJudgment {
            judgment_id: None,
            t,
            i,
            f,
            provenance_chain,
        };
        let id = match generate_judgment_id(&projection) {
            Ok(id) => id,
            Err(e) => {
                return Err(e);
            },
        };
        Ok(
            OutcomeJudgment {
                judgment_id: id,
                links_to_judgment_id,
                t,
                i,
                f,
                outcome_type,
                oracle_source,
                provenance_chain: projection.provenance_chain,
            },
        )
    }

    /// The outcome seen as a plain judgment that carries its identity.
    pub fn to_neutrosophic_judgment(&self) -> (r: NeutrosophicJudgment)
        ensures
            r@ == (JudgmentView {
                judgment_id: Some(self.judgment_id@),
                t: self.t,
                i: self.i,
                f: self.f,
                chain: chain_view(self.provenance_chain@),
            }),
    {
        let mut chain: Vec<ProvenanceEntry> = Vec::new();
        append_chain(&mut chain, &self.provenance_chain);
        assert(chain_view(chain@) =~= chain_view(self.provenance_chain@));
        NeutrosophicJudgment {
            judgment_id: Some(self.judgment_id.clone()),
            t: self.t,
            i: self.i,
            f: self.f,
            provenance_chain: chain,
        }
    }
}

/// Judgments with the same degrees and the same chain content have the same
/// identity, whatever else differs (a stored identity, seals in the chain).
pub proof fn lemma_identity_stable(a: JudgmentView, b: JudgmentView)
    requires
        a.t == b.t,
        a.i == b.i,
        a.f == b.f,
        judgment_text(a.t, a.i, a.f, a.chain) == judgment_text(b.t, b.i, b.f, b.chain),
    ensures
        identity_of(a.t, a.i, a.f, a.chain) == identity_of(b.t, b.i, b.f, b.chain),
{
}

} // verus!
