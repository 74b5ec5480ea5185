//! The judgment value type, its provenance chain and its validation rules.
use vstd::prelude::*;

use crate::error::OpenTrustError;
use crate::text::{is_blank, is_blank_str};

verus! {

/// Degrees are fixed-point numbers: `SCALE` stands for 1.0.
pub const SCALE: u32 = 1_000_000;

/// A JSON-like scalar held in provenance metadata.
#[derive(Debug, Clone)]
pub enum MetadataValue {
    Null,
    Flag(bool),
    Integer(u64),
    Text(String),
    /// A list of non-negative integers.
    IntegerList(Vec<u64>),
}

/// The mathematical content of a metadata value.
pub enum MetadataView {
    Null,
    Flag(bool),
    Integer(u64),
    Text(Seq<char>),
    IntegerList(Seq<u64>),
}

impl View for MetadataValue {
    type V = MetadataView;

    open spec fn view(&self) -> MetadataView {
        match self {
            MetadataValue::Null => MetadataView::Null,
            MetadataValue::Flag(b) => MetadataView::Flag(*b),
            MetadataValue::Integer(n) => MetadataView::Integer(*n),
            MetadataValue::Text(s) => MetadataView::Text(s@),
            MetadataValue::IntegerList(v) => MetadataView::IntegerList(v@),
        }
    }
}

/// One step of an audit trail.
#[derive(Debug, Clone)]
pub struct ProvenanceEntry {
    /// Producer or operator that made this step.
    pub source_id: String,
    /// ISO-8601 time of the step.
    pub timestamp: String,
    pub description: Option<String>,
    /// Ordered key/value pairs.
    pub metadata: Option<Vec<(String, MetadataValue)>>,
    /// Present only on entries written by a fusion operator.
    pub conformance_seal: Option<String>,
}

/// The mathematical content of a provenance entry.
pub struct EntryView {
    pub source_id: Seq<char>,
    pub timestamp: Seq<char>,
    pub description: Option<Seq<char>>,
    pub metadata: Option<Seq<(Seq<char>, MetadataView)>>,
    pub conformance_seal: Option<Seq<char>>,
}

pub open spec fn opt_text(o: Option<String>) -> Option<Seq<char>> {
    match o {
        Some(s) => Some(s@),
        None => None,
    }
}

pub open spec fn pairs_view(v: Seq<(String, MetadataValue)>) -> Seq<(Seq<char>, MetadataView)> {
    v.map_values(|p: (String, MetadataValue)| (p.0@, p.1@))
}

pub open spec fn metadata_view(o: Option<Vec<(String, MetadataValue)>>) -> Option<
    Seq<(Seq<char>, MetadataView)>,
> {
    match o {
        Some(m) => Some(pairs_view(m@)),
        None => None,
    }
}

impl View for ProvenanceEntry {
    type V = EntryView;

    open spec fn view(&self) -> EntryView {
        EntryView {
            source_id: self.source_id@,
            timestamp: self.timestamp@,
            description: opt_text(self.description),
            metadata: metadata_view(self.metadata),
            conformance_seal: opt_text(self.conformance_seal),
        }
    }
}

pub open spec fn chain_view(c: Seq<ProvenanceEntry>) -> Seq<EntryView> {
    c.map_values(|e: ProvenanceEntry| e@)
}

/// An entry is usable when its source id and timestamp are not blank.
pub open spec fn valid_entry(e: EntryView) -> bool {
    !is_blank(e.source_id) && !is_blank(e.timestamp)
}

/// A chain is usable when it is non-empty and each entry is usable.
pub open spec fn valid_chain(c: Seq<EntryView>) -> bool {
    c.len() > 0 && forall|k: int| 0 <= k < c.len() ==> valid_entry(#[trigger] c[k])
}

/// Each degree in `[0, SCALE]` and their sum at most `SCALE`.
pub open spec fn valid_degrees(t: int, i: int, f: int) -> bool {
    0 <= t <= SCALE && 0 <= i <= SCALE && 0 <= f <= SCALE && t + i + f <= SCALE
}

/// The error that a range or conservation check reports, checks taken in
/// order: ranges of T, I, F, then the sum.
pub open spec fn degree_error(t: u32, i: u32, f: u32, e: OpenTrustError) -> bool {
    if t > SCALE {
        e matches OpenTrustError::InvalidValue { field, value, .. } && field@ == seq!['T']
            && value == t
    } else if i > SCALE {
        e matches OpenTrustError::InvalidValue { field, value, .. } && field@ == seq!['I']
            && value == i
    } else if f > SCALE {
        e matches OpenTrustError::InvalidValue { field, value, .. } && field@ == seq!['F']
            && value == f
    } else {
        e matches OpenTrustError::ConservationViolation { t: et, i: ei, f: ef, sum } && et == t
            && ei == i && ef == f && sum == t + i + f
    }
}

/// The error that validation reports: the degree checks, then an empty
/// chain, then the first unusable entry.
pub open spec fn expected_error(
    t: u32,
    i: u32,
    f: u32,
    chain: Seq<EntryView>,
    e: OpenTrustError,
) -> bool {
    if !valid_degrees(t as int, i as int, f as int) {
        degree_error(t, i, f, e)
    } else if chain.len() == 0 {
        e is EmptyProvenanceChain
    } else {
        e matches OpenTrustError::InvalidProvenanceEntry { index, .. } && index < chain.len()
            && !valid_entry(chain[index as int]) && forall|k: int|
            0 <= k < index ==> valid_entry(#[trigger] chain[k])
    }
}

impl ProvenanceEntry {
    /// An entry with a source and a timestamp only.
    pub fn new(source_id: String, timestamp: String) -> (r: Self)
        ensures
            r.source_id == source_id,
            r.timestamp == timestamp,
            r.description is None,
            r.metadata is None,
            r.conformance_seal is None,
    {
        ProvenanceEntry {
            source_id,
            timestamp,
            description: None,
            metadata: None,
            conformance_seal: None,
        }
    }

    /// An entry with a source, a timestamp and a description.
    pub fn with_description(source_id: String, timestamp: String, description: String) -> (r:
        Self)
        ensures
            r.source_id == source_id,
            r.timestamp == timestamp,
            r.description == Some(description),
            r.metadata is None,
            r.conformance_seal is None,
    {
        ProvenanceEntry {
            source_id,
            timestamp,
            description: Some(description),
            metadata: None,
            conformance_seal: None,
        }
    }
}

/// A truth/indeterminacy/falsity assessment with its audit trail.
#[derive(Debug, Clone)]
pub struct NeutrosophicJudgment {
    /// Content-derived identity, attached once.
    pub judgment_id: Option<String>,
    /// Truth degree, in units of `1 / SCALE`.
    pub t: u32,
    /// Indeterminacy degree, in units of `1 / SCALE`.
    pub i: u32,
    /// Falsity degree, in units of `1 / SCALE`.
    pub f: u32,
    /// Append-only audit trail, oldest first.
    pub provenance_chain: Vec<ProvenanceEntry>,
}

/// The mathematical content of a judgment.
pub struct JudgmentView {
    pub judgment_id: Option<Seq<char>>,
    pub t: u32,
    pub i: u32,
    pub f: u32,
    pub chain: Seq<EntryView>,
}

impl View for NeutrosophicJudgment {
    type V = JudgmentView;

    open spec fn view(&self) -> JudgmentView {
        JudgmentView {
            judgment_id: opt_text(self.judgment_id),
            t: self.t,
            i: self.i,
            f: self.f,
            chain: chain_view(self.provenance_chain@),
        }
    }
}

impl JudgmentView {
    /// Degrees in range, conserved, and a usable chain.
    pub open spec fn wf(self) -> bool {
        valid_degrees(self.t as int, self.i as int, self.f as int) && valid_chain(self.chain)
    }
}

/// `|a - b| < eps`.
pub open spec fn within(a: u32, b: u32, eps: u32) -> bool {
    if a >= b {
        a - b < eps
    } else {
        b - a < eps
    }
}

fn within_exec(a: u32, b: u32, eps: u32) -> (r: bool)
    ensures
        r == within(a, b, eps),
{
    if a >= b {
        a - b < eps
    } else {
        b - a < eps
    }
}

fn text_opt_eq(a: &Option<String>, b: &Option<String>) -> (r: bool)
    ensures
        r == (opt_text(*a) == opt_text(*b)),
{
    match (a, b) {
        (Some(x), Some(y)) => x.eq(y),
        (None, None) => true,
        _ => false,
    }
}

fn integers_eq(a: &Vec<u64>, b: &Vec<u64>) -> (r: bool)
    ensures
        r == (a@ == b@),
{
    if a.len() != b.len() {
        return false;
    }
    let mut k: usize = 0;
    while k < a.len()
        invariant
            a.len() == b.len(),
            k <= a.len(),
            forall|m: int| 0 <= m < k ==> a@[m] == b@[m],
        decreases a.len() - k,
    {
        if a[k] != b[k] {
            return false;
        }
        k = k + 1;
    }
    assert(a@ =~= b@);
    true
}

fn copy_integers(a: &Vec<u64>) -> (r: Vec<u64>)
    ensures
        r@ == a@,
{
    let mut out: Vec<u64> = Vec::new();
    let mut k: usize = 0;
    while k < a.len()
        invariant
            k <= a.len(),
            out@ == a@.subrange(0, k as int),
        decreases a.len() - k,
    {
        out.push(a[k]);
        assert(a@.subrange(0, k as int + 1) =~= a@.subrange(0, k as int).push(a@[k as int]));
        k = k + 1;
    }
    assert(a@.subrange(0, a.len() as int) =~= a@);
    out
}

fn metadata_value_eq(a: &MetadataValue, b: &MetadataValue) -> (r: bool)
    ensures
        r == (a@ == b@),
{
    match (a, b) {
        (MetadataValue::Null, MetadataValue::Null) => true,
        (MetadataValue::Flag(x), MetadataValue::Flag(y)) => *x == *y,
        (MetadataValue::Integer(x), MetadataValue::Integer(y)) => *x == *y,
        (MetadataValue::Text(x), MetadataValue::Text(y)) => x.eq(y),
        (MetadataValue::IntegerList(x), MetadataValue::IntegerList(y)) => integers_eq(x, y),
        _ => false,
    }
}

fn metadata_eq(a: &Option<Vec<(String, MetadataValue)>>, b: &Option<Vec<(String, MetadataValue)>>) -> (r:
    bool)
    ensures
        r == (metadata_view(*a) == metadata_view(*b)),
{
    match (a, b) {
        (Some(x), Some(y)) => {
            if x.len() != y.len() {
                assert(pairs_view(x@).len() != pairs_view(y@).len());
                return false;
            }
            let mut k: usize = 0;
            while k < x.len()
                invariant
                    x.len() == y.len(),
                    k <= x.len(),
                    metadata_view(*a) == Some(pairs_view(x@)),
                    metadata_view(*b) == Some(pairs_view(y@)),
                    forall|m: int| 0 <= m < k ==> pairs_view(x@)[m] == pairs_view(y@)[m],
                decreases x.len() - k,
            {
                assert(pairs_view(x@)[k as int] == (x@[k as int].0@, x@[k as int].1@));
                assert(pairs_view(y@)[k as int] == (y@[k as int].0@, y@[k as int].1@));
                if !x[k].0.eq(&y[k].0) || !metadata_value_eq(&x[k].1, &y[k].1) {
                    assert(pairs_view(x@)[k as int] != pairs_view(y@)[k as int]);
                    return false;
                }
                k = k + 1;
            }
            assert(pairs_view(x@) =~= pairs_view(y@));
            true
        },
        (None, None) => true,
        _ => false,
    }
}

/// Tells whether two entries have the same content.
pub fn entry_eq(a: &ProvenanceEntry, b: &ProvenanceEntry) -> (r: bool)
    ensures
        r == (a@ == b@),
{
    a.source_id.eq(&b.source_id) && a.timestamp.eq(&b.timestamp) && text_opt_eq(
        &a.description,
        &b.description,
    ) && metadata_eq(&a.metadata, &b.metadata) && text_opt_eq(
        &a.conformance_seal,
        &b.conformance_seal,
    )
}

/// Tells whether two chains have the same content, entry by entry.
pub fn chain_eq(a: &Vec<ProvenanceEntry>, b: &Vec<ProvenanceEntry>) -> (r: bool)
    ensures
        r == (chain_view(a@) == chain_view(b@)),
{
    if a.len() != b.len() {
        assert(chain_view(a@).len() != chain_view(b@).len());
        return false;
    }
    let mut k: usize = 0;
    while k < a.len()
        invariant
            a.len() == b.len(),
            k <= a.len(),
            forall|m: int| 0 <= m < k ==> chain_view(a@)[m] == chain_view(b@)[m],
        decreases a.len() - k,
    {
        if !entry_eq(&a[k], &b[k]) {
            assert(chain_view(a@)[k as int] != chain_view(b@)[k as int]);
            return false;
        }
        k = k + 1;
    }
    assert(chain_view(a@) =~= chain_view(b@));
    true
}

fn copy_text_opt(a: &Option<String>) -> (r: Option<String>)
    ensures
        opt_text(r) == opt_text(*a),
{
    match a {
        Some(s) => Some(s.clone()),
        None => None,
    }
}

fn copy_metadata_value(a: &MetadataValue) -> (r: MetadataValue)
    ensures
        r@ == a@,
{
    match a {
        MetadataValue::Null => MetadataValue::Null,
        MetadataValue::Flag(b) => MetadataValue::Flag(*b),
        MetadataValue::Integer(n) => MetadataValue::Integer(*n),
        MetadataValue::Text(s) => MetadataValue::Text(s.clone()),
        MetadataValue::IntegerList(v) => MetadataValue::IntegerList(copy_integers(v)),
    }
}

fn copy_metadata(a: &Option<Vec<(String, MetadataValue)>>) -> (r: Option<
    Vec<(String, MetadataValue)>,
>)
    ensures
        metadata_view(r) == metadata_view(*a),
{
    match a {
        Some(m) => {
            let mut out: Vec<(String, MetadataValue)> = Vec::new();
            let mut k: usize = 0;
            while k < m.len()
                invariant
                    k <= m.len(),
                    out@.len() == k,
                    forall|j: int|
                        0 <= j < k ==> (#[trigger] out@[j]).0@ == m@[j].0@ && out@[j].1@
                            == m@[j].1@,
                decreases m.len() - k,
            {
                let key = m[k].0.clone();
                let value = copy_metadata_value(&m[k].1);
                out.push((key, value));
                k = k + 1;
            }
            assert(pairs_view(out@) =~= pairs_view(m@));
            Some(out)
        },
        None => None,
    }
}

/// A copy of an entry with the same content.
pub fn copy_entry(e: &ProvenanceEntry) -> (r: ProvenanceEntry)
    ensures
        r@ == e@,
{
    ProvenanceEntry {
        source_id: e.source_id.clone(),
        timestamp: e.timestamp.clone(),
        description: copy_text_opt(&e.description),
        metadata: copy_metadata(&e.metadata),
        conformance_seal: copy_text_opt(&e.conformance_seal),
    }
}

/// Appends copies of the entries of `src` to `out`, in order.
pub fn append_chain(out: &mut Vec<ProvenanceEntry>, src: &Vec<ProvenanceEntry>)
    ensures
        chain_view(final(out)@) == chain_view(old(out)@) + chain_view(src@),
{
    let ghost start = out@;
    let mut k: usize = 0;
    while k < src.len()
        invariant
            k <= src.len(),
            out@.len() == start.len() + k,
            forall|j: int| 0 <= j < start.len() ==> (#[trigger] out@[j])@ == start[j]@,
            forall|j: int| 0 <= j < k ==> (#[trigger] out@[start.len() + j])@ == src@[j]@,
        decreases src.len() - k,
    {
        out.push(copy_entry(&src[k]));
        k = k + 1;
    }
    assert forall|j: int| 0 <= j < out@.len() implies #[trigger] chain_view(out@)[j] == (
    chain_view(start) + chain_view(src@))[j] by {
        if j >= start.len() {
            assert(out@[start.len() + (j - start.len())] == out@[j]);
        }
    }
    assert(chain_view(out@) =~= chain_view(start) + chain_view(src@));
}

/// Checks the ranges of the degrees, then their sum.
pub fn validate_degrees(t: u32, i: u32, f: u32) -> (r: Result<(), OpenTrustError>)
    ensures
        r is Ok <==> valid_degrees(t as int, i as int, f as int),
        r matches Err(e) ==> degree_error(t, i, f, e),
{
    proof {
        reveal_strlit("T");
        reveal_strlit("I");
        reveal_strlit("F");
        assert("T"@ =~= seq!['T']);
        assert("I"@ =~= seq!['I']);
        assert("F"@ =~= seq!['F']);
    }
    if t > SCALE {
        return Err(
            OpenTrustError::InvalidValue {
                field: "T".to_owned(),
                value: t,
                message: "T value must be between 0 and 1".to_owned(),
            },
        );
    }
    if i > SCALE {
        return Err(
            OpenTrustError::InvalidValue {
                field: "I".to_owned(),
                value: i,
                message: "I value must be between 0 and 1".to_owned(),
            },
        );
    }
    if f > SCALE {
        return Err(
            OpenTrustError::InvalidValue {
                field: "F".to_owned(),
                value: f,
                message: "F value must be between 0 and 1".to_owned(),
            },
        );
    }
    let sum: u64 = t as u64 + i as u64 + f as u64;
    if sum > SCALE as u64 {
        return Err(OpenTrustError::ConservationViolation { t, i, f, sum });
    }
    Ok(())
}

/// Checks degrees and chain, in the order that `expected_error` gives.
pub fn validate(t: u32, i: u32, f: u32, chain: &Vec<ProvenanceEntry>) -> (r: Result<
    (),
    OpenTrustError,
>)
    ensures
        r is Ok <==> valid_degrees(t as int, i as int, f as int) && valid_chain(
            chain_view(chain@),
        ),
        r matches Err(e) ==> expected_error(t, i, f, chain_view(chain@), e),
{
    match validate_degrees(t, i, f) {
        Ok(()) => {},
        Err(e) => {
            return Err(e);
        },
    }
    if chain.len() == 0 {
        return Err(OpenTrustError::EmptyProvenanceChain);
    }
    let ghost cv = chain_view(chain@);
    let mut index: usize = 0;
    while index < chain.len()
        invariant
            index <= chain.len(),
            cv == chain_view(chain@),
            forall|k: int| 0 <= k < index ==> valid_entry(#[trigger] cv[k]),
            cv.len() == chain.len(),
            valid_degrees(t as int, i as int, f as int),
        decreases chain.len() - index,
    {
        assert(cv[index as int] == chain@[index as int]@);
        assert(cv[index as int].source_id == chain@[index as int].source_id@);
        assert(cv[index as int].timestamp == chain@[index as int].timestamp@);
        if is_blank_str(chain[index].source_id.as_str()) {
            assert(!valid_entry(cv[index as int]));
            return Err(
                OpenTrustError::InvalidProvenanceEntry {
                    index,
                    message: "Provenance entry must have source_id".to_owned(),
                },
            );
        }
        if is_blank_str(chain[index].timestamp.as_str()) {
            return Err(
                OpenTrustError::InvalidProvenanceEntry {
                    index,
                    message: "Provenance entry must have timestamp".to_owned(),
                },
            );
        }
        index = index + 1;
    }
    Ok(())
}

impl NeutrosophicJudgment {
    /// Builds a judgment whose chain has one bare entry per `(source_id, timestamp)` pair.
    pub fn new(t: u32, i: u32, f: u32, provenance_chain: Vec<(String, String)>) -> (r: Result<
        Self,
        OpenTrustError,
    >)
        ensures
            r is Ok <==> valid_degrees(t as int, i as int, f as int) && valid_chain(
                bare_chain(provenance_chain@),
            ),
            r matches Ok(j) ==> j@ == (JudgmentView {
                judgment_id: None,
                t,
                i,
                f,
                chain: bare_chain(provenance_chain@),
            }),
            r matches Err(e) ==> expected_error(t, i, f, bare_chain(provenance_chain@), e),
    {
        let mut entries: Vec<ProvenanceEntry> = Vec::new();
        let mut k: usize = 0;
        while k < provenance_chain.len()
            invariant
                k <= provenance_chain.len(),
                entries@.len() == k,
                forall|j: int|
                    0 <= j < k ==> (#[trigger] entries@[j])@ == bare_chain(provenance_chain@)[j],
            decreases provenance_chain.len() - k,
        {
            let source_id = provenance_chain[k].0.clone();
            let timestamp = provenance_chain[k].1.clone();
            entries.push(ProvenanceEntry::new(source_id, timestamp));
            k = k + 1;
        }
        assert(chain_view(entries@) =~= bare_chain(provenance_chain@));
        Self::new_with_entries(t, i, f, entries)
    }

    /// Builds a judgment from full entries, after validation.
    pub fn new_with_entries(t: u32, i: u32, f: u32, provenance_chain: Vec<ProvenanceEntry>) -> (r:
        Result<Self, OpenTrustError>)
        ensures
            r is Ok <==> valid_degrees(t as int, i as int, f as int) && valid_chain(
                chain_view(provenance_chain@),
            ),
            r matches Ok(j) ==> j@ == (JudgmentView {
                judgment_id: None,
                t,
                i,
                f,
                chain: chain_view(provenance_chain@),
            }),
            r matches Err(e) ==> expected_error(t, i, f, chain_view(provenance_chain@), e),
    {
        match validate(t, i, f, &provenance_chain) {
            Ok(()) => Ok(NeutrosophicJudgment { judgment_id: None, t, i, f, provenance_chain }),
            Err(e) => Err(e),
        }
    }

    /// Degrees within `epsilon` of each other and chains with the same content.
    pub fn equals(&self, other: &Self, epsilon: u32) -> (r: bool)
        ensures
            r == (within(self.t, other.t, epsilon) && within(self.i, other.i, epsilon) && within(
                self.f,
                other.f,
                epsilon,
            ) && self@.chain == other@.chain),
    {
        within_exec(self.t, other.t, epsilon) && within_exec(self.i, other.i, epsilon)
            && within_exec(self.f, other.f, epsilon) && chain_eq(
            &self.provenance_chain,
            &other.provenance_chain,
        )
    }

    /// `t + i + f`.
    pub fn total(&self) -> (r: u64)
        ensures
            r == self.t + self.i + self.f,
    {
        self.t as u64 + self.i as u64 + self.f as u64
    }

    /// Whether `t + i + f <= SCALE`.
    pub fn is_valid(&self) -> (r: bool)
        ensures
            r == (self.t + self.i + self.f <= SCALE),
    {
        self.total() <= SCALE as u64
    }
}

/// The chain made of bare entries, one per `(source_id, timestamp)` pair.
pub open spec fn bare_chain(pairs: Seq<(String, String)>) -> Seq<EntryView> {
    pairs.map_values(
        |p: (String, String)|
            EntryView {
                source_id: p.0@,
                timestamp: p.1@,
                description: None,
                metadata: None,
                conformance_seal: None,
            },
    )
}

} // verus!
