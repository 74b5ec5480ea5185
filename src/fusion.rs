//! The three fusion operators. Each checks its inputs, computes new degrees,
//! appends one sealed entry to the concatenated input chains and stamps the
//! result with its identity.
use vstd::prelude::*;

use crate::conformance::{
    create_fusion_provenance_entry, generate_conformance_seal, seal_of, views,
};
use crate::clock::now_rfc3339;
use crate::error::OpenTrustError;
use crate::judgment::{
    append_chain, chain_view, valid_degrees, valid_entry, EntryView, JudgmentView, MetadataValue,
    MetadataView, NeutrosophicJudgment, ProvenanceEntry, SCALE,
};
use crate::judgment_id::{ensure_judgment_id, identity_of};
use crate::text::is_blank;
use vstd::arithmetic::div_mod::{lemma_fundamental_div_mod, lemma_mod_pos_bound};

verus! {

/// Operator identifier of the conflict-aware weighted average.
pub open spec fn cawa_operator() -> Seq<char> {
    "otp-cawa-v1.1"@
}

/// Operator identifier of optimistic fusion.
pub open spec fn optimistic_operator() -> Seq<char> {
    "otp-optimistic-v1.1"@
}

/// Operator identifier of pessimistic fusion.
pub open spec fn pessimistic_operator() -> Seq<char> {
    "otp-pessimistic-v1.1"@
}

/// `SCALE * SCALE`: the unit of adjusted weights.
const SCALE_SQUARED: u128 = 1_000_000_000_000;

/// Component `c` of a judgment: 0 for T, 1 for I, 2 for F.
pub open spec fn degree(j: JudgmentView, c: int) -> int {
    if c == 0 {
        j.t as int
    } else if c == 1 {
        j.i as int
    } else {
        j.f as int
    }
}

pub open spec fn weight_total(ws: Seq<u32>, n: nat) -> int
    decreases n,
{
    if n == 0 {
        0
    } else {
        weight_total(ws, (n - 1) as nat) + ws[n - 1]
    }
}

/// The raw weight discounted by the conflict `t * f`, in units of `1 / SCALE^2`.
pub open spec fn adjusted_weight(j: JudgmentView, w: u32) -> int {
    w * (SCALE * SCALE - j.t * j.f)
}

pub open spec fn adjusted_total(js: Seq<JudgmentView>, ws: Seq<u32>, n: nat) -> int
    decreases n,
{
    if n == 0 {
        0
    } else {
        adjusted_total(js, ws, (n - 1) as nat) + adjusted_weight(js[n - 1], ws[n - 1])
    }
}

pub open spec fn weighted_sum(js: Seq<JudgmentView>, ws: Seq<u32>, n: nat, c: int) -> int
    decreases n,
{
    if n == 0 {
        0
    } else {
        weighted_sum(js, ws, (n - 1) as nat, c) + adjusted_weight(js[n - 1], ws[n - 1]) * degree(
            js[n - 1],
            c,
        )
    }
}

pub open spec fn degree_sum(js: Seq<JudgmentView>, n: nat, c: int) -> int
    decreases n,
{
    if n == 0 {
        0
    } else {
        degree_sum(js, (n - 1) as nat, c) + degree(js[n - 1], c)
    }
}

/// Component `c` of the conflict-aware weighted average: the mean weighted by
/// adjusted weights, or the plain mean when they add up to zero; rounded down.
pub open spec fn cawa_degree(js: Seq<JudgmentView>, ws: Seq<u32>, c: int) -> int {
    let n = js.len();
    if adjusted_total(js, ws, n) == 0 {
        degree_sum(js, n, c) / (n as int)
    } else {
        weighted_sum(js, ws, n, c) / adjusted_total(js, ws, n)
    }
}

pub open spec fn max_degree(js: Seq<JudgmentView>, n: nat, c: int) -> int
    decreases n,
{
    if n == 0 {
        0
    } else {
        let m = max_degree(js, (n - 1) as nat, c);
        let d = degree(js[n - 1], c);
        if d > m {
            d
        } else {
            m
        }
    }
}

pub open spec fn min_degree(js: Seq<JudgmentView>, n: nat, c: int) -> int
    decreases n,
{
    if n == 0 {
        SCALE as int
    } else {
        let m = min_degree(js, (n - 1) as nat, c);
        let d = degree(js[n - 1], c);
        if d < m {
            d
        } else {
            m
        }
    }
}

pub open spec fn mean_degree(js: Seq<JudgmentView>, c: int) -> int {
    degree_sum(js, js.len(), c) / (js.len() as int)
}

/// Scales `x` by `SCALE / total`, rounding down, when `total` exceeds `SCALE`.
pub open spec fn rescaled(x: int, total: int) -> int {
    if total > SCALE {
        x * SCALE / total
    } else {
        x
    }
}

/// Optimistic degrees: largest T, mean I, smallest F, then rescaled.
pub open spec fn optimistic_degrees(js: Seq<JudgmentView>) -> (int, int, int) {
    let t = max_degree(js, js.len(), 0);
    let i = mean_degree(js, 1);
    let f = min_degree(js, js.len(), 2);
    (rescaled(t, t + i + f), rescaled(i, t + i + f), rescaled(f, t + i + f))
}

/// Pessimistic degrees: smallest T, mean I, largest F, then rescaled.
pub open spec fn pessimistic_degrees(js: Seq<JudgmentView>) -> (int, int, int) {
    let t = min_degree(js, js.len(), 0);
    let i = mean_degree(js, 1);
    let f = max_degree(js, js.len(), 2);
    (rescaled(t, t + i + f), rescaled(i, t + i + f), rescaled(f, t + i + f))
}

/// The input chains one after the other, in input order.
pub open spec fn joined_chains(js: Seq<JudgmentView>) -> Seq<EntryView>
    decreases js.len(),
{
    if js.len() == 0 {
        seq![]
    } else {
        joined_chains(js.drop_last()) + js.last().chain
    }
}

/// How the metadata of a fusion entry records the weights: the list for a
/// weighted operator, null otherwise.
pub open spec fn weights_metadata(weights: Option<Seq<u32>>) -> MetadataView {
    match weights {
        Some(ws) => MetadataView::IntegerList(ws.map_values(|w: u32| w as u64)),
        None => MetadataView::Null,
    }
}

/// The entry that a fusion appends.
pub open spec fn fusion_entry(
    op: Seq<char>,
    timestamp: Seq<char>,
    description: Seq<char>,
    n: nat,
    weights: Option<Seq<u32>>,
    seal: Seq<char>,
) -> EntryView {
    EntryView {
        source_id: op,
        timestamp,
        description: Some(description),
        metadata: Some(
            seq![
                ("operator"@, MetadataView::Text(op)),
                ("input_count"@, MetadataView::Integer(n as u64)),
                ("weights"@, weights_metadata(weights)),
                ("version"@, MetadataView::Text("0.3.0"@)),
            ],
        ),
        conformance_seal: Some(seal),
    }
}

/// The fused judgment: given degrees, the joined chains plus the sealed
/// fusion entry, and the identity of the result.
pub open spec fn fused_view(
    js: Seq<JudgmentView>,
    weights: Option<Seq<u32>>,
    seal_weights: Seq<u32>,
    op: Seq<char>,
    description: Seq<char>,
    timestamp: Seq<char>,
    t: int,
    i: int,
    f: int,
) -> JudgmentView {
    let chain = joined_chains(js).push(
        fusion_entry(op, timestamp, description, js.len(), weights, seal_of(js, seal_weights, op)),
    );
    JudgmentView {
        judgment_id: Some(identity_of(t as u32, i as u32, f as u32, chain)),
        t: t as u32,
        i: i as u32,
        f: f as u32,
        chain,
    }
}

/// The error that input checks report, checks taken in order: no input,
/// a weight count that differs, all weights zero.
pub open spec fn input_error(n: nat, weights: Option<Seq<u32>>, e: OpenTrustError) -> bool {
    if n == 0 {
        e is InvalidFusionInput
    } else {
        match weights {
            Some(ws) => if ws.len() != n {
                e matches OpenTrustError::WeightsLengthMismatch { judgments_len, weights_len }
                    && judgments_len == n && weights_len == ws.len()
            } else {
                e is AllWeightsZero
            },
            None => false,
        }
    }
}

pub open spec fn inputs_ok(n: nat, weights: Option<Seq<u32>>) -> bool {
    n > 0 && match weights {
        Some(ws) => ws.len() == n && weight_total(ws, n) > 0,
        None => true,
    }
}

/// Every input is a well-formed judgment.
pub open spec fn all_wf(js: Seq<&NeutrosophicJudgment>) -> bool {
    forall|k: int| 0 <= k < js.len() ==> (#[trigger] js[k])@.wf()
}

fn validate_inputs(judgments: &[&NeutrosophicJudgment], weights: Option<&[u32]>) -> (r: Result<
    (),
    OpenTrustError,
>)
    ensures
        r is Ok <==> inputs_ok(
            judgments@.len(),
            match weights {
                Some(w) => Some(w@),
                None => None,
            },
        ),
        r matches Err(e) ==> input_error(
            judgments@.len(),
            match weights {
                Some(w) => Some(w@),
                None => None,
            },
            e,
        ),
{
    if judgments.len() == 0 {
        return Err(
            OpenTrustError::InvalidFusionInput {
                message: "Judgments list cannot be empty".to_owned(),
            },
        );
    }
    match weights {
        None => Ok(()),
        Some(ws) => {
            if judgments.len() != ws.len() {
                return Err(
                    OpenTrustError::WeightsLengthMismatch {
                        judgments_len: judgments.len(),
                        weights_len: ws.len(),
                    },
                );
            }
            let mut k: usize = 0;
            let mut any = false;
            while k < ws.len()
                invariant
                    k <= ws@.len(),
                    any == (weight_total(ws@, k as nat) > 0),
                    weight_total(ws@, k as nat) >= 0,
                decreases ws@.len() - k,
            {
                if ws[k] > 0 {
                    any = true;
                }
                k = k + 1;
            }
            if !any {
                return Err(OpenTrustError::AllWeightsZero);
            }
            Ok(())
        },
    }
}

/// The sum of three quotients rounded down is at most the bound of their sum.
pub proof fn lemma_floor_sum(a: int, b: int, c: int, d: int, s: int)
    requires
        a >= 0,
        b >= 0,
        c >= 0,
        d > 0,
        a + b + c <= s * d,
    ensures
        a / d + b / d + c / d <= s,
        a / d >= 0,
        b / d >= 0,
        c / d >= 0,
{
    lemma_fundamental_div_mod(a, d);
    lemma_fundamental_div_mod(b, d);
    lemma_fundamental_div_mod(c, d);
    lemma_mod_pos_bound(a, d);
    lemma_mod_pos_bound(b, d);
    lemma_mod_pos_bound(c, d);
    let q = a / d + b / d + c / d;
    assert(d * q <= a + b + c) by (nonlinear_arith)
        requires
            a == d * (a / d) + a % d,
            b == d * (b / d) + b % d,
            c == d * (c / d) + c % d,
            a % d >= 0,
            b % d >= 0,
            c % d >= 0,
            q == a / d + b / d + c / d,
    ;
    assert(q <= s) by (nonlinear_arith)
        requires
            d * q <= s * d,
            d > 0,
    ;
    assert(a / d >= 0) by (nonlinear_arith)
        requires
            a == d * (a / d) + a % d,
            a % d < d,
            d > 0,
            a >= 0,
    ;
    assert(b / d >= 0) by (nonlinear_arith)
        requires
            b == d * (b / d) + b % d,
            b % d < d,
            d > 0,
            b >= 0,
    ;
    assert(c / d >= 0) by (nonlinear_arith)
        requires
            c == d * (c / d) + c % d,
            c % d < d,
            d > 0,
            c >= 0,
    ;
}

/// A conserved judgment is never fully self-conflicting: `t * f < SCALE^2`.
pub proof fn lemma_conflict_below_one(t: int, f: int)
    requires
        t >= 0,
        f >= 0,
        t + f <= SCALE,
    ensures
        0 <= t * f < SCALE * SCALE,
{
    assert(0 <= t * f < SCALE * SCALE) by (nonlinear_arith)
        requires
            t >= 0,
            f >= 0,
            t + f <= 1000000,
    ;
}

/// The chains of `js` joined, one judgment further.
proof fn lemma_joined_step(js: Seq<JudgmentView>, k: int)
    requires
        0 <= k < js.len(),
    ensures
        joined_chains(js.subrange(0, k + 1)) == joined_chains(js.subrange(0, k)) + js[k].chain,
{
    assert(js.subrange(0, k + 1).drop_last() =~= js.subrange(0, k));
}

/// The weights as metadata integers.
fn widen(ws: &[u32]) -> (r: Vec<u64>)
    ensures
        r@ == ws@.map_values(|w: u32| w as u64),
{
    let mut out: Vec<u64> = Vec::new();
    let mut k: usize = 0;
    while k < ws.len()
        invariant
            k <= ws@.len(),
            out@ =~= ws@.subrange(0, k as int).map_values(|w: u32| w as u64),
        decreases ws@.len() - k,
    {
        out.push(ws[k] as u64);
        k = k + 1;
        assert(ws@.subrange(0, k as int) =~= ws@.subrange(0, k - 1).push(ws@[k - 1]));
    }
    assert(ws@.subrange(0, ws@.len() as int) =~= ws@);
    out
}

/// Appends the fusion entry to the joined input chains, validates the
/// result and gives it its identity.
fn finish_fusion(
    judgments: &[&NeutrosophicJudgment],
    weights: Option<&[u32]>,
    seal_weights: &[u32],
    op: &str,
    description: &str,
    timestamp: &str,
    t: u32,
    i: u32,
    f: u32,
) -> (r: Result<NeutrosophicJudgment, OpenTrustError>)
    requires
        judgments@.len() > 0,
        seal_weights@.len() == judgments@.len(),
        !is_blank(op@),
        all_wf(judgments@),
        valid_degrees(t as int, i as int, f as int),
    ensures
        r is Ok <==> !is_blank(timestamp@),
        r matches Ok(j) ==> j@ == fused_view(
            views(judgments@),
            match weights {
                Some(w) => Some(w@),
                None => None,
            },
            seal_weights@,
            op@,
            description@,
            timestamp@,
            t as int,
            i as int,
            f as int,
        ),
        r matches Err(e) ==> e matches OpenTrustError::InvalidProvenanceEntry { index, .. }
            && index == joined_chains(views(judgments@)).len(),
{
    let ghost js = views(judgments@);
    let mut chain: Vec<ProvenanceEntry> = Vec::new();
    let mut k: usize = 0;
    assert(js.subrange(0, 0) =~= Seq::<JudgmentView>::empty());
    while k < judgments.len()
        invariant
            k <= judgments@.len(),
            js == views(judgments@),
            all_wf(judgments@),
            chain_view(chain@) == joined_chains(js.subrange(0, k as int)),
            forall|m: int|
                0 <= m < chain_view(chain@).len() ==> valid_entry(#[trigger] chain_view(chain@)[m]),
        decreases judgments@.len() - k,
    {
        let ghost before = chain_view(chain@);
        append_chain(&mut chain, &judgments[k].provenance_chain);
        proof {
            lemma_joined_step(js, k as int);
            assert(js[k as int] == judgments@[k as int]@);
            assert(judgments@[k as int]@.wf());
            assert forall|m: int| 0 <= m < chain_view(chain@).len() implies valid_entry(
                #[trigger] chain_view(chain@)[m],
            ) by {
                if m >= before.len() {
                    assert(chain_view(chain@)[m] == js[k as int].chain[m - before.len()]);
                } else {
                    assert(chain_view(chain@)[m] == before[m]);
                }
            }
        }
        k = k + 1;
    }
    assert(js.subrange(0, judgments@.len() as int) =~= js);
    let seal = match generate_conformance_seal(judgments, seal_weights, op) {
        Ok(s) => s,
        Err(e) => {
            return Err(e);
        },
    };
    let mut metadata: Vec<(String, MetadataValue)> = Vec::new();
    metadata.push(("operator".to_owned(), MetadataValue::Text(op.to_owned())));
    metadata.push(("input_count".to_owned(), MetadataValue::Integer(judgments.len() as u64)));
    let recorded = match weights {
        Some(ws) => MetadataValue::IntegerList(widen(ws)),
        None => MetadataValue::Null,
    };
    let ghost recorded_weights = match weights {
        Some(w) => Some(w@),
        None => None,
    };
    assert(recorded@ == weights_metadata(recorded_weights)) by {
        if let Some(ws) = weights {
            assert(recorded->IntegerList_0@ =~= ws@.map_values(|w: u32| w as u64));
        }
    }
    metadata.push(("weights".to_owned(), recorded));
    metadata.push(("version".to_owned(), MetadataValue::Text("0.3.0".to_owned())));
    let entry = create_fusion_provenance_entry(
        op,
        timestamp,
        seal.as_str(),
        Some(description.to_owned()),
        Some(metadata),
    );
    let ghost joined = chain_view(chain@);
    let ghost expected_entry = fusion_entry(
        op@,
        timestamp@,
        description@,
        js.len(),
        recorded_weights,
        seal_of(js, seal_weights@, op@),
    );
    assert(crate::judgment::pairs_view(metadata@) =~= seq![
        ("operator"@, MetadataView::Text(op@)),
        ("input_count"@, MetadataView::Integer(judgments@.len() as u64)),
        ("weights"@, weights_metadata(recorded_weights)),
        ("version"@, MetadataView::Text("0.3.0"@)),
    ]);
    assert(entry@ == expected_entry);
    chain.push(entry);
    assert(chain_view(chain@) =~= joined.push(expected_entry));
    let judgment = match NeutrosophicJudgment::new_with_entries(t, i, f, chain) {
        Ok(j) => j,
        Err(e) => {
            proof {
                let cv = joined.push(expected_entry);
                if let OpenTrustError::InvalidProvenanceEntry { index, .. } = e {
                    if (index as int) < joined.len() {
                        assert(cv[index as int] == joined[index as int]);
                    }
                }
            }
            return Err(e);
        },
    };
    ensure_judgment_id(judgment)
}

pub open spec fn cawa_description() -> Seq<char> {
    "Fusion operation using otp-cawa-v1.1 with Conformance Seal"@
}

proof fn lemma_cawa_step(t: int, i: int, f: int, w: int, a: int)
    requires
        0 <= t,
        0 <= i,
        0 <= f,
        t + i + f <= SCALE,
        0 <= w <= u32::MAX,
        a == w * (SCALE * SCALE - t * f),
    ensures
        w <= a <= u32::MAX * (SCALE * SCALE),
        0 <= a * t,
        0 <= a * i,
        0 <= a * f,
        a * t + a * i + a * f <= SCALE * a,
{
    lemma_conflict_below_one(t, f);
    let c = SCALE * SCALE - t * f;
    assert(w <= a <= u32::MAX * (SCALE * SCALE)) by (nonlinear_arith)
        requires
            1 <= c <= SCALE * SCALE,
            0 <= w <= u32::MAX,
            a == w * c,
    ;
    assert(a * t + a * i + a * f <= SCALE * a && 0 <= a * t && 0 <= a * i && 0 <= a * f)
        by (nonlinear_arith)
        requires
            a >= 0,
            0 <= t,
            0 <= i,
            0 <= f,
            t + i + f <= SCALE,
    ;
}

/// The weighted sums of the conflict-aware average over all inputs.
fn cawa_sums(judgments: &[&NeutrosophicJudgment], weights: &[u32]) -> (r: (u128, u128, u128, u128))
    requires
        all_wf(judgments@),
        judgments@.len() <= u32::MAX,
        weights@.len() == judgments@.len(),
    ensures
        r.0 as int == adjusted_total(views(judgments@), weights@, judgments@.len()),
        r.1 as int == weighted_sum(views(judgments@), weights@, judgments@.len(), 0),
        r.2 as int == weighted_sum(views(judgments@), weights@, judgments@.len(), 1),
        r.3 as int == weighted_sum(views(judgments@), weights@, judgments@.len(), 2),
        r.0 >= weight_total(weights@, judgments@.len()),
        r.1 + r.2 + r.3 <= SCALE * r.0,
{
    let ghost js = views(judgments@);
    let ghost ws = weights@;
    let n = judgments.len();
    let mut total: u128 = 0;
    let mut st: u128 = 0;
    let mut si: u128 = 0;
    let mut sf: u128 = 0;
    let mut k: usize = 0;
    assert(SCALE_SQUARED == SCALE * SCALE);
    while k < n
        invariant
            k <= n,
            n == judgments@.len(),
            n <= u32::MAX,
            ws.len() == n,
            ws == weights@,
            js == views(judgments@),
            all_wf(judgments@),
            total as int == adjusted_total(js, ws, k as nat),
            st as int == weighted_sum(js, ws, k as nat, 0),
            si as int == weighted_sum(js, ws, k as nat, 1),
            sf as int == weighted_sum(js, ws, k as nat, 2),
            total as int <= k * (u32::MAX * (SCALE * SCALE)),
            st + si + sf <= SCALE * total,
            total >= weight_total(ws, k as nat),
        decreases n - k,
    {
        let j = judgments[k];
        let w = weights[k];
        proof {
            assert(js[k as int] == j@);
            assert(judgments@[k as int]@.wf());
            lemma_conflict_below_one(j.t as int, j.f as int);
            let ghost adj = w * (SCALE * SCALE - j.t * j.f);
            let ghost cap = u32::MAX * (SCALE * SCALE);
            lemma_cawa_step(j.t as int, j.i as int, j.f as int, w as int, adj);
            assert(total + adj <= (k + 1) * cap) by (nonlinear_arith)
                requires
                    total as int <= k * cap,
                    adj <= cap,
            ;
            assert((k + 1) * cap <= u32::MAX * cap) by (nonlinear_arith)
                requires
                    k + 1 <= u32::MAX,
                    cap >= 0,
            ;
        }
        let conflict: u128 = (j.t as u128) * (j.f as u128);
        let a: u128 = (w as u128) * (SCALE_SQUARED - conflict);
        proof {
            assert(SCALE * (total + a) == SCALE * total + SCALE * a) by (nonlinear_arith);
            assert(SCALE * (total + a) <= SCALE * (u32::MAX * (u32::MAX * (SCALE * SCALE))))
                by (nonlinear_arith)
                requires
                    total + a <= u32::MAX * (u32::MAX * (SCALE * SCALE)),
            ;
        }
        total = total + a;
        st = st + a * (j.t as u128);
        si = si + a * (j.i as u128);
        sf = sf + a * (j.f as u128);
        k = k + 1;
    }
    (total, st, si, sf)
}

/// Conflict-aware weighted average, recorded at `timestamp`. Each input's
/// weight is discounted by its conflict `t * f`; the result is the weighted
/// mean of each degree, rounded down.
pub fn conflict_aware_weighted_average_at(
    judgments: &[&NeutrosophicJudgment],
    weights: &[u32],
    timestamp: &str,
) -> (r: Result<NeutrosophicJudgment, OpenTrustError>)
    requires
        all_wf(judgments@),
        judgments@.len() <= u32::MAX,
    ensures
        r is Ok <==> inputs_ok(judgments@.len(), Some(weights@)) && !is_blank(timestamp@),
        r matches Err(e) ==> if inputs_ok(judgments@.len(), Some(weights@)) {
            e matches OpenTrustError::InvalidProvenanceEntry { index, .. } && index
                == joined_chains(views(judgments@)).len()
        } else {
            input_error(judgments@.len(), Some(weights@), e)
        },
        r matches Ok(j) ==> j@ == fused_view(
            views(judgments@),
            Some(weights@),
            weights@,
            cawa_operator(),
            cawa_description(),
            timestamp@,
            cawa_degree(views(judgments@), weights@, 0),
            cawa_degree(views(judgments@), weights@, 1),
            cawa_degree(views(judgments@), weights@, 2),
        ),
{
    match validate_inputs(judgments, Some(weights)) {
        Ok(()) => {},
        Err(e) => {
            return Err(e);
        },
    }
    let (total, st, si, sf) = cawa_sums(judgments, weights);
    proof {
        lemma_floor_sum(st as int, si as int, sf as int, total as int, SCALE as int);
    }
    let t = (st / total) as u32;
    let i = (si / total) as u32;
    let f = (sf / total) as u32;
    proof {
        reveal_strlit("otp-cawa-v1.1");
        assert(!crate::text::is_whitespace_char("otp-cawa-v1.1"@[0]));
    }
    finish_fusion(
        judgments,
        Some(weights),
        weights,
        "otp-cawa-v1.1",
        "Fusion operation using otp-cawa-v1.1 with Conformance Seal",
        timestamp,
        t,
        i,
        f,
    )
}

pub open spec fn optimistic_description() -> Seq<char> {
    "Fusion operation using otp-optimistic-v1.1 with Conformance Seal"@
}

pub open spec fn pessimistic_description() -> Seq<char> {
    "Fusion operation using otp-pessimistic-v1.1 with Conformance Seal"@
}

/// Largest and smallest T and F, and the sum of I, over all inputs.
fn extremes(judgments: &[&NeutrosophicJudgment]) -> (r: (u32, u32, u32, u32, u64))
    requires
        all_wf(judgments@),
        judgments@.len() <= u32::MAX,
    ensures
        r.0 as int == max_degree(views(judgments@), judgments@.len(), 0),
        r.1 as int == min_degree(views(judgments@), judgments@.len(), 0),
        r.2 as int == max_degree(views(judgments@), judgments@.len(), 2),
        r.3 as int == min_degree(views(judgments@), judgments@.len(), 2),
        r.4 as int == degree_sum(views(judgments@), judgments@.len(), 1),
        r.0 <= SCALE,
        r.1 <= SCALE,
        r.2 <= SCALE,
        r.3 <= SCALE,
        r.4 <= judgments@.len() * SCALE,
{
    let ghost js = views(judgments@);
    let n = judgments.len();
    let mut max_t: u32 = 0;
    let mut min_t: u32 = SCALE;
    let mut max_f: u32 = 0;
    let mut min_f: u32 = SCALE;
    let mut sum_i: u64 = 0;
    let mut k: usize = 0;
    while k < n
        invariant
            k <= n,
            n == judgments@.len(),
            n <= u32::MAX,
            js == views(judgments@),
            all_wf(judgments@),
            max_t as int == max_degree(js, k as nat, 0),
            min_t as int == min_degree(js, k as nat, 0),
            max_f as int == max_degree(js, k as nat, 2),
            min_f as int == min_degree(js, k as nat, 2),
            sum_i as int == degree_sum(js, k as nat, 1),
            max_t <= SCALE,
            min_t <= SCALE,
            max_f <= SCALE,
            min_f <= SCALE,
            sum_i <= k * SCALE,
        decreases n - k,
    {
        let j = judgments[k];
        proof {
            assert(js[k as int] == j@);
            assert(judgments@[k as int]@.wf());
            assert(sum_i + j.i <= (k + 1) * SCALE) by (nonlinear_arith)
                requires
                    sum_i <= k * SCALE,
                    j.i <= SCALE,
            ;
            assert((k + 1) * SCALE <= u32::MAX * SCALE) by (nonlinear_arith)
                requires
                    k + 1 <= u32::MAX,
            ;
        }
        if j.t > max_t {
            max_t = j.t;
        }
        if j.t < min_t {
            min_t = j.t;
        }
        if j.f > max_f {
            max_f = j.f;
        }
        if j.f < min_f {
            min_f = j.f;
        }
        sum_i = sum_i + j.i as u64;
        k = k + 1;
    }
    (max_t, min_t, max_f, min_f, sum_i)
}

/// Rescales three degrees to a conserved triple when their sum exceeds `SCALE`.
fn rescale(t: u32, i: u32, f: u32) -> (r: (u32, u32, u32))
    requires
        t <= SCALE,
        i <= SCALE,
        f <= SCALE,
    ensures
        r.0 as int == rescaled(t as int, t + i + f),
        r.1 as int == rescaled(i as int, t + i + f),
        r.2 as int == rescaled(f as int, t + i + f),
        valid_degrees(r.0 as int, r.1 as int, r.2 as int),
{
    let total: u64 = t as u64 + i as u64 + f as u64;
    if total > SCALE as u64 {
        let a: u64 = t as u64 * SCALE as u64;
        let b: u64 = i as u64 * SCALE as u64;
        let c: u64 = f as u64 * SCALE as u64;
        proof {
            assert(a + b + c <= SCALE * total) by (nonlinear_arith)
                requires
                    a == t * SCALE,
                    b == i * SCALE,
                    c == f * SCALE,
                    total == t + i + f,
            ;
            lemma_floor_sum(a as int, b as int, c as int, total as int, SCALE as int);
        }
        ((a / total) as u32, (b / total) as u32, (c / total) as u32)
    } else {
        (t, i, f)
    }
}

/// The mean of `sum` over `n` values, each at most `SCALE`.
fn mean(sum: u64, n: usize) -> (r: u32)
    requires
        n > 0,
        sum <= n * SCALE,
    ensures
        r as int == sum as int / n as int,
        r <= SCALE,
{
    proof {
        lemma_floor_sum(sum as int, 0, 0, n as int, SCALE as int);
    }
    (sum / n as u64) as u32
}

/// Best case, recorded at `timestamp`: largest T, smallest F, mean I,
/// rescaled when their sum exceeds `SCALE`.
pub fn optimistic_fusion_at(judgments: &[&NeutrosophicJudgment], timestamp: &str) -> (r: Result<
    NeutrosophicJudgment,
    OpenTrustError,
>)
    requires
        all_wf(judgments@),
        judgments@.len() <= u32::MAX,
    ensures
        r is Ok <==> judgments@.len() > 0 && !is_blank(timestamp@),
        r matches Err(e) ==> if judgments@.len() > 0 {
            e matches OpenTrustError::InvalidProvenanceEntry { index, .. } && index
                == joined_chains(views(judgments@)).len()
        } else {
            e is InvalidFusionInput
        },
        r matches Ok(j) ==> j@ == fused_view(
            views(judgments@),
            None,
            Seq::new(judgments@.len(), |k: int| 1u32),
            optimistic_operator(),
            optimistic_description(),
            timestamp@,
            optimistic_degrees(views(judgments@)).0,
            optimistic_degrees(views(judgments@)).1,
            optimistic_degrees(views(judgments@)).2,
        ),
{
    match validate_inputs(judgments, None) {
        Ok(()) => {},
        Err(e) => {
            return Err(e);
        },
    }
    let (max_t, _min_t, _max_f, min_f, sum_i) = extremes(judgments);
    let mean_i = mean(sum_i, judgments.len());
    let (t, i, f) = rescale(max_t, mean_i, min_f);
    let ones = unit_weights(judgments.len());
    proof {
        reveal_strlit("otp-optimistic-v1.1");
        assert(!crate::text::is_whitespace_char("otp-optimistic-v1.1"@[0]));
    }
    finish_fusion(
        judgments,
        None,
        ones.as_slice(),
        "otp-optimistic-v1.1",
        "Fusion operation using otp-optimistic-v1.1 with Conformance Seal",
        timestamp,
        t,
        i,
        f,
    )
}

/// Worst case, recorded at `timestamp`: smallest T, largest F, mean I,
/// rescaled when their sum exceeds `SCALE`.
pub fn pessimistic_fusion_at(judgments: &[&NeutrosophicJudgment], timestamp: &str) -> (r: Result<
    NeutrosophicJudgment,
    OpenTrustError,
>)
    requires
        all_wf(judgments@),
        judgments@.len() <= u32::MAX,
    ensures
        r is Ok <==> judgments@.len() > 0 && !is_blank(timestamp@),
        r matches Err(e) ==> if judgments@.len() > 0 {
            e matches OpenTrustError::InvalidProvenanceEntry { index, .. } && index
                == joined_chains(views(judgments@)).len()
        } else {
            e is InvalidFusionInput
        },
        r matches Ok(j) ==> j@ == fused_view(
            views(judgments@),
            None,
            Seq::new(judgments@.len(), |k: int| 1u32),
            pessimistic_operator(),
            pessimistic_description(),
            timestamp@,
            pessimistic_degrees(views(judgments@)).0,
            pessimistic_degrees(views(judgments@)).1,
            pessimistic_degrees(views(judgments@)).2,
        ),
{
    match validate_inputs(judgments, None) {
        Ok(()) => {},
        Err(e) => {
            return Err(e);
        },
    }
    let (_max_t, min_t, max_f, _min_f, sum_i) = extremes(judgments);
    let mean_i = mean(sum_i, judgments.len());
    let (t, i, f) = rescale(min_t, mean_i, max_f);
    let ones = unit_weights(judgments.len());
    proof {
        reveal_strlit("otp-pessimistic-v1.1");
        assert(!crate::text::is_whitespace_char("otp-pessimistic-v1.1"@[0]));
    }
    finish_fusion(
        judgments,
        None,
        ones.as_slice(),
        "otp-pessimistic-v1.1",
        "Fusion operation using otp-pessimistic-v1.1 with Conformance Seal",
        timestamp,
        t,
        i,
        f,
    )
}

/// Weight 1 for each of `n` inputs: what unweighted operators seal with.
fn unit_weights(n: usize) -> (r: Vec<u32>)
    ensures
        r@ == Seq::new(n as nat, |k: int| 1u32),
{
    let mut v: Vec<u32> = Vec::new();
    let mut k: usize = 0;
    while k < n
        invariant
            k <= n,
            v@ == Seq::new(k as nat, |m: int| 1u32),
        decreases n - k,
    {
        v.push(1);
        k = k + 1;
        assert(v@ =~= Seq::new(k as nat, |m: int| 1u32));
    }
    v
}

/// Conflict-aware weighted average, recorded at the current time: it
/// succeeds exactly on acceptable inputs, and the result is as for
/// `conflict_aware_weighted_average_at` with the clock's text.
pub fn conflict_aware_weighted_average(judgments: &[&NeutrosophicJudgment], weights: &[u32]) -> (r:
    Result<NeutrosophicJudgment, OpenTrustError>)
    requires
        all_wf(judgments@),
        judgments@.len() <= u32::MAX,
    ensures
        r is Ok <==> inputs_ok(judgments@.len(), Some(weights@)),
        !inputs_ok(judgments@.len(), Some(weights@)) ==> (r matches Err(e) && input_error(
            judgments@.len(),
            Some(weights@),
            e,
        )),
        r matches Ok(j) ==> j@ == fused_view(
            views(judgments@),
            Some(weights@),
            weights@,
            cawa_operator(),
            cawa_description(),
            j@.chain.last().timestamp,
            cawa_degree(views(judgments@), weights@, 0),
            cawa_degree(views(judgments@), weights@, 1),
            cawa_degree(views(judgments@), weights@, 2),
        ) && !is_blank(j@.chain.last().timestamp),
{
    let now = now_rfc3339();
    conflict_aware_weighted_average_at(judgments, weights, now.as_str())
}

/// Optimistic fusion, recorded at the current time; otherwise as
/// `optimistic_fusion_at`.
pub fn optimistic_fusion(judgments: &[&NeutrosophicJudgment]) -> (r: Result<
    NeutrosophicJudgment,
    OpenTrustError,
>)
    requires
        all_wf(judgments@),
        judgments@.len() <= u32::MAX,
    ensures
        r is Ok <==> judgments@.len() > 0,
        judgments@.len() == 0 ==> (r matches Err(e) && e is InvalidFusionInput),
        r matches Ok(j) ==> j@ == fused_view(
            views(judgments@),
            None,
            Seq::new(judgments@.len(), |k: int| 1u32),
            optimistic_operator(),
            optimistic_description(),
            j@.chain.last().timestamp,
            optimistic_degrees(views(judgments@)).0,
            optimistic_degrees(views(judgments@)).1,
            optimistic_degrees(views(judgments@)).2,
        ) && !is_blank(j@.chain.last().timestamp),
{
    let now = now_rfc3339();
    optimistic_fusion_at(judgments, now.as_str())
}

/// Pessimistic fusion, recorded at the current time; otherwise as
/// `pessimistic_fusion_at`.
pub fn pessimistic_fusion(judgments: &[&NeutrosophicJudgment]) -> (r: Result<
    NeutrosophicJudgment,
    OpenTrustError,
>)
    requires
        all_wf(judgments@),
        judgments@.len() <= u32::MAX,
    ensures
        r is Ok <==> judgments@.len() > 0,
        judgments@.len() == 0 ==> (r matches Err(e) && e is InvalidFusionInput),
        r matches Ok(j) ==> j@ == fused_view(
            views(judgments@),
            None,
            Seq::new(judgments@.len(), |k: int| 1u32),
            pessimistic_operator(),
            pessimistic_description(),
            j@.chain.last().timestamp,
            pessimistic_degrees(views(judgments@)).0,
            pessimistic_degrees(views(judgments@)).1,
            pessimistic_degrees(views(judgments@)).2,
        ) && !is_blank(j@.chain.last().timestamp),
{
    let now = now_rfc3339();
    pessimistic_fusion_at(judgments, now.as_str())
}

proof fn lemma_rescaled_le(x: int, total: int)
    requires
        x >= 0,
    ensures
        0 <= rescaled(x, total) <= x,
{
    if total > SCALE {
        lemma_fundamental_div_mod(x * SCALE, total);
        lemma_mod_pos_bound(x * SCALE, total);
        assert(0 <= x * SCALE / total <= x) by (nonlinear_arith)
            requires
                x >= 0,
                total > SCALE,
                x * SCALE == total * (x * SCALE / total) + (x * SCALE) % total,
                0 <= (x * SCALE) % total < total,
        ;
    }
}

proof fn lemma_extremes_nonneg(js: Seq<JudgmentView>, n: nat, c: int)
    ensures
        max_degree(js, n, c) >= 0,
        min_degree(js, n, c) >= 0,
        degree_sum(js, n, c) >= 0,
    decreases n,
{
    if n > 0 {
        lemma_extremes_nonneg(js, (n - 1) as nat, c);
    }
}

/// Optimistic fusion never raises T above the largest input T, nor F above
/// the smallest input F.
pub proof fn lemma_optimistic_bounds(js: Seq<JudgmentView>)
    requires
        js.len() > 0,
    ensures
        0 <= optimistic_degrees(js).0 <= max_degree(js, js.len(), 0),
        0 <= optimistic_degrees(js).2 <= min_degree(js, js.len(), 2),
{
    lemma_extremes_nonneg(js, js.len(), 0);
    lemma_extremes_nonneg(js, js.len(), 1);
    lemma_extremes_nonneg(js, js.len(), 2);
    let t = max_degree(js, js.len(), 0);
    let i = mean_degree(js, 1);
    let f = min_degree(js, js.len(), 2);
    let si = degree_sum(js, js.len(), 1);
    let n = js.len() as int;
    assert(si <= si * n) by (nonlinear_arith)
        requires
            si >= 0,
            n >= 1,
    ;
    lemma_floor_sum(si, 0, 0, n, si);
    lemma_rescaled_le(t, t + i + f);
    lemma_rescaled_le(f, t + i + f);
}

/// Pessimistic fusion never raises T above the smallest input T, nor F
/// above the largest input F.
pub proof fn lemma_pessimistic_bounds(js: Seq<JudgmentView>)
    requires
        js.len() > 0,
    ensures
        0 <= pessimistic_degrees(js).0 <= min_degree(js, js.len(), 0),
        0 <= pessimistic_degrees(js).2 <= max_degree(js, js.len(), 2),
{
    lemma_extremes_nonneg(js, js.len(), 0);
    lemma_extremes_nonneg(js, js.len(), 1);
    lemma_extremes_nonneg(js, js.len(), 2);
    let t = min_degree(js, js.len(), 0);
    let i = mean_degree(js, 1);
    let f = max_degree(js, js.len(), 2);
    let si = degree_sum(js, js.len(), 1);
    let n = js.len() as int;
    assert(si <= si * n) by (nonlinear_arith)
        requires
            si >= 0,
            n >= 1,
    ;
    lemma_floor_sum(si, 0, 0, n, si);
    lemma_rescaled_le(t, t + i + f);
    lemma_rescaled_le(f, t + i + f);
}

} // verus!
