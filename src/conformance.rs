//! Conformance seals: a digest that ties a fused judgment to the exact
//! inputs, weights and operator that produced it.
use vstd::prelude::*;
use vstd::string::StrSliceExecFns;

use crate::canonical::{
    chain_text, decimal, joined, joined_after, joined_before, judgment_text, lemma_decimal_injective,
    lemma_decimal_shape, lemma_joined_split, lemma_joined_step, lemma_splice_differs, push_decimal,
    push_judgment, push_str,
};
use crate::digest::{digest_hex, sha256_hex};
use crate::error::OpenTrustError;
use crate::judgment::{EntryView, JudgmentView, MetadataValue, NeutrosophicJudgment, ProvenanceEntry};

verus! {

/// Strict lexicographic order on texts, by code point.
pub open spec fn lex_lt(a: Seq<char>, b: Seq<char>) -> bool
    decreases a.len(),
{
    if b.len() == 0 {
        false
    } else if a.len() == 0 {
        true
    } else if a[0] != b[0] {
        a[0] < b[0]
    } else {
        lex_lt(a.drop_first(), b.drop_first())
    }
}

/// The sort key of a judgment: the source id of its last entry, or the
/// empty text for an empty chain.
pub open spec fn seal_key(chain: Seq<EntryView>) -> Seq<char> {
    if chain.len() == 0 {
        seq![]
    } else {
        chain.last().source_id
    }
}

/// The order of two inputs: by seal key, then, between equal keys, by their
/// canonical text with weight.
pub open spec fn sort_lt(a: (Seq<char>, Seq<char>), b: (Seq<char>, Seq<char>)) -> bool {
    lex_lt(a.0, b.0) || (!lex_lt(b.0, a.0) && lex_lt(a.1, b.1))
}

/// The sort key of each input: its seal key and its canonical text.
pub open spec fn sort_keys(js: Seq<JudgmentView>, ws: Seq<u32>) -> Seq<(Seq<char>, Seq<char>)> {
    Seq::new(js.len(), |k: int| (seal_key(js[k].chain), pair_text(js[k], ws[k])))
}

/// Inserts index `x` after every index whose key does not come after its own.
pub open spec fn insert_idx(order: Seq<usize>, keys: Seq<(Seq<char>, Seq<char>)>, x: usize) -> Seq<usize>
    decreases order.len(),
{
    if order.len() == 0 {
        seq![x]
    } else if sort_lt(keys[x as int], keys[order.last() as int]) {
        insert_idx(order.drop_last(), keys, x).push(order.last())
    } else {
        order.push(x)
    }
}

/// The first `n` indices in stable key order.
pub open spec fn sort_idx(keys: Seq<(Seq<char>, Seq<char>)>, n: nat) -> Seq<usize>
    decreases n,
{
    if n == 0 {
        seq![]
    } else {
        insert_idx(sort_idx(keys, (n - 1) as nat), keys, (n - 1) as usize)
    }
}

/// One input and its weight in canonical text.
pub open spec fn pair_text(j: JudgmentView, w: u32) -> Seq<char> {
    "{\"judgment\":"@ + judgment_text(j.t, j.i, j.f, j.chain) + ",\"weight\":"@ + decimal(
        w as nat,
    ) + seq!['}']
}

/// The text that a seal hashes: the inputs with their weights, ordered by the
/// source id of their last entries and, between equal ids, by their own
/// canonical text; then `::` and the operator identifier.
pub open spec fn seal_message(js: Seq<JudgmentView>, ws: Seq<u32>, op: Seq<char>) -> Seq<char> {
    seq!['['] + joined(
        sort_idx(sort_keys(js, ws), js.len()).map_values(
            |k: usize| pair_text(js[k as int], ws[k as int]),
        ),
    ) + seq![']'] + "::"@ + op
}

pub open spec fn seal_of(js: Seq<JudgmentView>, ws: Seq<u32>, op: Seq<char>) -> Seq<char> {
    digest_hex(seal_message(js, ws, op))
}

/// The views of the judgments behind a slice of references.
pub open spec fn views(js: Seq<&NeutrosophicJudgment>) -> Seq<JudgmentView> {
    js.map_values(|j: &NeutrosophicJudgment| j@)
}

fn lex_less(a: &Vec<char>, b: &Vec<char>) -> (r: bool)
    ensures
        r == lex_lt(a@, b@),
{
    let mut k: usize = 0;
    assert(a@.skip(0) =~= a@);
    assert(b@.skip(0) =~= b@);
    while k < a.len() && k < b.len()
        invariant
            k <= a.len(),
            k <= b.len(),
            lex_lt(a@, b@) == lex_lt(a@.skip(k as int), b@.skip(k as int)),
        decreases a.len() - k,
    {
        if a[k] != b[k] {
            return a[k] < b[k];
        }
        assert(a@.skip(k as int).drop_first() =~= a@.skip(k as int + 1));
        assert(b@.skip(k as int).drop_first() =~= b@.skip(k as int + 1));
        k = k + 1;
    }
    k < b.len()
}

fn chars_of(s: &str) -> (r: Vec<char>)
    ensures
        r@ == s@,
{
    let mut out: Vec<char> = Vec::new();
    push_str(&mut out, s);
    out
}

fn key_of(j: &NeutrosophicJudgment) -> (r: Vec<char>)
    ensures
        r@ == seal_key(j@.chain),
{
    let n = j.provenance_chain.len();
    if n == 0 {
        Vec::new()
    } else {
        chars_of(j.provenance_chain[n - 1].source_id.as_str())
    }
}

/// The views of exec sort keys.
pub open spec fn key_views(keys: Seq<(Vec<char>, Vec<char>)>) -> Seq<(Seq<char>, Seq<char>)> {
    keys.map_values(|k: (Vec<char>, Vec<char>)| (k.0@, k.1@))
}

fn sort_less(a: &(Vec<char>, Vec<char>), b: &(Vec<char>, Vec<char>)) -> (r: bool)
    ensures
        r == sort_lt((a.0@, a.1@), (b.0@, b.1@)),
{
    lex_less(&a.0, &b.0) || (!lex_less(&b.0, &a.0) && lex_less(&a.1, &b.1))
}

/// Inserts `x` into `order`, kept in the order that `insert_idx` gives.
fn insert_sorted(order: &mut Vec<usize>, keys: &Vec<(Vec<char>, Vec<char>)>, x: usize)
    requires
        x < keys.len(),
        forall|m: int| 0 <= m < old(order).len() ==> old(order)@[m] < keys.len(),
    ensures
        final(order)@ == insert_idx(old(order)@, key_views(keys@), x),
        forall|m: int| 0 <= m < final(order).len() ==> final(order)@[m] < keys.len(),
{
    let ghost ks = key_views(keys@);
    let ghost o = order@;
    let mut p: usize = order.len();
    let mut done = false;
    assert(o.subrange(0, p as int) =~= o);
    assert(o.subrange(p as int, o.len() as int) =~= Seq::<usize>::empty());
    while p > 0 && !done
        invariant
            p <= order.len(),
            order@ == o,
            x < keys.len(),
            ks == key_views(keys@),
            forall|m: int| 0 <= m < o.len() ==> o[m] < keys.len(),
            insert_idx(o, ks, x) == insert_idx(o.subrange(0, p as int), ks, x) + o.subrange(
                p as int,
                o.len() as int,
            ),
            done ==> p > 0 && !sort_lt(ks[x as int], ks[o[p - 1] as int]),
        decreases p + if done { 0int } else { 1int },
    {
        let y = order[p - 1];
        if sort_less(&keys[x], &keys[y]) {
            proof {
                let s = o.subrange(0, p as int);
                assert(s.drop_last() =~= o.subrange(0, p - 1));
                assert(s.last() == y);
                assert(o.subrange(p - 1, o.len() as int) =~= seq![y] + o.subrange(
                    p as int,
                    o.len() as int,
                ));
                assert(insert_idx(s, ks, x) == insert_idx(o.subrange(0, p - 1), ks, x).push(y));
                assert(insert_idx(o.subrange(0, p - 1), ks, x).push(y) + o.subrange(
                    p as int,
                    o.len() as int,
                ) =~= insert_idx(o.subrange(0, p - 1), ks, x) + o.subrange(
                    p - 1,
                    o.len() as int,
                ));
            }
            p = p - 1;
        } else {
            done = true;
        }
    }
    proof {
        let s = o.subrange(0, p as int);
        if p > 0 {
            assert(s.last() == o[p - 1]);
            assert(insert_idx(s, ks, x) == s.push(x));
        }
        assert(insert_idx(o, ks, x) =~= o.insert(p as int, x));
    }
    order.insert(p, x);
}

/// Indices of `judgments` in the order of their sort keys.
fn canonical_order(judgments: &[&NeutrosophicJudgment], weights: &[u32]) -> (r: Vec<usize>)
    requires
        judgments@.len() == weights@.len(),
    ensures
        r@ == sort_idx(sort_keys(views(judgments@), weights@), judgments@.len()),
        forall|m: int| 0 <= m < r.len() ==> r@[m] < judgments@.len(),
{
    let ghost ks = sort_keys(views(judgments@), weights@);
    let mut keys: Vec<(Vec<char>, Vec<char>)> = Vec::new();
    let mut k: usize = 0;
    while k < judgments.len()
        invariant
            k <= judgments@.len(),
            keys.len() == k,
            judgments@.len() == weights@.len(),
            forall|m: int|
                0 <= m < k ==> (#[trigger] keys@[m]).0@ == ks[m].0 && keys@[m].1@ == ks[m].1,
            ks == sort_keys(views(judgments@), weights@),
        decreases judgments@.len() - k,
    {
        let mut text: Vec<char> = Vec::new();
        push_pair(&mut text, judgments[k], weights[k]);
        assert(text@ =~= pair_text(judgments@[k as int]@, weights@[k as int]));
        keys.push((key_of(judgments[k]), text));
        k = k + 1;
    }
    assert(key_views(keys@) =~= ks);
    let mut order: Vec<usize> = Vec::new();
    let mut n: usize = 0;
    while n < judgments.len()
        invariant
            n <= judgments@.len(),
            keys.len() == judgments@.len(),
            key_views(keys@) == ks,
            ks == sort_keys(views(judgments@), weights@),
            order@ == sort_idx(ks, n as nat),
            forall|m: int| 0 <= m < order.len() ==> order@[m] < keys.len(),
        decreases judgments@.len() - n,
    {
        insert_sorted(&mut order, &keys, n);
        n = n + 1;
    }
    order
}

fn push_pair(out: &mut Vec<char>, j: &NeutrosophicJudgment, w: u32)
    ensures
        final(out)@ == old(out)@ + pair_text(j@, w),
{
    push_str(out, "{\"judgment\":");
    push_judgment(out, j);
    push_str(out, ",\"weight\":");
    push_decimal(out, w as u64);
    out.push('}');
    assert(out@ =~= old(out)@ + pair_text(j@, w));
}

/// Builds the text that the seal hashes.
#[verifier::rlimit(50)]
#[verifier::spinoff_prover]
fn seal_text(judgments: &[&NeutrosophicJudgment], weights: &[u32], operator_id: &str) -> (r: Vec<
    char,
>)
    requires
        judgments@.len() == weights@.len(),
    ensures
        r@ == seal_message(views(judgments@), weights@, operator_id@),
{
    let order = canonical_order(judgments, weights);
    let ghost js = views(judgments@);
    let ghost items = order@.map_values(|k: usize| pair_text(js[k as int], weights@[k as int]));
    let mut out: Vec<char> = Vec::new();
    out.push('[');
    let ghost start = out@;
    let mut m: usize = 0;
    while m < order.len()
        invariant
            m <= order.len(),
            judgments@.len() == weights@.len(),
            js == views(judgments@),
            items == order@.map_values(|k: usize| pair_text(js[k as int], weights@[k as int])),
            forall|q: int| 0 <= q < order.len() ==> order@[q] < judgments@.len(),
            out@ == start + joined(items.subrange(0, m as int)),
        decreases order.len() - m,
    {
        proof {
            lemma_joined_step(items, m as int);
        }
        if m > 0 {
            out.push(',');
        }
        let k = order[m];
        push_pair(&mut out, judgments[k], weights[k]);
        assert(js[k as int] == judgments@[k as int]@);
        assert(items[m as int] == pair_text(js[k as int], weights@[k as int]));
        assert(out@ =~= start + joined(items.subrange(0, m as int + 1)));
        m = m + 1;
    }
    assert(items.subrange(0, order.len() as int) =~= items);
    out.push(']');
    push_str(&mut out, "::");
    push_str(&mut out, operator_id);
    assert(out@ =~= seal_message(views(judgments@), weights@, operator_id@));
    out
}

/// The seal of `judgments` with `weights` under `operator_id`; inputs,
/// weights and a non-empty identifier are required.
pub fn generate_conformance_seal(
    judgments: &[&NeutrosophicJudgment],
    weights: &[u32],
    operator_id: &str,
) -> (r: Result<String, OpenTrustError>)
    ensures
        r is Ok <==> judgments@.len() == weights@.len() && judgments@.len() > 0
            && operator_id@.len() > 0,
        r matches Ok(s) ==> s@ == seal_of(views(judgments@), weights@, operator_id@)
            && s@.len() == 64,
        r matches Err(e) ==> e is InvalidFusionInput,
{
    if judgments.len() != weights.len() {
        return Err(
            OpenTrustError::InvalidFusionInput {
                message: "Invalid input: judgments and weights length mismatch".to_owned(),
            },
        );
    }
    if judgments.len() == 0 {
        return Err(
            OpenTrustError::InvalidFusionInput {
                message: "Invalid input: judgments list cannot be empty".to_owned(),
            },
        );
    }
    if operator_id.unicode_len() == 0 {
        return Err(
            OpenTrustError::InvalidFusionInput {
                message: "Invalid operator ID: empty".to_owned(),
            },
        );
    }
    let text = seal_text(judgments, weights, operator_id);
    Ok(sha256_hex(&text))
}

/// Verification from the fused judgment alone. The inputs are not stored in
/// the chain, so this always fails: first on an empty chain or a missing
/// seal, otherwise because the inputs are missing.
pub fn verify_conformance_seal(fused_judgment: &NeutrosophicJudgment) -> (r: Result<
    bool,
    OpenTrustError,
>)
    ensures
        r matches Err(e) && e is InvalidFusionInput,
{
    let n = fused_judgment.provenance_chain.len();
    if n == 0 {
        return Err(
            OpenTrustError::InvalidFusionInput { message: "Empty provenance chain".to_owned() },
        );
    }
    if fused_judgment.provenance_chain[n - 1].conformance_seal.is_none() {
        return Err(
            OpenTrustError::InvalidFusionInput {
                message: "Missing conformance seal in fused judgment".to_owned(),
            },
        );
    }
    Err(
        OpenTrustError::InvalidFusionInput {
            message: "Missing input data: verification needs the input judgments and weights".to_owned(),
        },
    )
}

/// Regenerates the seal from the given inputs under the operator named by
/// the last entry, and compares it with the seal stored there.
pub fn verify_conformance_seal_with_inputs(
    fused_judgment: &NeutrosophicJudgment,
    input_judgments: &[&NeutrosophicJudgment],
    weights: &[u32],
) -> (r: Result<bool, OpenTrustError>)
    ensures
        r is Ok <==> fused_judgment@.chain.len() > 0 && fused_judgment@.chain.last().conformance_seal
            is Some && input_judgments@.len() == weights@.len() && input_judgments@.len() > 0
            && fused_judgment@.chain.last().source_id.len() > 0,
        r matches Ok(b) ==> b == (fused_judgment@.chain.last().conformance_seal == Some(
            seal_of(
                views(input_judgments@),
                weights@,
                fused_judgment@.chain.last().source_id,
            ),
        )),
        r matches Err(e) ==> e is InvalidFusionInput,
{
    let n = fused_judgment.provenance_chain.len();
    if n == 0 {
        return Err(
            OpenTrustError::InvalidFusionInput { message: "Empty provenance chain".to_owned() },
        );
    }
    let last = &fused_judgment.provenance_chain[n - 1];
    assert(fused_judgment@.chain.last() == last@);
    let stored = match &last.conformance_seal {
        Some(s) => s,
        None => {
            return Err(
                OpenTrustError::InvalidFusionInput {
                    message: "Missing conformance seal in fused judgment".to_owned(),
                },
            );
        },
    };
    let regenerated = match generate_conformance_seal(
        input_judgments,
        weights,
        last.source_id.as_str(),
    ) {
        Ok(s) => s,
        Err(e) => {
            return Err(e);
        },
    };
    Ok(stored.eq(&regenerated))
}

/// The entry that a fusion operator appends: its identifier as source and
/// the seal it computed.
pub fn create_fusion_provenance_entry(
    operator_id: &str,
    timestamp: &str,
    conformance_seal: &str,
    description: Option<String>,
    metadata: Option<Vec<(String, MetadataValue)>>,
) -> (r: ProvenanceEntry)
    ensures
        r.source_id@ == operator_id@,
        r.timestamp@ == timestamp@,
        r.description == description,
        r.metadata == metadata,
        r.conformance_seal matches Some(s) && s@ == conformance_seal@,
{
    ProvenanceEntry {
        source_id: operator_id.to_owned(),
        timestamp: timestamp.to_owned(),
        description,
        metadata,
        conformance_seal: Some(conformance_seal.to_owned()),
    }
}

/// Of two different texts, exactly one comes first.
pub proof fn lemma_lex_total(a: Seq<char>, b: Seq<char>)
    requires
        a != b,
    ensures
        lex_lt(a, b) || lex_lt(b, a),
        !(lex_lt(a, b) && lex_lt(b, a)),
    decreases a.len(),
{
    if a.len() > 0 && b.len() > 0 && a[0] == b[0] {
        if a.drop_first() == b.drop_first() {
            assert(a =~= seq![a[0]] + a.drop_first());
            assert(b =~= seq![b[0]] + b.drop_first());
        }
        lemma_lex_total(a.drop_first(), b.drop_first());
    } else if a.len() == 0 && b.len() == 0 {
        assert(a =~= b);
    }
}

/// No text comes before itself.
pub proof fn lemma_lex_irreflexive(a: Seq<char>)
    ensures
        !lex_lt(a, a),
    decreases a.len(),
{
    if a.len() > 0 {
        lemma_lex_irreflexive(a.drop_first());
    }
}

/// The input order is a strict total order on sort keys.
pub proof fn lemma_sort_lt_total(x: (Seq<char>, Seq<char>), y: (Seq<char>, Seq<char>))
    ensures
        x != y ==> sort_lt(x, y) || sort_lt(y, x),
        !(sort_lt(x, y) && sort_lt(y, x)),
{
    lemma_lex_irreflexive(x.0);
    lemma_lex_irreflexive(x.1);
    if x.0 != y.0 {
        lemma_lex_total(x.0, y.0);
    } else if x.1 != y.1 {
        lemma_lex_total(x.1, y.1);
    }
}

/// The canonical order of two inputs.
proof fn lemma_two_order(keys: Seq<(Seq<char>, Seq<char>)>)
    requires
        keys.len() == 2,
    ensures
        sort_idx(keys, 2) == if sort_lt(keys[1], keys[0]) {
            seq![1usize, 0usize]
        } else {
            seq![0usize, 1usize]
        },
{
    assert(sort_idx(keys, 0) == Seq::<usize>::empty());
    assert(sort_idx(keys, 1) == insert_idx(Seq::<usize>::empty(), keys, 0));
    assert(sort_idx(keys, 1) == seq![0usize]);
    assert(sort_idx(keys, 2) == insert_idx(seq![0usize], keys, 1));
    assert(seq![0usize].drop_last() =~= Seq::<usize>::empty());
    assert(insert_idx(Seq::<usize>::empty(), keys, 1) == seq![1usize]);
    if sort_lt(keys[1], keys[0]) {
        assert(seq![1usize].push(0usize) =~= seq![1usize, 0usize]);
    } else {
        assert(seq![0usize].push(1usize) =~= seq![0usize, 1usize]);
    }
}

/// Sealing two inputs does not depend on the order in which the caller
/// lists them.
#[verifier::rlimit(50)]
#[verifier::spinoff_prover]
pub proof fn lemma_seal_order_invariant(
    a: JudgmentView,
    b: JudgmentView,
    wa: u32,
    wb: u32,
    op: Seq<char>,
)
    ensures
        seal_of(seq![a, b], seq![wa, wb], op) == seal_of(seq![b, a], seq![wb, wa], op),
{
    let ka = (seal_key(a.chain), pair_text(a, wa));
    let kb = (seal_key(b.chain), pair_text(b, wb));
    let k1 = sort_keys(seq![a, b], seq![wa, wb]);
    let k2 = sort_keys(seq![b, a], seq![wb, wa]);
    assert(k1 =~= seq![ka, kb]);
    assert(k2 =~= seq![kb, ka]);
    lemma_two_order(k1);
    lemma_two_order(k2);
    lemma_sort_lt_total(ka, kb);
    let f1 = |k: usize| pair_text(seq![a, b][k as int], seq![wa, wb][k as int]);
    let f2 = |k: usize| pair_text(seq![b, a][k as int], seq![wb, wa][k as int]);
    let i1 = sort_idx(k1, 2).map_values(f1);
    let i2 = sort_idx(k2, 2).map_values(f2);
    assert(i1 =~= i2);
    assert(seal_message(seq![a, b], seq![wa, wb], op) == seal_message(
        seq![b, a],
        seq![wb, wa],
        op,
    ));
}

/// Two operator identifiers give two different sealed texts.
pub proof fn lemma_seal_message_names_operator(
    js: Seq<JudgmentView>,
    ws: Seq<u32>,
    op1: Seq<char>,
    op2: Seq<char>,
)
    requires
        op1 != op2,
    ensures
        seal_message(js, ws, op1) != seal_message(js, ws, op2),
{
    let m1 = seal_message(js, ws, op1);
    let m2 = seal_message(js, ws, op2);
    let p = m1.subrange(0, m1.len() - op1.len());
    assert(m1 =~= p + op1);
    assert(m2 =~= p + op2);
    if m1 == m2 {
        assert(op1 =~= m1.subrange(p.len() as int, m1.len() as int));
        assert(op2 =~= m2.subrange(p.len() as int, m2.len() as int));
    }
}

/// Where `insert_idx` places the new index.
pub open spec fn insert_pos(order: Seq<usize>, keys: Seq<(Seq<char>, Seq<char>)>, x: usize) -> int
    decreases order.len(),
{
    if order.len() == 0 {
        0
    } else if sort_lt(keys[x as int], keys[order.last() as int]) {
        insert_pos(order.drop_last(), keys, x)
    } else {
        order.len() as int
    }
}

proof fn lemma_insert_idx_is_insert(order: Seq<usize>, keys: Seq<(Seq<char>, Seq<char>)>, x: usize)
    ensures
        0 <= insert_pos(order, keys, x) <= order.len(),
        insert_idx(order, keys, x) == order.insert(insert_pos(order, keys, x), x),
    decreases order.len(),
{
    if order.len() == 0 {
        assert(seq![x] =~= order.insert(0, x));
    } else if sort_lt(keys[x as int], keys[order.last() as int]) {
        lemma_insert_idx_is_insert(order.drop_last(), keys, x);
        let p = insert_pos(order.drop_last(), keys, x);
        assert(order.drop_last().insert(p, x).push(order.last()) =~= order.insert(p, x));
    } else {
        assert(order.push(x) =~= order.insert(order.len() as int, x));
    }
}

/// `x` occurs in `order`.
pub open spec fn lists_index(order: Seq<usize>, x: int) -> bool {
    exists|m: int| 0 <= m < order.len() && order[m] == x
}

/// The canonical order lists each of the first `n` indices exactly once.
pub proof fn lemma_sort_idx_permutes(keys: Seq<(Seq<char>, Seq<char>)>, n: nat)
    requires
        n <= usize::MAX,
    ensures
        sort_idx(keys, n).len() == n,
        forall|m: int| 0 <= m < n ==> #[trigger] sort_idx(keys, n)[m] < n,
        forall|a: int, b: int|
            0 <= a < n && 0 <= b < n && a != b ==> #[trigger] sort_idx(keys, n)[a]
                != #[trigger] sort_idx(keys, n)[b],
        forall|x: int| 0 <= x < n ==> #[trigger] lists_index(sort_idx(keys, n), x),
    decreases n,
{
    if n > 0 {
        let prev = sort_idx(keys, (n - 1) as nat);
        lemma_sort_idx_permutes(keys, (n - 1) as nat);
        lemma_insert_idx_is_insert(prev, keys, (n - 1) as usize);
        let p = insert_pos(prev, keys, (n - 1) as usize);
        let o = sort_idx(keys, n);
        let x = (n - 1) as usize;
        assert(o == prev.insert(p, x));
        prev.insert_ensures(p, x);
        assert forall|m: int| 0 <= m < n implies #[trigger] o[m] == if m < p {
            prev[m]
        } else if m == p {
            x
        } else {
            prev[m - 1]
        } by {
            if m > p {
                assert(o[(m - 1) + 1] == prev[m - 1]);
            }
        }
        assert forall|a: int, b: int| 0 <= a < n && 0 <= b < n && a != b implies #[trigger] o[a]
            != #[trigger] o[b] by {
            if a != p && b != p {
                let pa = if a < p { a } else { a - 1 };
                let pb = if b < p { b } else { b - 1 };
                assert(o[a] == prev[pa]);
                assert(o[b] == prev[pb]);
            } else if a == p {
                let pb = if b < p { b } else { b - 1 };
                assert(o[b] == prev[pb]);
            } else {
                let pa = if a < p { a } else { a - 1 };
                assert(o[a] == prev[pa]);
            }
        }
        assert forall|y: int| 0 <= y < n implies #[trigger] lists_index(o, y) by {
            if y == n - 1 {
                assert(o[p] == y);
            } else {
                assert(lists_index(prev, y));
                let m0 = choose|m: int| 0 <= m < n - 1 && prev[m] == y;
                if m0 < p {
                    assert(o[m0] == y);
                } else {
                    assert(o[m0 + 1] == y);
                }
            }
        }
    }
}

/// The canonical texts of the inputs, in canonical order.
pub open spec fn seal_items(js: Seq<JudgmentView>, ws: Seq<u32>) -> Seq<Seq<char>> {
    sort_idx(sort_keys(js, ws), js.len()).map_values(
        |k: usize| pair_text(js[k as int], ws[k as int]),
    )
}

proof fn lemma_wrapped_split(items: Seq<Seq<char>>, p: int, tail: Seq<char>)
    requires
        0 <= p < items.len(),
    ensures
        seq!['['] + joined(items) + tail == (seq!['['] + joined_before(items, p)) + items[p] + (
        joined_after(items, p) + tail),
{
    lemma_joined_split(items, p);
    assert(seq!['['] + joined(items) + tail =~= (seq!['['] + joined_before(items, p)) + items[p]
        + (joined_after(items, p) + tail));
}

#[verifier::spinoff_prover]
proof fn lemma_message_split(js: Seq<JudgmentView>, ws: Seq<u32>, op: Seq<char>, p: int)
    requires
        0 <= p < seal_items(js, ws).len(),
    ensures
        seal_message(js, ws, op) == (seq!['['] + joined_before(seal_items(js, ws), p)) + seal_items(
            js,
            ws,
        )[p] + (joined_after(seal_items(js, ws), p) + (seq![']'] + "::"@ + op)),
{
    let items = seal_items(js, ws);
    let tail = seq![']'] + "::"@ + op;
    assert(seal_message(js, ws, op) == seq!['['] + joined(items) + seq![']'] + "::"@ + op);
    assert(seq!['['] + joined(items) + seq![']'] + "::"@ + op =~= seq!['['] + joined(items) + tail);
    lemma_wrapped_split(items, p, tail);
}

/// Two inputs that differ in a degree, with the same chain and weight, have
/// different canonical texts in any context.
#[verifier::rlimit(100)]
#[verifier::spinoff_prover]
proof fn lemma_pair_differs(
    x: Seq<char>,
    y: Seq<char>,
    a: JudgmentView,
    b: JudgmentView,
    w: u32,
)
    requires
        a.chain == b.chain,
        a.t != b.t || a.i != b.i || a.f != b.f,
    ensures
        x + pair_text(a, w) + y != x + pair_text(b, w) + y,
{
    let before = x + "{\"judgment\":"@;
    let tail = ",\"provenance_chain\":"@ + chain_text(a.chain) + seq!['}'] + ",\"weight\":"@
        + decimal(w as nat) + seq!['}'] + y;
    let m1 = x + pair_text(a, w) + y;
    let m2 = x + pair_text(b, w) + y;
    lemma_decimal_shape(a.t as nat);
    lemma_decimal_shape(b.t as nat);
    lemma_decimal_shape(a.i as nat);
    lemma_decimal_shape(b.i as nat);
    lemma_decimal_shape(a.f as nat);
    lemma_decimal_shape(b.f as nat);
    reveal_strlit(",\"i\":");
    reveal_strlit(",\"f\":");
    reveal_strlit(",\"provenance_chain\":");
    let ri1 = ",\"i\":"@ + decimal(a.i as nat) + ",\"f\":"@ + decimal(a.f as nat) + tail;
    let ri2 = ",\"i\":"@ + decimal(b.i as nat) + ",\"f\":"@ + decimal(b.f as nat) + tail;
    assert(m1 =~= before + "{\"t\":"@ + decimal(a.t as nat) + ri1);
    assert(m2 =~= before + "{\"t\":"@ + decimal(b.t as nat) + ri2);
    if a.t != b.t {
        lemma_decimal_injective(a.t as nat, b.t as nat);
        lemma_splice_differs(before + "{\"t\":"@, decimal(a.t as nat), decimal(b.t as nat), ri1, ri2);
    } else if a.i != b.i {
        let c = before + "{\"t\":"@ + decimal(a.t as nat) + ",\"i\":"@;
        let rf1 = ",\"f\":"@ + decimal(a.f as nat) + tail;
        let rf2 = ",\"f\":"@ + decimal(b.f as nat) + tail;
        assert(m1 =~= c + decimal(a.i as nat) + rf1);
        assert(m2 =~= c + decimal(b.i as nat) + rf2);
        lemma_decimal_injective(a.i as nat, b.i as nat);
        lemma_splice_differs(c, decimal(a.i as nat), decimal(b.i as nat), rf1, rf2);
    } else {
        let c = before + "{\"t\":"@ + decimal(a.t as nat) + ",\"i\":"@ + decimal(a.i as nat)
            + ",\"f\":"@;
        assert(m1 =~= c + decimal(a.f as nat) + tail);
        assert(m2 =~= c + decimal(b.f as nat) + tail);
        lemma_decimal_injective(a.f as nat, b.f as nat);
        lemma_splice_differs(c, decimal(a.f as nat), decimal(b.f as nat), tail, tail);
    }
}

proof fn lemma_insert_agrees(
    order: Seq<usize>,
    k1: Seq<(Seq<char>, Seq<char>)>,
    k2: Seq<(Seq<char>, Seq<char>)>,
    x: usize,
)
    requires
        forall|m: int|
            0 <= m < order.len() ==> sort_lt(k1[x as int], k1[order[m] as int]) == sort_lt(
                k2[x as int],
                k2[order[m] as int],
            ),
    ensures
        insert_idx(order, k1, x) == insert_idx(order, k2, x),
    decreases order.len(),
{
    if order.len() > 0 {
        assert(order.last() == order[order.len() - 1]);
        lemma_insert_agrees(order.drop_last(), k1, k2, x);
    }
}

/// Key sequences that order every two different indices alike give the
/// same canonical order.
proof fn lemma_sort_agrees(k1: Seq<(Seq<char>, Seq<char>)>, k2: Seq<(Seq<char>, Seq<char>)>, n: nat)
    requires
        n <= usize::MAX,
        forall|x: int, y: int|
            0 <= x < n && 0 <= y < n && x != y ==> sort_lt(k1[x], k1[y]) == sort_lt(k2[x], k2[y]),
    ensures
        sort_idx(k1, n) == sort_idx(k2, n),
    decreases n,
{
    if n > 0 {
        lemma_sort_agrees(k1, k2, (n - 1) as nat);
        let prev = sort_idx(k1, (n - 1) as nat);
        lemma_sort_idx_permutes(k1, (n - 1) as nat);
        assert forall|m: int| 0 <= m < prev.len() implies sort_lt(
            k1[(n - 1) as usize as int],
            k1[prev[m] as int],
        ) == sort_lt(k2[(n - 1) as usize as int], k2[prev[m] as int]) by {
            assert(prev[m] < n - 1);
        }
        lemma_insert_agrees(prev, k1, k2, (n - 1) as usize);
    }
}

/// Changing one degree of an input whose last source id no other input
/// shares changes the sealed text, whatever the weights and the operator.
pub proof fn lemma_seal_message_tracks_degrees(
    js: Seq<JudgmentView>,
    js2: Seq<JudgmentView>,
    ws: Seq<u32>,
    op: Seq<char>,
    k: int,
)
    requires
        js.len() == js2.len(),
        js.len() <= usize::MAX,
        ws.len() == js.len(),
        0 <= k < js.len(),
        forall|m: int| 0 <= m < js.len() && m != k ==> js2[m] == js[m],
        js2[k].chain == js[k].chain,
        js2[k].t != js[k].t || js2[k].i != js[k].i || js2[k].f != js[k].f,
        forall|m: int|
            0 <= m < js.len() && m != k ==> seal_key(js[m].chain) != seal_key(js[k].chain),
    ensures
        seal_message(js, ws, op) != seal_message(js2, ws, op),
{
    let n = js.len();
    let keys = sort_keys(js, ws);
    let keys2 = sort_keys(js2, ws);
    assert forall|x: int, y: int| 0 <= x < n && 0 <= y < n && x != y implies sort_lt(
        keys[x],
        keys[y],
    ) == sort_lt(keys2[x], keys2[y]) by {
        if x == k || y == k {
            assert(keys[x].0 == keys2[x].0);
            assert(keys[y].0 == keys2[y].0);
            assert(keys[x].0 != keys[y].0);
            lemma_lex_total(keys[x].0, keys[y].0);
        } else {
            assert(keys[x] == keys2[x]);
            assert(keys[y] == keys2[y]);
        }
    }
    lemma_sort_agrees(keys, keys2, n);
    let o = sort_idx(keys, n);
    lemma_sort_idx_permutes(keys, n);
    assert(lists_index(o, k));
    let p = choose|m: int| 0 <= m < n && o[m] == k;
    let items1 = seal_items(js, ws);
    let items2 = seal_items(js2, ws);
    assert forall|q: int| 0 <= q < n && q != p implies #[trigger] items1[q] == items2[q] by {
        assert(o[q] != o[p]);
    }
    assert(items1.subrange(0, p) =~= items2.subrange(0, p));
    assert(items1.subrange(p + 1, n as int) =~= items2.subrange(p + 1, n as int));
    lemma_message_split(js, ws, op, p);
    lemma_message_split(js2, ws, op, p);
    let x = seq!['['] + joined_before(items1, p);
    let y = joined_after(items1, p) + (seq![']'] + "::"@ + op);
    assert(joined_before(items2, p) == joined_before(items1, p));
    assert(joined_after(items2, p) == joined_after(items1, p));
    assert(items1[p] == pair_text(js[k], ws[k]));
    assert(items2[p] == pair_text(js2[k], ws[k]));
    lemma_pair_differs(x, y, js[k], js2[k], ws[k]);
}

} // verus!
