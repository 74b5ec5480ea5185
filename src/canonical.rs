//! The canonical text form hashed by seals and identities: compact JSON with
//! fixed keys, integers for degrees and weights, and escaped strings.
use vstd::prelude::*;
use vstd::string::StrSliceExecFns;

use crate::judgment::{
    chain_view, EntryView, MetadataValue, MetadataView, NeutrosophicJudgment, ProvenanceEntry,
};

verus! {

/// The lowercase hexadecimal digit for `d < 16`.
pub open spec fn nibble_char(d: int) -> char {
    if d == 0 {
        '0'
    } else if d == 1 {
        '1'
    } else if d == 2 {
        '2'
    } else if d == 3 {
        '3'
    } else if d == 4 {
        '4'
    } else if d == 5 {
        '5'
    } else if d == 6 {
        '6'
    } else if d == 7 {
        '7'
    } else if d == 8 {
        '8'
    } else if d == 9 {
        '9'
    } else if d == 10 {
        'a'
    } else if d == 11 {
        'b'
    } else if d == 12 {
        'c'
    } else if d == 13 {
        'd'
    } else if d == 14 {
        'e'
    } else {
        'f'
    }
}

pub fn nibble(d: u8) -> (r: char)
    requires
        d < 16,
    ensures
        r == nibble_char(d as int),
{
    match d {
        0 => '0',
        1 => '1',
        2 => '2',
        3 => '3',
        4 => '4',
        5 => '5',
        6 => '6',
        7 => '7',
        8 => '8',
        9 => '9',
        10 => 'a',
        11 => 'b',
        12 => 'c',
        13 => 'd',
        14 => 'e',
        _ => 'f',
    }
}

/// Decimal digits of `n`, most significant first, without leading zeros.
pub open spec fn decimal(n: nat) -> Seq<char>
    decreases n,
{
    if n < 10 {
        seq![nibble_char(n as int)]
    } else {
        decimal(n / 10) + seq![nibble_char((n % 10) as int)]
    }
}

pub fn push_decimal(out: &mut Vec<char>, n: u64)
    ensures
        final(out)@ == old(out)@ + decimal(n as nat),
    decreases n,
{
    if n >= 10 {
        push_decimal(out, n / 10);
    }
    out.push(nibble((n % 10) as u8));
    assert(out@ =~= old(out)@ + decimal(n as nat));
}

/// Appends the characters of `s`.
pub fn push_str(out: &mut Vec<char>, s: &str)
    ensures
        final(out)@ == old(out)@ + s@,
{
    let n = s.unicode_len();
    let mut k: usize = 0;
    while k < n
        invariant
            n == s@.len(),
            k <= n,
            out@ == old(out)@ + s@.subrange(0, k as int),
        decreases n - k,
    {
        out.push(s.get_char(k));
        assert(s@.subrange(0, k as int + 1) =~= s@.subrange(0, k as int).push(s@[k as int]));
        k = k + 1;
    }
    assert(s@.subrange(0, n as int) =~= s@);
}

/// How one character stands inside a quoted string.
pub open spec fn escape_char(c: char) -> Seq<char> {
    if c == '"' {
        seq!['\\', '"']
    } else if c == '\\' {
        seq!['\\', '\\']
    } else if (c as u32) < 32 {
        seq!['\\', 'u', '0', '0', nibble_char((c as u32) as int / 16), nibble_char((c as u32) as int % 16)]
    } else {
        seq![c]
    }
}

pub open spec fn escaped(s: Seq<char>) -> Seq<char>
    decreases s.len(),
{
    if s.len() == 0 {
        seq![]
    } else {
        escaped(s.drop_last()) + escape_char(s.last())
    }
}

/// A string literal: escaped characters between double quotes.
pub open spec fn quoted(s: Seq<char>) -> Seq<char> {
    seq!['"'] + escaped(s) + seq!['"']
}

fn push_escaped_char(out: &mut Vec<char>, c: char)
    ensures
        final(out)@ == old(out)@ + escape_char(c),
{
    if c == '"' {
        out.push('\\');
        out.push('"');
    } else if c == '\\' {
        out.push('\\');
        out.push('\\');
    } else if (c as u32) < 32 {
        let v = c as u32;
        out.push('\\');
        out.push('u');
        out.push('0');
        out.push('0');
        out.push(nibble((v / 16) as u8));
        out.push(nibble((v % 16) as u8));
    } else {
        out.push(c);
    }
    assert(out@ =~= old(out)@ + escape_char(c));
}

pub fn push_quoted(out: &mut Vec<char>, s: &str)
    ensures
        final(out)@ == old(out)@ + quoted(s@),
{
    out.push('"');
    let ghost start = out@;
    let n = s.unicode_len();
    let mut k: usize = 0;
    while k < n
        invariant
            n == s@.len(),
            k <= n,
            out@ == start + escaped(s@.subrange(0, k as int)),
        decreases n - k,
    {
        let c = s.get_char(k);
        push_escaped_char(out, c);
        assert(s@.subrange(0, k as int + 1).drop_last() =~= s@.subrange(0, k as int));
        k = k + 1;
    }
    assert(s@.subrange(0, n as int) =~= s@);
    out.push('"');
    assert(out@ =~= old(out)@ + quoted(s@));
}

/// Items separated by commas.
pub open spec fn joined(items: Seq<Seq<char>>) -> Seq<char>
    decreases items.len(),
{
    if items.len() == 0 {
        seq![]
    } else if items.len() == 1 {
        items[0]
    } else {
        joined(items.drop_last()) + seq![','] + items.last()
    }
}

pub proof fn lemma_joined_step(items: Seq<Seq<char>>, k: int)
    requires
        0 <= k < items.len(),
    ensures
        joined(items.subrange(0, k + 1)) == if k == 0 {
            items[0]
        } else {
            joined(items.subrange(0, k)) + seq![','] + items[k]
        },
{
    assert(items.subrange(0, k + 1).drop_last() =~= items.subrange(0, k));
}

pub open spec fn metadata_value_text(v: MetadataView) -> Seq<char> {
    match v {
        MetadataView::Null => "null"@,
        MetadataView::Flag(b) => if b {
            "true"@
        } else {
            "false"@
        },
        MetadataView::Integer(n) => decimal(n as nat),
        MetadataView::Text(s) => quoted(s),
        MetadataView::IntegerList(ns) => seq!['['] + joined(
            ns.map_values(|n: u64| decimal(n as nat)),
        ) + seq![']'],
    }
}

pub open spec fn metadata_pair_text(p: (Seq<char>, MetadataView)) -> Seq<char> {
    quoted(p.0) + seq![':'] + metadata_value_text(p.1)
}

pub open spec fn metadata_text(m: Option<Seq<(Seq<char>, MetadataView)>>) -> Seq<char> {
    match m {
        None => "null"@,
        Some(ps) => seq!['{'] + joined(
            ps.map_values(|p: (Seq<char>, MetadataView)| metadata_pair_text(p)),
        ) + seq!['}'],
    }
}

pub open spec fn optional_text(o: Option<Seq<char>>) -> Seq<char> {
    match o {
        None => "null"@,
        Some(s) => quoted(s),
    }
}

/// An entry without its seal: the seal never takes part in a hash.
pub open spec fn entry_text(e: EntryView) -> Seq<char> {
    "{\"source_id\":"@ + quoted(e.source_id) + ",\"timestamp\":"@ + quoted(e.timestamp)
        + ",\"description\":"@ + optional_text(e.description) + ",\"metadata\":"@
        + metadata_text(e.metadata) + seq!['}']
}

pub open spec fn chain_text(c: Seq<EntryView>) -> Seq<char> {
    seq!['['] + joined(c.map_values(|e: EntryView| entry_text(e))) + seq![']']
}

/// A judgment reduced to its degrees and its chain.
pub open spec fn judgment_text(t: u32, i: u32, f: u32, c: Seq<EntryView>) -> Seq<char> {
    "{\"t\":"@ + decimal(t as nat) + ",\"i\":"@ + decimal(i as nat) + ",\"f\":"@ + decimal(
        f as nat,
    ) + ",\"provenance_chain\":"@ + chain_text(c) + seq!['}']
}

fn push_metadata_value(out: &mut Vec<char>, v: &MetadataValue)
    ensures
        final(out)@ == old(out)@ + metadata_value_text(v@),
{
    match v {
        MetadataValue::Null => push_str(out, "null"),
        MetadataValue::Flag(b) => {
            if *b {
                push_str(out, "true")
            } else {
                push_str(out, "false")
            }
        },
        MetadataValue::Integer(n) => push_decimal(out, *n),
        MetadataValue::Text(s) => push_quoted(out, s.as_str()),
        MetadataValue::IntegerList(ns) => push_integers(out, ns),
    }
}

fn push_integers(out: &mut Vec<char>, ns: &Vec<u64>)
    ensures
        final(out)@ == old(out)@ + seq!['['] + joined(ns@.map_values(|n: u64| decimal(n as nat)))
            + seq![']'],
{
    let ghost items = ns@.map_values(|n: u64| decimal(n as nat));
    out.push('[');
    let ghost start = out@;
    let mut k: usize = 0;
    while k < ns.len()
        invariant
            k <= ns.len(),
            items == ns@.map_values(|n: u64| decimal(n as nat)),
            out@ == start + joined(items.subrange(0, k as int)),
        decreases ns.len() - k,
    {
        proof {
            lemma_joined_step(items, k as int);
        }
        if k > 0 {
            out.push(',');
        }
        push_decimal(out, ns[k]);
        assert(items[k as int] == decimal(ns@[k as int] as nat));
        assert(out@ =~= start + joined(items.subrange(0, k as int + 1)));
        k = k + 1;
    }
    assert(items.subrange(0, ns.len() as int) =~= items);
    out.push(']');
    assert(out@ =~= old(out)@ + seq!['['] + joined(items) + seq![']']);
}

fn push_metadata(out: &mut Vec<char>, m: &Option<Vec<(String, MetadataValue)>>)
    ensures
        final(out)@ == old(out)@ + metadata_text(crate::judgment::metadata_view(*m)),
{
    match m {
        None => push_str(out, "null"),
        Some(ps) => {
            let ghost items = crate::judgment::pairs_view(ps@).map_values(
                |p: (Seq<char>, MetadataView)| metadata_pair_text(p),
            );
            out.push('{');
            let ghost start = out@;
            let mut k: usize = 0;
            while k < ps.len()
                invariant
                    k <= ps.len(),
                    items.len() == ps.len(),
                    items == crate::judgment::pairs_view(ps@).map_values(
                        |p: (Seq<char>, MetadataView)| metadata_pair_text(p),
                    ),
                    out@ == start + joined(items.subrange(0, k as int)),
                decreases ps.len() - k,
            {
                proof {
                    lemma_joined_step(items, k as int);
                }
                let ghost before = out@;
                if k > 0 {
                    out.push(',');
                }
                push_quoted(out, ps[k].0.as_str());
                out.push(':');
                push_metadata_value(out, &ps[k].1);
                assert(items[k as int] == metadata_pair_text((ps@[k as int].0@, ps@[k as int].1@)));
                assert(out@ =~= start + joined(items.subrange(0, k as int + 1)));
                k = k + 1;
            }
            assert(items.subrange(0, ps.len() as int) =~= items);
            out.push('}');
            assert(out@ =~= old(out)@ + metadata_text(crate::judgment::metadata_view(*m)));
        },
    }
}

fn push_optional(out: &mut Vec<char>, o: &Option<String>)
    ensures
        final(out)@ == old(out)@ + optional_text(crate::judgment::opt_text(*o)),
{
    match o {
        None => push_str(out, "null"),
        Some(s) => push_quoted(out, s.as_str()),
    }
}

pub fn push_entry(out: &mut Vec<char>, e: &ProvenanceEntry)
    ensures
        final(out)@ == old(out)@ + entry_text(e@),
{
    push_str(out, "{\"source_id\":");
    push_quoted(out, e.source_id.as_str());
    push_str(out, ",\"timestamp\":");
    push_quoted(out, e.timestamp.as_str());
    push_str(out, ",\"description\":");
    push_optional(out, &e.description);
    push_str(out, ",\"metadata\":");
    push_metadata(out, &e.metadata);
    out.push('}');
    assert(out@ =~= old(out)@ + entry_text(e@));
}

pub fn push_chain(out: &mut Vec<char>, c: &Vec<ProvenanceEntry>)
    ensures
        final(out)@ == old(out)@ + chain_text(chain_view(c@)),
{
    let ghost items = chain_view(c@).map_values(|e: EntryView| entry_text(e));
    out.push('[');
    let ghost start = out@;
    let mut k: usize = 0;
    while k < c.len()
        invariant
            k <= c.len(),
            items.len() == c.len(),
            items == chain_view(c@).map_values(|e: EntryView| entry_text(e)),
            out@ == start + joined(items.subrange(0, k as int)),
        decreases c.len() - k,
    {
        proof {
            lemma_joined_step(items, k as int);
        }
        if k > 0 {
            out.push(',');
        }
        push_entry(out, &c[k]);
        assert(items[k as int] == entry_text(c@[k as int]@));
        assert(out@ =~= start + joined(items.subrange(0, k as int + 1)));
        k = k + 1;
    }
    assert(items.subrange(0, c.len() as int) =~= items);
    out.push(']');
    assert(out@ =~= old(out)@ + chain_text(chain_view(c@)));
}

pub fn push_judgment(out: &mut Vec<char>, j: &NeutrosophicJudgment)
    ensures
        final(out)@ == old(out)@ + judgment_text(j.t, j.i, j.f, j@.chain),
{
    push_str(out, "{\"t\":");
    push_decimal(out, j.t as u64);
    push_str(out, ",\"i\":");
    push_decimal(out, j.i as u64);
    push_str(out, ",\"f\":");
    push_decimal(out, j.f as u64);
    push_str(out, ",\"provenance_chain\":");
    push_chain(out, &j.provenance_chain);
    out.push('}');
    assert(out@ =~= old(out)@ + judgment_text(j.t, j.i, j.f, j@.chain));
}

pub open spec fn is_digit(c: char) -> bool {
    '0' <= c && c <= '9'
}

/// Decimal text is made of digits and has one character below ten, more above.
pub proof fn lemma_decimal_shape(n: nat)
    ensures
        forall|k: int| 0 <= k < decimal(n).len() ==> is_digit(#[trigger] decimal(n)[k]),
        n < 10 <==> decimal(n).len() == 1,
        decimal(n).len() >= 1,
    decreases n,
{
    if n >= 10 {
        lemma_decimal_shape(n / 10);
    }
}

/// Different numbers have different decimal texts.
pub proof fn lemma_decimal_injective(a: nat, b: nat)
    requires
        a != b,
    ensures
        decimal(a) != decimal(b),
    decreases a,
{
    lemma_decimal_shape(a);
    lemma_decimal_shape(b);
    if decimal(a) == decimal(b) {
        if a < 10 && b < 10 {
            assert(decimal(a)[0] == nibble_char(a as int));
            assert(decimal(b)[0] == nibble_char(b as int));
        } else if a >= 10 && b >= 10 {
            assert(decimal(a).drop_last() =~= decimal(a / 10));
            assert(decimal(b).drop_last() =~= decimal(b / 10));
            assert(decimal(a).last() == nibble_char((a % 10) as int));
            assert(decimal(b).last() == nibble_char((b % 10) as int));
            assert(a % 10 == b % 10);
            if a / 10 != b / 10 {
                lemma_decimal_injective(a / 10, b / 10);
            }
            assert(a / 10 == b / 10);
            assert(a == 10 * (a / 10) + a % 10);
            assert(b == 10 * (b / 10) + b % 10);
        }
    }
}

/// Two different digit runs after the same text, each followed by a comma,
/// give two different texts.
pub proof fn lemma_splice_differs(
    c: Seq<char>,
    d1: Seq<char>,
    d2: Seq<char>,
    r1: Seq<char>,
    r2: Seq<char>,
)
    requires
        d1 != d2,
        forall|k: int| 0 <= k < d1.len() ==> is_digit(#[trigger] d1[k]),
        forall|k: int| 0 <= k < d2.len() ==> is_digit(#[trigger] d2[k]),
        r1.len() > 0,
        r1[0] == ',',
        r2.len() > 0,
        r2[0] == ',',
    ensures
        c + d1 + r1 != c + d2 + r2,
{
    let m1 = c + d1 + r1;
    let m2 = c + d2 + r2;
    if d1.len() == d2.len() {
        assert(exists|k: int| 0 <= k < d1.len() && d1[k] != d2[k]) by {
            if forall|k: int| 0 <= k < d1.len() ==> d1[k] == d2[k] {
                assert(d1 =~= d2);
            }
        }
        let k = choose|k: int| 0 <= k < d1.len() && d1[k] != d2[k];
        assert(m1[c.len() + k] == d1[k]);
        assert(m2[c.len() + k] == d2[k]);
    } else if d1.len() < d2.len() {
        assert(m1[(c.len() + d1.len()) as int] == ',');
        assert(m2[(c.len() + d1.len()) as int] == d2[d1.len() as int]);
    } else {
        assert(m2[(c.len() + d2.len()) as int] == ',');
        assert(m1[(c.len() + d2.len()) as int] == d1[d2.len() as int]);
    }
}

/// Joined items split around one of them.
pub open spec fn joined_before(items: Seq<Seq<char>>, p: int) -> Seq<char> {
    if p == 0 {
        seq![]
    } else {
        joined(items.subrange(0, p)) + seq![',']
    }
}

pub open spec fn joined_after(items: Seq<Seq<char>>, p: int) -> Seq<char> {
    if p == items.len() - 1 {
        seq![]
    } else {
        seq![','] + joined(items.subrange(p + 1, items.len() as int))
    }
}

pub proof fn lemma_joined_split(items: Seq<Seq<char>>, p: int)
    requires
        0 <= p < items.len(),
    ensures
        joined(items) == joined_before(items, p) + items[p] + joined_after(items, p),
    decreases items.len(),
{
    if p == items.len() - 1 {
        assert(items.subrange(0, p) =~= items.drop_last());
        if p > 0 {
            assert(joined(items) == joined(items.drop_last()) + seq![','] + items.last());
        } else {
            assert(joined(items) == items[0]);
        }
        assert(joined(items) =~= joined_before(items, p) + items[p] + joined_after(items, p));
    } else {
        let front = items.drop_last();
        lemma_joined_split(front, p);
        assert(front.subrange(0, p) =~= items.subrange(0, p));
        let tail = items.subrange(p + 1, items.len() as int);
        let ftail = front.subrange(p + 1, front.len() as int);
        assert(tail.drop_last() =~= ftail);
        assert(tail.last() == items.last());
        if p == front.len() - 1 {
            assert(tail =~= seq![items.last()]);
            assert(joined(tail) == items.last());
        } else {
            assert(joined(tail) == joined(ftail) + seq![','] + items.last());
        }
        assert(joined(items) == joined(front) + seq![','] + items.last());
        assert(joined(items) =~= joined_before(items, p) + items[p] + joined_after(items, p));
    }
}

} // verus!
