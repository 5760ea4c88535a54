//! Hard and soft fingerprints.
//!
//! - **hard**: blake3 of the canonical SQL *plus its literal bindings*;
//!   exact result identity, safe as a cache key. Two queries that differ only
//!   in whitespace, case or comments share it; two queries with different
//!   literal values never share its input.
//! - **soft**: a hash over the structural feature set; clusters queries
//!   shaped alike regardless of literals or projection order.
use crate::sql::features::QueryFeatures;
use crate::text::from_chars;
use vstd::prelude::*;
use vstd::utf8::encode_utf8;

verus! {

/// What `blake3::hash` returns for `data`: the 32-byte BLAKE3 digest.
/// Feeding a `blake3::Hasher` several slices in turn gives the digest of
/// their concatenation.
pub uninterp spec fn blake3_digest(data: Seq<u8>) -> Seq<u8>;

/// Calls `blake3::hash`; the digest is named `blake3_digest`.
#[verifier::external_body]
pub(crate) fn blake3_hash(data: &[u8]) -> (r: [u8; 32])
    ensures
        r@ == blake3_digest(data@),
{
    *blake3::hash(data).as_bytes()
}

/// The UTF-8 bytes of a string.
pub open spec fn utf8(s: Seq<char>) -> Seq<u8> {
    encode_utf8(s)
}

/// `n` as `k` little-endian bytes.
pub open spec fn le_bytes(n: nat, k: nat) -> Seq<u8>
    decreases k,
{
    if k == 0 {
        seq![]
    } else {
        seq![(n % 256) as u8] + le_bytes(n / 256, (k - 1) as nat)
    }
}

/// The little-endian bytes back to a number.
pub open spec fn from_le(b: Seq<u8>) -> nat
    decreases b.len(),
{
    if b.len() == 0 {
        0
    } else {
        (b[0] as nat + 256 * from_le(b.drop_first())) as nat
    }
}

/// Each literal as its byte length (8 bytes, little endian) followed by
/// its bytes, so that `["ab","c"]` and `["a","bc"]` encode differently.
pub open spec fn literal_encoding(lits: Seq<Seq<u8>>) -> Seq<u8>
    decreases lits.len(),
{
    if lits.len() == 0 {
        seq![]
    } else {
        le_bytes(lits[0].len(), 8) + lits[0] + literal_encoding(lits.drop_first())
    }
}

/// What the hard fingerprint hashes.
pub open spec fn hard_input(canonical_sql: Seq<char>, literals: Seq<Seq<char>>) -> Seq<u8> {
    utf8(canonical_sql) + literal_encoding(literals.map_values(|l: Seq<char>| utf8(l)))
}

/// The hard fingerprint of a canonical statement and its literals.
pub open spec fn spec_hard(canonical_sql: Seq<char>, literals: Seq<Seq<char>>) -> Seq<u8> {
    blake3_digest(hard_input(canonical_sql, literals))
}

/// Appending one more literal appends its length and bytes.
pub proof fn lemma_literal_encoding_push(lits: Seq<Seq<u8>>, x: Seq<u8>)
    ensures
        literal_encoding(lits.push(x)) == literal_encoding(lits) + le_bytes(x.len(), 8) + x,
    decreases lits.len(),
{
    if lits.len() == 0 {
        assert(lits.push(x).drop_first() =~= Seq::<Seq<u8>>::empty());
        assert(lits.push(x)[0] == x);
        assert(literal_encoding(Seq::<Seq<u8>>::empty()) =~= Seq::<u8>::empty());
        assert(literal_encoding(lits) =~= Seq::<u8>::empty());
        assert(literal_encoding(lits.push(x)) =~= le_bytes(x.len(), 8) + x);
    } else {
        assert(lits.push(x).drop_first() =~= lits.drop_first().push(x));
        lemma_literal_encoding_push(lits.drop_first(), x);
        assert(literal_encoding(lits.push(x)) =~= literal_encoding(lits) + le_bytes(x.len(), 8)
            + x);
    }
}

/// Append `n` as 8 little-endian bytes.
fn push_le8(out: &mut Vec<u8>, n: u64)
    ensures
        final(out)@ == old(out)@ + le_bytes(n as nat, 8),
{
    let mut x = n;
    let mut k: usize = 0;
    while k < 8
        invariant
            k <= 8,
            old(out)@ + le_bytes(n as nat, 8) == out@ + le_bytes(x as nat, (8 - k) as nat),
        decreases 8 - k,
    {
        let ghost before = out@;
        out.push((x % 256) as u8);
        assert(le_bytes(x as nat, (8 - k) as nat) =~= seq![(x % 256) as u8] + le_bytes(
            (x / 256) as nat,
            (8 - k - 1) as nat,
        ));
        assert(out@ =~= before + seq![(x % 256) as u8]);
        x = x / 256;
        k = k + 1;
    }
    assert(le_bytes(x as nat, 0) =~= Seq::<u8>::empty());
    assert(out@ =~= out@ + le_bytes(x as nat, 0));
}

/// Append the UTF-8 bytes of `s`.
pub fn push_utf8(out: &mut Vec<u8>, s: &str)
    ensures
        final(out)@ == old(out)@ + utf8(s@),
{
    let b = s.as_bytes();
    let mut i: usize = 0;
    while i < b.len()
        invariant
            i <= b.len(),
            b@ == utf8(s@),
            out@ == old(out)@ + b@.take(i as int),
        decreases b.len() - i,
    {
        out.push(b[i]);
        assert(b@.take(i + 1) =~= b@.take(i as int).push(b@[i as int]));
        i = i + 1;
    }
    assert(b@.take(b.len() as int) =~= b@);
}

/// The hard fingerprint: blake3 over the canonical SQL followed by each
/// literal, length-prefixed.
pub fn hard(canonical_sql: &str, literals: &[String]) -> (r: [u8; 32])
    ensures
        r@ == spec_hard(canonical_sql@, literals@.map_values(|l: String| l@)),
{
    let mut input: Vec<u8> = Vec::new();
    push_utf8(&mut input, canonical_sql);
    let ghost lits = literals@.map_values(|l: String| utf8(l@));
    let mut i: usize = 0;
    while i < literals.len()
        invariant
            i <= literals.len(),
            lits == literals@.map_values(|l: String| utf8(l@)),
            input@ == utf8(canonical_sql@) + literal_encoding(lits.take(i as int)),
        decreases literals.len() - i,
    {
        let lit = literals[i].as_str();
        let n = lit.as_bytes().len();
        proof {
            assert(lit@ == literals@[i as int]@);
            assert(lits[i as int] == utf8(lit@));
            assert(n == lits[i as int].len());
            lemma_literal_encoding_push(lits.take(i as int), lits[i as int]);
            assert(lits.take(i + 1) =~= lits.take(i as int).push(lits[i as int]));
        }
        push_le8(&mut input, n as u64);
        push_utf8(&mut input, lit);
        i = i + 1;
    }
    proof {
        assert(lits.take(literals.len() as int) =~= lits);
        assert(literals@.map_values(|l: String| l@).map_values(|l: Seq<char>| utf8(l)) =~= lits);
    }
    blake3_hash(input.as_slice())
}

pub open spec fn pow256(k: nat) -> nat
    decreases k,
{
    if k == 0 {
        1
    } else {
        256 * pow256((k - 1) as nat)
    }
}

pub proof fn lemma_le_bytes_len(n: nat, k: nat)
    ensures
        le_bytes(n, k).len() == k,
    decreases k,
{
    if k > 0 {
        lemma_le_bytes_len(n / 256, (k - 1) as nat);
    }
}

/// Little-endian bytes read back give the number they encode.
pub proof fn lemma_from_le_bytes(n: nat, k: nat)
    requires
        n < pow256(k),
    ensures
        from_le(le_bytes(n, k)) == n,
    decreases k,
{
    if k > 0 {
        let p = pow256((k - 1) as nat);
        assert(n / 256 < p) by (nonlinear_arith)
            requires
                n < 256 * p,
        ;
        lemma_from_le_bytes(n / 256, (k - 1) as nat);
        let b = le_bytes(n, k);
        assert(b.drop_first() =~= le_bytes(n / 256, (k - 1) as nat));
        assert(n == n % 256 + 256 * (n / 256)) by (nonlinear_arith);
    } else {
        assert(n == 0);
    }
}

/// The literal encoding is injective: two literal lists with the same
/// encoding are the same list.
pub proof fn law_literal_encoding_injective(a: Seq<Seq<u8>>, b: Seq<Seq<u8>>)
    requires
        forall|i: int| 0 <= i < a.len() ==> a[i].len() < pow256(8),
        forall|i: int| 0 <= i < b.len() ==> b[i].len() < pow256(8),
        literal_encoding(a) == literal_encoding(b),
    ensures
        a == b,
    decreases a.len(),
{
    if a.len() == 0 {
        if b.len() > 0 {
            lemma_le_bytes_len(b[0].len(), 8);
        }
        assert(a =~= b);
    } else if b.len() == 0 {
        lemma_le_bytes_len(a[0].len(), 8);
    } else {
        let e = literal_encoding(a);
        lemma_le_bytes_len(a[0].len(), 8);
        lemma_le_bytes_len(b[0].len(), 8);
        let ea = le_bytes(a[0].len(), 8);
        let eb = le_bytes(b[0].len(), 8);
        assert(e.subrange(0, 8) =~= ea);
        assert(e.subrange(0, 8) =~= eb);
        lemma_from_le_bytes(a[0].len(), 8);
        lemma_from_le_bytes(b[0].len(), 8);
        let l = a[0].len() as int;
        assert(e.subrange(8, 8 + l) =~= a[0]);
        assert(e.subrange(8, 8 + l) =~= b[0]);
        assert(e.subrange(8 + l, e.len() as int) =~= literal_encoding(a.drop_first()));
        assert(e.subrange(8 + l, e.len() as int) =~= literal_encoding(b.drop_first()));
        law_literal_encoding_injective(a.drop_first(), b.drop_first());
        assert(a =~= b) by {
            assert forall|i: int| 0 <= i < a.len() implies a[i] == b[i] by {
                if i > 0 {
                    assert(a[i] == a.drop_first()[i - 1]);
                    assert(b[i] == b.drop_first()[i - 1]);
                }
            }
        }
    }
}

/// Same canonical SQL with different literals never shares the hard
/// fingerprint's input: the input determines the literal list.
pub proof fn law_hard_input_determines_literals(
    canonical_sql: Seq<char>,
    x: Seq<Seq<char>>,
    y: Seq<Seq<char>>,
)
    requires
        forall|i: int| 0 <= i < x.len() ==> utf8(x[i]).len() < pow256(8),
        forall|i: int| 0 <= i < y.len() ==> utf8(y[i]).len() < pow256(8),
        hard_input(canonical_sql, x) == hard_input(canonical_sql, y),
    ensures
        x == y,
{
    let c = utf8(canonical_sql);
    let ex = literal_encoding(x.map_values(|l: Seq<char>| utf8(l)));
    let ey = literal_encoding(y.map_values(|l: Seq<char>| utf8(l)));
    assert((c + ex).subrange(c.len() as int, (c + ex).len() as int) =~= ex);
    assert((c + ey).subrange(c.len() as int, (c + ey).len() as int) =~= ey);
    law_literal_encoding_injective(
        x.map_values(|l: Seq<char>| utf8(l)),
        y.map_values(|l: Seq<char>| utf8(l)),
    );
    let mx = x.map_values(|l: Seq<char>| utf8(l));
    let my = y.map_values(|l: Seq<char>| utf8(l));
    assert(mx.len() == my.len());
    assert(x =~= y) by {
        assert forall|i: int| 0 <= i < x.len() implies x[i] == y[i] by {
            assert(mx[i] == utf8(x[i]));
            assert(my[i] == utf8(y[i]));
            vstd::utf8::encode_utf8_decode_utf8(x[i]);
            vstd::utf8::encode_utf8_decode_utf8(y[i]);
        }
    }
}

/// Names, each as its UTF-8 bytes followed by a NUL byte.
pub open spec fn names_nul(names: Seq<Seq<char>>) -> Seq<u8>
    decreases names.len(),
{
    if names.len() == 0 {
        seq![]
    } else {
        names_nul(names.drop_last()) + utf8(names.last()) + seq![0u8]
    }
}

pub open spec fn flag(b: bool) -> u8 {
    if b {
        1
    } else {
        0
    }
}

/// What the soft fingerprint hashes: tables, joins (capped at 255),
/// aggregates, shape flags and the predicate bucket. Literal values and
/// projection order play no part.
pub open spec fn soft_input(f: QueryFeatures) -> Seq<u8> {
    names_nul(f.table_names()) + seq![
        (if f.joins_count > 255 {
            255
        } else {
            f.joins_count
        }) as u8,
    ] + names_nul(f.aggregate_names()) + seq![
        flag(f.has_group_by),
        flag(f.has_order_by),
        flag(f.is_select_star),
        flag(f.deterministic),
        spec_bucket(f.predicates_count as int),
    ]
}

/// The soft fingerprint: the first 16 bytes of the digest of `soft_input`.
pub open spec fn spec_soft(f: QueryFeatures) -> Seq<u8> {
    blake3_digest(soft_input(f)).take(16)
}

fn push_names_nul(out: &mut Vec<u8>, names: &Vec<String>)
    ensures
        final(out)@ == old(out)@ + names_nul(names@.map_values(|t: String| t@)),
{
    let ghost ns = names@.map_values(|t: String| t@);
    let mut i: usize = 0;
    while i < names.len()
        invariant
            i <= names.len(),
            ns == names@.map_values(|t: String| t@),
            out@ == old(out)@ + names_nul(ns.take(i as int)),
        decreases names.len() - i,
    {
        assert(ns.take(i + 1).drop_last() =~= ns.take(i as int));
        push_utf8(out, names[i].as_str());
        out.push(0u8);
        i = i + 1;
    }
    assert(ns.take(names.len() as int) =~= ns);
}

fn flag_byte(b: bool) -> (r: u8)
    ensures
        r == flag(b),
{
    if b {
        1
    } else {
        0
    }
}

/// The soft fingerprint of a feature set.
pub fn soft(features: &QueryFeatures) -> (r: [u8; 16])
    ensures
        r@ == spec_soft(*features),
{
    let mut input: Vec<u8> = Vec::new();
    push_names_nul(&mut input, &features.tables);
    let joins: u8 = if features.joins_count > 255 {
        255
    } else {
        features.joins_count as u8
    };
    input.push(joins);
    push_names_nul(&mut input, &features.aggregates);
    input.push(flag_byte(features.has_group_by));
    input.push(flag_byte(features.has_order_by));
    input.push(flag_byte(features.is_select_star));
    input.push(flag_byte(features.deterministic));
    input.push(bucket(features.predicates_count));
    assert(input@ =~= soft_input(*features));
    let digest = blake3_hash(input.as_slice());
    let mut out = [0u8; 16];
    let mut i: usize = 0;
    while i < 16
        invariant
            i <= 16,
            digest@ == blake3_digest(soft_input(*features)),
            forall|j: int| 0 <= j < i ==> out@[j] == digest@[j],
        decreases 16 - i,
    {
        out[i] = digest[i];
        i = i + 1;
    }
    assert(out@ =~= digest@.take(16));
    out
}

pub open spec fn hex_digit(n: int) -> char {
    if n < 10 {
        ('0' as int + n) as char
    } else {
        ('a' as int + n - 10) as char
    }
}

/// Lowercase hexadecimal, two digits per byte.
pub open spec fn spec_hex(bytes: Seq<u8>) -> Seq<char>
    decreases bytes.len(),
{
    if bytes.len() == 0 {
        seq![]
    } else {
        spec_hex(bytes.drop_last()) + seq![
            hex_digit(bytes.last() as int / 16),
            hex_digit(bytes.last() as int % 16),
        ]
    }
}

fn hex_char(n: u8) -> (r: char)
    requires
        n < 16,
    ensures
        r == hex_digit(n as int),
{
    if n < 10 {
        (('0' as u8) + n) as char
    } else {
        (('a' as u8) + n - 10) as char
    }
}

/// Lowercase hexadecimal rendering of `bytes`.
pub fn hex(bytes: &[u8]) -> (r: String)
    ensures
        r@ == spec_hex(bytes@),
{
    let mut out: Vec<char> = Vec::new();
    let mut i: usize = 0;
    while i < bytes.len()
        invariant
            i <= bytes.len(),
            out@ == spec_hex(bytes@.take(i as int)),
        decreases bytes.len() - i,
    {
        let b = bytes[i];
        out.push(hex_char(b / 16));
        out.push(hex_char(b % 16));
        assert(bytes@.take(i + 1).drop_last() =~= bytes@.take(i as int));
        i = i + 1;
    }
    assert(bytes@.take(bytes.len() as int) =~= bytes@);
    from_chars(out.as_slice())
}

/// Predicate-count bucket: 0, 1–2, 3–5, 6+.
pub open spec fn spec_bucket(n: int) -> u8 {
    if n == 0 {
        0
    } else if n <= 2 {
        1
    } else if n <= 5 {
        2
    } else {
        3
    }
}

pub fn bucket(n: usize) -> (r: u8)
    ensures
        r == spec_bucket(n as int),
{
    if n == 0 {
        0
    } else if n <= 2 {
        1
    } else if n <= 5 {
        2
    } else {
        3
    }
}

} // verus!
