//! Stored null distributions: the record, its key, and its byte encoding.
use vstd::prelude::*;

use vstd::string::StringSliceAdditionalSpecFns;
use vstd::utf8::{decode_utf8, encode_utf8, valid_utf8};

use crate::error::Error;
use crate::simulate::is_sorted;

verus! {

/// ASCII decimal digits of `n`, without leading zeros.
pub open spec fn decimal(n: nat) -> Seq<u8>
    decreases n,
{
    if n < 10 {
        seq![(48 + n) as u8]
    } else {
        decimal(n / 10).push((48 + n % 10) as u8)
    }
}

/// Key of the distribution of gene `gene_id` for `term_count` query terms:
/// `"{gene_id}:{term_count}"` in ASCII.
pub open spec fn key_spec(gene_id: nat, term_count: nat) -> Seq<u8> {
    decimal(gene_id) + seq![58u8] + decimal(term_count)
}

/// The empirical null distribution of one gene for one query size.
#[derive(Debug, Clone)]
pub struct NullDistribution {
    /// NCBI gene ID.
    pub gene_id: u32,
    /// Gene symbol.
    pub gene_symbol: String,
    /// Number of query terms that the samples were drawn with.
    pub term_count: u32,
    /// Simulated scores, sorted ascending.
    pub samples: Vec<u32>,
}

impl NullDistribution {
    /// At least two samples, sorted ascending.
    pub open spec fn wf(&self) -> bool {
        self.samples@.len() >= 2 && is_sorted(self.samples@)
    }

    /// A distribution from its parts; refused unless there are at least two
    /// samples in ascending order.
    pub fn new(gene_id: u32, gene_symbol: String, term_count: u32, samples: Vec<u32>) -> (r:
        Result<NullDistribution, Error>)
        ensures
            samples@.len() < 2 ==> r == Err::<NullDistribution, Error>(Error::SampleCountTooSmall),
            samples@.len() >= 2 && !is_sorted(samples@) ==> r == Err::<NullDistribution, Error>(
                Error::MalformedRecord,
            ),
            samples@.len() >= 2 && is_sorted(samples@) ==> r is Ok,
            r matches Ok(d) ==> {
                &&& d.wf()
                &&& d.gene_id == gene_id
                &&& d.gene_symbol@ == gene_symbol@
                &&& d.term_count == term_count
                &&& d.samples@ == samples@
            },
    {
        if samples.len() < 2 {
            return Err(Error::SampleCountTooSmall);
        }
        if !sorted_ascending(&samples) {
            return Err(Error::MalformedRecord);
        }
        Ok(NullDistribution { gene_id, gene_symbol, term_count, samples })
    }
}

/// Whether `v` is sorted ascending.
pub fn sorted_ascending(v: &Vec<u32>) -> (r: bool)
    ensures
        r == is_sorted(v@),
{
    let mut i: usize = 1;
    if v.len() < 2 {
        return true;
    }
    while i < v.len()
        invariant
            1 <= i <= v@.len(),
            forall|a: int, b: int| 0 <= a <= b < i ==> v@[a] <= v@[b],
        decreases v@.len() - i,
    {
        if v[i - 1] > v[i] {
            return false;
        }
        i += 1;
    }
    true
}

/// Append the decimal digits of `n` to `out`.
pub fn push_decimal(out: &mut Vec<u8>, n: u32)
    ensures
        final(out)@ == old(out)@ + decimal(n as nat),
    decreases n,
{
    if n >= 10 {
        push_decimal(out, n / 10);
    }
    let digit = (48 + n % 10) as u8;
    out.push(digit);
    assert(final(out)@ =~= old(out)@ + decimal(n as nat)) by {
        if n >= 10 {
            assert(decimal(n as nat) == decimal((n / 10) as nat).push(digit));
        }
    }
}

/// The store key `"{gene_id}:{term_count}"` of a distribution.
pub fn distribution_key(gene_id: u32, term_count: u32) -> (r: Vec<u8>)
    ensures
        r@ == key_spec(gene_id as nat, term_count as nat),
{
    let mut out: Vec<u8> = Vec::new();
    push_decimal(&mut out, gene_id);
    out.push(58u8);
    push_decimal(&mut out, term_count);
    assert(out@ =~= key_spec(gene_id as nat, term_count as nat));
    out
}

/// Schema version written as the first byte of every record.
pub const RECORD_VERSION: u8 = 1;

/// Little-endian bytes of `n`.
pub open spec fn le32(n: u32) -> Seq<u8> {
    seq![(n % 256) as u8, (n / 256 % 256) as u8, (n / 65536 % 256) as u8, (n / 16777216) as u8]
}

/// The little-endian `u32` at offset `at` of `b`.
pub open spec fn read32(b: Seq<u8>, at: int) -> u32 {
    (b[at] as int + 256 * b[at + 1] as int + 65536 * b[at + 2] as int + 16777216 * b[at + 3] as int) as u32
}

/// The samples, four little-endian bytes each.
pub open spec fn samples_bytes(s: Seq<u32>) -> Seq<u8>
    decreases s.len(),
{
    if s.len() == 0 {
        Seq::empty()
    } else {
        samples_bytes(s.drop_last()) + le32(s.last())
    }
}

/// The `n` little-endian `u32` values of `b` from offset `at` on.
pub open spec fn read_samples(b: Seq<u8>, at: int, n: nat) -> Seq<u32> {
    Seq::new(n, |k: int| read32(b, at + 4 * k))
}

/// The record of a distribution: schema version, gene ID, term count, length and
/// UTF-8 bytes of the gene symbol, number of samples, samples.
pub open spec fn record_spec(gene_id: u32, symbol: Seq<char>, term_count: u32, samples: Seq<u32>) -> Seq<u8> {
    let name = encode_utf8(symbol);
    seq![RECORD_VERSION] + le32(gene_id) + le32(term_count) + le32(name.len() as u32) + name
        + le32(samples.len() as u32) + samples_bytes(samples)
}

/// The parts of a distribution can be written as a record: at least two sorted
/// samples, and lengths that fit the record's 32-bit fields.
pub open spec fn is_recordable(symbol: Seq<char>, samples: Seq<u32>) -> bool {
    &&& samples.len() >= 2
    &&& is_sorted(samples)
    &&& samples.len() <= u32::MAX
    &&& encode_utf8(symbol).len() <= u32::MAX
}

/// `b` is the record of some distribution.
pub open spec fn is_record(b: Seq<u8>) -> bool {
    exists|gene_id: u32, symbol: Seq<char>, term_count: u32, samples: Seq<u32>|
        is_recordable(symbol, samples) && #[trigger] record_spec(gene_id, symbol, term_count, samples)
            == b
}

impl NullDistribution {
    /// The record of this distribution.
    pub open spec fn record(&self) -> Seq<u8> {
        record_spec(self.gene_id, self.gene_symbol@, self.term_count, self.samples@)
    }
}

/// Reading back the bytes of `n` gives `n`.
proof fn lemma_le32_read(n: u32)
    ensures
        le32(n).len() == 4,
        read32(le32(n), 0) == n,
{
    assert(n == (n % 256) + 256 * (n / 256 % 256) + 65536 * (n / 65536 % 256) + 16777216 * (n
        / 16777216)) by (bit_vector);
    assert(n / 16777216 < 256) by (bit_vector);
}

/// Four bytes are the little-endian bytes of the value read from them.
proof fn lemma_read_le32(b: Seq<u8>, at: int)
    requires
        0 <= at,
        at + 4 <= b.len(),
    ensures
        le32(read32(b, at)) == b.subrange(at, at + 4),
{
    let (x0, x1, x2, x3) = (b[at] as u32, b[at + 1] as u32, b[at + 2] as u32, b[at + 3] as u32);
    let n: u32 = (x0 + 256 * x1 + 65536 * x2 + 16777216 * x3) as u32;
    assert(x0 as int + 256 * x1 as int + 65536 * x2 as int + 16777216 * x3 as int <= u32::MAX);
    assert(n == read32(b, at));
    assert(n % 256 == x0 && n / 256 % 256 == x1 && n / 65536 % 256 == x2 && n / 16777216 == x3)
        by (bit_vector)
        requires
            x0 < 256,
            x1 < 256,
            x2 < 256,
            x3 < 256,
            n == x0 + 256 * x1 + 65536 * x2 + 16777216 * x3,
    ;
    assert(le32(n) =~= b.subrange(at, at + 4));
}

/// The value read at offset `at` depends only on the four bytes there.
proof fn lemma_read32_window(a: Seq<u8>, b: Seq<u8>, at: int, bt: int)
    requires
        0 <= at,
        at + 4 <= a.len(),
        0 <= bt,
        bt + 4 <= b.len(),
        a.subrange(at, at + 4) == b.subrange(bt, bt + 4),
    ensures
        read32(a, at) == read32(b, bt),
{
    assert(a[at] == a.subrange(at, at + 4)[0]);
    assert(a[at + 1] == a.subrange(at, at + 4)[1]);
    assert(a[at + 2] == a.subrange(at, at + 4)[2]);
    assert(a[at + 3] == a.subrange(at, at + 4)[3]);
    assert(b[bt] == b.subrange(bt, bt + 4)[0]);
    assert(b[bt + 1] == b.subrange(bt, bt + 4)[1]);
    assert(b[bt + 2] == b.subrange(bt, bt + 4)[2]);
    assert(b[bt + 3] == b.subrange(bt, bt + 4)[3]);
}

/// The bytes of samples have four bytes per sample, and reading them back gives
/// the samples.
proof fn lemma_samples_bytes(s: Seq<u32>)
    ensures
        samples_bytes(s).len() == 4 * s.len(),
        read_samples(samples_bytes(s), 0, s.len()) == s,
    decreases s.len(),
{
    if s.len() > 0 {
        let prev = s.drop_last();
        lemma_samples_bytes(prev);
        lemma_le32_read(s.last());
        let b = samples_bytes(s);
        assert forall|k: int| 0 <= k < s.len() implies #[trigger] read32(b, 4 * k) == s[k] by {
            if k < prev.len() {
                assert(b.subrange(4 * k, 4 * k + 4) =~= samples_bytes(prev).subrange(4 * k, 4 * k + 4));
                lemma_read32_window(b, samples_bytes(prev), 4 * k, 4 * k);
                assert(read_samples(samples_bytes(prev), 0, prev.len())[k] == prev[k]);
            } else {
                assert(b.subrange(4 * k, 4 * k + 4) =~= le32(s.last()).subrange(0, 4));
                lemma_read32_window(b, le32(s.last()), 4 * k, 0);
            }
        }
        assert(read_samples(b, 0, s.len()) =~= s);
    }
}

/// Bytes whose length is a multiple of four are the bytes of the samples read
/// from them.
proof fn lemma_read_samples_bytes(b: Seq<u8>, n: nat)
    requires
        b.len() == 4 * n,
    ensures
        samples_bytes(read_samples(b, 0, n)) == b,
    decreases n,
{
    if n > 0 {
        let s = read_samples(b, 0, n);
        let front = b.subrange(0, 4 * (n - 1));
        lemma_read_samples_bytes(front, (n - 1) as nat);
        assert forall|k: int| 0 <= k < n - 1 implies #[trigger] read_samples(front, 0, (n - 1) as nat)[k]
            == s.drop_last()[k] by {
            assert(front.subrange(4 * k, 4 * k + 4) =~= b.subrange(4 * k, 4 * k + 4));
            lemma_read32_window(front, b, 4 * k, 4 * k);
        }
        assert(read_samples(front, 0, (n - 1) as nat) =~= s.drop_last());
        lemma_read_le32(b, 4 * (n - 1));
        assert(b =~= front + b.subrange(4 * (n - 1), 4 * n as int));
    }
}

/// What a record holds, at the offsets where a decoder looks for it.
proof fn lemma_record_layout(gene_id: u32, symbol: Seq<char>, term_count: u32, samples: Seq<u32>)
    requires
        is_recordable(symbol, samples),
    ensures
        ({
            let b = record_spec(gene_id, symbol, term_count, samples);
            let len = encode_utf8(symbol).len() as int;
            &&& b.len() == 17 + len + 4 * samples.len()
            &&& b[0] == RECORD_VERSION
            &&& read32(b, 1) == gene_id
            &&& read32(b, 5) == term_count
            &&& read32(b, 9) == len
            &&& b.subrange(13, 13 + len) == encode_utf8(symbol)
            &&& read32(b, 13 + len) == samples.len()
            &&& read_samples(b, 17 + len, samples.len()) == samples
        }),
{
    let b = record_spec(gene_id, symbol, term_count, samples);
    let name = encode_utf8(symbol);
    let len = name.len() as int;
    let n = samples.len();
    lemma_samples_bytes(samples);
    lemma_le32_read(gene_id);
    assert(le32(gene_id).subrange(0, 4) =~= le32(gene_id));
    lemma_le32_read(term_count);
    assert(le32(term_count).subrange(0, 4) =~= le32(term_count));
    lemma_le32_read(len as u32);
    assert(le32(len as u32).subrange(0, 4) =~= le32(len as u32));
    lemma_le32_read(n as u32);
    assert(le32(n as u32).subrange(0, 4) =~= le32(n as u32));
    assert(b.subrange(1, 5) =~= le32(gene_id));
    lemma_read32_window(b, le32(gene_id), 1, 0);
    assert(b.subrange(5, 9) =~= le32(term_count));
    lemma_read32_window(b, le32(term_count), 5, 0);
    assert(b.subrange(9, 13) =~= le32(len as u32));
    lemma_read32_window(b, le32(len as u32), 9, 0);
    assert(b.subrange(13, 13 + len) =~= name);
    assert(b.subrange(13 + len, 17 + len) =~= le32(n as u32));
    lemma_read32_window(b, le32(n as u32), 13 + len, 0);
    let sb = samples_bytes(samples);
    assert forall|k: int| 0 <= k < n implies #[trigger] read_samples(b, 17 + len, n)[k] == samples[k] by {
        assert(b.subrange(17 + len + 4 * k, 17 + len + 4 * k + 4) =~= sb.subrange(4 * k, 4 * k + 4));
        lemma_read32_window(b, sb, 17 + len + 4 * k, 4 * k);
        assert(read_samples(sb, 0, n)[k] == samples[k]);
    }
    assert(read_samples(b, 17 + len, n) =~= samples);
}

/// A record determines what it holds: two distributions with the same record
/// have the same gene, symbol, term count and samples, so decoding the record of
/// a distribution gives that distribution back.
pub proof fn lemma_record_injective(
    gene_id: u32,
    symbol: Seq<char>,
    term_count: u32,
    samples: Seq<u32>,
    gene_id2: u32,
    symbol2: Seq<char>,
    term_count2: u32,
    samples2: Seq<u32>,
)
    requires
        is_recordable(symbol, samples),
        is_recordable(symbol2, samples2),
        record_spec(gene_id, symbol, term_count, samples) == record_spec(
            gene_id2,
            symbol2,
            term_count2,
            samples2,
        ),
    ensures
        gene_id == gene_id2,
        symbol == symbol2,
        term_count == term_count2,
        samples == samples2,
{
    lemma_record_layout(gene_id, symbol, term_count, samples);
    lemma_record_layout(gene_id2, symbol2, term_count2, samples2);
    vstd::utf8::encode_utf8_decode_utf8(symbol);
    vstd::utf8::encode_utf8_decode_utf8(symbol2);
}

/// Every check of the decoder passes on a record.
proof fn lemma_record_checks(b: Seq<u8>)
    ensures
        is_record(b) ==> {
            let len = read32(b, 9) as int;
            let n = read32(b, 13 + len) as int;
            &&& b.len() >= 17
            &&& b[0] == RECORD_VERSION
            &&& 17 + len <= b.len()
            &&& valid_utf8(b.subrange(13, 13 + len))
            &&& b.len() == 17 + len + 4 * n
            &&& read_samples(b, 17 + len, n as nat).len() >= 2
            &&& is_sorted(read_samples(b, 17 + len, n as nat))
        },
{
    if is_record(b) {
        let (gene_id, symbol, term_count, samples) = choose|
            gene_id: u32,
            symbol: Seq<char>,
            term_count: u32,
            samples: Seq<u32>,
        |
            is_recordable(symbol, samples) && #[trigger] record_spec(
                gene_id,
                symbol,
                term_count,
                samples,
            ) == b;
        lemma_record_layout(gene_id, symbol, term_count, samples);
        vstd::utf8::encode_utf8_valid_utf8(symbol);
    }
}

/// Append the little-endian bytes of `n`.
fn push_u32(out: &mut Vec<u8>, n: u32)
    ensures
        final(out)@ == old(out)@ + le32(n),
{
    out.push((n % 256) as u8);
    out.push((n / 256 % 256) as u8);
    out.push((n / 65536 % 256) as u8);
    out.push((n / 16777216) as u8);
    assert(final(out)@ =~= old(out)@ + le32(n));
}

/// The little-endian `u32` at offset `at`.
fn read_u32(b: &Vec<u8>, at: usize) -> (r: u32)
    requires
        at + 4 <= b@.len() <= usize::MAX,
    ensures
        r == read32(b@, at as int),
{
    let (x0, x1, x2, x3) = (b[at] as u32, b[at + 1] as u32, b[at + 2] as u32, b[at + 3] as u32);
    x0 + 256 * x1 + 65536 * x2 + 16777216 * x3
}

/// The record of a distribution.
pub fn encode_record(d: &NullDistribution) -> (r: Vec<u8>)
    requires
        d.samples@.len() <= u32::MAX,
        encode_utf8(d.gene_symbol@).len() <= u32::MAX,
    ensures
        r@ == d.record(),
{
    let name = d.gene_symbol.as_str().as_bytes();
    let mut out: Vec<u8> = Vec::new();
    out.push(RECORD_VERSION);
    push_u32(&mut out, d.gene_id);
    push_u32(&mut out, d.term_count);
    push_u32(&mut out, name.len() as u32);
    let ghost head = out@;
    let mut i: usize = 0;
    while i < name.len()
        invariant
            i <= name@.len(),
            out@ == head + name@.subrange(0, i as int),
        decreases name@.len() - i,
    {
        out.push(name[i]);
        assert(out@ =~= head + name@.subrange(0, i as int + 1));
        i += 1;
    }
    assert(name@.subrange(0, name@.len() as int) =~= name@);
    push_u32(&mut out, d.samples.len() as u32);
    let ghost head2 = out@;
    let mut k: usize = 0;
    while k < d.samples.len()
        invariant
            k <= d.samples@.len(),
            out@ == head2 + samples_bytes(d.samples@.subrange(0, k as int)),
        decreases d.samples@.len() - k,
    {
        assert(d.samples@.subrange(0, k as int + 1).drop_last() =~= d.samples@.subrange(0, k as int));
        push_u32(&mut out, d.samples[k]);
        assert(out@ =~= head2 + samples_bytes(d.samples@.subrange(0, k as int + 1)));
        k += 1;
    }
    assert(d.samples@.subrange(0, d.samples@.len() as int) =~= d.samples@);
    assert(out@ =~= d.record());
    out
}

/// Relies on `String::from_utf8`: the string of the bytes exactly when they are
/// valid UTF-8.
#[verifier::external_body]
fn string_from_utf8(b: Vec<u8>) -> (r: Option<String>)
    ensures
        r is Some <==> valid_utf8(b@),
        r matches Some(s) ==> s@ == decode_utf8(b@),
{
    String::from_utf8(b).ok()
}

/// Decode a record. It succeeds exactly on the records of distributions, and then
/// gives the distribution whose record the bytes are.
pub fn decode_record(b: &Vec<u8>) -> (r: Result<NullDistribution, Error>)
    ensures
        r matches Ok(d) ==> d.wf() && d.record() == b@,
        r is Err ==> r == Err::<NullDistribution, Error>(Error::MalformedRecord) && !is_record(b@),
{
    let blen = b.len();
    if blen < 17 || b[0] != RECORD_VERSION {
        proof { lemma_record_checks(b@); }
        return Err(Error::MalformedRecord);
    }
    let gene_id = read_u32(b, 1);
    let term_count = read_u32(b, 5);
    let len = read_u32(b, 9) as usize;
    if b.len() - 17 < len {
        proof { lemma_record_checks(b@); }
        return Err(Error::MalformedRecord);
    }
    let mut name: Vec<u8> = Vec::new();
    let mut i: usize = 0;
    while i < len
        invariant
            13 + len <= b@.len() <= usize::MAX,
            i <= len,
            name@ == b@.subrange(13, 13 + i as int),
        decreases len - i,
    {
        name.push(b[13 + i]);
        assert(name@ =~= b@.subrange(13, 13 + i as int + 1));
        i += 1;
    }
    let ghost name_bytes = name@;
    let n = read_u32(b, 13 + len) as usize;
    if (b.len() - 17 - len) / 4 < n || (b.len() - 17 - len) % 4 != 0 || (b.len() - 17 - len) / 4 != n {
        proof { lemma_record_checks(b@); }
        return Err(Error::MalformedRecord);
    }
    let symbol = match string_from_utf8(name) {
        Some(s) => s,
        None => {
            proof { lemma_record_checks(b@); }
            return Err(Error::MalformedRecord);
        },
    };
    let mut samples: Vec<u32> = Vec::new();
    let mut k: usize = 0;
    while k < n
        invariant
            b@.len() == 17 + len + 4 * n,
            b@.len() <= usize::MAX,
            k <= n,
            samples@ == read_samples(b@, 17 + len, k as nat),
        decreases n - k,
    {
        let x = read_u32(b, 17 + len + 4 * k);
        samples.push(x);
        assert(samples@ =~= read_samples(b@, 17 + len, k as nat + 1));
        k += 1;
    }
    if samples.len() < 2 || !sorted_ascending(&samples) {
        proof { lemma_record_checks(b@); }
        return Err(Error::MalformedRecord);
    }
    let d = NullDistribution { gene_id, gene_symbol: symbol, term_count, samples };
    proof {
        vstd::utf8::decode_utf8_encode_utf8(name_bytes);
        lemma_read_le32(b@, 1);
        lemma_read_le32(b@, 5);
        lemma_read_le32(b@, 9);
        lemma_read_le32(b@, 13 + len);
        let tail = b@.subrange(17 + len, b@.len() as int);
        assert forall|q: int| 0 <= q < n implies #[trigger] read_samples(tail, 0, n as nat)[q]
            == d.samples@[q] by {
            assert(tail.subrange(4 * q, 4 * q + 4) =~= b@.subrange(17 + len + 4 * q, 17 + len + 4 * q + 4));
            lemma_read32_window(tail, b@, 4 * q, 17 + len + 4 * q);
        }
        assert(read_samples(tail, 0, n as nat) =~= d.samples@);
        lemma_read_samples_bytes(tail, n as nat);
        assert(d.record() =~= b@);
    }
    Ok(d)
}

} // verus!
