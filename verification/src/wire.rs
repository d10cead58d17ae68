use vstd::bytes::*;
use vstd::prelude::*;

verus! {

/// Little-endian bytes of a signed 16-bit sample (its two's complement bits).
pub open spec fn i16_le(x: i16) -> Seq<u8> {
    spec_u16_to_le_bytes(x as u16)
}

/// The sample whose little-endian bytes are `b` (two bytes).
pub open spec fn i16_from_le(b: Seq<u8>) -> i16 {
    spec_u16_from_le_bytes(b) as i16
}

/// Little-endian bytes of every sample, one after another.
pub open spec fn samples_le(s: Seq<i16>) -> Seq<u8>
    decreases s.len(),
{
    if s.len() == 0 {
        Seq::empty()
    } else {
        samples_le(s.drop_last()) + i16_le(s.last())
    }
}

/// The samples read from consecutive little-endian byte pairs of `b`
/// (a trailing odd byte is ignored).
pub open spec fn samples_from_le(b: Seq<u8>) -> Seq<i16> {
    Seq::new(b.len() / 2, |i: int| i16_from_le(b.subrange(2 * i, 2 * i + 2)))
}

/// A sample reads back from its two little-endian bytes.
pub proof fn lemma_i16_roundtrip(x: i16)
    ensures
        i16_le(x).len() == 2,
        i16_from_le(i16_le(x)) == x,
{
    lemma_auto_spec_u16_to_from_le_bytes();
    let u = x as u16;
    assert(spec_u16_to_le_bytes(u).len() == 2);
    assert(((x as u16) as i16) == x) by (bit_vector);
}

/// Two bytes read as a sample are written back unchanged.
pub proof fn lemma_i16_bytes_roundtrip(b: Seq<u8>)
    requires
        b.len() == 2,
    ensures
        i16_le(i16_from_le(b)) == b,
{
    lemma_auto_spec_u16_to_from_le_bytes();
    let u = spec_u16_from_le_bytes(b);
    assert(((u as i16) as u16) == u) by (bit_vector);
}

/// Each sample takes two bytes.
pub proof fn lemma_samples_le_len(s: Seq<i16>)
    ensures
        samples_le(s).len() == 2 * s.len(),
    decreases s.len(),
{
    if s.len() > 0 {
        lemma_samples_le_len(s.drop_last());
        lemma_i16_roundtrip(s.last());
    }
}

/// Bytes `2i` and `2i + 1` of the encoding are the bytes of sample `i`.
pub proof fn lemma_samples_le_pair(s: Seq<i16>, i: int)
    requires
        0 <= i < s.len(),
    ensures
        samples_le(s).len() == 2 * s.len(),
        samples_le(s).subrange(2 * i, 2 * i + 2) == i16_le(s[i]),
    decreases s.len(),
{
    lemma_samples_le_len(s);
    let init = s.drop_last();
    lemma_samples_le_len(init);
    lemma_i16_roundtrip(s.last());
    if i == s.len() - 1 {
        assert(samples_le(s).subrange(2 * i, 2 * i + 2) =~= i16_le(s[i]));
    } else {
        lemma_samples_le_pair(init, i);
        assert(samples_le(s).subrange(2 * i, 2 * i + 2) =~= samples_le(init).subrange(
            2 * i,
            2 * i + 2,
        ));
    }
}

/// Reading the samples back from their encoding gives the same samples.
pub proof fn lemma_samples_roundtrip(s: Seq<i16>)
    ensures
        samples_le(s).len() == 2 * s.len(),
        samples_from_le(samples_le(s)) == s,
{
    lemma_samples_le_len(s);
    assert forall|i: int| 0 <= i < s.len() implies #[trigger] samples_from_le(samples_le(s))[i]
        == s[i] by {
        lemma_samples_le_pair(s, i);
        lemma_i16_roundtrip(s[i]);
    }
    assert(samples_from_le(samples_le(s)) =~= s);
}

/// Encoding the samples read from an even-length byte string gives it back.
pub proof fn lemma_bytes_roundtrip(b: Seq<u8>)
    requires
        b.len() % 2 == 0,
    ensures
        samples_le(samples_from_le(b)) == b,
{
    let s = samples_from_le(b);
    lemma_samples_le_len(s);
    assert forall|j: int| 0 <= j < b.len() implies #[trigger] samples_le(s)[j] == b[j] by {
        let i = j / 2;
        lemma_samples_le_pair(s, i);
        lemma_i16_bytes_roundtrip(b.subrange(2 * i, 2 * i + 2));
        assert(samples_le(s)[j] == samples_le(s).subrange(2 * i, 2 * i + 2)[j - 2 * i]);
        assert(b[j] == b.subrange(2 * i, 2 * i + 2)[j - 2 * i]);
    }
    assert(samples_le(s) =~= b);
}

/// Appends the little-endian bytes of `x`.
pub fn push_u16_le(out: &mut Vec<u8>, x: u16)
    ensures
        final(out)@ == old(out)@ + spec_u16_to_le_bytes(x),
{
    proof {
        lemma_auto_spec_u16_to_from_le_bytes();
    }
    let bytes = u16_to_le_bytes(x);
    out.push(bytes[0]);
    out.push(bytes[1]);
    assert(final(out)@ =~= old(out)@ + spec_u16_to_le_bytes(x)) by {
        assert(bytes@ == spec_u16_to_le_bytes(x));
    }
}

/// Appends the little-endian bytes of `x`.
pub fn push_u64_le(out: &mut Vec<u8>, x: u64)
    ensures
        final(out)@ == old(out)@ + spec_u64_to_le_bytes(x),
{
    proof {
        lemma_auto_spec_u64_to_from_le_bytes();
    }
    let bytes = u64_to_le_bytes(x);
    append_bytes(out, bytes.as_slice());
}

/// Appends `bytes` one by one.
pub fn append_bytes(out: &mut Vec<u8>, bytes: &[u8])
    ensures
        final(out)@ == old(out)@ + bytes@,
{
    let ghost start = out@;
    let mut i: usize = 0;
    while i < bytes.len()
        invariant
            i <= bytes@.len(),
            out@ == start + bytes@.take(i as int),
        decreases bytes@.len() - i,
    {
        out.push(bytes[i]);
        i += 1;
        assert(out@ =~= start + bytes@.take(i as int));
    }
    assert(bytes@.take(bytes@.len() as int) =~= bytes@);
}

/// Appends the little-endian bytes of every sample.
pub fn push_samples_le(out: &mut Vec<u8>, samples: &[i16])
    ensures
        final(out)@ == old(out)@ + samples_le(samples@),
{
    let ghost start = out@;
    let mut i: usize = 0;
    while i < samples.len()
        invariant
            i <= samples@.len(),
            out@ == start + samples_le(samples@.take(i as int)),
        decreases samples@.len() - i,
    {
        push_u16_le(out, samples[i] as u16);
        assert(samples@.take(i + 1).drop_last() =~= samples@.take(i as int));
        i += 1;
        assert(out@ =~= start + samples_le(samples@.take(i as int)));
    }
    assert(samples@.take(samples@.len() as int) =~= samples@);
}

/// Reads a little-endian `u16` from `bytes[at..at + 2]`.
pub fn read_u16_le(bytes: &[u8], at: usize) -> (x: u16)
    requires
        at + 2 <= bytes@.len(),
    ensures
        x == spec_u16_from_le_bytes(bytes@.subrange(at as int, at + 2)),
{
    let pair = [bytes[at], bytes[at + 1]];
    assert(pair@ =~= bytes@.subrange(at as int, at + 2));
    u16_from_le_bytes(&pair)
}

/// Reads a little-endian `u64` from `bytes[at..at + 8]`.
pub fn read_u64_le(bytes: &[u8], at: usize) -> (x: u64)
    requires
        at + 8 <= bytes@.len(),
    ensures
        x == spec_u64_from_le_bytes(bytes@.subrange(at as int, at + 8)),
{
    let word = [
        bytes[at],
        bytes[at + 1],
        bytes[at + 2],
        bytes[at + 3],
        bytes[at + 4],
        bytes[at + 5],
        bytes[at + 6],
        bytes[at + 7],
    ];
    assert(word@ =~= bytes@.subrange(at as int, at + 8));
    u64_from_le_bytes(&word)
}

/// Reads the samples stored as little-endian pairs in `bytes[from..]`.
pub fn read_samples_le(bytes: &[u8], from: usize) -> (samples: Vec<i16>)
    requires
        from <= bytes@.len(),
    ensures
        samples@ == samples_from_le(bytes@.subrange(from as int, bytes@.len() as int)),
{
    let ghost payload = bytes@.subrange(from as int, bytes@.len() as int);
    let total = bytes.len();
    let count = (total - from) / 2;
    let mut samples: Vec<i16> = Vec::with_capacity(count);
    let mut i: usize = 0;
    while i < count
        invariant
            count == payload.len() / 2,
            payload == bytes@.subrange(from as int, bytes@.len() as int),
            from <= bytes@.len(),
            payload.len() == bytes@.len() - from,
            total == bytes@.len(),
            i <= count,
            samples@ == samples_from_le(payload).take(i as int),
        decreases count - i,
    {
        assert(2 * i + 2 <= payload.len()) by (nonlinear_arith)
            requires
                i < count,
                count == payload.len() / 2,
        ;
        let at = from + 2 * i;
        let u = read_u16_le(bytes, at);
        assert(bytes@.subrange(at as int, at + 2) =~= payload.subrange(2 * i, 2 * i + 2));
        samples.push(u as i16);
        i += 1;
        assert(samples@ =~= samples_from_le(payload).take(i as int));
    }
    assert(samples_from_le(payload).take(count as int) =~= samples_from_le(payload));
    samples
}

} // verus!
