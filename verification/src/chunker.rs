//! Content-defined chunking: a gear rolling hash cuts a byte stream into
//! chunks whose boundaries follow the content, so that an insertion only
//! disturbs the chunks around it.

use vstd::prelude::*;
use vstd::wrapping::u64_specs::{wrapping_add, wrapping_mul};

use crate::codec::{blake3, blake3_digest, hex_encode, hex_lower};
use crate::profile::{profile_check, ChunkProfile};
use crate::text::ascii_chars;

verus! {

/// One chunk of a stream: where it starts, how long it is, and the lower-case
/// hex BLAKE3 of its bytes.
#[derive(Debug, Clone, PartialEq, Eq)]
pub struct ChunkRecord {
    pub offset: u64,
    pub length: u32,
    pub hash: String,
}

/// The first state of the gear table generator.
pub const GEAR_SEED: u64 = 0x6a09_e667_f3bc_c909;

/// The splitmix64 mixing function.
pub open spec fn splitmix64(v: u64) -> u64 {
    let a = wrapping_add(v, 0x9e37_79b9_7f4a_7c15u64);
    let b = wrapping_mul(a ^ (a >> 30u64), 0xbf58_476d_1ce4_e5b9u64);
    let c = wrapping_mul(b ^ (b >> 27u64), 0x94d0_49bb_1331_11ebu64);
    c ^ (c >> 31u64)
}

/// Gear table entry `i`: splitmix64 applied `i + 1` times to the seed.
pub open spec fn gear(i: nat) -> u64
    decreases i,
{
    if i == 0 {
        splitmix64(GEAR_SEED)
    } else {
        splitmix64(gear((i - 1) as nat))
    }
}

/// The rolling hash after one more byte: shifted left (dropping the top bit)
/// plus the byte's gear value.
pub open spec fn gear_step(h: u64, b: u8) -> u64 {
    wrapping_add(h << 1u64, gear(b as nat))
}

/// The number of trailing zero bits.
pub open spec fn trailing_zeros(v: u32) -> nat
    decreases v,
{
    if v == 0 || v % 2 == 1 {
        0
    } else {
        1 + trailing_zeros(v / 2)
    }
}

/// The boundary mask before the average size: one bit stricter than average.
pub open spec fn early_mask(p: ChunkProfile) -> u64 {
    ((1u64 << ((trailing_zeros(p.avg_size) + 1) as u64)) - 1) as u64
}

/// The boundary mask from the average size on: one bit looser than average.
pub open spec fn late_mask(p: ChunkProfile) -> u64 {
    let bits = if trailing_zeros(p.avg_size) > 0 {
        (trailing_zeros(p.avg_size) - 1) as nat
    } else {
        0nat
    };
    ((1u64 << (bits as u64)) - 1) as u64
}

/// The state of the chunker after a stream: the lengths of the chunks cut so
/// far, the rolling hash, and the bytes of the chunk not yet cut.
pub struct ScanState {
    pub lengths: Seq<nat>,
    pub hash: u64,
    pub pending: nat,
}

/// Whether a chunk of `len` bytes with rolling hash `h` ends here.
pub open spec fn is_cut(p: ChunkProfile, len: nat, h: u64) -> bool {
    let mask = if len < p.avg_size {
        early_mask(p)
    } else {
        late_mask(p)
    };
    (len >= p.min_size && h & mask == 0) || len >= p.max_size
}

/// The chunker's state after reading `data`.
pub open spec fn scan(p: ChunkProfile, data: Seq<u8>) -> ScanState
    decreases data.len(),
{
    if data.len() == 0 {
        ScanState { lengths: Seq::empty(), hash: 0, pending: 0 }
    } else {
        let s = scan(p, data.drop_last());
        let h = gear_step(s.hash, data.last());
        let len = s.pending + 1;
        if is_cut(p, len, h) {
            ScanState { lengths: s.lengths.push(len), hash: 0, pending: 0 }
        } else {
            ScanState { lengths: s.lengths, hash: h, pending: len }
        }
    }
}

/// The sum of the first `k` lengths.
pub open spec fn prefix_sum(lengths: Seq<nat>, k: int) -> nat
    decreases k,
{
    if k <= 0 || k > lengths.len() {
        0
    } else {
        prefix_sum(lengths, k - 1) + lengths[k - 1]
    }
}

/// The record of a chunk of `data` at `offset` of `length` bytes.
pub open spec fn record_of(data: Seq<u8>, offset: nat, length: nat) -> (u64, u32, Seq<char>) {
    (
        offset as u64,
        length as u32,
        ascii_chars(hex_lower(blake3_digest(data.subrange(offset as int, (offset + length) as int)))),
    )
}

pub open spec fn record_view(r: ChunkRecord) -> (u64, u32, Seq<char>) {
    (r.offset, r.length, r.hash@)
}

/// The records of the `k`-th chunks of `lengths` over `data`, from `from` on.
pub open spec fn records_of(data: Seq<u8>, lengths: Seq<nat>, from: int) -> Seq<(u64, u32, Seq<char>)> {
    Seq::new(
        (lengths.len() - from) as nat,
        |i: int| record_of(data, prefix_sum(lengths, from + i), lengths[from + i]),
    )
}

proof fn lemma_scan_step(p: ChunkProfile, data: Seq<u8>, b: u8)
    ensures
        scan(p, data.push(b)) == ({
            let s = scan(p, data);
            let h = gear_step(s.hash, b);
            let len = s.pending + 1;
            if is_cut(p, len, h) {
                ScanState { lengths: s.lengths.push(len), hash: 0, pending: 0 }
            } else {
                ScanState { lengths: s.lengths, hash: h, pending: len }
            }
        }),
{
    assert(data.push(b).drop_last() =~= data);
}

/// The chunks of a stream cover it exactly: the chunk lengths add up to the
/// bytes read.
pub proof fn law_chunks_cover_stream(p: ChunkProfile, data: Seq<u8>)
    ensures
        prefix_sum(scan(p, data).lengths, scan(p, data).lengths.len() as int) + scan(p, data).pending
            == data.len(),
    decreases data.len(),
{
    if data.len() > 0 {
        law_chunks_cover_stream(p, data.drop_last());
        let s = scan(p, data.drop_last());
        lemma_prefix_sum_push(s.lengths, s.pending + 1);
    }
}

/// Under a valid profile every chunk that was cut is between the minimum and
/// the maximum size, and the uncut rest is below the maximum.
pub proof fn law_chunk_sizes(p: ChunkProfile, data: Seq<u8>)
    requires
        profile_check(p) is Ok,
    ensures
        forall|k: int|
            0 <= k < scan(p, data).lengths.len() ==> p.min_size <= #[trigger] scan(p, data).lengths[k]
                <= p.max_size,
        scan(p, data).pending < p.max_size,
    decreases data.len(),
{
    if data.len() > 0 {
        law_chunk_sizes(p, data.drop_last());
    }
}

proof fn lemma_prefix_sum_push(lengths: Seq<nat>, x: nat)
    ensures
        prefix_sum(lengths.push(x), lengths.len() as int + 1) == prefix_sum(lengths, lengths.len() as int) + x,
        forall|k: int| 0 <= k <= lengths.len() ==> prefix_sum(lengths.push(x), k) == prefix_sum(lengths, k),
{
    assert forall|k: int| 0 <= k <= lengths.len() implies prefix_sum(lengths.push(x), k) == prefix_sum(lengths, k) by {
        lemma_prefix_sum_prefix(lengths, x, k);
    }
    lemma_prefix_sum_prefix(lengths, x, lengths.len() as int);
}

proof fn lemma_prefix_sum_prefix(lengths: Seq<nat>, x: nat, k: int)
    requires
        0 <= k <= lengths.len(),
    ensures
        prefix_sum(lengths.push(x), k) == prefix_sum(lengths, k),
    decreases k,
{
    if k > 0 {
        lemma_prefix_sum_prefix(lengths, x, k - 1);
    }
}

/// splitmix64 as the code computes it.
fn splitmix64_exec(v: u64) -> (r: u64)
    ensures
        r == splitmix64(v),
{
    let a = v.wrapping_add(0x9e37_79b9_7f4a_7c15);
    let b = (a ^ (a >> 30)).wrapping_mul(0xbf58_476d_1ce4_e5b9);
    let c = (b ^ (b >> 27)).wrapping_mul(0x94d0_49bb_1331_11eb);
    c ^ (c >> 31)
}

/// The 256-entry gear table.
pub fn gear_table() -> (table: Vec<u64>)
    ensures
        table@.len() == 256,
        forall|i: int| 0 <= i < 256 ==> #[trigger] table@[i] == gear(i as nat),
{
    let mut table: Vec<u64> = Vec::new();
    let mut state = GEAR_SEED;
    let mut i: usize = 0;
    while i < 256
        invariant
            i <= 256,
            table@.len() == i,
            forall|j: int| 0 <= j < i ==> #[trigger] table@[j] == gear(j as nat),
            i > 0 ==> state == gear((i - 1) as nat),
            i == 0 ==> state == GEAR_SEED,
        decreases 256 - i,
    {
        state = splitmix64_exec(state);
        table.push(state);
        i = i + 1;
    }
    table
}

/// The trailing zero bits of a number.
fn trailing_zeros_exec(v: u32) -> (n: u32)
    ensures
        n == trailing_zeros(v),
        n <= 31,
{
    proof {
        lemma_trailing_zeros_bound(v);
    }
    let mut x = v;
    let mut n: u32 = 0;
    while x != 0 && x % 2 == 0
        invariant
            trailing_zeros(v) == n + trailing_zeros(x),
            trailing_zeros(v) <= 31,
        decreases x,
    {
        x = x / 2;
        n = n + 1;
    }
    n
}

proof fn lemma_trailing_zeros_bound(v: u32)
    ensures
        trailing_zeros(v) <= 31,
{
    if v != 0 {
        vstd::arithmetic::power2::lemma2_to64();
        lemma_trailing_zeros_below(v, 32);
    }
}

proof fn lemma_trailing_zeros_below(v: u32, k: nat)
    requires
        v != 0,
        v < vstd::arithmetic::power2::pow2(k),
    ensures
        trailing_zeros(v) < k,
    decreases k,
{
    if k == 0 {
        vstd::arithmetic::power2::lemma2_to64();
    } else {
        vstd::arithmetic::power2::lemma_pow2_unfold(k);
        if v % 2 == 0 {
            lemma_trailing_zeros_below(v / 2, (k - 1) as nat);
        }
    }
}

/// A streaming chunker: bytes go in, records of the chunks cut come out.
pub struct Chunker {
    profile: ChunkProfile,
    table: Vec<u64>,
    early: u64,
    late: u64,
    buffer: Vec<u8>,
    hash: u64,
    chunk_start: u64,
    chunk_count: u64,
    seen: Ghost<Seq<u8>>,
}

impl Chunker {
    /// The profile the chunker cuts by.
    pub closed spec fn chunk_profile(&self) -> ChunkProfile {
        self.profile
    }

    /// The bytes read so far.
    pub closed spec fn data(&self) -> Seq<u8> {
        self.seen@
    }

    pub closed spec fn wf(&self) -> bool {
        let s = scan(self.profile, self.seen@);
        &&& self.table@.len() == 256
        &&& forall|i: int| 0 <= i < 256 ==> #[trigger] self.table@[i] == gear(i as nat)
        &&& self.early == early_mask(self.profile)
        &&& self.late == late_mask(self.profile)
        &&& profile_check(self.profile) is Ok
        &&& self.hash == s.hash
        &&& self.buffer@.len() == s.pending
        &&& self.chunk_start == prefix_sum(s.lengths, s.lengths.len() as int)
        &&& self.chunk_count == s.lengths.len()
        &&& self.chunk_start + self.buffer@.len() == self.seen@.len()
        &&& self.buffer@ == self.seen@.subrange(self.chunk_start as int, self.seen@.len() as int)
        &&& self.seen@.len() <= u64::MAX
    }

    /// A chunker for a valid profile, with nothing read.
    pub fn new(profile: ChunkProfile) -> (chunker: Result<Chunker, crate::profile::ProfileError>)
        ensures
            match chunker {
                Ok(c) => profile_check(profile) is Ok && c.wf() && c.chunk_profile() == profile && c.data()
                    == Seq::<u8>::empty(),
                Err(e) => profile_check(profile) == Err::<(), crate::profile::ProfileError>(e),
            },
    {
        match profile.validate() {
            Ok(()) => {},
            Err(e) => {
                return Err(e);
            },
        }
        let bits = trailing_zeros_exec(profile.avg_size);
        proof {
            lemma_trailing_zeros_bound(profile.avg_size);
        }
        assert((1u64 << (bits as u64 + 1)) >= 1) by (bit_vector)
            requires
                bits < 32,
        ;
        let early = (1u64 << (bits as u64 + 1)) - 1;
        let late_bits = if bits > 0 {
            bits - 1
        } else {
            0
        };
        assert((1u64 << (late_bits as u64)) >= 1) by (bit_vector)
            requires
                late_bits < 64,
        ;
        let late = (1u64 << (late_bits as u64)) - 1;
        let chunker = Chunker {
            profile,
            table: gear_table(),
            early,
            late,
            buffer: Vec::new(),
            hash: 0,
            chunk_start: 0,
            chunk_count: 0,
            seen: Ghost(Seq::empty()),
        };
        assert(chunker.early == early_mask(profile));
        assert(chunker.late == late_mask(profile));
        assert(chunker.buffer@ =~= chunker.seen@.subrange(0, 0));
        Ok(chunker)
    }
}


proof fn lemma_count_le_sum(lengths: Seq<nat>, k: int)
    requires
        0 <= k <= lengths.len(),
        forall|j: int| 0 <= j < lengths.len() ==> #[trigger] lengths[j] >= 1,
    ensures
        k <= prefix_sum(lengths, k),
    decreases k,
{
    if k > 0 {
        lemma_count_le_sum(lengths, k - 1);
    }
}

proof fn lemma_prefix_sum_monotone(lengths: Seq<nat>, j: int, k: int)
    requires
        0 <= j <= k <= lengths.len(),
    ensures
        prefix_sum(lengths, j) <= prefix_sum(lengths, k),
    decreases k - j,
{
    if j < k {
        lemma_prefix_sum_monotone(lengths, j, k - 1);
    }
}

/// Appending a record for a new chunk extends the records; earlier records
/// read the same bytes from a longer stream.
proof fn lemma_records_extend(
    data: Seq<u8>,
    data2: Seq<u8>,
    lengths: Seq<nat>,
    from: int,
    len: nat,
)
    requires
        0 <= from <= lengths.len(),
        data2.len() >= data.len(),
        data2.subrange(0, data.len() as int) == data,
        prefix_sum(lengths, lengths.len() as int) <= data.len(),
    ensures
        records_of(data2, lengths.push(len), from) == records_of(data, lengths, from).push(
            record_of(data2, prefix_sum(lengths, lengths.len() as int), len),
        ),
{
    lemma_prefix_sum_push(lengths, len);
    let a = records_of(data2, lengths.push(len), from);
    let b = records_of(data, lengths, from).push(
        record_of(data2, prefix_sum(lengths, lengths.len() as int), len),
    );
    assert forall|i: int| 0 <= i < a.len() implies a[i] == b[i] by {
        let k = from + i;
        if k < lengths.len() {
            lemma_prefix_sum_monotone(lengths, k + 1, lengths.len() as int);
            assert(prefix_sum(lengths, k + 1) == prefix_sum(lengths, k) + lengths[k]);
            let start = prefix_sum(lengths, k) as int;
            let end = start + lengths[k];
            assert(data2.subrange(start, end) =~= data.subrange(start, end)) by {
                assert forall|t: int| 0 <= t < end - start implies data2.subrange(start, end)[t]
                    == data.subrange(start, end)[t] by {
                    assert(data2[start + t] == data2.subrange(0, data.len() as int)[start + t]);
                }
            }
        }
    }
    assert(a =~= b);
}

impl Chunker {
    /// Reads one byte; returns the record of the chunk it completes, if any.
    pub fn push_byte(&mut self, b: u8) -> (record: Option<ChunkRecord>)
        requires
            old(self).wf(),
            old(self).data().len() < u64::MAX,
        ensures
            final(self).wf(),
            final(self).chunk_profile() == old(self).chunk_profile(),
            final(self).data() == old(self).data().push(b),
            ({
                let p = old(self).chunk_profile();
                let before = scan(p, old(self).data()).lengths;
                let after = scan(p, final(self).data()).lengths;
                match record {
                    Some(r) => after == before.push(after.last()) && record_view(r) == record_of(
                        final(self).data(),
                        prefix_sum(before, before.len() as int),
                        after.last(),
                    ),
                    None => after == before,
                }
            }),
    {
        let ghost p = self.profile;
        let ghost before = self.seen@;
        let ghost s = scan(p, before);
        proof {
            law_chunk_sizes(p, before);
            law_chunks_cover_stream(p, before);
            lemma_scan_step(p, before, b);
            lemma_count_le_sum(s.lengths, s.lengths.len() as int);
        }
        self.buffer.push(b);
        self.hash = (self.hash << 1u64).wrapping_add(self.table[b as usize]);
        self.seen = Ghost(before.push(b));
        let length = self.buffer.len();
        let mask = if (length as u64) < self.profile.avg_size as u64 {
            self.early
        } else {
            self.late
        };
        if (length as u64 >= self.profile.min_size as u64 && self.hash & mask == 0) || length as u64
            >= self.profile.max_size as u64 {
            let digest = blake3(self.buffer.as_slice());
            let record = ChunkRecord {
                offset: self.chunk_start,
                length: length as u32,
                hash: hex_encode(&digest),
            };
            proof {
                assert(self.buffer@ =~= self.seen@.subrange(
                    self.chunk_start as int,
                    self.chunk_start + length,
                ));
                lemma_prefix_sum_push(s.lengths, length as nat);
            }
            self.chunk_start = self.chunk_start + length as u64;
            self.chunk_count = self.chunk_count + 1;
            self.buffer.clear();
            self.hash = 0;
            assert(self.buffer@ =~= self.seen@.subrange(
                self.chunk_start as int,
                self.seen@.len() as int,
            ));
            Some(record)
        } else {
            assert(self.buffer@ =~= self.seen@.subrange(
                self.chunk_start as int,
                self.seen@.len() as int,
            ));
            None
        }
    }

    /// Reads more bytes; returns the records of the chunks they complete.
    pub fn push(&mut self, bytes: &[u8]) -> (records: Vec<ChunkRecord>)
        requires
            old(self).wf(),
            old(self).data().len() + bytes@.len() <= u64::MAX,
        ensures
            final(self).wf(),
            final(self).chunk_profile() == old(self).chunk_profile(),
            final(self).data() == old(self).data() + bytes@,
            records@.map_values(|r: ChunkRecord| record_view(r)) == records_of(
                final(self).data(),
                scan(final(self).chunk_profile(), final(self).data()).lengths,
                scan(old(self).chunk_profile(), old(self).data()).lengths.len() as int,
            ),
    {
        let ghost p = self.profile;
        let ghost from = scan(p, self.seen@).lengths.len() as int;
        let mut records: Vec<ChunkRecord> = Vec::new();
        let mut i: usize = 0;
        assert(records@.map_values(|r: ChunkRecord| record_view(r)) =~= records_of(
            self.seen@,
            scan(p, self.seen@).lengths,
            from,
        ));
        while i < bytes.len()
            invariant
                self.wf(),
                self.chunk_profile() == p,
                i <= bytes@.len(),
                self.data() == old(self).data() + bytes@.subrange(0, i as int),
                old(self).data().len() + bytes@.len() <= u64::MAX,
                from == scan(p, old(self).data()).lengths.len(),
                from <= scan(p, self.data()).lengths.len(),
                records@.map_values(|r: ChunkRecord| record_view(r)) == records_of(
                    self.data(),
                    scan(p, self.data()).lengths,
                    from,
                ),
            decreases bytes@.len() - i,
        {
            let ghost before = self.data();
            let ghost lengths = scan(p, before).lengths;
            proof {
                law_chunks_cover_stream(p, before);
            }
            let b = bytes[i];
            let made = self.push_byte(b);
            assert(bytes@.subrange(0, i + 1) =~= bytes@.subrange(0, i as int).push(b));
            assert(self.data() =~= old(self).data() + bytes@.subrange(0, i + 1));
            assert(self.data().subrange(0, before.len() as int) =~= before);
            match made {
                Some(record) => {
                    let ghost len = scan(p, self.data()).lengths.last();
                    proof {
                        lemma_records_extend(before, self.data(), lengths, from, len);
                    }
                    let ghost old_records = records@;
                    records.push(record);
                    assert(records@.map_values(|r: ChunkRecord| record_view(r)) =~= old_records.map_values(
                        |r: ChunkRecord| record_view(r),
                    ).push(record_view(record)));
                },
                None => {
                    proof {
                        lemma_records_same_lengths(before, self.data(), lengths, from);
                    }
                },
            }
            i = i + 1;
        }
        assert(bytes@.subrange(0, bytes@.len() as int) =~= bytes@);
        records
    }

    /// Ends the stream; returns the record of the last, uncut chunk if any.
    pub fn finish(&mut self) -> (record: Option<ChunkRecord>)
        requires
            old(self).wf(),
        ensures
            final(self).wf(),
            final(self).data() == old(self).data(),
            ({
                let s = scan(old(self).chunk_profile(), old(self).data());
                match record {
                    Some(r) => s.pending > 0 && record_view(r) == record_of(
                        old(self).data(),
                        prefix_sum(s.lengths, s.lengths.len() as int),
                        s.pending,
                    ),
                    None => s.pending == 0,
                }
            }),
    {
        if self.buffer.len() == 0 {
            return None;
        }
        proof {
            law_chunk_sizes(self.profile, self.seen@);
        }
        let digest = blake3(self.buffer.as_slice());
        Some(
            ChunkRecord {
                offset: self.chunk_start,
                length: self.buffer.len() as u32,
                hash: hex_encode(&digest),
            },
        )
    }
}

proof fn lemma_records_same_lengths(data: Seq<u8>, data2: Seq<u8>, lengths: Seq<nat>, from: int)
    requires
        0 <= from <= lengths.len(),
        data2.len() >= data.len(),
        data2.subrange(0, data.len() as int) == data,
        prefix_sum(lengths, lengths.len() as int) <= data.len(),
    ensures
        records_of(data2, lengths, from) == records_of(data, lengths, from),
{
    let a = records_of(data2, lengths, from);
    let b = records_of(data, lengths, from);
    assert forall|i: int| 0 <= i < a.len() implies a[i] == b[i] by {
        let k = from + i;
        lemma_prefix_sum_monotone(lengths, k + 1, lengths.len() as int);
        let start = prefix_sum(lengths, k) as int;
        let end = start + lengths[k];
        assert(data2.subrange(start, end) =~= data.subrange(start, end)) by {
            assert forall|t: int| 0 <= t < end - start implies data2.subrange(start, end)[t]
                == data.subrange(start, end)[t] by {
                assert(data2[start + t] == data2.subrange(0, data.len() as int)[start + t]);
            }
        }
    }
    assert(a =~= b);
}


/// A power of two is two raised to its trailing zero bits.
proof fn lemma_power_of_two_exponent(v: u32)
    requires
        v != 0,
        v & ((v - 1) as u32) == 0,
    ensures
        v as nat == vstd::arithmetic::power2::pow2(trailing_zeros(v)),
    decreases v,
{
    if v % 2 == 1 {
        assert(v == 1) by (bit_vector)
            requires
                v != 0,
                v & ((v - 1) as u32) == 0,
                v % 2 == 1,
        ;
        vstd::arithmetic::power2::lemma2_to64();
    } else {
        let w = v / 2;
        assert(w != 0 && w & ((w - 1) as u32) == 0) by (bit_vector)
            requires
                v != 0,
                v & ((v - 1) as u32) == 0,
                v % 2 == 0,
                w == v / 2,
        ;
        lemma_power_of_two_exponent(w);
        vstd::arithmetic::power2::lemma_pow2_unfold(trailing_zeros(v));
    }
}

/// A hash is clear under the mask of the `j` low bits exactly when it is a
/// multiple of two to the `j`.
proof fn lemma_low_mask_divides(h: u64, j: nat)
    requires
        j < 64,
    ensures
        ((h & (((1u64 << (j as u64)) - 1) as u64)) == 0) == (h as int % vstd::arithmetic::power2::pow2(
            j,
        ) as int == 0),
{
    vstd::bits::lemma_u64_pow2_no_overflow(j);
    vstd::bits::lemma_u64_shl_is_mul(1u64, j as u64);
    vstd::bits::lemma_u64_low_bits_mask_is_mod(h, j);
}

/// Where a chunk ends: a chunk that reaches the maximum size ends there;
/// otherwise a chunk of at least the minimum size ends where the rolling hash
/// is a multiple of twice the average size while the chunk is shorter than the
/// average, and a multiple of half the average size from the average on.
pub proof fn law_cut_rule(p: ChunkProfile, data: Seq<u8>, b: u8)
    requires
        profile_check(p) is Ok,
    ensures
        ({
            let s = scan(p, data);
            let h = gear_step(s.hash, b);
            let len = s.pending + 1;
            let divisor: int = if len < p.avg_size {
                2 * p.avg_size
            } else {
                p.avg_size as int / 2
            };
            let cut = len >= p.max_size || (len >= p.min_size && h as int % divisor == 0);
            scan(p, data.push(b)).lengths == if cut {
                s.lengths.push(len)
            } else {
                s.lengths
            }
        }),
{
    lemma_scan_step(p, data, b);
    let s = scan(p, data);
    let h = gear_step(s.hash, b);
    let t = trailing_zeros(p.avg_size);
    lemma_power_of_two_exponent(p.avg_size);
    lemma_trailing_zeros_bound(p.avg_size);
    vstd::arithmetic::power2::lemma2_to64();
    assert(t >= 1);
    vstd::arithmetic::power2::lemma_pow2_unfold(t + 1);
    vstd::arithmetic::power2::lemma_pow2_unfold(t);
    lemma_low_mask_divides(h, t + 1);
    lemma_low_mask_divides(h, (t - 1) as nat);
    assert(early_mask(p) == (((1u64 << (((t + 1) as nat) as u64)) - 1) as u64));
    assert(late_mask(p) == (((1u64 << ((((t - 1) as nat)) as u64)) - 1) as u64));
}

/// The rolling hash moves by doubling and adding the byte's gear value,
/// modulo two to the 64.
pub proof fn law_rolling_hash_step(h: u64, b: u8)
    ensures
        gear_step(h, b) as int == (2 * h as int + gear(b as nat) as int) % 0x1_0000_0000_0000_0000int,
{
    let d = h << 1u64;
    assert(d == 2 * h || d + 0x1_0000_0000_0000_0000int == 2 * h) by (bit_vector)
        requires
            d == h << 1u64,
    ;
}
} // verus!
