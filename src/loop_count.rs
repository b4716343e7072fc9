use vstd::prelude::*;
use vstd::arithmetic::power2::{pow2, lemma_pow2_unfold, lemma2_to64};

use crate::gifmeta_structs::GifError;

verus! {

/// Length of the fixed GIF signature plus the logical screen descriptor.
pub const SCREEN_DESCRIPTOR_END: usize = 13;

/// Offset of the packed-fields byte of the logical screen descriptor.
pub const PACKED_FIELDS_OFFSET: usize = 10;

/// Length of the header of a canonical looping block, up to its loop count.
pub const LOOP_HEADER_LEN: usize = 16;

/// Byte `k` of the header of a canonical looping block: extension introducer
/// `0x21`, application label `0xFF`, identifier length `0x0B`, the identifier
/// "NETSCAPE2.0", sub-block size `0x03` and sub-block id `0x01`.
pub open spec fn loop_header_byte(k: int) -> u8 {
    if k == 0 {
        0x21
    } else if k == 1 {
        0xff
    } else if k == 2 {
        0x0b
    } else if k == 3 {
        0x4e  // N
    } else if k == 4 {
        0x45  // E
    } else if k == 5 {
        0x54  // T
    } else if k == 6 {
        0x53  // S
    } else if k == 7 {
        0x43  // C
    } else if k == 8 {
        0x41  // A
    } else if k == 9 {
        0x50  // P
    } else if k == 10 {
        0x45  // E
    } else if k == 11 {
        0x32  // 2
    } else if k == 12 {
        0x2e  // .
    } else if k == 13 {
        0x30  // 0
    } else if k == 14 {
        0x03
    } else {
        0x01
    }
}

/// The sixteen header bytes of a canonical looping block.
pub open spec fn loop_header() -> Seq<u8> {
    Seq::new(LOOP_HEADER_LEN as nat, |k: int| loop_header_byte(k))
}

/// The canonical looping block for `count`: header, little-endian count, terminator.
pub open spec fn loop_block(count: u16) -> Seq<u8> {
    loop_header() + seq![(count % 256) as u8, (count / 256) as u8, 0u8]
}

/// A canonical looping-block header starts at offset `i` of `s`.
pub open spec fn header_at(s: Seq<u8>, i: int) -> bool {
    0 <= i && i + LOOP_HEADER_LEN <= s.len() && s.subrange(i, i + LOOP_HEADER_LEN) == loop_header()
}

/// Offset `i` holds the first canonical looping-block header of `s`.
pub open spec fn first_header_at(s: Seq<u8>, i: int) -> bool {
    header_at(s, i) && forall|j: int| 0 <= j < i ==> !header_at(s, j)
}

pub open spec fn has_header(s: Seq<u8>) -> bool {
    exists|i: int| header_at(s, i)
}

/// The first canonical looping-block header of `s`; meaningful when `has_header(s)`.
pub open spec fn first_header(s: Seq<u8>) -> int {
    choose|i: int| first_header_at(s, i)
}

pub open spec fn le_u16(lo: u8, hi: u8) -> u16 {
    (lo as int + 256 * hi as int) as u16
}

/// The loop count a stream declares: that of its first canonical looping block.
pub open spec fn loop_count_in(s: Seq<u8>) -> Result<u16, GifError> {
    if has_header(s) {
        let i = first_header(s);
        if i + 18 <= s.len() {
            Ok(le_u16(s[i + 16], s[i + 17]))
        } else {
            Err(GifError::Truncated)
        }
    } else {
        Err(GifError::NotFound)
    }
}

/// Bytes taken by the global colour table that a packed-fields byte announces:
/// present when bit 7 is set, with 2^(bits 0-2 + 1) entries of three bytes.
pub open spec fn global_table_len(packed: u8) -> nat {
    if packed >= 128 {
        3 * pow2((packed % 8) as nat + 1)
    } else {
        0
    }
}

/// Where a new looping block goes: after the logical screen descriptor and the
/// global colour table.
pub open spec fn loop_insert_offset(s: Seq<u8>) -> int
    recommends
        s.len() > PACKED_FIELDS_OFFSET,
{
    SCREEN_DESCRIPTOR_END + global_table_len(s[PACKED_FIELDS_OFFSET as int])
}

/// The stream with its loop count set to `count`: the first canonical block is
/// patched in place; without one, a canonical block is spliced in after the
/// global colour table.
pub open spec fn with_loop_count(s: Seq<u8>, count: u16) -> Result<Seq<u8>, GifError> {
    if has_header(s) {
        let i = first_header(s);
        if i + 18 <= s.len() {
            Ok(s.update(i + 16, (count % 256) as u8).update(i + 17, (count / 256) as u8))
        } else {
            Err(GifError::Truncated)
        }
    } else if s.len() <= PACKED_FIELDS_OFFSET {
        Err(GifError::Truncated)
    } else {
        let p = loop_insert_offset(s);
        if p <= s.len() {
            Ok(s.subrange(0, p) + loop_block(count) + s.subrange(p, s.len() as int))
        } else {
            Err(GifError::Truncated)
        }
    }
}

/// The bytes of a byte-producing result, with the error kept.
pub open spec fn bytes_of(r: Result<Vec<u8>, GifError>) -> Result<Seq<u8>, GifError> {
    match r {
        Ok(v) => Ok(v@),
        Err(e) => Err(e),
    }
}

proof fn lemma_first_header_unique(s: Seq<u8>, i: int)
    requires
        first_header_at(s, i),
    ensures
        has_header(s),
        first_header(s) == i,
{
    let c = first_header(s);
    assert(first_header_at(s, c));
    if c < i {
        assert(!header_at(s, c));
    } else if i < c {
        assert(!header_at(s, i));
    }
}

fn loop_header_byte_exec(k: usize) -> (b: u8)
    requires
        k < LOOP_HEADER_LEN,
    ensures
        b == loop_header_byte(k as int),
{
    if k == 0 {
        0x21
    } else if k == 1 {
        0xff
    } else if k == 2 {
        0x0b
    } else if k == 3 {
        0x4e
    } else if k == 4 {
        0x45
    } else if k == 5 {
        0x54
    } else if k == 6 {
        0x53
    } else if k == 7 {
        0x43
    } else if k == 8 {
        0x41
    } else if k == 9 {
        0x50
    } else if k == 10 {
        0x45
    } else if k == 11 {
        0x32
    } else if k == 12 {
        0x2e
    } else if k == 13 {
        0x30
    } else if k == 14 {
        0x03
    } else {
        0x01
    }
}

/// Whether a canonical looping-block header starts at offset `i`.
fn is_header_at(data: &[u8], i: usize) -> (r: bool)
    ensures
        r == header_at(data@, i as int),
{
    if i > data.len() || data.len() - i < LOOP_HEADER_LEN {
        return false;
    }
    let mut k: usize = 0;
    while k < LOOP_HEADER_LEN
        invariant
            i + LOOP_HEADER_LEN <= data.len(),
            k <= LOOP_HEADER_LEN,
            forall|j: int| 0 <= j < k ==> data@[i + j] == loop_header_byte(j),
        decreases LOOP_HEADER_LEN - k,
    {
        if data[i + k] != loop_header_byte_exec(k) {
            assert(data@.subrange(i as int, i + LOOP_HEADER_LEN)[k as int] != loop_header()[k as int]);
            return false;
        }
        k += 1;
    }
    assert(data@.subrange(i as int, i + LOOP_HEADER_LEN) =~= loop_header());
    true
}

/// The offset of the first canonical looping-block header, if there is one.
pub fn find_loop_header(data: &[u8]) -> (r: Option<usize>)
    ensures
        match r {
            Some(i) => first_header_at(data@, i as int),
            None => !has_header(data@),
        },
{
    let mut i: usize = 0;
    while i < data.len()
        invariant
            i <= data@.len(),
            forall|j: int| 0 <= j < i ==> !header_at(data@, j),
        decreases data.len() - i,
    {
        if is_header_at(data, i) {
            return Some(i);
        }
        i += 1;
    }
    None
}

/// Reads the loop count (0 = infinite) from the first canonical NETSCAPE2.0
/// block of a GIF byte stream.
pub fn extract_loop_count(data: &[u8]) -> (r: Result<u16, GifError>)
    ensures
        r == loop_count_in(data@),
{
    match find_loop_header(data) {
        None => Err(GifError::NotFound),
        Some(i) => {
            proof {
                lemma_first_header_unique(data@, i as int);
            }
            if data.len() - i < 18 {
                Err(GifError::Truncated)
            } else {
                Ok(data[i + 16] as u16 + 256 * (data[i + 17] as u16))
            }
        },
    }
}

/// Bytes of the global colour table announced by the packed-fields byte.
fn global_table_len_exec(packed: u8) -> (r: usize)
    ensures
        r == global_table_len(packed),
        r <= 768,
{
    if packed < 128 {
        return 0;
    }
    let bits: u8 = packed % 8;
    let mut entries: usize = 2;
    let mut j: u8 = 0;
    proof {
        lemma2_to64();
    }
    while j < bits
        invariant
            j <= bits < 8,
            entries == pow2(j as nat + 1),
            entries <= 256,
        decreases bits - j,
    {
        proof {
            lemma_pow2_unfold(j as nat + 2);
            lemma2_to64();
            if j + 2 > 8 {
                assert(false);
            }
        }
        entries = entries * 2;
        j = j + 1;
    }
    3 * entries
}

/// Sets the loop count (0 = infinite) of a GIF byte stream: patches the first
/// canonical NETSCAPE2.0 block in place, or splices a new canonical block in
/// right after the logical screen descriptor and global colour table.
pub fn set_loop_count(data: &[u8], count: u16) -> (r: Result<Vec<u8>, GifError>)
    ensures
        bytes_of(r) == with_loop_count(data@, count),
{
    let lo: u8 = (count % 256) as u8;
    let hi: u8 = (count / 256) as u8;
    match find_loop_header(data) {
        Some(i) => {
            proof {
                lemma_first_header_unique(data@, i as int);
            }
            if data.len() - i < 18 {
                return Err(GifError::Truncated);
            }
            let mut out: Vec<u8> = Vec::with_capacity(data.len());
            let mut k: usize = 0;
            while k < data.len()
                invariant
                    k <= data@.len(),
                    i + 18 <= data@.len(),
                    out@.len() == k,
                    forall|j: int| 0 <= j < k ==> out@[j] == data@.update(i + 16, lo).update(i + 17, hi)[j],
                decreases data.len() - k,
            {
                if k == i + 16 {
                    out.push(lo);
                } else if k == i + 17 {
                    out.push(hi);
                } else {
                    out.push(data[k]);
                }
                k += 1;
            }
            assert(out@ =~= data@.update(i + 16, lo).update(i + 17, hi));
            Ok(out)
        },
        None => {
            if data.len() <= PACKED_FIELDS_OFFSET {
                return Err(GifError::Truncated);
            }
            let p = SCREEN_DESCRIPTOR_END + global_table_len_exec(data[PACKED_FIELDS_OFFSET]);
            if p > data.len() {
                return Err(GifError::Truncated);
            }
            let ghost want = data@.subrange(0, p as int) + loop_block(count) + data@.subrange(p as int, data@.len() as int);
            let mut out: Vec<u8> = Vec::with_capacity(data.len());
            let mut k: usize = 0;
            while k < p
                invariant
                    k <= p <= data@.len(),
                    out@ == data@.subrange(0, k as int),
                decreases p - k,
            {
                out.push(data[k]);
                k += 1;
                assert(out@ =~= data@.subrange(0, k as int));
            }
            let mut b: usize = 0;
            while b < LOOP_HEADER_LEN
                invariant
                    b <= LOOP_HEADER_LEN,
                    p <= data@.len(),
                    out@ == data@.subrange(0, p as int) + loop_header().subrange(0, b as int),
                decreases LOOP_HEADER_LEN - b,
            {
                out.push(loop_header_byte_exec(b));
                b += 1;
                assert(out@ =~= data@.subrange(0, p as int) + loop_header().subrange(0, b as int));
            }
            out.push(lo);
            out.push(hi);
            out.push(0);
            assert(out@ =~= data@.subrange(0, p as int) + loop_block(count));
            let mut k: usize = p;
            while k < data.len()
                invariant
                    p <= k <= data@.len(),
                    out@ == data@.subrange(0, p as int) + loop_block(count) + data@.subrange(p as int, k as int),
                decreases data.len() - k,
            {
                out.push(data[k]);
                k += 1;
                assert(out@ =~= data@.subrange(0, p as int) + loop_block(count) + data@.subrange(p as int, k as int));
            }
            assert(out@ =~= want);
            Ok(out)
        },
    }
}

/// After a successful write, the written count sits in the first canonical
/// block of the result, and that block is complete.
proof fn lemma_written_block(s: Seq<u8>, count: u16) -> (i: int)
    requires
        with_loop_count(s, count) is Ok,
    ensures
        first_header_at(with_loop_count(s, count)->Ok_0, i),
        i + 18 <= with_loop_count(s, count)->Ok_0.len(),
        with_loop_count(s, count)->Ok_0[i + 16] == (count % 256) as u8,
        with_loop_count(s, count)->Ok_0[i + 17] == (count / 256) as u8,
{
    let out = with_loop_count(s, count)->Ok_0;
    if has_header(s) {
        let i = first_header(s);
        assert(first_header_at(s, i)) by {
            let w = choose|w: int| header_at(s, w);
            lemma_least_header(s, w);
        }
        assert(out.subrange(i, i + LOOP_HEADER_LEN) =~= s.subrange(i, i + LOOP_HEADER_LEN));
        assert forall|j: int| 0 <= j < i implies !header_at(out, j) by {
            assert(!header_at(s, j));
            if j + LOOP_HEADER_LEN <= out.len() {
                assert(out.subrange(j, j + LOOP_HEADER_LEN) =~= s.subrange(j, j + LOOP_HEADER_LEN));
            }
        }
        i
    } else {
        let p = loop_insert_offset(s);
        assert(out.subrange(p, p + LOOP_HEADER_LEN) =~= loop_header());
        assert forall|j: int| 0 <= j < p implies !header_at(out, j) by {
            if header_at(out, j) {
                if j + LOOP_HEADER_LEN <= p {
                    assert(out.subrange(j, j + LOOP_HEADER_LEN) =~= s.subrange(j, j + LOOP_HEADER_LEN));
                    assert(header_at(s, j));
                } else {
                    let d = p - j;
                    assert(out.subrange(j, j + LOOP_HEADER_LEN)[d] == out[p]);
                    assert(loop_header()[d] == loop_header_byte(d));
                }
            }
        }
        p
    }
}

/// Any header in a stream makes a first one exist.
proof fn lemma_least_header(s: Seq<u8>, k: int)
    requires
        header_at(s, k),
    ensures
        first_header_at(s, first_header(s)),
    decreases k,
{
    if exists|j: int| 0 <= j < k && header_at(s, j) {
        let j = choose|j: int| 0 <= j < k && header_at(s, j);
        lemma_least_header(s, j);
    } else {
        assert(first_header_at(s, k));
    }
}

/// Writing a loop count and reading it back yields exactly the count written,
/// whether or not the stream held a looping block before.
pub proof fn lemma_loop_count_round_trip(s: Seq<u8>, count: u16)
    requires
        with_loop_count(s, count) is Ok,
    ensures
        loop_count_in(with_loop_count(s, count)->Ok_0) == Ok::<u16, GifError>(count),
{
    let out = with_loop_count(s, count)->Ok_0;
    let i = lemma_written_block(s, count);
    lemma_first_header_unique(out, i);
}

/// Writing the same loop count a second time changes nothing: the second
/// write patches the block the first one left, so no block is duplicated and
/// the count read back is still the one written.
pub proof fn lemma_loop_count_idempotent(s: Seq<u8>, count: u16)
    requires
        with_loop_count(s, count) is Ok,
    ensures
        with_loop_count(with_loop_count(s, count)->Ok_0, count) == with_loop_count(s, count),
        loop_count_in(with_loop_count(with_loop_count(s, count)->Ok_0, count)->Ok_0) == Ok::<
            u16,
            GifError,
        >(count),
{
    let out = with_loop_count(s, count)->Ok_0;
    let i = lemma_written_block(s, count);
    lemma_first_header_unique(out, i);
    assert(out.update(i + 16, (count % 256) as u8).update(i + 17, (count / 256) as u8) =~= out);
    lemma_loop_count_round_trip(s, count);
}

/// A canonical block right after a prefix that holds no looping-block header
/// is the first one, whatever follows it: the stream declares its count.
pub proof fn lemma_block_after(prefix: Seq<u8>, count: u16, rest: Seq<u8>)
    requires
        !has_header(prefix),
    ensures
        loop_count_in(prefix + loop_block(count) + rest) == Ok::<u16, GifError>(count),
{
    let s = prefix + loop_block(count) + rest;
    let p = prefix.len() as int;
    assert(s.subrange(p, p + LOOP_HEADER_LEN) =~= loop_header());
    assert forall|j: int| 0 <= j < p implies !header_at(s, j) by {
        if header_at(s, j) {
            if j + LOOP_HEADER_LEN <= p {
                assert(s.subrange(j, j + LOOP_HEADER_LEN) =~= prefix.subrange(j, j + LOOP_HEADER_LEN));
                assert(header_at(prefix, j));
            } else {
                let d = p - j;
                assert(s.subrange(j, j + LOOP_HEADER_LEN)[d] == s[p]);
                assert(loop_header()[d] == loop_header_byte(d));
            }
        }
    }
    assert(first_header_at(s, p));
    lemma_first_header_unique(s, p);
    assert(s[p + 16] == (count % 256) as u8);
    assert(s[p + 17] == (count / 256) as u8);
}

} // verus!
