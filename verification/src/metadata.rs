//! Metadata blocks.
//!
//! Every table of the archive (inodes, directories, fragments, ids) is
//! packed into metadata blocks: a 16-bit header whose bit 15 is the "stored
//! uncompressed" flag and whose low 15 bits give the on-disk payload size,
//! followed by the payload, at most 8 KiB per block.  Records may span
//! block boundaries, so consecutive blocks form one logical byte stream.
//!
//! Compression codecs are external collaborators.  The readers here take
//! a stored block's payload as it lies, and a compressed block's payload
//! from a table of externally expanded payloads supplied by the caller
//! ([`MetaExpansions`]); [`read_raw_meta_block`] hands out what a codec
//! must be given.  A compressed block with no recorded expansion is
//! reported as a `Compressor` failure.

use crate::codec::{copy_bytes, le16_at, le64_at, read_u16, read_u64};
use crate::{LibError, Operation, SqfsError};
use vstd::prelude::*;

verus! {

/// Largest payload a metadata block may carry, in bytes.
pub const META_BLOCK_PAYLOAD_MAX: u16 = 8192;

/// Bit 15 of a metadata block header: set when the payload is stored
/// uncompressed.
pub const META_HEADER_UNCOMPRESSED: u16 = 0x8000;

/// Mask of the payload size in a metadata block header (bits 0 to 14).
pub const META_HEADER_SIZE_MASK: u16 = 0x7FFF;

/// What a metadata block header says: the on-disk payload size and whether
/// a codec must expand the payload.
#[derive(Clone, Copy, Debug, PartialEq, Eq, Structural)]
pub struct MetaBlockHeader {
    /// Bytes the payload occupies on disk.
    pub on_disk_size: u16,
    /// The payload is compressed and needs a codec.
    pub compressed: bool,
}

/// The header facts encoded in a raw 16-bit metadata block header.
pub open spec fn spec_meta_header(h: u16) -> MetaBlockHeader {
    MetaBlockHeader {
        on_disk_size: h & META_HEADER_SIZE_MASK,
        compressed: h & META_HEADER_UNCOMPRESSED == 0,
    }
}

/// Decodes a raw metadata block header.
pub fn decode_meta_header(h: u16) -> (r: MetaBlockHeader)
    ensures
        r == spec_meta_header(h),
        r.on_disk_size == h & 0x7FFF,
        r.compressed == ((h & 0x8000) == 0),
{
    MetaBlockHeader {
        on_disk_size: h & META_HEADER_SIZE_MASK,
        compressed: h & META_HEADER_UNCOMPRESSED == 0,
    }
}

/// Encodes a metadata block header; inverse of [`decode_meta_header`] for
/// payload sizes that fit the 15-bit field.
pub fn encode_meta_header(on_disk_size: u16, compressed: bool) -> (r: u16)
    requires
        on_disk_size <= 0x7FFF,
    ensures
        spec_meta_header(r) == (MetaBlockHeader { on_disk_size, compressed }),
{
    let r = if compressed {
        on_disk_size
    } else {
        on_disk_size | META_HEADER_UNCOMPRESSED
    };
    proof {
        let s = on_disk_size;
        assert(s <= 0x7FFF ==> (s & 0x7FFFu16 == s && s & 0x8000u16 != 0u16 == false
            && (s | 0x8000u16) & 0x7FFFu16 == s && (s | 0x8000u16) & 0x8000u16 != 0u16))
            by (bit_vector);
    }
    r
}

/// One metadata block as it lies on disk: its byte offset in the archive,
/// whether a codec must expand it, and its raw on-disk payload.
#[derive(Clone, Debug)]
pub struct RawMetaBlock {
    /// Byte offset of the block's header in the archive.
    pub offset: u64,
    /// The payload is compressed and needs a codec.
    pub compressed: bool,
    /// The payload exactly as stored, not expanded.
    pub data: Vec<u8>,
}

/// What reading the raw metadata block at `pos` of `a` yields: its
/// compressed flag, its on-disk payload and the offset just past the
/// block, or `Corrupted` for a header or payload that runs past the
/// buffer, an empty payload or an oversized payload.
pub open spec fn spec_raw_block(a: Seq<u8>, pos: int, op: Operation) -> Result<
    (bool, Seq<u8>, int),
    SqfsError,
> {
    if pos < 0 || pos + 2 > a.len() {
        Err(SqfsError::LibraryError(op, LibError::Corrupted))
    } else {
        let h = spec_meta_header(le16_at(a, pos));
        if h.on_disk_size == 0 || h.on_disk_size > META_BLOCK_PAYLOAD_MAX || pos + 2
            + h.on_disk_size > a.len() {
            Err(SqfsError::LibraryError(op, LibError::Corrupted))
        } else {
            Ok(
                (
                    h.compressed,
                    a.subrange(pos + 2, pos + 2 + h.on_disk_size),
                    pos + 2 + h.on_disk_size,
                ),
            )
        }
    }
}

/// Reads the raw metadata block at `pos`: its compressed flag, its on-disk
/// payload, and the offset just past the block.  This is what a codec is
/// handed for a compressed block.
pub fn read_raw_meta_block(archive: &[u8], pos: u64, op: Operation) -> (r: Result<
    (bool, Vec<u8>, u64),
    SqfsError,
>)
    ensures
        match r {
            Ok(v) => spec_raw_block(archive@, pos as int, op) == Ok::<_, SqfsError>(
                (v.0, v.1@, v.2 as int),
            ),
            Err(e) => spec_raw_block(archive@, pos as int, op) == Err::<
                (bool, Seq<u8>, int),
                _,
            >(e),
        },
{
    let n = archive.len();
    if n < 2 || pos > (n - 2) as u64 {
        return Err(SqfsError::LibraryError(op, LibError::Corrupted));
    }
    let p = pos as usize;
    let h = decode_meta_header(read_u16(archive, p));
    if h.on_disk_size == 0 || h.on_disk_size > META_BLOCK_PAYLOAD_MAX {
        return Err(SqfsError::LibraryError(op, LibError::Corrupted));
    }
    let size = h.on_disk_size as usize;
    if size > n - (p + 2) {
        return Err(SqfsError::LibraryError(op, LibError::Corrupted));
    }
    let payload = copy_bytes(archive, p + 2, size);
    Ok((h.compressed, payload, (p + 2 + size) as u64))
}

/// Externally expanded metadata payloads: for each compressed metadata
/// block, the bytes the codec produced for it, keyed by the block's byte
/// offset in the archive.  The codecs themselves are outside
/// collaborators; the library decides which blocks need one, hands their
/// raw payloads out, and assembles streams from whatever came back.  An
/// archive whose metadata is entirely stored needs no entries at all.
pub struct MetaExpansions {
    /// Pairs of block offset and expanded payload; the first entry for an
    /// offset is the one that counts.
    pub entries: Vec<(u64, Vec<u8>)>,
}

/// The expanded payload recorded for block offset `off` at or after entry
/// `idx`, first match first.
pub open spec fn spec_expansion_from(
    x: Seq<(u64, Vec<u8>)>,
    idx: int,
    off: u64,
) -> Option<Seq<u8>>
    decreases x.len() - idx,
{
    if idx < 0 || idx >= x.len() {
        None
    } else if x[idx].0 == off {
        Some(x[idx].1@)
    } else {
        spec_expansion_from(x, idx + 1, off)
    }
}

/// The expanded payload recorded for block offset `off`, if any.
pub open spec fn spec_expansion_of(x: Seq<(u64, Vec<u8>)>, off: u64) -> Option<Seq<u8>> {
    spec_expansion_from(x, 0, off)
}

impl View for MetaExpansions {
    type V = Seq<(u64, Vec<u8>)>;

    open spec fn view(&self) -> Seq<(u64, Vec<u8>)> {
        self.entries@
    }
}

impl MetaExpansions {
    /// No expansions: enough for an archive whose metadata is stored.
    pub fn new() -> (r: MetaExpansions)
        ensures
            r@ == Seq::<(u64, Vec<u8>)>::empty(),
    {
        MetaExpansions { entries: Vec::new() }
    }

    /// Records the expanded payload of the block at `offset`.
    pub fn add(&mut self, offset: u64, data: Vec<u8>)
        ensures
            final(self)@ == old(self)@.push((offset, data)),
    {
        self.entries.push((offset, data));
    }

    /// The expanded payload recorded for block offset `off`, if any.
    pub fn lookup(&self, off: u64) -> (r: Option<Vec<u8>>)
        ensures
            match r {
                Some(d) => spec_expansion_of(self@, off) == Some(d@),
                None => spec_expansion_of(self@, off) is None,
            },
    {
        let n = self.entries.len();
        let mut i: usize = 0;
        while i < n
            invariant
                i <= n,
                n == self@.len(),
                spec_expansion_of(self@, off) == spec_expansion_from(self@, i as int, off),
            decreases n - i,
        {
            if self.entries[i].0 == off {
                let d = copy_bytes(self.entries[i].1.as_slice(), 0, self.entries[i].1.len());
                proof {
                    assert(d@ =~= self@[i as int].1@);
                }
                return Some(d);
            }
            i = i + 1;
        }
        None
    }
}

/// What the metadata block at `pos` of `a` contributes to its stream,
/// under the expansions `x`: the stored payload as it lies, or the
/// recorded expansion of a compressed payload, with the offset just past
/// the block.  A compressed block without a recorded expansion is a
/// `Compressor` failure; an expansion that is empty or over the block
/// payload limit is corruption.
pub open spec fn spec_meta_block(
    a: Seq<u8>,
    pos: int,
    x: Seq<(u64, Vec<u8>)>,
    op: Operation,
) -> Result<(Seq<u8>, int), SqfsError> {
    match spec_raw_block(a, pos, op) {
        Err(e) => Err(e),
        Ok((compressed, payload, next)) => if !compressed {
            Ok((payload, next))
        } else {
            match spec_expansion_of(x, pos as u64) {
                None => Err(SqfsError::LibraryError(op, LibError::Compressor)),
                Some(d) => if d.len() == 0 || d.len() > META_BLOCK_PAYLOAD_MAX {
                    Err(SqfsError::LibraryError(op, LibError::Corrupted))
                } else {
                    Ok((d, next))
                },
            }
        },
    }
}

/// Reads the one metadata block at `pos` and yields its stream payload:
/// the stored bytes, or the recorded expansion of a compressed block.
pub fn read_meta_block(
    archive: &[u8],
    pos: u64,
    expansions: &MetaExpansions,
    op: Operation,
) -> (r: Result<(Vec<u8>, u64), SqfsError>)
    ensures
        match r {
            Ok(v) => spec_meta_block(archive@, pos as int, expansions@, op) == Ok::<
                _,
                SqfsError,
            >((v.0@, v.1 as int)),
            Err(e) => spec_meta_block(archive@, pos as int, expansions@, op) == Err::<
                (Seq<u8>, int),
                _,
            >(e),
        },
{
    let (compressed, payload, next) = match read_raw_meta_block(archive, pos, op) {
        Ok(v) => v,
        Err(e) => {
            return Err(e);
        },
    };
    if !compressed {
        return Ok((payload, next));
    }
    match expansions.lookup(pos) {
        None => Err(SqfsError::LibraryError(op, LibError::Compressor)),
        Some(d) => {
            if d.len() == 0 || d.len() > META_BLOCK_PAYLOAD_MAX as usize {
                Err(SqfsError::LibraryError(op, LibError::Corrupted))
            } else {
                Ok((d, next))
            }
        },
    }
}

/// A run of consecutive metadata blocks flattened into one logical byte
/// stream, with the start of each block remembered so that a metadata
/// reference, which names a block by its byte offset within the region,
/// can be turned into a stream position.
pub struct MetaStream {
    /// Concatenated payloads of the region's blocks.
    pub data: Vec<u8>,
    /// For each block, its byte offset within the archive and the stream
    /// position its payload begins at, in region order.
    pub blocks: Vec<(u64, usize)>,
}

/// What flattening the metadata region `pos..end` of `a` yields under
/// the expansions `x`, with payload already gathered at stream offset
/// `sof`: the remaining stream bytes and the remaining block index pairs,
/// or the exact error.  Blocks must tile the region exactly; a block's
/// stream payload is the stored bytes or its recorded expansion.
pub open spec fn spec_meta_region(
    a: Seq<u8>,
    pos: u64,
    end: u64,
    sof: usize,
    x: Seq<(u64, Vec<u8>)>,
    op: Operation,
) -> Result<(Seq<u8>, Seq<(u64, usize)>), SqfsError>
    decreases end - pos,
{
    if pos == end {
        Ok((Seq::empty(), Seq::empty()))
    } else if pos > end {
        Err(SqfsError::LibraryError(op, LibError::Corrupted))
    } else {
        match spec_meta_block(a, pos as int, x, op) {
            Err(e) => Err(e),
            Ok((payload, next)) => if next > end || sof + payload.len() > usize::MAX {
                Err(SqfsError::LibraryError(op, LibError::Corrupted))
            } else {
                match spec_meta_region(
                    a,
                    next as u64,
                    end,
                    (sof + payload.len()) as usize,
                    x,
                    op,
                ) {
                    Err(e) => Err(e),
                    Ok((d, bs)) => Ok(
                        (payload + d, Seq::empty().push((pos, sof)) + bs),
                    ),
                }
            },
        }
    }
}

/// Reads the metadata region `start..end` of the archive into one stream.
/// The region must be tiled exactly by metadata blocks; a stored block's
/// payload is taken as it lies, a compressed block's from its recorded
/// expansion.  A compressed block with no recorded expansion is a
/// `Compressor` failure, anything malformed is `Corrupted`.
pub fn read_meta_region(
    archive: &[u8],
    start: u64,
    end: u64,
    expansions: &MetaExpansions,
    op: Operation,
) -> (r: Result<MetaStream, SqfsError>)
    ensures
        match r {
            Ok(ms) => spec_meta_region(archive@, start, end, 0, expansions@, op) == Ok::<
                _,
                SqfsError,
            >((ms.data@, ms.blocks@)),
            Err(e) => spec_meta_region(archive@, start, end, 0, expansions@, op) == Err::<
                (Seq<u8>, Seq<(u64, usize)>),
                _,
            >(e),
        },
{
    let mut data: Vec<u8> = Vec::new();
    let mut blocks: Vec<(u64, usize)> = Vec::new();
    let mut cur: u64 = start;
    loop
        invariant
            data@.len() <= usize::MAX,
            match spec_meta_region(archive@, start, end, 0, expansions@, op) {
                Ok(whole) => match spec_meta_region(
                    archive@,
                    cur,
                    end,
                    data@.len() as usize,
                    expansions@,
                    op,
                ) {
                    Ok(rest) => whole.0 == data@ + rest.0 && whole.1 == blocks@ + rest.1,
                    Err(_) => false,
                },
                Err(e) => spec_meta_region(
                    archive@,
                    cur,
                    end,
                    data@.len() as usize,
                    expansions@,
                    op,
                ) == Err::<(Seq<u8>, Seq<(u64, usize)>), _>(e),
            },
        decreases
            if cur <= end {
                end - cur
            } else {
                0
            },
    {
        if cur == end {
            proof {
                let rest = spec_meta_region(archive@, cur, end, data@.len() as usize, expansions@, op);
                if spec_meta_region(archive@, start, end, 0, expansions@, op) is Ok {
                    let whole = spec_meta_region(archive@, start, end, 0, expansions@, op).unwrap();
                    assert(whole.0 =~= data@);
                    assert(whole.1 =~= blocks@);
                }
            }
            return Ok(MetaStream { data, blocks });
        }
        if cur > end {
            return Err(SqfsError::LibraryError(op, LibError::Corrupted));
        }
        let sof = data.len();
        let ghost old_data = data@;
        let ghost old_blocks = blocks@;
        match read_meta_block(archive, cur, expansions, op) {
            Err(e) => {
                return Err(e);
            },
            Ok((mut payload, next)) => {
                if next > end {
                    return Err(SqfsError::LibraryError(op, LibError::Corrupted));
                }
                if payload.len() > usize::MAX - sof {
                    return Err(SqfsError::LibraryError(op, LibError::Corrupted));
                }
                let ghost payload_view = payload@;
                blocks.push((cur, sof));
                data.append(&mut payload);
                proof {
                    assert(data@.len() == sof + payload_view.len());
                }
                proof {
                    let inner = spec_meta_region(
                        archive@,
                        next,
                        end,
                        data@.len() as usize,
                        expansions@,
                        op,
                    );
                    match spec_meta_region(archive@, cur, end, sof as usize, expansions@, op) {
                        Ok(rest) => {
                            match inner {
                                Ok(inner_ok) => {
                                    assert(rest.0 =~= payload_view + inner_ok.0);
                                    assert(rest.1 =~= Seq::empty().push(
                                        (cur, sof),
                                    ) + inner_ok.1);
                                    assert(old_data + rest.0 =~= data@ + inner_ok.0);
                                    assert(old_blocks + rest.1 =~= blocks@ + inner_ok.1);
                                },
                                Err(_) => {},
                            }
                        },
                        Err(_) => {},
                    }
                }
                cur = next;
            },
        }
    }
}

/// What collecting the raw metadata blocks of region `pos..end` of `a`
/// yields: each block's offset, compressed flag and on-disk payload, in
/// region order, or the exact error.  Blocks must tile the region
/// exactly.  Nothing here needs a codec: this is the survey a codec's
/// caller works from.
pub open spec fn spec_raw_region(a: Seq<u8>, pos: u64, end: u64, op: Operation) -> Result<
    Seq<(u64, bool, Seq<u8>)>,
    SqfsError,
>
    decreases end - pos,
{
    if pos == end {
        Ok(Seq::empty())
    } else if pos > end {
        Err(SqfsError::LibraryError(op, LibError::Corrupted))
    } else {
        match spec_raw_block(a, pos as int, op) {
            Err(e) => Err(e),
            Ok((compressed, payload, next)) => if next > end {
                Err(SqfsError::LibraryError(op, LibError::Corrupted))
            } else {
                match spec_raw_region(a, next as u64, end, op) {
                    Err(e) => Err(e),
                    Ok(rest) => Ok(Seq::empty().push((pos, compressed, payload)) + rest),
                }
            },
        }
    }
}

/// Collects the raw metadata blocks of the region `start..end`, in region
/// order, without expanding anything: the blocks whose flag is set are
/// the ones a codec must expand before the region can be assembled.
pub fn raw_blocks_in_region(archive: &[u8], start: u64, end: u64, op: Operation) -> (r: Result<
    Vec<RawMetaBlock>,
    SqfsError,
>)
    ensures
        match r {
            Ok(v) => match spec_raw_region(archive@, start, end, op) {
                Ok(ws) => v@.len() == ws.len() && forall|i: int|
                    0 <= i < ws.len() ==> ((#[trigger] v@[i]).offset, v@[i].compressed,
                    v@[i].data@) == ws[i],
                Err(_) => false,
            },
            Err(e) => spec_raw_region(archive@, start, end, op) == Err::<
                Seq<(u64, bool, Seq<u8>)>,
                _,
            >(e),
        },
{
    let mut out: Vec<RawMetaBlock> = Vec::new();
    let mut cur: u64 = start;
    loop
        invariant
            match spec_raw_region(archive@, start, end, op) {
                Ok(whole) => match spec_raw_region(archive@, cur, end, op) {
                    Ok(rest) => whole.len() == out@.len() + rest.len() && (forall|i: int|
                        0 <= i < out@.len() ==> ((#[trigger] out@[i]).offset, out@[i].compressed,
                        out@[i].data@) == whole[i]) && (forall|i: int|
                        0 <= i < rest.len() ==> whole[out@.len() + i] == rest[i]),
                    Err(_) => false,
                },
                Err(e) => spec_raw_region(archive@, cur, end, op) == Err::<
                    Seq<(u64, bool, Seq<u8>)>,
                    _,
                >(e),
            },
        decreases
            if cur <= end {
                end - cur
            } else {
                0
            },
    {
        if cur == end {
            return Ok(out);
        }
        if cur > end {
            return Err(SqfsError::LibraryError(op, LibError::Corrupted));
        }
        let (compressed, data, next) = match read_raw_meta_block(archive, cur, op) {
            Ok(v) => v,
            Err(e) => {
                return Err(e);
            },
        };
        if next > end {
            return Err(SqfsError::LibraryError(op, LibError::Corrupted));
        }
        let ghost data_view = data@;
        let ghost out_before = out@;
        out.push(RawMetaBlock { offset: cur, compressed, data });
        proof {
            if spec_raw_region(archive@, start, end, op) is Ok {
                let whole = spec_raw_region(archive@, start, end, op).unwrap();
                let rest_here = spec_raw_region(archive@, cur, end, op).unwrap();
                let rest_next = spec_raw_region(archive@, next, end, op);
                assert(rest_next is Ok);
                assert(rest_here =~= Seq::empty().push((cur, compressed, data_view))
                    + rest_next.unwrap());
                assert(rest_here[0] == (cur, compressed, data_view));
                assert forall|i: int| 0 <= i < rest_next.unwrap().len() implies whole[out@.len()
                    + i] == rest_next.unwrap()[i] by {
                    assert(whole[out_before.len() + (i + 1)] == rest_here[i + 1]);
                    assert(rest_here[i + 1] == rest_next.unwrap()[i]);
                }
            }
        }
        cur = next;
    }
}

/// What collecting the raw metadata blocks at the table locations
/// `locs[idx..]` of `a` yields: one block per location, in list order, or
/// the exact error.
pub open spec fn spec_raw_at_locations(
    a: Seq<u8>,
    locs: Seq<u64>,
    idx: int,
    op: Operation,
) -> Result<Seq<(u64, bool, Seq<u8>)>, SqfsError>
    decreases locs.len() - idx,
{
    if idx < 0 || idx >= locs.len() {
        Ok(Seq::empty())
    } else {
        match spec_raw_block(a, locs[idx] as int, op) {
            Err(e) => Err(e),
            Ok((compressed, payload, _)) => match spec_raw_at_locations(a, locs, idx + 1, op) {
                Err(e) => Err(e),
                Ok(rest) => Ok(Seq::empty().push((locs[idx], compressed, payload)) + rest),
            },
        }
    }
}

/// Collects the raw metadata block at each table location, in list order,
/// without expanding anything.
pub fn raw_blocks_at_locations(archive: &[u8], locs: &Vec<u64>, op: Operation) -> (r: Result<
    Vec<RawMetaBlock>,
    SqfsError,
>)
    ensures
        match r {
            Ok(v) => match spec_raw_at_locations(archive@, locs@, 0, op) {
                Ok(ws) => v@.len() == ws.len() && forall|i: int|
                    0 <= i < ws.len() ==> ((#[trigger] v@[i]).offset, v@[i].compressed,
                    v@[i].data@) == ws[i],
                Err(_) => false,
            },
            Err(e) => spec_raw_at_locations(archive@, locs@, 0, op) == Err::<
                Seq<(u64, bool, Seq<u8>)>,
                _,
            >(e),
        },
{
    let n = locs.len();
    let mut out: Vec<RawMetaBlock> = Vec::new();
    let mut idx: usize = 0;
    while idx < n
        invariant
            idx <= n,
            n == locs@.len(),
            match spec_raw_at_locations(archive@, locs@, 0, op) {
                Ok(whole) => match spec_raw_at_locations(archive@, locs@, idx as int, op) {
                    Ok(rest) => whole.len() == out@.len() + rest.len() && (forall|i: int|
                        0 <= i < out@.len() ==> ((#[trigger] out@[i]).offset, out@[i].compressed,
                        out@[i].data@) == whole[i]) && (forall|i: int|
                        0 <= i < rest.len() ==> whole[out@.len() + i] == rest[i]),
                    Err(_) => false,
                },
                Err(e) => spec_raw_at_locations(archive@, locs@, idx as int, op) == Err::<
                    Seq<(u64, bool, Seq<u8>)>,
                    _,
                >(e),
            },
        decreases n - idx,
    {
        let (compressed, data, _next) = match read_raw_meta_block(archive, locs[idx], op) {
            Ok(v) => v,
            Err(e) => {
                return Err(e);
            },
        };
        let ghost data_view = data@;
        let ghost out_before = out@;
        out.push(RawMetaBlock { offset: locs[idx], compressed, data });
        proof {
            if spec_raw_at_locations(archive@, locs@, 0, op) is Ok {
                let whole = spec_raw_at_locations(archive@, locs@, 0, op).unwrap();
                let rest_here = spec_raw_at_locations(archive@, locs@, idx as int, op).unwrap();
                let rest_next = spec_raw_at_locations(archive@, locs@, idx as int + 1, op);
                assert(rest_next is Ok);
                assert(rest_here =~= Seq::empty().push(
                    (locs@[idx as int], compressed, data_view),
                ) + rest_next.unwrap());
                assert(rest_here[0] == (locs@[idx as int], compressed, data_view));
                assert forall|i: int| 0 <= i < rest_next.unwrap().len() implies whole[out@.len()
                    + i] == rest_next.unwrap()[i] by {
                    assert(whole[out_before.len() + (i + 1)] == rest_here[i + 1]);
                    assert(rest_here[i + 1] == rest_next.unwrap()[i]);
                }
            }
        }
        idx = idx + 1;
    }
    Ok(out)
}

/// What reading `count` 64-bit block locations at `start` of `a` yields:
/// the location list, or `Corrupted` when the list runs past the buffer.
pub open spec fn spec_location_list(a: Seq<u8>, start: int, count: int, op: Operation) -> Result<
    Seq<u64>,
    SqfsError,
> {
    if start < 0 || count < 0 || start + 8 * count > a.len() {
        Err(SqfsError::LibraryError(op, LibError::Corrupted))
    } else {
        Ok(Seq::new(count as nat, |i: int| le64_at(a, start + 8 * i)))
    }
}

/// Reads the list of `count` metadata block locations stored at `start`:
/// a packed run of 64-bit offsets, one per block of a table.
pub fn read_location_list(archive: &[u8], start: u64, count: usize, op: Operation) -> (r: Result<
    Vec<u64>,
    SqfsError,
>)
    ensures
        match r {
            Ok(v) => spec_location_list(archive@, start as int, count as int, op) == Ok::<
                _,
                SqfsError,
            >(v@),
            Err(e) => spec_location_list(archive@, start as int, count as int, op) == Err::<
                Seq<u64>,
                _,
            >(e),
        },
{
    let n = archive.len();
    if count > n / 8 {
        return Err(SqfsError::LibraryError(op, LibError::Corrupted));
    }
    let need = 8 * count;
    if start > (n - need) as u64 {
        return Err(SqfsError::LibraryError(op, LibError::Corrupted));
    }
    let s = start as usize;
    let mut out: Vec<u64> = Vec::new();
    let mut i: usize = 0;
    while i < count
        invariant
            i <= count,
            s + 8 * count <= archive@.len(),
            archive@.len() <= usize::MAX,
            out@.len() == i,
            forall|j: int| 0 <= j < i ==> out@[j] == le64_at(archive@, s + 8 * j),
        decreases count - i,
    {
        out.push(read_u64(archive, s + 8 * i));
        i = i + 1;
    }
    proof {
        assert(out@ =~= spec_location_list(archive@, start as int, count as int, op).unwrap());
    }
    Ok(out)
}

/// The stream position of the first block pair at or after `idx` whose
/// archive offset is `target`.
pub open spec fn spec_stream_pos(blocks: Seq<(u64, usize)>, idx: int, target: u64) -> Option<
    usize,
>
    decreases blocks.len() - idx,
{
    if idx < 0 || idx >= blocks.len() {
        None
    } else if blocks[idx].0 == target {
        Some(blocks[idx].1)
    } else {
        spec_stream_pos(blocks, idx + 1, target)
    }
}

/// A found stream position names a block pair of the list.
pub proof fn lemma_stream_pos_found(blocks: Seq<(u64, usize)>, idx: int, target: u64)
    requires
        spec_stream_pos(blocks, idx, target) is Some,
    ensures
        exists|i: int|
            idx <= i < blocks.len() && blocks[i] == (
            target,
            spec_stream_pos(blocks, idx, target).unwrap(),
            ),
    decreases blocks.len() - idx,
{
    if 0 <= idx < blocks.len() && blocks[idx].0 != target {
        lemma_stream_pos_found(blocks, idx + 1, target);
    }
}

impl MetaStream {
    /// The stream position of the metadata block at byte offset `target`
    /// of the archive, if the region holds such a block: the first match,
    /// in region order.
    pub fn find_block(&self, target: u64) -> (r: Option<usize>)
        ensures
            r == spec_stream_pos(self.blocks@, 0, target),
    {
        let n = self.blocks.len();
        let mut i: usize = 0;
        while i < n
            invariant
                i <= n,
                n == self.blocks@.len(),
                spec_stream_pos(self.blocks@, 0, target) == spec_stream_pos(
                    self.blocks@,
                    i as int,
                    target,
                ),
            decreases n - i,
        {
            let (off, sof) = self.blocks[i];
            if off == target {
                proof {
                    assert(self.blocks@[i as int] == (target, sof));
                }
                return Some(sof);
            }
            i = i + 1;
        }
        None
    }
}

} // verus!
