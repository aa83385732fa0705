//! The tail-fragment table.
//!
//! Small file tails share packed fragment blocks; the fragment table maps a
//! fragment index to the descriptor of such a block: its start offset, its
//! raw size field (same bit layout as a data block's), and a reserved pad
//! word.  On disk the table is a run of metadata blocks of 16-byte records,
//! reached through a list of block locations.

use crate::blocks::{decode_size_field, spec_compressed, spec_on_disk_size, spec_sparse};
use crate::codec::{le32_at, le64_at, push_u32, push_u64};
use crate::metadata::{spec_location_list, spec_meta_block, spec_raw_at_locations,
    read_location_list, read_meta_block, raw_blocks_at_locations, MetaExpansions, RawMetaBlock};
use crate::super_block::SuperBlock;
use crate::{LibError, Operation, SqfsError};
use vstd::bytes::{spec_u32_to_le_bytes, spec_u64_to_le_bytes};
use vstd::prelude::*;

verus! {

/// Fragment records one metadata block holds at most.
pub const FRAGMENTS_PER_META_BLOCK: usize = 512;

/// Bytes one fragment record occupies on disk.
pub const FRAGMENT_RECORD_BYTES: usize = 16;

/// One tail-fragment descriptor.
#[derive(Clone, Copy, Debug, PartialEq, Eq, Structural)]
pub struct Fragment {
    /// Offset of the fragment block's first byte in the archive.
    pub start_offset: u64,
    /// The raw 32-bit size field, bit layout shared with data blocks.
    pub size: u32,
    /// Reserved pad word, kept as stored.
    pub pad0: u32,
}

impl Default for Fragment {
    /// An all-zero descriptor.
    fn default() -> (r: Fragment)
        ensures
            r == (Fragment { start_offset: 0, size: 0, pad0: 0 }),
    {
        Fragment { start_offset: 0, size: 0, pad0: 0 }
    }
}

impl Fragment {
    /// Offset of the fragment block's first byte in the archive.
    pub fn start_offset(&self) -> (r: u64)
        ensures
            r == self.start_offset,
    {
        self.start_offset
    }

    /// The reserved pad word.
    pub fn pad0(&self) -> (r: u32)
        ensures
            r == self.pad0,
    {
        self.pad0
    }

    /// The raw 32-bit size field as stored on disk.
    pub fn size_field(&self) -> (r: u32)
        ensures
            r == self.size,
    {
        self.size
    }

    /// Bytes the fragment block occupies on disk.
    pub fn on_disk_size(&self) -> (r: u32)
        ensures
            r == spec_on_disk_size(self.size),
    {
        decode_size_field(self.size).on_disk_size
    }

    /// Whether the fragment block is compressed.
    pub fn compressed(&self) -> (r: bool)
        ensures
            r == spec_compressed(self.size),
    {
        decode_size_field(self.size).compressed
    }

    /// Whether the fragment block is sparse.
    pub fn is_sparse(&self) -> (r: bool)
        ensures
            r == spec_sparse(self.size),
    {
        decode_size_field(self.size).is_sparse
    }
}

/// The fragment record packed at byte offset `off` of `b`.
pub open spec fn spec_fragment_at(b: Seq<u8>, off: int) -> Fragment
    recommends
        0 <= off,
        off + FRAGMENT_RECORD_BYTES <= b.len(),
{
    Fragment {
        start_offset: le64_at(b, off),
        size: le32_at(b, off + 8),
        pad0: le32_at(b, off + 12),
    }
}

/// The first `count` fragment records packed in `b`.
pub open spec fn spec_parse_fragments(b: Seq<u8>, count: int) -> Seq<Fragment>
    recommends
        FRAGMENT_RECORD_BYTES * count <= b.len(),
{
    Seq::new(count as nat, |i: int| spec_fragment_at(b, FRAGMENT_RECORD_BYTES * i))
}

/// What decoding `remaining` fragment records from the table blocks
/// `locs[idx..]` of `a` yields: the records in table order, or the exact
/// error.
pub open spec fn spec_fragment_blocks(
    a: Seq<u8>,
    locs: Seq<u64>,
    x: Seq<(u64, Vec<u8>)>,
    idx: int,
    remaining: int,
) -> Result<Seq<Fragment>, SqfsError>
    decreases remaining,
{
    if remaining <= 0 {
        Ok(Seq::empty())
    } else if idx >= locs.len() {
        Err(SqfsError::LibraryError(Operation::ReadingFragmentTable, LibError::Corrupted))
    } else {
        let here = if remaining < FRAGMENTS_PER_META_BLOCK {
            remaining
        } else {
            FRAGMENTS_PER_META_BLOCK as int
        };
        match spec_meta_block(a, locs[idx] as int, x, Operation::ReadingFragmentTable) {
            Err(e) => Err(e),
            Ok((payload, _)) => if payload.len() < FRAGMENT_RECORD_BYTES * here {
                Err(
                    SqfsError::LibraryError(
                        Operation::ReadingFragmentTable,
                        LibError::Corrupted,
                    ),
                )
            } else {
                match spec_fragment_blocks(a, locs, x, idx + 1, remaining - here) {
                    Err(e) => Err(e),
                    Ok(rest) => Ok(spec_parse_fragments(payload, here) + rest),
                }
            },
        }
    }
}

/// What reading the fragment table of an archive yields: the
/// `fragment_entry_count` records the super block announces, in table
/// order, or the exact error.
pub open spec fn spec_fragment_table_read(
    a: Seq<u8>,
    sb: SuperBlock,
    x: Seq<(u64, Vec<u8>)>,
) -> Result<Seq<Fragment>, SqfsError> {
    let count = sb.fragment_entry_count as int;
    let nblocks = count / (FRAGMENTS_PER_META_BLOCK as int) + if count % (
    FRAGMENTS_PER_META_BLOCK as int) == 0 {
        0int
    } else {
        1int
    };
    match spec_location_list(
        a,
        sb.fragment_table_start as int,
        nblocks,
        Operation::ReadingFragmentTable,
    ) {
        Err(e) => Err(e),
        Ok(locs) => spec_fragment_blocks(a, locs, x, 0, count),
    }
}

/// What surveying the fragment table's metadata blocks yields: each
/// block's offset, compressed flag and raw payload, in table order, or
/// the exact error.
pub open spec fn spec_fragment_table_survey(a: Seq<u8>, sb: SuperBlock) -> Result<
    Seq<(u64, bool, Seq<u8>)>,
    SqfsError,
> {
    let count = sb.fragment_entry_count as int;
    let nblocks = count / (FRAGMENTS_PER_META_BLOCK as int) + if count % (
    FRAGMENTS_PER_META_BLOCK as int) == 0 {
        0int
    } else {
        1int
    };
    match spec_location_list(
        a,
        sb.fragment_table_start as int,
        nblocks,
        Operation::ReadingFragmentTable,
    ) {
        Err(e) => Err(e),
        Ok(locs) => spec_raw_at_locations(a, locs, 0, Operation::ReadingFragmentTable),
    }
}

/// The result [`FragmentTable::lookup`] owes for every index: the record
/// at an index inside the table, out of bounds at or past its size.
pub open spec fn spec_fragment_lookup(entries: Seq<Fragment>, index: int) -> Result<
    Fragment,
    SqfsError,
> {
    if 0 <= index < entries.len() {
        Ok(entries[index])
    } else {
        Err(SqfsError::LibraryError(Operation::LookingUpFragment, LibError::OutOfBounds))
    }
}

/// The decoded fragment table: an ordered snapshot of the archive's
/// tail-fragment descriptors, pure reads from then on.
#[derive(Clone, Debug, PartialEq, Eq)]
pub struct FragmentTable {
    /// The records, in table order.
    pub entries: Vec<Fragment>,
}

impl View for FragmentTable {
    type V = Seq<Fragment>;

    open spec fn view(&self) -> Seq<Fragment> {
        self.entries@
    }
}

impl FragmentTable {
    /// An empty table.
    pub fn new() -> (r: FragmentTable)
        ensures
            r@ == Seq::<Fragment>::empty(),
    {
        FragmentTable { entries: Vec::new() }
    }

    /// Reads the fragment table named by the super block: the block
    /// location list, then `fragment_entry_count` 16-byte records from the
    /// table's metadata blocks, drawing the payload of any compressed
    /// block from the supplied expansions.  Fails with `Corrupted` on
    /// truncated data and with `Compressor` on a compressed block that
    /// has no recorded expansion.
    pub fn read(
        archive: &[u8],
        super_block: &SuperBlock,
        expansions: &MetaExpansions,
    ) -> (r: Result<FragmentTable, SqfsError>)
        ensures
            match r {
                Ok(t) => spec_fragment_table_read(archive@, *super_block, expansions@) == Ok::<
                    _,
                    SqfsError,
                >(t@) && t@.len() == super_block.fragment_entry_count,
                Err(e) => spec_fragment_table_read(archive@, *super_block, expansions@)
                    == Err::<Seq<Fragment>, _>(e),
            },
    {
        let count = super_block.fragment_entry_count as usize;
        let nblocks = count / FRAGMENTS_PER_META_BLOCK + if count % FRAGMENTS_PER_META_BLOCK
            == 0 {
            0
        } else {
            1
        };
        let locs = match read_location_list(
            archive,
            super_block.fragment_table_start,
            nblocks,
            Operation::ReadingFragmentTable,
        ) {
            Ok(locs) => locs,
            Err(e) => {
                return Err(e);
            },
        };
        let mut entries: Vec<Fragment> = Vec::new();
        let mut idx: usize = 0;
        let mut remaining: usize = count;
        while remaining > 0
            invariant
                count == super_block.fragment_entry_count,
                remaining <= count,
                entries@.len() == count - remaining,
                spec_location_list(
                    archive@,
                    super_block.fragment_table_start as int,
                    (count as int) / (FRAGMENTS_PER_META_BLOCK as int) + if (count as int)
                        % (FRAGMENTS_PER_META_BLOCK as int) == 0 {
                        0int
                    } else {
                        1int
                    },
                    Operation::ReadingFragmentTable,
                ) == Ok::<_, SqfsError>(locs@),
                match spec_fragment_blocks(archive@, locs@, expansions@, 0, count as int) {
                    Ok(whole) => match spec_fragment_blocks(
                        archive@,
                        locs@,
                        expansions@,
                        idx as int,
                        remaining as int,
                    ) {
                        Ok(rest) => whole == entries@ + rest,
                        Err(_) => false,
                    },
                    Err(e) => spec_fragment_blocks(
                        archive@,
                        locs@,
                        expansions@,
                        idx as int,
                        remaining as int,
                    ) == Err::<Seq<Fragment>, _>(e),
                },
            decreases remaining,
        {
            let here = if remaining < FRAGMENTS_PER_META_BLOCK {
                remaining
            } else {
                FRAGMENTS_PER_META_BLOCK
            };
            if idx >= locs.len() {
                proof {
                    assert(spec_fragment_blocks(
                        archive@,
                        locs@,
                        expansions@,
                        idx as int,
                        remaining as int,
                    ) == Err::<Seq<Fragment>, _>(
                        SqfsError::LibraryError(
                            Operation::ReadingFragmentTable,
                            LibError::Corrupted,
                        ),
                    ));
                }
                return Err(
                    SqfsError::LibraryError(
                        Operation::ReadingFragmentTable,
                        LibError::Corrupted,
                    ),
                );
            }
            let (payload, _next) = match read_meta_block(
                archive,
                locs[idx],
                expansions,
                Operation::ReadingFragmentTable,
            ) {
                Ok(v) => v,
                Err(e) => {
                    return Err(e);
                },
            };
            if payload.len() < FRAGMENT_RECORD_BYTES * here {
                proof {
                    assert(spec_fragment_blocks(
                        archive@,
                        locs@,
                        expansions@,
                        idx as int,
                        remaining as int,
                    ) == Err::<Seq<Fragment>, _>(
                        SqfsError::LibraryError(
                            Operation::ReadingFragmentTable,
                            LibError::Corrupted,
                        ),
                    ));
                }
                return Err(
                    SqfsError::LibraryError(
                        Operation::ReadingFragmentTable,
                        LibError::Corrupted,
                    ),
                );
            }
            let ghost entries_before = entries@;
            let mut i: usize = 0;
            while i < here
                invariant
                    i <= here,
                    FRAGMENT_RECORD_BYTES * here <= payload@.len(),
                    payload@.len() <= usize::MAX,
                    entries@ == entries_before + spec_parse_fragments(payload@, i as int),
                decreases here - i,
            {
                let off = FRAGMENT_RECORD_BYTES * i;
                let f = Fragment {
                    start_offset: crate::codec::read_u64(payload.as_slice(), off),
                    size: crate::codec::read_u32(payload.as_slice(), off + 8),
                    pad0: crate::codec::read_u32(payload.as_slice(), off + 12),
                };
                entries.push(f);
                i = i + 1;
                proof {
                    assert(entries@ =~= entries_before + spec_parse_fragments(
                        payload@,
                        i as int,
                    ));
                }
            }
            proof {
                if spec_fragment_blocks(archive@, locs@, expansions@, 0, count as int) is Ok {
                    let rest_before = spec_fragment_blocks(
                        archive@,
                        locs@,
                        expansions@,
                        idx as int,
                        remaining as int,
                    ).unwrap();
                    let rest_after = spec_fragment_blocks(
                        archive@,
                        locs@,
                        expansions@,
                        idx as int + 1,
                        remaining - here,
                    );
                    assert(rest_after is Ok);
                    assert(entries_before + rest_before =~= entries@ + rest_after.unwrap());
                }
            }
            idx = idx + 1;
            remaining = remaining - here;
        }
        proof {
            assert(spec_fragment_blocks(archive@, locs@, expansions@, idx as int, 0) == Ok::<
                Seq<Fragment>,
                SqfsError,
            >(Seq::empty()));
            if spec_fragment_blocks(archive@, locs@, expansions@, 0, count as int) is Ok {
                assert(spec_fragment_blocks(
                    archive@,
                    locs@,
                    expansions@,
                    0,
                    count as int,
                ).unwrap() =~= entries@);
            }
        }
        Ok(FragmentTable { entries })
    }

    /// Surveys the fragment table's metadata blocks without expanding
    /// anything: the blocks whose compressed flag is set are the ones a
    /// codec must expand, keyed for [`MetaExpansions`] by their offsets,
    /// before [`FragmentTable::read`] can assemble the table.
    pub fn survey(archive: &[u8], super_block: &SuperBlock) -> (r: Result<
        Vec<RawMetaBlock>,
        SqfsError,
    >)
        ensures
            match r {
                Ok(v) => match spec_fragment_table_survey(archive@, *super_block) {
                    Ok(ws) => v@.len() == ws.len() && forall|i: int|
                        0 <= i < ws.len() ==> ((#[trigger] v@[i]).offset, v@[i].compressed,
                        v@[i].data@) == ws[i],
                    Err(_) => false,
                },
                Err(e) => spec_fragment_table_survey(archive@, *super_block) == Err::<
                    Seq<(u64, bool, Seq<u8>)>,
                    _,
                >(e),
            },
    {
        let count = super_block.fragment_entry_count as usize;
        let nblocks = count / FRAGMENTS_PER_META_BLOCK + if count % FRAGMENTS_PER_META_BLOCK
            == 0 {
            0
        } else {
            1
        };
        let locs = match read_location_list(
            archive,
            super_block.fragment_table_start,
            nblocks,
            Operation::ReadingFragmentTable,
        ) {
            Ok(locs) => locs,
            Err(e) => {
                return Err(e);
            },
        };
        raw_blocks_at_locations(archive, &locs, Operation::ReadingFragmentTable)
    }

    /// The record at fragment index `index`: succeeds exactly on the
    /// indices below the table's size, and fails with `OutOfBounds` at or
    /// past it.
    pub fn lookup(&self, index: u32) -> (r: Result<Fragment, SqfsError>)
        ensures
            r == spec_fragment_lookup(self@, index as int),
    {
        if (index as usize) < self.entries.len() {
            Ok(self.entries[index as usize])
        } else {
            Err(SqfsError::LibraryError(Operation::LookingUpFragment, LibError::OutOfBounds))
        }
    }

    /// Number of records in the table.
    pub fn get_size(&self) -> (r: usize)
        ensures
            r == self@.len(),
    {
        self.entries.len()
    }

    /// An iterator over the table's records, from index 0 upward.
    pub fn fragments(&self) -> (r: Fragments<'_>)
        ensures
            r.table@ == self@,
            r.index == 0,
    {
        Fragments { table: self, index: 0 }
    }

    /// The 16-byte records of the table, serialized back to back in table
    /// order: the payload its metadata blocks would carry.
    pub fn write(&self) -> (r: Vec<u8>)
        ensures
            r@ == spec_fragment_table_bytes(self@),
            r@.len() == FRAGMENT_RECORD_BYTES * self@.len(),
    {
        let n = self.entries.len();
        let mut out: Vec<u8> = Vec::new();
        let mut i: usize = 0;
        while i < n
            invariant
                i <= n,
                n == self@.len(),
                out@ == spec_fragment_table_bytes(self@.take(i as int)),
                out@.len() == FRAGMENT_RECORD_BYTES * i,
            decreases n - i,
        {
            let f = self.entries[i];
            push_u64(&mut out, f.start_offset);
            push_u32(&mut out, f.size);
            push_u32(&mut out, f.pad0);
            i = i + 1;
            proof {
                assert(self@.take(i as int).drop_last() =~= self@.take(i - 1));
                assert(self@.take(i as int).last() == self@[i - 1]);
                assert(out@ =~= spec_fragment_table_bytes(self@.take(i as int)));
            }
        }
        proof {
            assert(self@.take(n as int) =~= self@);
        }
        out
    }
}

/// The bytes a fragment record serializes to.
pub open spec fn spec_fragment_bytes(f: Fragment) -> Seq<u8> {
    spec_u64_to_le_bytes(f.start_offset) + spec_u32_to_le_bytes(f.size) + spec_u32_to_le_bytes(
        f.pad0,
    )
}

/// The bytes a whole record sequence serializes to, back to back.
pub open spec fn spec_fragment_table_bytes(entries: Seq<Fragment>) -> Seq<u8>
    decreases entries.len(),
{
    if entries.len() == 0 {
        Seq::empty()
    } else {
        spec_fragment_table_bytes(entries.drop_last()) + spec_fragment_bytes(entries.last())
    }
}

/// An iterator over a fragment table; each step looks up the next index,
/// so iteration order is exactly lookup order.
pub struct Fragments<'a> {
    /// The table iterated over.
    pub table: &'a FragmentTable,
    /// Index of the record the next step yields.
    pub index: usize,
}

impl<'a> Fragments<'a> {
    /// The next record, in index order; `None` once past the table's size.
    pub fn next(&mut self) -> (r: Option<Fragment>)
        ensures
            final(self).table == old(self).table,
            old(self).index < old(self).table@.len() ==> r == Some(
                old(self).table@[old(self).index as int],
            ) && final(self).index == old(self).index + 1,
            old(self).index >= old(self).table@.len() ==> r is None && final(self).index == old(
                self,
            ).index,
    {
        if self.index < self.table.entries.len() {
            let f = self.table.entries[self.index];
            self.index = self.index + 1;
            Some(f)
        } else {
            None
        }
    }

    /// How many records a full iteration still yields.
    pub fn remaining(&self) -> (r: usize)
        ensures
            self.index <= self.table@.len() ==> r == self.table@.len() - self.index,
            self.index > self.table@.len() ==> r == 0,
    {
        let n = self.table.entries.len();
        if self.index <= n {
            n - self.index
        } else {
            0
        }
    }
}

/// Point lookup agrees with iteration: every index below the table's size
/// succeeds and yields the record iteration yields at that step, and the
/// lookup just past the last index fails with an out-of-bounds kind.
pub proof fn lemma_fragment_lookup_matches_iteration(t: FragmentTable)
    ensures
        forall|i: int|
            0 <= i < t@.len() ==> #[trigger] spec_fragment_lookup(t@, i) == Ok::<_, SqfsError>(
                t@[i],
            ),
        spec_fragment_lookup(t@, t@.len() as int) == Err::<Fragment, _>(
            SqfsError::LibraryError(Operation::LookingUpFragment, LibError::OutOfBounds),
        ),
{
}

/// Serializing a table and re-parsing the bytes yields the records
/// unchanged: [`FragmentTable::write`] mirrors the table decoding that
/// [`FragmentTable::read`] performs per block.
pub proof fn lemma_fragment_write_read_round_trip(entries: Seq<Fragment>)
    ensures
        spec_parse_fragments(
            spec_fragment_table_bytes(entries),
            entries.len() as int,
        ) =~= entries,
    decreases entries.len(),
{
    vstd::bytes::lemma_auto_spec_u32_to_from_le_bytes();
    vstd::bytes::lemma_auto_spec_u64_to_from_le_bytes();
    let b = spec_fragment_table_bytes(entries);
    lemma_fragment_table_bytes_len(entries);
    if entries.len() == 0 {
    } else {
        let prefix = entries.drop_last();
        lemma_fragment_write_read_round_trip(prefix);
        lemma_fragment_table_bytes_len(prefix);
        let pb = spec_fragment_table_bytes(prefix);
        let lb = spec_fragment_bytes(entries.last());
        assert forall|i: int| 0 <= i < entries.len() implies spec_fragment_at(
            b,
            FRAGMENT_RECORD_BYTES * i,
        ) == entries[i] by {
            if i < entries.len() - 1 {
                assert(spec_fragment_at(pb, FRAGMENT_RECORD_BYTES * i) == prefix[i]);
                let off = FRAGMENT_RECORD_BYTES * i;
                assert(b.subrange(off, off + 8) =~= pb.subrange(off, off + 8));
                assert(b.subrange(off + 8, off + 12) =~= pb.subrange(off + 8, off + 12));
                assert(b.subrange(off + 12, off + 16) =~= pb.subrange(off + 12, off + 16));
            } else {
                let off = FRAGMENT_RECORD_BYTES * i;
                assert(b.subrange(off, off + 8) =~= spec_u64_to_le_bytes(
                    entries.last().start_offset,
                ));
                assert(b.subrange(off + 8, off + 12) =~= spec_u32_to_le_bytes(
                    entries.last().size,
                ));
                assert(b.subrange(off + 12, off + 16) =~= spec_u32_to_le_bytes(
                    entries.last().pad0,
                ));
            }
        }
    }
}

/// Length of a serialized record sequence.
pub proof fn lemma_fragment_table_bytes_len(entries: Seq<Fragment>)
    ensures
        spec_fragment_table_bytes(entries).len() == FRAGMENT_RECORD_BYTES * entries.len(),
    decreases entries.len(),
{
    vstd::bytes::lemma_auto_spec_u32_to_from_le_bytes();
    vstd::bytes::lemma_auto_spec_u64_to_from_le_bytes();
    if entries.len() == 0 {
    } else {
        lemma_fragment_table_bytes_len(entries.drop_last());
    }
}

} // verus!
