//! The user/group id table.
//!
//! Ownership fields of an inode are small indices into a table of 32-bit
//! numeric ids.  On disk the table is a run of metadata blocks, each
//! holding up to 2048 ids, reached through a list of block locations at
//! the super block's id-table offset.

use crate::codec::le32_at;
use crate::metadata::{spec_location_list, spec_meta_block, spec_raw_at_locations,
    read_location_list, read_meta_block, raw_blocks_at_locations, MetaExpansions, RawMetaBlock};
use crate::super_block::SuperBlock;
use crate::{LibError, Operation, SqfsError};
use vstd::prelude::*;

verus! {

/// Ids one metadata block holds at most.
pub const IDS_PER_META_BLOCK: usize = 2048;

/// The first `count` 32-bit little-endian values packed in `b`.
pub open spec fn spec_parse_u32s(b: Seq<u8>, count: int) -> Seq<u32>
    recommends
        4 * count <= b.len(),
{
    Seq::new(count as nat, |i: int| le32_at(b, 4 * i))
}

/// What decoding `remaining` ids from the table blocks `locs[idx..]` of
/// `a` yields: the ids in table order, or the exact error.  Each block
/// but the last carries exactly 2048 ids; a block whose payload is too
/// short for its share is corruption.
pub open spec fn spec_id_blocks(
    a: Seq<u8>,
    locs: Seq<u64>,
    x: Seq<(u64, Vec<u8>)>,
    idx: int,
    remaining: int,
) -> Result<Seq<u32>, SqfsError>
    decreases remaining,
{
    if remaining <= 0 {
        Ok(Seq::empty())
    } else if idx >= locs.len() {
        Err(SqfsError::LibraryError(Operation::ReadingIdTable, LibError::Corrupted))
    } else {
        let here = if remaining < IDS_PER_META_BLOCK { remaining } else { IDS_PER_META_BLOCK as int };
        match spec_meta_block(a, locs[idx] as int, x, Operation::ReadingIdTable) {
            Err(e) => Err(e),
            Ok((payload, _)) => if payload.len() < 4 * here {
                Err(SqfsError::LibraryError(Operation::ReadingIdTable, LibError::Corrupted))
            } else {
                match spec_id_blocks(a, locs, x, idx + 1, remaining - here) {
                    Err(e) => Err(e),
                    Ok(rest) => Ok(spec_parse_u32s(payload, here) + rest),
                }
            },
        }
    }
}

/// What reading the id table of an archive yields: the `id_count` ids the
/// super block announces, in table order, or the exact error.
pub open spec fn spec_id_table_read(
    a: Seq<u8>,
    sb: SuperBlock,
    x: Seq<(u64, Vec<u8>)>,
) -> Result<Seq<u32>, SqfsError> {
    let count = sb.id_count as int;
    let nblocks = count / (IDS_PER_META_BLOCK as int) + if count % (IDS_PER_META_BLOCK as int)
        == 0 {
        0int
    } else {
        1int
    };
    match spec_location_list(a, sb.id_table_start as int, nblocks, Operation::ReadingIdTable) {
        Err(e) => Err(e),
        Ok(locs) => spec_id_blocks(a, locs, x, 0, count),
    }
}

/// What surveying the id table's metadata blocks yields: each block's
/// offset, compressed flag and raw payload, in table order, or the exact
/// error.
pub open spec fn spec_id_table_survey(a: Seq<u8>, sb: SuperBlock) -> Result<
    Seq<(u64, bool, Seq<u8>)>,
    SqfsError,
> {
    let count = sb.id_count as int;
    let nblocks = count / (IDS_PER_META_BLOCK as int) + if count % (IDS_PER_META_BLOCK as int)
        == 0 {
        0int
    } else {
        1int
    };
    match spec_location_list(a, sb.id_table_start as int, nblocks, Operation::ReadingIdTable) {
        Err(e) => Err(e),
        Ok(locs) => spec_raw_at_locations(a, locs, 0, Operation::ReadingIdTable),
    }
}

/// The decoded index-to-id table: an ordered snapshot of the archive's
/// numeric ids, pure reads from then on.
#[derive(Clone, Debug, PartialEq, Eq)]
pub struct IdTable {
    /// The ids, indexed as the inode ownership fields do.
    pub ids: Vec<u32>,
}

impl View for IdTable {
    type V = Seq<u32>;

    open spec fn view(&self) -> Seq<u32> {
        self.ids@
    }
}

impl IdTable {
    /// Reads the id table named by the super block: the block location
    /// list, then `id_count` 32-bit ids from the table's metadata blocks,
    /// drawing the payload of any compressed block from the supplied
    /// expansions.  Fails with `Corrupted` on truncated data and with
    /// `Compressor` on a compressed block that has no recorded expansion.
    pub fn read(
        archive: &[u8],
        super_block: &SuperBlock,
        expansions: &MetaExpansions,
    ) -> (r: Result<IdTable, SqfsError>)
        ensures
            match r {
                Ok(t) => spec_id_table_read(archive@, *super_block, expansions@) == Ok::<
                    _,
                    SqfsError,
                >(t@) && t@.len() == super_block.id_count,
                Err(e) => spec_id_table_read(archive@, *super_block, expansions@) == Err::<
                    Seq<u32>,
                    _,
                >(e),
            },
    {
        let count = super_block.id_count as usize;
        let nblocks = count / IDS_PER_META_BLOCK + if count % IDS_PER_META_BLOCK == 0 {
            0
        } else {
            1
        };
        let locs = match read_location_list(
            archive,
            super_block.id_table_start,
            nblocks,
            Operation::ReadingIdTable,
        ) {
            Ok(locs) => locs,
            Err(e) => {
                return Err(e);
            },
        };
        let mut ids: Vec<u32> = Vec::new();
        let mut idx: usize = 0;
        let mut remaining: usize = count;
        while remaining > 0
            invariant
                count == super_block.id_count,
                remaining <= count,
                ids@.len() == count - remaining,
                spec_location_list(
                    archive@,
                    super_block.id_table_start as int,
                    (count as int) / (IDS_PER_META_BLOCK as int) + if (count as int) % (
                    IDS_PER_META_BLOCK as int) == 0 {
                        0int
                    } else {
                        1int
                    },
                    Operation::ReadingIdTable,
                ) == Ok::<_, SqfsError>(locs@),
                match spec_id_blocks(archive@, locs@, expansions@, 0, count as int) {
                    Ok(whole) => match spec_id_blocks(
                        archive@,
                        locs@,
                        expansions@,
                        idx as int,
                        remaining as int,
                    ) {
                        Ok(rest) => whole == ids@ + rest,
                        Err(_) => false,
                    },
                    Err(e) => spec_id_blocks(
                        archive@,
                        locs@,
                        expansions@,
                        idx as int,
                        remaining as int,
                    ) == Err::<Seq<u32>, _>(e),
                },
            decreases remaining,
        {
            let here = if remaining < IDS_PER_META_BLOCK { remaining } else { IDS_PER_META_BLOCK };
            if idx >= locs.len() {
                proof {
                    assert(spec_id_blocks(
                        archive@,
                        locs@,
                        expansions@,
                        idx as int,
                        remaining as int,
                    ) == Err::<Seq<u32>, _>(
                        SqfsError::LibraryError(Operation::ReadingIdTable, LibError::Corrupted),
                    ));
                }
                return Err(
                    SqfsError::LibraryError(Operation::ReadingIdTable, LibError::Corrupted),
                );
            }
            let (payload, _next) = match read_meta_block(
                archive,
                locs[idx],
                expansions,
                Operation::ReadingIdTable,
            ) {
                Ok(v) => v,
                Err(e) => {
                    return Err(e);
                },
            };
            if payload.len() < 4 * here {
                proof {
                    assert(spec_id_blocks(
                        archive@,
                        locs@,
                        expansions@,
                        idx as int,
                        remaining as int,
                    ) == Err::<Seq<u32>, _>(
                        SqfsError::LibraryError(Operation::ReadingIdTable, LibError::Corrupted),
                    ));
                }
                return Err(
                    SqfsError::LibraryError(Operation::ReadingIdTable, LibError::Corrupted),
                );
            }
            let ghost ids_before = ids@;
            let mut i: usize = 0;
            while i < here
                invariant
                    i <= here,
                    4 * here <= payload@.len(),
                    payload@.len() <= usize::MAX,
                    ids@ == ids_before + spec_parse_u32s(payload@, i as int),
                decreases here - i,
            {
                ids.push(crate::codec::read_u32(payload.as_slice(), 4 * i));
                i = i + 1;
                proof {
                    assert(ids@ =~= ids_before + spec_parse_u32s(payload@, i as int));
                }
            }
            proof {
                if spec_id_blocks(archive@, locs@, expansions@, 0, count as int) is Ok {
                let rest_before = spec_id_blocks(
                    archive@,
                    locs@,
                    expansions@,
                    idx as int,
                    remaining as int,
                ).unwrap();
                let rest_after = spec_id_blocks(
                    archive@,
                    locs@,
                    expansions@,
                    idx as int + 1,
                    remaining - here,
                );
                assert(rest_after is Ok);
                assert(ids_before + rest_before =~= ids@ + rest_after.unwrap());
                }
            }
            idx = idx + 1;
            remaining = remaining - here;
        }
        proof {
            assert(spec_id_blocks(archive@, locs@, expansions@, idx as int, 0) == Ok::<
                Seq<u32>,
                SqfsError,
            >(Seq::empty()));
            if spec_id_blocks(archive@, locs@, expansions@, 0, count as int) is Ok {
                assert(spec_id_blocks(archive@, locs@, expansions@, 0, count as int).unwrap()
                    =~= ids@);
            }
        }
        Ok(IdTable { ids })
    }

    /// Surveys the id table's metadata blocks without expanding anything:
    /// the blocks whose compressed flag is set are the ones a codec must
    /// expand, keyed for [`MetaExpansions`] by their offsets, before
    /// [`IdTable::read`] can assemble the table.
    pub fn survey(archive: &[u8], super_block: &SuperBlock) -> (r: Result<
        Vec<RawMetaBlock>,
        SqfsError,
    >)
        ensures
            match r {
                Ok(v) => match spec_id_table_survey(archive@, *super_block) {
                    Ok(ws) => v@.len() == ws.len() && forall|i: int|
                        0 <= i < ws.len() ==> ((#[trigger] v@[i]).offset, v@[i].compressed,
                        v@[i].data@) == ws[i],
                    Err(_) => false,
                },
                Err(e) => spec_id_table_survey(archive@, *super_block) == Err::<
                    Seq<(u64, bool, Seq<u8>)>,
                    _,
                >(e),
            },
    {
        let count = super_block.id_count as usize;
        let nblocks = count / IDS_PER_META_BLOCK + if count % IDS_PER_META_BLOCK == 0 {
            0
        } else {
            1
        };
        let locs = match read_location_list(
            archive,
            super_block.id_table_start,
            nblocks,
            Operation::ReadingIdTable,
        ) {
            Ok(locs) => locs,
            Err(e) => {
                return Err(e);
            },
        };
        raw_blocks_at_locations(archive, &locs, Operation::ReadingIdTable)
    }

    /// The id stored at `index`; fails with `OutOfBounds` at or past the
    /// table's size.
    pub fn lookup(&self, index: usize) -> (r: Result<u32, SqfsError>)
        ensures
            index < self@.len() ==> r == Ok::<_, SqfsError>(self@[index as int]),
            index >= self@.len() ==> r == Err::<u32, _>(
                SqfsError::LibraryError(Operation::LookingUpId, LibError::OutOfBounds),
            ),
    {
        if index < self.ids.len() {
            Ok(self.ids[index])
        } else {
            Err(SqfsError::LibraryError(Operation::LookingUpId, LibError::OutOfBounds))
        }
    }

    /// Number of ids in the table.
    pub fn size(&self) -> (r: usize)
        ensures
            r == self@.len(),
    {
        self.ids.len()
    }
}

} // verus!
