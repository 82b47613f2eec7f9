//! The storage engine: validates and loads header and footer, reads
//! offset-table chunks, and implements the insert-and-grow algorithm for a
//! section's linked list of chunk pages, keeping the footer — whose
//! position is the allocation high-water mark — consistent with every
//! append.
//!
//! The engine works over a byte-addressed page store held as a plain byte
//! vector; every operation is specified exactly as a function of those
//! bytes, so page reads and writes mirror the single-file on-disk layout
//! byte for byte.

use vstd::prelude::*;
use crate::file_layout::{
    spec_chunk_bytes, spec_chunk_of_bytes, spec_default_chunk, spec_default_file,
    spec_footer_bytes, spec_footer_of_bytes, spec_header_of_bytes, spec_magic, ChunkV, FileV,
    NexoraFile, NexoraFooter, NexoraHeader, OffsetItem, OffsetTableChunk, CHUNK_CAPACITY,
    INVALID_OFFSET, PAGE_SIZE,
};

verus! {

/// Structural validation failures: the file is not a valid instance of the
/// format, or an operation was asked to dereference the "absent" sentinel
/// as if it were a real page pointer.
#[derive(Clone, Copy, Debug, PartialEq, Eq, Structural)]
pub enum CorruptedFileError {
    InvalidMagicValue,
    InvalidOffsetValue,
}

/// Everything a fallible engine operation can report: a failure at the
/// underlying read/write boundary, or a corruption condition.
#[derive(Clone, Copy, Debug, PartialEq, Eq, Structural)]
pub enum StorageError {
    Io,
    Corrupted(CorruptedFileError),
}

/// The storage engine: the in-memory header/footer mirror (the source of
/// truth for the next allocation point) together with the byte-addressed
/// page store it owns exclusively.
#[derive(Debug)]
pub struct StorageEngine {
    pub file_layout: NexoraFile,
    pub storage: Vec<u8>,
}

/// The page-sized byte range of `s` starting at `offset`.
pub open spec fn spec_page_at(s: Seq<u8>, offset: int) -> Seq<u8> {
    s.subrange(offset, offset + PAGE_SIZE)
}

/// The store after writing `page` at byte `offset`: bytes in the written
/// range come from `page`, bytes beyond the old end of the store read as
/// zero (the store grows when written past its end), all others are kept.
pub open spec fn spec_write_at(s: Seq<u8>, offset: int, page: Seq<u8>) -> Seq<u8> {
    let end = offset + page.len();
    let n = if s.len() >= end {
        s.len() as int
    } else {
        end
    };
    Seq::new(
        n as nat,
        |i: int|
            if offset <= i < end {
                page[i - offset]
            } else if i < s.len() {
                s[i]
            } else {
                0u8
            },
    )
}

/// What is written at a page offset is what a page read there gives back.
pub proof fn lemma_write_then_read_page(s: Seq<u8>, offset: int, page: Seq<u8>)
    requires
        0 <= offset,
        page.len() == PAGE_SIZE,
    ensures
        spec_page_at(spec_write_at(s, offset, page), offset) == page,
{
    assert(spec_page_at(spec_write_at(s, offset, page), offset) =~= page);
}

/// Writing one page leaves every other whole page of the store as it was.
pub proof fn lemma_write_preserves_disjoint_page(
    s: Seq<u8>,
    write_offset: int,
    page: Seq<u8>,
    read_offset: int,
)
    requires
        0 <= write_offset,
        0 <= read_offset,
        page.len() == PAGE_SIZE,
        read_offset + PAGE_SIZE <= s.len(),
        read_offset + PAGE_SIZE <= write_offset || write_offset + PAGE_SIZE <= read_offset,
    ensures
        spec_page_at(spec_write_at(s, write_offset, page), read_offset) == spec_page_at(
            s,
            read_offset,
        ),
{
    assert(spec_page_at(spec_write_at(s, write_offset, page), read_offset) =~= spec_page_at(
        s,
        read_offset,
    ));
}

/// Writes `page` into `storage` at byte `offset`, growing the store (with
/// zero fill) when the range reaches past its current end.
fn write_at(storage: &mut Vec<u8>, offset: usize, page: &Vec<u8>)
    requires
        offset + page@.len() <= usize::MAX,
    ensures
        final(storage)@ == spec_write_at(old(storage)@, offset as int, page@),
{
    let end = offset + page.len();
    while storage.len() < end
        invariant
            end <= usize::MAX,
            storage@.len() >= old(storage)@.len(),
            storage@.len() <= end || storage@.len() == old(storage)@.len(),
            storage@.subrange(0, old(storage)@.len() as int) == old(storage)@,
            forall|i: int| old(storage)@.len() <= i < storage@.len() ==> storage@[i] == 0u8,
        decreases end - storage@.len(),
    {
        storage.push(0u8);
        proof {
            assert(storage@.subrange(0, old(storage)@.len() as int) =~= old(storage)@);
        }
    }
    let ghost base = storage@;
    proof {
        assert(base.len() == if old(storage)@.len() >= end { old(storage)@.len() as int } else { end as int });
    }
    let mut i: usize = 0;
    while i < page.len()
        invariant
            i <= page@.len(),
            end == offset + page@.len(),
            end <= usize::MAX,
            offset + page@.len() <= base.len(),
            storage@.len() == base.len(),
            base.len() == (if old(storage)@.len() >= end {
                old(storage)@.len() as int
            } else {
                end as int
            }),
            base.subrange(0, old(storage)@.len() as int) == old(storage)@,
            forall|j: int| old(storage)@.len() <= j < base.len() ==> base[j] == 0u8,
            forall|j: int|
                0 <= j < base.len() && !(offset <= j < offset + i) ==> storage@[j] == base[j],
            forall|j: int| offset <= j < offset + i ==> storage@[j] == page@[j - offset],
        decreases page@.len() - i,
    {
        let b = page[i];
        storage[offset + i] = b;
        i = i + 1;
    }
    proof {
        let result = spec_write_at(old(storage)@, offset as int, page@);
        assert(storage@.len() == result.len());
        assert forall|j: int| 0 <= j < result.len() implies storage@[j] == result[j] by {
            if offset <= j < end {
                assert(storage@[j] == page@[j - offset]);
            } else if j < old(storage)@.len() {
                assert(storage@[j] == base[j]);
                assert(base[j] == base.subrange(0, old(storage)@.len() as int)[j]);
            } else {
                assert(storage@[j] == base[j]);
                assert(base[j] == 0u8);
            }
        }
        assert(storage@ =~= result);
    }
}

/// Reads the page at byte `offset` of `storage`; `None` when the page
/// range reaches past the end of the store.
fn read_page(storage: &Vec<u8>, offset: u64) -> (r: Option<Vec<u8>>)
    ensures
        offset + PAGE_SIZE <= storage@.len() ==> (r matches Some(page) && page@ == spec_page_at(
            storage@,
            offset as int,
        )),
        offset + PAGE_SIZE > storage@.len() ==> r is None,
{
    let len = storage.len();
    if len >= PAGE_SIZE && offset <= (len - PAGE_SIZE) as u64 {
        let start = offset as usize;
        let window = vstd::slice::slice_subrange(storage.as_slice(), start, start + PAGE_SIZE);
        Some(vstd::slice::slice_to_vec(window))
    } else {
        None
    }
}

impl StorageEngine {
    /// Takes ownership of a page store; the header/footer mirror starts
    /// from the default layout until `load` replaces it with what the
    /// store actually holds.
    pub fn new(storage: Vec<u8>) -> (r: Self)
        ensures
            r.file_layout@ == spec_default_file(),
            r.storage@ == storage@,
    {
        StorageEngine { file_layout: NexoraFile::default(), storage }
    }

    /// Opens a store: checks the header's 6-byte magic signature before
    /// touching anything else, then reads and decodes the header page, then the
    /// footer page at the header's `footer_offset`. On success the
    /// in-memory mirror exactly reflects the two persisted pages.
    pub fn load(storage: Vec<u8>) -> (r: Result<Self, StorageError>)
        ensures
            storage@.len() < 22 ==> r == Err::<Self, StorageError>(StorageError::Io),
            storage@.len() >= 22 && storage@.subrange(16, 22) != spec_magic() ==> r == Err::<
                Self,
                StorageError,
            >(StorageError::Corrupted(CorruptedFileError::InvalidMagicValue)),
            storage@.len() >= 22 && storage@.subrange(16, 22) == spec_magic() && storage@.len()
                < PAGE_SIZE ==> r == Err::<Self, StorageError>(StorageError::Io),
            storage@.len() >= PAGE_SIZE && storage@.subrange(16, 22) == spec_magic() ==> {
                let header = spec_header_of_bytes(spec_page_at(storage@, 0));
                if header.footer_offset + PAGE_SIZE <= storage@.len() {
                    r matches Ok(engine) && engine.file_layout@ == (FileV {
                        header,
                        footer: spec_footer_of_bytes(
                            spec_page_at(storage@, header.footer_offset as int),
                        ),
                    }) && engine.storage@ == storage@
                } else {
                    r == Err::<Self, StorageError>(StorageError::Io)
                }
            },
    {
        let mut engine = Self::new(storage);
        if engine.storage.len() < 22 {
            return Err(StorageError::Io);
        }
        let raw_magic: [u8; 6] = [
            engine.storage[16],
            engine.storage[17],
            engine.storage[18],
            engine.storage[19],
            engine.storage[20],
            engine.storage[21],
        ];
        proof {
            assert(raw_magic@ =~= engine.storage@.subrange(16, 22));
        }
        if !NexoraHeader::verify_magic(raw_magic) {
            return Err(StorageError::Corrupted(CorruptedFileError::InvalidMagicValue));
        }
        let raw_header = match read_page(&engine.storage, 0) {
            Some(page) => page,
            None => {
                return Err(StorageError::Io);
            },
        };
        let header = NexoraHeader::deserialize(raw_header.as_slice());
        engine.file_layout.header = header;
        let raw_footer = match read_page(&engine.storage, header.footer_offset) {
            Some(page) => page,
            None => {
                return Err(StorageError::Io);
            },
        };
        engine.file_layout.footer = NexoraFooter::deserialize(raw_footer.as_slice());
        Ok(engine)
    }

    /// Reads the offset-table chunk stored at `offset`. Asking for the
    /// sentinel offset is a corruption condition, reported before any read.
    pub fn read_offset_table(&self, offset: u64) -> (r: Result<OffsetTableChunk, StorageError>)
        ensures
            offset == INVALID_OFFSET ==> r == Err::<OffsetTableChunk, StorageError>(
                StorageError::Corrupted(CorruptedFileError::InvalidOffsetValue),
            ),
            offset != INVALID_OFFSET && offset + PAGE_SIZE <= self.storage@.len() ==> (
            r matches Ok(chunk) && chunk@ == spec_chunk_of_bytes(
                spec_page_at(self.storage@, offset as int),
            ) && chunk@.wf()),
            offset != INVALID_OFFSET && offset + PAGE_SIZE > self.storage@.len() ==> r == Err::<
                OffsetTableChunk,
                StorageError,
            >(StorageError::Io),
    {
        if offset == INVALID_OFFSET {
            return Err(StorageError::Corrupted(CorruptedFileError::InvalidOffsetValue));
        }
        match read_page(&self.storage, offset) {
            Some(page) => Ok(OffsetTableChunk::deserialize(page.as_slice())),
            None => Err(StorageError::Io),
        }
    }
}

/// The store and outcome of persisting the footer page at the position the
/// header records. The write fails only when that position cannot be
/// addressed by the underlying store.
pub open spec fn spec_log_footer(storage: Seq<u8>, layout: FileV) -> (Seq<u8>, Result<
    (),
    StorageError,
>) {
    if layout.header.footer_offset + PAGE_SIZE > usize::MAX {
        (storage, Err(StorageError::Io))
    } else {
        (
            spec_write_at(
                storage,
                layout.header.footer_offset as int,
                spec_footer_bytes(layout.footer),
            ),
            Ok(()),
        )
    }
}

/// The store and outcome of persisting chunk `c` at `offset` and then
/// immediately re-persisting the footer, as every chunk write does.
pub open spec fn spec_log_chunk(storage: Seq<u8>, layout: FileV, c: ChunkV, offset: u64) -> (Seq<
    u8,
>, Result<(), StorageError>) {
    if offset + PAGE_SIZE > usize::MAX {
        (storage, Err(StorageError::Io))
    } else {
        spec_log_footer(spec_write_at(storage, offset as int, spec_chunk_bytes(c)), layout)
    }
}

/// Chunk `c` after placing `item` in its first free slot: slots fill left
/// to right, so the slot is `nb_items` and the count grows by one.
pub open spec fn spec_place_item(c: ChunkV, item: OffsetItem) -> ChunkV
    recommends
        c.nb_items < CHUNK_CAPACITY,
{
    ChunkV {
        nb_items: (c.nb_items + 1) as u8,
        previous_chunk: c.previous_chunk,
        next_chunk: c.next_chunk,
        items: c.items.update(c.nb_items as int, item),
    }
}

/// A freshly allocated chunk holding `item` alone, linked back to the full
/// chunk it grew out of.
pub open spec fn spec_fresh_chunk(prev: u64, item: OffsetItem) -> ChunkV {
    ChunkV {
        nb_items: 1,
        previous_chunk: prev,
        next_chunk: INVALID_OFFSET,
        items: spec_default_chunk().items.update(0, item),
    }
}

/// The traversal-step budget for an insertion into the store `s`: one more
/// than the number of whole pages, so a well-formed (acyclic) chunk list is
/// never cut short while a cyclic one is detected as corruption.
pub open spec fn spec_insert_fuel(s: Seq<u8>) -> nat {
    (s.len() as int / (PAGE_SIZE as int) + 1) as nat
}

/// The complete insert-and-grow algorithm as a function of the store, the
/// in-memory mirror, the offset of the chunk under inspection and the
/// remaining traversal budget: the resulting store, resulting mirror, and
/// outcome.
pub open spec fn spec_insert(
    storage: Seq<u8>,
    layout: FileV,
    offset: u64,
    item: OffsetItem,
    fuel: nat,
) -> (Seq<u8>, FileV, Result<(), StorageError>)
    decreases fuel,
{
    if offset == INVALID_OFFSET {
        (
            storage,
            layout,
            Err(StorageError::Corrupted(CorruptedFileError::InvalidOffsetValue)),
        )
    } else if fuel == 0 {
        // More traversal steps than the file has pages: a cyclic chunk list.
        (
            storage,
            layout,
            Err(StorageError::Corrupted(CorruptedFileError::InvalidOffsetValue)),
        )
    } else if offset + PAGE_SIZE > storage.len() {
        (storage, layout, Err(StorageError::Io))
    } else {
        let c = spec_chunk_of_bytes(spec_page_at(storage, offset as int));
        if (c.nb_items as int) < CHUNK_CAPACITY {
            let (s2, res) = spec_log_chunk(storage, layout, spec_place_item(c, item), offset);
            (s2, layout, res)
        } else if c.next_chunk != INVALID_OFFSET {
            spec_insert(storage, layout, c.next_chunk, item, (fuel - 1) as nat)
        } else if layout.header.footer_offset + PAGE_SIZE > u64::MAX {
            (storage, layout, Err(StorageError::Io))
        } else {
            let new_offset = layout.header.footer_offset;
            let layout2 = FileV {
                header: crate::file_layout::HeaderV {
                    footer_offset: (new_offset + PAGE_SIZE) as u64,
                    created_unix: layout.header.created_unix,
                    magic: layout.header.magic,
                    version: layout.header.version,
                    flags: layout.header.flags,
                },
                footer: layout.footer,
            };
            let full = ChunkV {
                nb_items: c.nb_items,
                previous_chunk: c.previous_chunk,
                next_chunk: new_offset,
                items: c.items,
            };
            let (s2, res1) = spec_log_chunk(storage, layout2, full, offset);
            if res1 is Err {
                (s2, layout2, res1)
            } else {
                let (s3, res2) = spec_log_chunk(
                    s2,
                    layout2,
                    spec_fresh_chunk(offset, item),
                    new_offset,
                );
                (s3, layout2, res2)
            }
        }
    }
}

/// Inserting into a chunk with a free slot succeeds, changes no link and
/// no mirror state, stores the item in the chunk's first free slot in
/// place, and leaves the footer persisted at its recorded position
/// (provided the chunk does not share its page with the footer).
pub proof fn lemma_insert_fills_chunk_with_room(
    storage: Seq<u8>,
    layout: FileV,
    offset: u64,
    item: OffsetItem,
    fuel: nat,
)
    requires
        offset != INVALID_OFFSET,
        fuel > 0,
        offset + PAGE_SIZE <= storage.len(),
        offset + PAGE_SIZE <= usize::MAX,
        layout.header.footer_offset + PAGE_SIZE <= usize::MAX,
        (spec_chunk_of_bytes(spec_page_at(storage, offset as int)).nb_items as int)
            < CHUNK_CAPACITY,
        offset + PAGE_SIZE <= layout.header.footer_offset || layout.header.footer_offset
            + PAGE_SIZE <= offset,
    ensures
        ({
            let c = spec_chunk_of_bytes(spec_page_at(storage, offset as int));
            let (s2, l2, res) = spec_insert(storage, layout, offset, item, fuel);
            &&& res is Ok
            &&& l2 == layout
            &&& spec_chunk_of_bytes(spec_page_at(s2, offset as int)) == spec_place_item(c, item)
            &&& spec_footer_of_bytes(spec_page_at(s2, layout.header.footer_offset as int))
                == layout.footer
        }),
{
    let c = spec_chunk_of_bytes(spec_page_at(storage, offset as int));
    let c2 = spec_place_item(c, item);
    crate::file_layout::lemma_chunk_bytes_len(c2);
    crate::file_layout::lemma_footer_bytes_len(layout.footer);
    let mid = spec_write_at(storage, offset as int, spec_chunk_bytes(c2));
    let fo = layout.header.footer_offset as int;
    lemma_write_then_read_page(storage, offset as int, spec_chunk_bytes(c2));
    lemma_write_preserves_disjoint_page(mid, fo, spec_footer_bytes(layout.footer), offset as int);
    crate::file_layout::lemma_chunk_round_trip(c2);
    lemma_write_then_read_page(mid, fo, spec_footer_bytes(layout.footer));
    crate::file_layout::lemma_footer_round_trip(layout.footer);
}

/// Inserting past a full, last chunk grows the list by exactly one page at
/// the old footer position: the full chunk's forward link now points
/// there, the fresh chunk holds the item alone and links back, and the
/// footer is persisted at its position one page further on (provided the
/// full chunk does not share its page with either new page).
pub proof fn lemma_insert_grows_past_full_chunk(
    storage: Seq<u8>,
    layout: FileV,
    offset: u64,
    item: OffsetItem,
    fuel: nat,
)
    requires
        offset != INVALID_OFFSET,
        fuel > 0,
        offset + PAGE_SIZE <= storage.len(),
        offset + PAGE_SIZE <= usize::MAX,
        layout.header.footer_offset + 2 * PAGE_SIZE <= usize::MAX,
        (spec_chunk_of_bytes(spec_page_at(storage, offset as int)).nb_items as int)
            >= CHUNK_CAPACITY,
        spec_chunk_of_bytes(spec_page_at(storage, offset as int)).next_chunk == INVALID_OFFSET,
        offset + PAGE_SIZE <= layout.header.footer_offset,
    ensures
        ({
            let c = spec_chunk_of_bytes(spec_page_at(storage, offset as int));
            let grown_at = layout.header.footer_offset;
            let (s2, l2, res) = spec_insert(storage, layout, offset, item, fuel);
            &&& res is Ok
            &&& l2.header.footer_offset == grown_at + PAGE_SIZE
            &&& l2.footer == layout.footer
            &&& spec_chunk_of_bytes(spec_page_at(s2, offset as int)) == (ChunkV {
                nb_items: c.nb_items,
                previous_chunk: c.previous_chunk,
                next_chunk: grown_at,
                items: c.items,
            })
            &&& spec_chunk_of_bytes(spec_page_at(s2, grown_at as int)) == spec_fresh_chunk(
                offset,
                item,
            )
            &&& spec_footer_of_bytes(spec_page_at(s2, grown_at + PAGE_SIZE)) == layout.footer
        }),
{
    let c = spec_chunk_of_bytes(spec_page_at(storage, offset as int));
    let grown_at = layout.header.footer_offset as int;
    let full = ChunkV {
        nb_items: c.nb_items,
        previous_chunk: c.previous_chunk,
        next_chunk: layout.header.footer_offset,
        items: c.items,
    };
    let fresh = spec_fresh_chunk(offset, item);
    crate::file_layout::lemma_chunk_bytes_len(full);
    crate::file_layout::lemma_chunk_bytes_len(fresh);
    crate::file_layout::lemma_footer_bytes_len(layout.footer);
    let footer_bytes = spec_footer_bytes(layout.footer);
    let fo2 = grown_at + PAGE_SIZE;
    // first write pair: the relinked full chunk, then the footer
    let s_a = spec_write_at(storage, offset as int, spec_chunk_bytes(full));
    let s_b = spec_write_at(s_a, fo2, footer_bytes);
    // second write pair: the fresh chunk, then the footer again
    let s_c = spec_write_at(s_b, grown_at, spec_chunk_bytes(fresh));
    let s_d = spec_write_at(s_c, fo2, footer_bytes);
    // the full chunk's page survives the three later writes
    lemma_write_then_read_page(storage, offset as int, spec_chunk_bytes(full));
    lemma_write_preserves_disjoint_page(s_a, fo2, footer_bytes, offset as int);
    lemma_write_preserves_disjoint_page(s_b, grown_at, spec_chunk_bytes(fresh), offset as int);
    lemma_write_preserves_disjoint_page(s_c, fo2, footer_bytes, offset as int);
    crate::file_layout::lemma_chunk_round_trip(full);
    // the fresh chunk's page survives the final footer write
    lemma_write_then_read_page(s_b, grown_at, spec_chunk_bytes(fresh));
    lemma_write_preserves_disjoint_page(s_c, fo2, footer_bytes, grown_at);
    crate::file_layout::lemma_chunk_round_trip(fresh);
    // the footer page is the last write
    lemma_write_then_read_page(s_c, fo2, footer_bytes);
    crate::file_layout::lemma_footer_round_trip(layout.footer);
    let (s2, l2, res) = spec_insert(storage, layout, offset, item, fuel);
    assert(s2 == s_d);
}

/// What one inspection of a chunk decides: the chunk took the item in
/// place, the search moves to the next chunk, or the list grew by a fresh
/// chunk allocated at the old footer position.
pub enum InsertOutcome {
    Placed { chunk: OffsetTableChunk },
    Continue { next_offset: u64 },
    Grew { full: OffsetTableChunk, fresh: OffsetTableChunk, fresh_offset: u64 },
}

/// Hands out the current allocation high-water mark (the footer's position)
/// as the home of a new chunk page and advances the mark by exactly one
/// page.
fn get_new_offset_table_space(layout: &mut NexoraFile) -> (r: u64)
    requires
        old(layout).header.footer_offset + PAGE_SIZE <= u64::MAX,
    ensures
        r == old(layout).header.footer_offset,
        final(layout).header.footer_offset == old(layout).header.footer_offset + PAGE_SIZE,
        final(layout).header.created_unix == old(layout).header.created_unix,
        final(layout).header.magic == old(layout).header.magic,
        final(layout).header.version == old(layout).header.version,
        final(layout).header.flags == old(layout).header.flags,
        final(layout).footer == old(layout).footer,
{
    let new_chunk_offset = layout.header.footer_offset;
    layout.header.footer_offset = new_chunk_offset + PAGE_SIZE as u64;
    new_chunk_offset
}

/// The decision step of the insert-and-grow algorithm, on the chunk read
/// from `at`: a chunk with a free slot takes the item in its first free
/// slot; a full chunk with a neighbor forwards the search; a full last
/// chunk spawns a fresh chunk at the allocation mark (advancing it), linked
/// back to the full one. Only the grow case touches `layout`.
pub fn insert_step(
    layout: &mut NexoraFile,
    at: u64,
    chunk: OffsetTableChunk,
    item: OffsetItem,
) -> (r: InsertOutcome)
    requires
        chunk@.wf(),
        old(layout).header.footer_offset + PAGE_SIZE <= u64::MAX,
    ensures
        (chunk@.nb_items as int) < CHUNK_CAPACITY ==> {
            &&& r matches InsertOutcome::Placed { chunk: c2 } && c2@ == spec_place_item(
                chunk@,
                item,
            ) && c2@.wf()
            &&& *final(layout) == *old(layout)
        },
        (chunk@.nb_items as int) >= CHUNK_CAPACITY && chunk@.next_chunk != INVALID_OFFSET ==> {
            &&& r matches InsertOutcome::Continue { next_offset } && next_offset
                == chunk@.next_chunk
            &&& *final(layout) == *old(layout)
        },
        (chunk@.nb_items as int) >= CHUNK_CAPACITY && chunk@.next_chunk == INVALID_OFFSET ==> {
            &&& r matches InsertOutcome::Grew { full, fresh, fresh_offset } && fresh_offset == old(
                layout,
            ).header.footer_offset && full@ == (ChunkV {
                nb_items: chunk@.nb_items,
                previous_chunk: chunk@.previous_chunk,
                next_chunk: old(layout).header.footer_offset,
                items: chunk@.items,
            }) && full@.wf() && fresh@ == spec_fresh_chunk(at, item) && fresh@.wf()
            &&& final(layout).header.footer_offset == old(layout).header.footer_offset + PAGE_SIZE
            &&& final(layout).header.created_unix == old(layout).header.created_unix
            &&& final(layout).header.magic == old(layout).header.magic
            &&& final(layout).header.version == old(layout).header.version
            &&& final(layout).header.flags == old(layout).header.flags
            &&& final(layout).footer == old(layout).footer
        },
{
    if (chunk.nb_items as usize) < CHUNK_CAPACITY {
        let mut chunk = chunk;
        let slot = chunk.nb_items as usize;
        chunk.offset_items[slot] = item;
        chunk.nb_items = chunk.nb_items + 1;
        InsertOutcome::Placed { chunk }
    } else if chunk.next_chunk != INVALID_OFFSET {
        InsertOutcome::Continue { next_offset: chunk.next_chunk }
    } else {
        let mut fresh = OffsetTableChunk::default();
        fresh.previous_chunk = at;
        fresh.offset_items[0] = item;
        fresh.nb_items = 1;
        let fresh_offset = get_new_offset_table_space(layout);
        let mut full = chunk;
        full.next_chunk = fresh_offset;
        InsertOutcome::Grew { full, fresh, fresh_offset }
    }
}

impl StorageEngine {
    /// Persists the in-memory footer mirror at the position the header
    /// records, so the current end of allocated space survives a restart.
    fn log_footer_chunk(&mut self) -> (r: Result<(), StorageError>)
        ensures
            ({
                let (s2, res) = spec_log_footer(old(self).storage@, old(self).file_layout@);
                &&& final(self).storage@ == s2
                &&& r == res
            }),
            final(self).file_layout == old(self).file_layout,
    {
        let fo = self.file_layout.header.footer_offset;
        if fo > usize::MAX as u64 - PAGE_SIZE as u64 {
            return Err(StorageError::Io);
        }
        let buf = self.file_layout.footer.serialize();
        write_at(&mut self.storage, fo as usize, &buf);
        Ok(())
    }

    /// Persists `chunk` at `offset` and immediately re-persists the footer,
    /// keeping the recorded end of allocated space consistent with every
    /// chunk write.
    fn log_offset_chunk(&mut self, chunk: &OffsetTableChunk, offset: u64) -> (r: Result<
        (),
        StorageError,
    >)
        requires
            chunk@.wf(),
        ensures
            ({
                let (s2, res) = spec_log_chunk(
                    old(self).storage@,
                    old(self).file_layout@,
                    chunk@,
                    offset,
                );
                &&& final(self).storage@ == s2
                &&& r == res
            }),
            final(self).file_layout == old(self).file_layout,
    {
        if offset > usize::MAX as u64 - PAGE_SIZE as u64 {
            return Err(StorageError::Io);
        }
        let buf = chunk.serialize();
        write_at(&mut self.storage, offset as usize, &buf);
        self.log_footer_chunk()
    }

    /// Inserts `offset_item` into the linked list of offset-table chunks
    /// beginning at `offset`: the first chunk with a free slot takes the
    /// item in place; when every chunk is full, a fresh chunk is allocated
    /// at the footer's position, linked in after the last one, and the
    /// footer is re-persisted at its advanced position. The store and the
    /// mirror end up exactly as the algorithm's model `spec_insert` says.
    #[verifier::loop_isolation(false)]
    pub fn insert_offset_item(&mut self, offset: u64, offset_item: OffsetItem) -> (r: Result<
        (),
        StorageError,
    >)
        requires
            old(self).file_layout.header.footer_offset + PAGE_SIZE <= u64::MAX,
        ensures
            ({
                let (s2, l2, res) = spec_insert(
                    old(self).storage@,
                    old(self).file_layout@,
                    offset,
                    offset_item,
                    spec_insert_fuel(old(self).storage@),
                );
                &&& final(self).storage@ == s2
                &&& final(self).file_layout@ == l2
                &&& r == res
            }),
            offset == INVALID_OFFSET ==> {
                &&& r == Err::<(), StorageError>(
                    StorageError::Corrupted(CorruptedFileError::InvalidOffsetValue),
                )
                &&& final(self).storage@ == old(self).storage@
                &&& final(self).file_layout == old(self).file_layout
            },
            final(self).file_layout.footer == old(self).file_layout.footer,
            final(self).file_layout.header.footer_offset == old(
                self,
            ).file_layout.header.footer_offset || final(self).file_layout.header.footer_offset
                == old(self).file_layout.header.footer_offset + PAGE_SIZE,
    {
        if offset == INVALID_OFFSET {
            return Err(StorageError::Corrupted(CorruptedFileError::InvalidOffsetValue));
        }
        let ghost fuel0 = spec_insert_fuel(self.storage@);
        let mut cur = offset;
        let mut fuel: usize = self.storage.len() / PAGE_SIZE + 1;
        loop
            invariant
                cur != INVALID_OFFSET,
                fuel <= fuel0,
                self.storage@ == old(self).storage@,
                self.file_layout == old(self).file_layout,
                old(self).file_layout.header.footer_offset + PAGE_SIZE <= u64::MAX,
                spec_insert(old(self).storage@, old(self).file_layout@, offset, offset_item, fuel0)
                    == spec_insert(
                    self.storage@,
                    self.file_layout@,
                    cur,
                    offset_item,
                    fuel as nat,
                ),
            decreases fuel,
        {
            if fuel == 0 {
                proof {
                    assert(spec_insert(self.storage@, self.file_layout@, cur, offset_item, 0nat)
                        == (self.storage@, self.file_layout@, Err::<(), StorageError>(
                        StorageError::Corrupted(CorruptedFileError::InvalidOffsetValue),
                    )));
                }
                return Err(StorageError::Corrupted(CorruptedFileError::InvalidOffsetValue));
            }
            let ghost pre_storage = self.storage@;
            let ghost pre_layout = self.file_layout@;
            let ghost step = spec_insert(pre_storage, pre_layout, cur, offset_item, fuel as nat);
            let chunk = match self.read_offset_table(cur) {
                Ok(c) => c,
                Err(e) => {
                    proof {
                        assert(cur + PAGE_SIZE > pre_storage.len());
                        assert(step == (pre_storage, pre_layout, Err::<(), StorageError>(
                            StorageError::Io,
                        )));
                    }
                    return Err(e);
                },
            };
            let ghost c_spec = chunk@;
            match insert_step(&mut self.file_layout, cur, chunk, offset_item) {
                InsertOutcome::Placed { chunk: updated } => {
                    proof {
                        assert(updated@ == spec_place_item(c_spec, offset_item));
                    }
                    let res = self.log_offset_chunk(&updated, cur);
                    proof {
                        let (s2, res2) = spec_log_chunk(pre_storage, pre_layout, updated@, cur);
                        assert(step == (s2, pre_layout, res2));
                        assert(self.storage@ == s2 && res == res2);
                    }
                    return res;
                },
                InsertOutcome::Grew { full, fresh, fresh_offset } => {
                    let ghost layout2 = self.file_layout@;
                    let first = self.log_offset_chunk(&full, cur);
                    let ghost mid_storage = self.storage@;
                    match first {
                        Ok(_) => {},
                        Err(e) => {
                            proof {
                                let (s2, res1) = spec_log_chunk(pre_storage, layout2, full@, cur);
                                assert(step == (s2, layout2, res1));
                            }
                            return Err(e);
                        },
                    }
                    let res = self.log_offset_chunk(&fresh, fresh_offset);
                    proof {
                        let (s2, res1) = spec_log_chunk(pre_storage, layout2, full@, cur);
                        assert(mid_storage == s2 && res1 is Ok);
                        let (s3, res2) = spec_log_chunk(s2, layout2, fresh@, fresh_offset);
                        assert(step == (s3, layout2, res2));
                        assert(self.storage@ == s3 && res == res2);
                    }
                    return res;
                },
                InsertOutcome::Continue { next_offset } => {
                    proof {
                        assert(step == spec_insert(
                            pre_storage,
                            pre_layout,
                            next_offset,
                            offset_item,
                            (fuel - 1) as nat,
                        ));
                    }
                    cur = next_offset;
                    fuel = fuel - 1;
                },
            }
        }
    }
}

} // verus!
