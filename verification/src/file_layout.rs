//! The fixed-size, byte-exact record structures of the file format: header,
//! footer, offset-table chunk, name, property definition, schemas, node and
//! edge records, and the aggregate default file image.
//!
//! Every record serializes to an exact documented byte length. Each record
//! type has a ghost model (the `*V` structs or the plain struct itself), a
//! pair of spec functions giving the encoding and decoding mathematically,
//! executable `serialize`/`deserialize` proved to match them, and a proof
//! that decoding inverts encoding.

use vstd::prelude::*;
use vstd::bytes::{
    spec_u16_from_le_bytes, spec_u16_to_le_bytes, spec_u64_from_le_bytes, spec_u64_to_le_bytes,
};
use crate::endian::{
    read_u16_le, read_u64_le, read_u8, write_bytes, write_u16_le, write_u64_le, write_u8,
};

verus! {

/// The universal allocation unit: every top-level on-disk structure
/// occupies whole 4096-byte pages.
pub const PAGE_SIZE: usize = 4096;

/// Sentinel for "no such page / no such link": the all-ones 64-bit value.
pub const INVALID_OFFSET: u64 = 0xFFFF_FFFF_FFFF_FFFF;

/// Longest name payload a 64-byte `Name` record can carry.
pub const PROPERTY_NAME_MAX_SIZE: usize = 55;

/// Property slots in a schema, node or edge record.
pub const MAX_PROPERTIES_COUNT: usize = 120;

/// Byte size of the schema, node and edge records.
pub const KB1: usize = 1024;

/// The 6-byte signature `NXRv0\0` that every valid header begins with.
pub open spec fn spec_magic() -> Seq<u8> {
    seq![0x4Eu8, 0x58u8, 0x52u8, 0x76u8, 0x30u8, 0x00u8]
}

/// The fixed header signature as bytes.
pub fn file_header_magic() -> (r: [u8; 6])
    ensures
        r@ == spec_magic(),
{
    let r: [u8; 6] = [0x4Eu8, 0x58u8, 0x52u8, 0x76u8, 0x30u8, 0x00u8];
    proof {
        assert(r@ =~= spec_magic());
    }
    r
}

/// `n` zero bytes: the reserved padding every record is filled out with.
pub open spec fn zeros(n: nat) -> Seq<u8> {
    Seq::new(n, |i: int| 0u8)
}

/// Appends `n` zero bytes to `buf`.
pub fn append_zeros(buf: &mut Vec<u8>, n: usize)
    requires
        old(buf)@.len() + n <= usize::MAX,
    ensures
        final(buf)@ == old(buf)@ + zeros(n as nat),
        final(buf)@.len() == old(buf)@.len() + n,
{
    let mut i: usize = 0;
    while i < n
        invariant
            i <= n,
            buf@.len() == old(buf)@.len() + i,
            buf@ == old(buf)@ + zeros(i as nat),
        decreases n - i,
    {
        buf.push(0u8);
        proof {
            assert(buf@ =~= old(buf)@ + zeros((i + 1) as nat));
        }
        i = i + 1;
    }
    proof {
        assert(buf@ =~= old(buf)@ + zeros(n as nat));
    }
}

// -------------------- Header --------------------

/// Lives at byte offset 0 of the file. `footer_offset` is the absolute byte
/// offset of the footer page, which also marks the high-water mark of
/// allocated offset-table space.
#[derive(Clone, Copy, Debug)]
pub struct NexoraHeader {
    pub footer_offset: u64,
    pub created_unix: u64,
    pub magic: [u8; 6],
    pub version: u16,
    pub flags: u16,
}

/// Ghost model of a header.
pub struct HeaderV {
    pub footer_offset: u64,
    pub created_unix: u64,
    pub magic: Seq<u8>,
    pub version: u16,
    pub flags: u16,
}

impl HeaderV {
    pub open spec fn wf(self) -> bool {
        self.magic.len() == 6
    }
}

impl View for NexoraHeader {
    type V = HeaderV;

    open spec fn view(&self) -> HeaderV {
        HeaderV {
            footer_offset: self.footer_offset,
            created_unix: self.created_unix,
            magic: self.magic@,
            version: self.version,
            flags: self.flags,
        }
    }
}

/// The 4096-byte encoding of a header: `footer_offset`, `created_unix`,
/// magic, version, flags, then reserved zeros.
pub open spec fn spec_header_bytes(h: HeaderV) -> Seq<u8> {
    spec_u64_to_le_bytes(h.footer_offset) + spec_u64_to_le_bytes(h.created_unix) + h.magic
        + spec_u16_to_le_bytes(h.version) + spec_u16_to_le_bytes(h.flags) + zeros(4070)
}

/// The header a 4096-byte page decodes to; field values are taken as-is.
pub open spec fn spec_header_of_bytes(s: Seq<u8>) -> HeaderV {
    HeaderV {
        footer_offset: spec_u64_from_le_bytes(s.subrange(0, 8)),
        created_unix: spec_u64_from_le_bytes(s.subrange(8, 16)),
        magic: s.subrange(16, 22),
        version: spec_u16_from_le_bytes(s.subrange(22, 24)),
        flags: spec_u16_from_le_bytes(s.subrange(24, 26)),
    }
}

/// A well-formed header encodes to exactly one page.
pub proof fn lemma_header_bytes_len(h: HeaderV)
    requires
        h.wf(),
    ensures
        spec_header_bytes(h).len() == PAGE_SIZE,
{
    vstd::bytes::lemma_auto_spec_u64_to_from_le_bytes();
    vstd::bytes::lemma_auto_spec_u16_to_from_le_bytes();
}

/// Round trip: decoding an encoded header restores every field.
pub proof fn lemma_header_round_trip(h: HeaderV)
    requires
        h.wf(),
    ensures
        spec_header_of_bytes(spec_header_bytes(h)) == h,
{
    vstd::bytes::lemma_auto_spec_u64_to_from_le_bytes();
    vstd::bytes::lemma_auto_spec_u16_to_from_le_bytes();
    let s = spec_header_bytes(h);
    assert(s.subrange(0, 8) =~= spec_u64_to_le_bytes(h.footer_offset));
    assert(s.subrange(8, 16) =~= spec_u64_to_le_bytes(h.created_unix));
    assert(s.subrange(16, 22) =~= h.magic);
    assert(s.subrange(22, 24) =~= spec_u16_to_le_bytes(h.version));
    assert(s.subrange(24, 26) =~= spec_u16_to_le_bytes(h.flags));
}

impl Default for NexoraHeader {
    /// A fresh header: valid magic, everything else zero, and no footer
    /// location yet (the sentinel).
    fn default() -> (r: Self)
        ensures
            r.footer_offset == INVALID_OFFSET,
            r.created_unix == 0,
            r@.magic == spec_magic(),
            r.version == 0,
            r.flags == 0,
    {
        NexoraHeader {
            footer_offset: INVALID_OFFSET,
            created_unix: 0,
            magic: file_header_magic(),
            version: 0,
            flags: 0,
        }
    }
}

impl NexoraHeader {
    /// True exactly when `raw_magic` is the fixed 6-byte signature.
    pub fn verify_magic(raw_magic: [u8; 6]) -> (r: bool)
        ensures
            r <==> raw_magic@ == spec_magic(),
    {
        let expected = file_header_magic();
        let r = raw_magic[0] == expected[0] && raw_magic[1] == expected[1]
            && raw_magic[2] == expected[2] && raw_magic[3] == expected[3]
            && raw_magic[4] == expected[4] && raw_magic[5] == expected[5];
        proof {
            if r {
                assert(raw_magic@ =~= spec_magic());
            }
        }
        r
    }

    /// Encodes this header as one page.
    pub fn serialize(&self) -> (r: Vec<u8>)
        ensures
            r@ == spec_header_bytes(self@),
            r@.len() == PAGE_SIZE,
    {
        let mut buf: Vec<u8> = Vec::new();
        write_u64_le(self.footer_offset, &mut buf);
        write_u64_le(self.created_unix, &mut buf);
        write_bytes(self.magic.as_slice(), &mut buf);
        write_u16_le(self.version, &mut buf);
        write_u16_le(self.flags, &mut buf);
        append_zeros(&mut buf, 4070);
        proof {
            lemma_header_bytes_len(self@);
        }
        buf
    }

    /// Decodes one page; accepts all field values as-is (validation of the
    /// magic is a separate concern, `verify_magic`).
    pub fn deserialize(raw_header_data: &[u8]) -> (r: Self)
        requires
            raw_header_data@.len() == PAGE_SIZE,
        ensures
            r@ == spec_header_of_bytes(raw_header_data@),
    {
        let footer_offset = read_u64_le(raw_header_data, 0).unwrap();
        let created_unix = read_u64_le(raw_header_data, 8).unwrap();
        let magic: [u8; 6] = [
            read_u8(raw_header_data, 16).unwrap(),
            read_u8(raw_header_data, 17).unwrap(),
            read_u8(raw_header_data, 18).unwrap(),
            read_u8(raw_header_data, 19).unwrap(),
            read_u8(raw_header_data, 20).unwrap(),
            read_u8(raw_header_data, 21).unwrap(),
        ];
        let version = read_u16_le(raw_header_data, 22).unwrap();
        let flags = read_u16_le(raw_header_data, 24).unwrap();
        proof {
            assert(magic@ =~= raw_header_data@.subrange(16, 22));
        }
        NexoraHeader { footer_offset, created_unix, magic, version, flags }
    }
}

// -------------------- Offset metadata table --------------------

/// 16-byte descriptor of one section: how many items it holds and the page
/// offset of the first chunk of its linked list (or the sentinel if unset).
#[derive(Clone, Copy, Debug, PartialEq, Eq, Structural)]
pub struct OffsetMetadataTable {
    pub nb_total_items: u64,
    pub base_chunk_offset: u64,
}

impl Default for OffsetMetadataTable {
    fn default() -> (r: Self)
        ensures
            r.nb_total_items == 0,
            r.base_chunk_offset == 0,
    {
        OffsetMetadataTable { nb_total_items: 0, base_chunk_offset: 0 }
    }
}

/// The 16-byte encoding of a section descriptor.
pub open spec fn spec_metadata_table_bytes(t: OffsetMetadataTable) -> Seq<u8> {
    spec_u64_to_le_bytes(t.nb_total_items) + spec_u64_to_le_bytes(t.base_chunk_offset)
}

/// The section descriptor 16 bytes decode to.
pub open spec fn spec_metadata_table_of_bytes(s: Seq<u8>) -> OffsetMetadataTable {
    OffsetMetadataTable {
        nb_total_items: spec_u64_from_le_bytes(s.subrange(0, 8)),
        base_chunk_offset: spec_u64_from_le_bytes(s.subrange(8, 16)),
    }
}

/// Round trip for a section descriptor, with its exact 16-byte size.
pub proof fn lemma_metadata_table_round_trip(t: OffsetMetadataTable)
    ensures
        spec_metadata_table_bytes(t).len() == 16,
        spec_metadata_table_of_bytes(spec_metadata_table_bytes(t)) == t,
{
    vstd::bytes::lemma_auto_spec_u64_to_from_le_bytes();
    let s = spec_metadata_table_bytes(t);
    assert(s.subrange(0, 8) =~= spec_u64_to_le_bytes(t.nb_total_items));
    assert(s.subrange(8, 16) =~= spec_u64_to_le_bytes(t.base_chunk_offset));
}

impl OffsetMetadataTable {
    /// Encodes this descriptor as 16 bytes.
    pub fn serialize(&self) -> (r: Vec<u8>)
        ensures
            r@ == spec_metadata_table_bytes(*self),
            r@.len() == 16,
    {
        let mut buf: Vec<u8> = Vec::new();
        write_u64_le(self.nb_total_items, &mut buf);
        write_u64_le(self.base_chunk_offset, &mut buf);
        proof {
            lemma_metadata_table_round_trip(*self);
        }
        buf
    }

    /// Decodes a descriptor from `buf` at byte `offset`.
    pub fn deserialize(buf: &[u8], offset: usize) -> (r: Self)
        requires
            offset + 16 <= buf@.len(),
        ensures
            r == spec_metadata_table_of_bytes(
                buf@.subrange(offset as int, offset as int + 16),
            ),
    {
        // binds the slice length to a machine word, so the offset
        // arithmetic below is known not to overflow
        let n = buf.len();
        proof {
            assert(offset + 16 <= n);
        }
        let nb_total_items = read_u64_le(buf, offset).unwrap();
        let base_chunk_offset = read_u64_le(buf, offset + 8).unwrap();
        proof {
            let s = buf@.subrange(offset as int, offset as int + 16);
            assert(s.subrange(0, 8) =~= buf@.subrange(offset as int, offset as int + 8));
            assert(s.subrange(8, 16) =~= buf@.subrange(offset as int + 8, offset as int + 16));
        }
        OffsetMetadataTable { nb_total_items, base_chunk_offset }
    }
}

// -------------------- Footer --------------------

/// One page holding the eight section descriptors in their fixed order.
/// Lives at `NexoraHeader.footer_offset` and is re-persisted after every
/// chunk append, since its position is the allocation high-water mark.
#[derive(Clone, Copy, Debug, PartialEq, Eq, Structural)]
pub struct NexoraFooter {
    pub name_table_offset: OffsetMetadataTable,
    pub node_schema_offset: OffsetMetadataTable,
    pub edge_schema_offset: OffsetMetadataTable,
    pub schema_properties_offset: OffsetMetadataTable,
    pub metadata_offset: OffsetMetadataTable,
    pub indices_offset: OffsetMetadataTable,
    pub nodes_offset: OffsetMetadataTable,
    pub edges_offset: OffsetMetadataTable,
}

impl Default for NexoraFooter {
    fn default() -> (r: Self)
        ensures
            r == (NexoraFooter {
                name_table_offset: OffsetMetadataTable { nb_total_items: 0, base_chunk_offset: 0 },
                node_schema_offset: OffsetMetadataTable { nb_total_items: 0, base_chunk_offset: 0 },
                edge_schema_offset: OffsetMetadataTable { nb_total_items: 0, base_chunk_offset: 0 },
                schema_properties_offset: OffsetMetadataTable {
                    nb_total_items: 0,
                    base_chunk_offset: 0,
                },
                metadata_offset: OffsetMetadataTable { nb_total_items: 0, base_chunk_offset: 0 },
                indices_offset: OffsetMetadataTable { nb_total_items: 0, base_chunk_offset: 0 },
                nodes_offset: OffsetMetadataTable { nb_total_items: 0, base_chunk_offset: 0 },
                edges_offset: OffsetMetadataTable { nb_total_items: 0, base_chunk_offset: 0 },
            }),
    {
        NexoraFooter {
            name_table_offset: OffsetMetadataTable::default(),
            node_schema_offset: OffsetMetadataTable::default(),
            edge_schema_offset: OffsetMetadataTable::default(),
            schema_properties_offset: OffsetMetadataTable::default(),
            metadata_offset: OffsetMetadataTable::default(),
            indices_offset: OffsetMetadataTable::default(),
            nodes_offset: OffsetMetadataTable::default(),
            edges_offset: OffsetMetadataTable::default(),
        }
    }
}

/// The 4096-byte encoding of a footer: eight 16-byte descriptors in fixed
/// order, then reserved zeros.
pub open spec fn spec_footer_bytes(f: NexoraFooter) -> Seq<u8> {
    spec_metadata_table_bytes(f.name_table_offset)
        + spec_metadata_table_bytes(f.node_schema_offset)
        + spec_metadata_table_bytes(f.edge_schema_offset)
        + spec_metadata_table_bytes(f.schema_properties_offset)
        + spec_metadata_table_bytes(f.metadata_offset)
        + spec_metadata_table_bytes(f.indices_offset)
        + spec_metadata_table_bytes(f.nodes_offset)
        + spec_metadata_table_bytes(f.edges_offset)
        + zeros(3968)
}

/// The footer a 4096-byte page decodes to.
pub open spec fn spec_footer_of_bytes(s: Seq<u8>) -> NexoraFooter {
    NexoraFooter {
        name_table_offset: spec_metadata_table_of_bytes(s.subrange(0, 16)),
        node_schema_offset: spec_metadata_table_of_bytes(s.subrange(16, 32)),
        edge_schema_offset: spec_metadata_table_of_bytes(s.subrange(32, 48)),
        schema_properties_offset: spec_metadata_table_of_bytes(s.subrange(48, 64)),
        metadata_offset: spec_metadata_table_of_bytes(s.subrange(64, 80)),
        indices_offset: spec_metadata_table_of_bytes(s.subrange(80, 96)),
        nodes_offset: spec_metadata_table_of_bytes(s.subrange(96, 112)),
        edges_offset: spec_metadata_table_of_bytes(s.subrange(112, 128)),
    }
}

/// A footer encodes to exactly one page.
pub proof fn lemma_footer_bytes_len(f: NexoraFooter)
    ensures
        spec_footer_bytes(f).len() == PAGE_SIZE,
{
    vstd::bytes::lemma_auto_spec_u64_to_from_le_bytes();
}

/// Round trip: decoding an encoded footer restores all eight descriptors.
pub proof fn lemma_footer_round_trip(f: NexoraFooter)
    ensures
        spec_footer_of_bytes(spec_footer_bytes(f)) == f,
{
    vstd::bytes::lemma_auto_spec_u64_to_from_le_bytes();
    let s = spec_footer_bytes(f);
    lemma_metadata_table_round_trip(f.name_table_offset);
    lemma_metadata_table_round_trip(f.node_schema_offset);
    lemma_metadata_table_round_trip(f.edge_schema_offset);
    lemma_metadata_table_round_trip(f.schema_properties_offset);
    lemma_metadata_table_round_trip(f.metadata_offset);
    lemma_metadata_table_round_trip(f.indices_offset);
    lemma_metadata_table_round_trip(f.nodes_offset);
    lemma_metadata_table_round_trip(f.edges_offset);
    assert(s.subrange(0, 16) =~= spec_metadata_table_bytes(f.name_table_offset));
    assert(s.subrange(16, 32) =~= spec_metadata_table_bytes(f.node_schema_offset));
    assert(s.subrange(32, 48) =~= spec_metadata_table_bytes(f.edge_schema_offset));
    assert(s.subrange(48, 64) =~= spec_metadata_table_bytes(f.schema_properties_offset));
    assert(s.subrange(64, 80) =~= spec_metadata_table_bytes(f.metadata_offset));
    assert(s.subrange(80, 96) =~= spec_metadata_table_bytes(f.indices_offset));
    assert(s.subrange(96, 112) =~= spec_metadata_table_bytes(f.nodes_offset));
    assert(s.subrange(112, 128) =~= spec_metadata_table_bytes(f.edges_offset));
}

impl NexoraFooter {
    /// Encodes this footer as one page.
    pub fn serialize(&self) -> (r: Vec<u8>)
        ensures
            r@ == spec_footer_bytes(*self),
            r@.len() == PAGE_SIZE,
    {
        let mut buf: Vec<u8> = Vec::new();
        write_u64_le(self.name_table_offset.nb_total_items, &mut buf);
        write_u64_le(self.name_table_offset.base_chunk_offset, &mut buf);
        write_u64_le(self.node_schema_offset.nb_total_items, &mut buf);
        write_u64_le(self.node_schema_offset.base_chunk_offset, &mut buf);
        write_u64_le(self.edge_schema_offset.nb_total_items, &mut buf);
        write_u64_le(self.edge_schema_offset.base_chunk_offset, &mut buf);
        write_u64_le(self.schema_properties_offset.nb_total_items, &mut buf);
        write_u64_le(self.schema_properties_offset.base_chunk_offset, &mut buf);
        write_u64_le(self.metadata_offset.nb_total_items, &mut buf);
        write_u64_le(self.metadata_offset.base_chunk_offset, &mut buf);
        write_u64_le(self.indices_offset.nb_total_items, &mut buf);
        write_u64_le(self.indices_offset.base_chunk_offset, &mut buf);
        write_u64_le(self.nodes_offset.nb_total_items, &mut buf);
        write_u64_le(self.nodes_offset.base_chunk_offset, &mut buf);
        write_u64_le(self.edges_offset.nb_total_items, &mut buf);
        write_u64_le(self.edges_offset.base_chunk_offset, &mut buf);
        append_zeros(&mut buf, 3968);
        proof {
            lemma_footer_bytes_len(*self);
            assert(buf@ =~= spec_footer_bytes(*self));
        }
        buf
    }

    /// Decodes one page; accepts all field values as-is.
    pub fn deserialize(raw_footer_data: &[u8]) -> (r: Self)
        requires
            raw_footer_data@.len() == PAGE_SIZE,
        ensures
            r == spec_footer_of_bytes(raw_footer_data@),
    {
        let name_table_offset = OffsetMetadataTable::deserialize(raw_footer_data, 0);
        let node_schema_offset = OffsetMetadataTable::deserialize(raw_footer_data, 16);
        let edge_schema_offset = OffsetMetadataTable::deserialize(raw_footer_data, 32);
        let schema_properties_offset = OffsetMetadataTable::deserialize(raw_footer_data, 48);
        let metadata_offset = OffsetMetadataTable::deserialize(raw_footer_data, 64);
        let indices_offset = OffsetMetadataTable::deserialize(raw_footer_data, 80);
        let nodes_offset = OffsetMetadataTable::deserialize(raw_footer_data, 96);
        let edges_offset = OffsetMetadataTable::deserialize(raw_footer_data, 112);
        NexoraFooter {
            name_table_offset,
            node_schema_offset,
            edge_schema_offset,
            schema_properties_offset,
            metadata_offset,
            indices_offset,
            nodes_offset,
            edges_offset,
        }
    }
}

// -------------------- OffsetItem --------------------

/// One 16-byte id-to-offset mapping. An `offset` equal to the sentinel
/// marks a slot that has not been populated.
#[derive(Clone, Copy, Debug, PartialEq, Eq, Structural)]
pub struct OffsetItem {
    pub id: u64,
    pub offset: u64,
}

impl Default for OffsetItem {
    fn default() -> (r: Self)
        ensures
            r.id == 0,
            r.offset == INVALID_OFFSET,
    {
        OffsetItem { id: 0, offset: INVALID_OFFSET }
    }
}

/// The 16-byte encoding of one offset item.
pub open spec fn spec_item_bytes(it: OffsetItem) -> Seq<u8> {
    spec_u64_to_le_bytes(it.id) + spec_u64_to_le_bytes(it.offset)
}

/// The offset item 16 bytes decode to.
pub open spec fn spec_item_of_bytes(s: Seq<u8>) -> OffsetItem {
    OffsetItem {
        id: spec_u64_from_le_bytes(s.subrange(0, 8)),
        offset: spec_u64_from_le_bytes(s.subrange(8, 16)),
    }
}

/// Round trip for one offset item, with its exact 16-byte size.
pub proof fn lemma_item_round_trip(it: OffsetItem)
    ensures
        spec_item_bytes(it).len() == 16,
        spec_item_of_bytes(spec_item_bytes(it)) == it,
{
    vstd::bytes::lemma_auto_spec_u64_to_from_le_bytes();
    let s = spec_item_bytes(it);
    assert(s.subrange(0, 8) =~= spec_u64_to_le_bytes(it.id));
    assert(s.subrange(8, 16) =~= spec_u64_to_le_bytes(it.offset));
}

/// The concatenated encodings of a row of offset items.
pub open spec fn spec_items_bytes(items: Seq<OffsetItem>) -> Seq<u8>
    decreases items.len(),
{
    if items.len() == 0 {
        Seq::empty()
    } else {
        spec_items_bytes(items.drop_last()) + spec_item_bytes(items.last())
    }
}

/// A row of items encodes to 16 bytes per item.
pub proof fn lemma_items_bytes_len(items: Seq<OffsetItem>)
    ensures
        spec_items_bytes(items).len() == 16 * items.len(),
    decreases items.len(),
{
    vstd::bytes::lemma_auto_spec_u64_to_from_le_bytes();
    if items.len() > 0 {
        lemma_items_bytes_len(items.drop_last());
    }
}

/// Item `i` of a row sits at bytes `16 * i .. 16 * i + 16` of the encoding.
pub proof fn lemma_items_bytes_index(items: Seq<OffsetItem>, i: int)
    requires
        0 <= i < items.len(),
    ensures
        spec_items_bytes(items).subrange(16 * i, 16 * i + 16) == spec_item_bytes(items[i]),
    decreases items.len(),
{
    lemma_items_bytes_len(items);
    lemma_items_bytes_len(items.drop_last());
    lemma_item_round_trip(items.last());
    if i == items.len() - 1 {
        assert(spec_items_bytes(items).subrange(16 * i, 16 * i + 16) =~= spec_item_bytes(
            items[i],
        ));
    } else {
        lemma_items_bytes_index(items.drop_last(), i);
        assert(spec_items_bytes(items).subrange(16 * i, 16 * i + 16) =~= spec_items_bytes(
            items.drop_last(),
        ).subrange(16 * i, 16 * i + 16));
    }
}

// -------------------- OffsetTableChunk --------------------

/// Slots of one offset-table page.
pub const CHUNK_CAPACITY: usize = 254;

/// One page of a section's offset table: a doubly-linked list node holding
/// up to 254 items. `nb_items` counts populated leading slots (slots fill
/// left to right, never sparsely); `previous_chunk`/`next_chunk` hold the
/// sentinel when there is no neighbor in that direction.
#[derive(Debug)]
pub struct OffsetTableChunk {
    pub nb_items: u8,
    pub previous_chunk: u64,
    pub next_chunk: u64,
    pub offset_items: Vec<OffsetItem>,
}

/// Ghost model of an offset-table chunk.
pub struct ChunkV {
    pub nb_items: u8,
    pub previous_chunk: u64,
    pub next_chunk: u64,
    pub items: Seq<OffsetItem>,
}

impl ChunkV {
    pub open spec fn wf(self) -> bool {
        self.items.len() == CHUNK_CAPACITY
    }
}

impl View for OffsetTableChunk {
    type V = ChunkV;

    open spec fn view(&self) -> ChunkV {
        ChunkV {
            nb_items: self.nb_items,
            previous_chunk: self.previous_chunk,
            next_chunk: self.next_chunk,
            items: self.offset_items@,
        }
    }
}

/// The chunk an empty page is initialized to: no items, no neighbors,
/// every slot unpopulated.
pub open spec fn spec_default_chunk() -> ChunkV {
    ChunkV {
        nb_items: 0,
        previous_chunk: INVALID_OFFSET,
        next_chunk: INVALID_OFFSET,
        items: Seq::new(CHUNK_CAPACITY as nat, |i: int| OffsetItem { id: 0, offset: INVALID_OFFSET }),
    }
}

/// The 4096-byte encoding of a chunk: `nb_items`, 7 pad bytes, the two
/// neighbor links, 254 items, then 8 reserved bytes.
pub open spec fn spec_chunk_bytes(c: ChunkV) -> Seq<u8> {
    seq![c.nb_items] + zeros(7) + spec_u64_to_le_bytes(c.previous_chunk) + spec_u64_to_le_bytes(
        c.next_chunk,
    ) + spec_items_bytes(c.items) + zeros(8)
}

/// The chunk a 4096-byte page decodes to; field values are taken as-is.
pub open spec fn spec_chunk_of_bytes(s: Seq<u8>) -> ChunkV {
    ChunkV {
        nb_items: s[0],
        previous_chunk: spec_u64_from_le_bytes(s.subrange(8, 16)),
        next_chunk: spec_u64_from_le_bytes(s.subrange(16, 24)),
        items: Seq::new(
            CHUNK_CAPACITY as nat,
            |i: int| spec_item_of_bytes(s.subrange(24 + 16 * i, 24 + 16 * i + 16)),
        ),
    }
}

/// A well-formed chunk encodes to exactly one page.
pub proof fn lemma_chunk_bytes_len(c: ChunkV)
    requires
        c.wf(),
    ensures
        spec_chunk_bytes(c).len() == PAGE_SIZE,
{
    vstd::bytes::lemma_auto_spec_u64_to_from_le_bytes();
    lemma_items_bytes_len(c.items);
}

/// Round trip: decoding an encoded chunk restores the count, both links
/// and all 254 slots.
pub proof fn lemma_chunk_round_trip(c: ChunkV)
    requires
        c.wf(),
    ensures
        spec_chunk_of_bytes(spec_chunk_bytes(c)) == c,
{
    vstd::bytes::lemma_auto_spec_u64_to_from_le_bytes();
    lemma_items_bytes_len(c.items);
    let s = spec_chunk_bytes(c);
    let d = spec_chunk_of_bytes(s);
    assert(s[0] == c.nb_items);
    assert(s.subrange(8, 16) =~= spec_u64_to_le_bytes(c.previous_chunk));
    assert(s.subrange(16, 24) =~= spec_u64_to_le_bytes(c.next_chunk));
    assert forall|i: int| 0 <= i < CHUNK_CAPACITY implies d.items[i] == c.items[i] by {
        lemma_items_bytes_index(c.items, i);
        assert(s.subrange(24 + 16 * i, 24 + 16 * i + 16) =~= spec_items_bytes(c.items).subrange(
            16 * i,
            16 * i + 16,
        ));
        lemma_item_round_trip(c.items[i]);
    }
    assert(d.items =~= c.items);
}

impl Default for OffsetTableChunk {
    /// An empty chunk: no items, no neighbors, every slot unpopulated.
    fn default() -> (r: Self)
        ensures
            r@ == spec_default_chunk(),
            r@.wf(),
    {
        let mut offset_items: Vec<OffsetItem> = Vec::new();
        let mut i: usize = 0;
        while i < CHUNK_CAPACITY
            invariant
                i <= CHUNK_CAPACITY,
                offset_items@.len() == i,
                forall|j: int|
                    0 <= j < i ==> offset_items@[j] == (OffsetItem {
                        id: 0,
                        offset: INVALID_OFFSET,
                    }),
            decreases CHUNK_CAPACITY - i,
        {
            offset_items.push(OffsetItem { id: 0, offset: INVALID_OFFSET });
            i = i + 1;
        }
        let r = OffsetTableChunk {
            nb_items: 0,
            previous_chunk: INVALID_OFFSET,
            next_chunk: INVALID_OFFSET,
            offset_items,
        };
        proof {
            assert(r@.items =~= spec_default_chunk().items);
        }
        r
    }
}

impl OffsetTableChunk {
    /// Encodes this chunk as one page.
    pub fn serialize(&self) -> (r: Vec<u8>)
        requires
            self@.wf(),
        ensures
            r@ == spec_chunk_bytes(self@),
            r@.len() == PAGE_SIZE,
    {
        let mut buf: Vec<u8> = Vec::new();
        write_u8(self.nb_items, &mut buf);
        append_zeros(&mut buf, 7);
        write_u64_le(self.previous_chunk, &mut buf);
        write_u64_le(self.next_chunk, &mut buf);
        let ghost prefix = buf@;
        let mut i: usize = 0;
        while i < CHUNK_CAPACITY
            invariant
                i <= CHUNK_CAPACITY,
                self@.wf(),
                buf@ == prefix + spec_items_bytes(self.offset_items@.subrange(0, i as int)),
            decreases CHUNK_CAPACITY - i,
        {
            let it = self.offset_items[i];
            write_u64_le(it.id, &mut buf);
            write_u64_le(it.offset, &mut buf);
            proof {
                let sub1 = self.offset_items@.subrange(0, i + 1);
                assert(sub1.drop_last() =~= self.offset_items@.subrange(0, i as int));
                assert(buf@ =~= prefix + spec_items_bytes(sub1));
            }
            i = i + 1;
        }
        proof {
            assert(self.offset_items@.subrange(0, CHUNK_CAPACITY as int) =~= self.offset_items@);
            lemma_items_bytes_len(self.offset_items@);
        }
        append_zeros(&mut buf, 8);
        proof {
            lemma_chunk_bytes_len(self@);
            assert(buf@ =~= spec_chunk_bytes(self@));
        }
        buf
    }

    /// Decodes one page; accepts all field values as-is (an out-of-range
    /// `nb_items` is not rejected here: validation is a higher-layer
    /// concern).
    pub fn deserialize(buf: &[u8]) -> (r: Self)
        requires
            buf@.len() == PAGE_SIZE,
        ensures
            r@ == spec_chunk_of_bytes(buf@),
            r@.wf(),
    {
        let nb_items = read_u8(buf, 0).unwrap();
        let previous_chunk = read_u64_le(buf, 8).unwrap();
        let next_chunk = read_u64_le(buf, 16).unwrap();
        let mut offset_items: Vec<OffsetItem> = Vec::new();
        let mut i: usize = 0;
        while i < CHUNK_CAPACITY
            invariant
                i <= CHUNK_CAPACITY,
                buf@.len() == PAGE_SIZE,
                offset_items@.len() == i,
                forall|j: int|
                    0 <= j < i ==> offset_items@[j] == spec_item_of_bytes(
                        buf@.subrange(24 + 16 * j, 24 + 16 * j + 16),
                    ),
            decreases CHUNK_CAPACITY - i,
        {
            let id = read_u64_le(buf, 24 + 16 * i).unwrap();
            let item_offset = read_u64_le(buf, 24 + 16 * i + 8).unwrap();
            proof {
                let s = buf@.subrange(24 + 16 * (i as int), 24 + 16 * (i as int) + 16);
                assert(s.subrange(0, 8) =~= buf@.subrange(
                    24 + 16 * (i as int),
                    24 + 16 * (i as int) + 8,
                ));
                assert(s.subrange(8, 16) =~= buf@.subrange(
                    24 + 16 * (i as int) + 8,
                    24 + 16 * (i as int) + 16,
                ));
            }
            offset_items.push(OffsetItem { id, offset: item_offset });
            i = i + 1;
        }
        let r = OffsetTableChunk { nb_items, previous_chunk, next_chunk, offset_items };
        proof {
            assert(r@.items =~= spec_chunk_of_bytes(buf@).items);
        }
        r
    }
}

// -------------------- Rows of u64 values --------------------

/// The concatenated 8-byte encodings of a row of `u64` values, as used by
/// the property slots of schema, node and edge records.
pub open spec fn spec_u64s_bytes(vals: Seq<u64>) -> Seq<u8>
    decreases vals.len(),
{
    if vals.len() == 0 {
        Seq::empty()
    } else {
        spec_u64s_bytes(vals.drop_last()) + spec_u64_to_le_bytes(vals.last())
    }
}

/// A row of `u64` values encodes to 8 bytes per value.
pub proof fn lemma_u64s_bytes_len(vals: Seq<u64>)
    ensures
        spec_u64s_bytes(vals).len() == 8 * vals.len(),
    decreases vals.len(),
{
    vstd::bytes::lemma_auto_spec_u64_to_from_le_bytes();
    if vals.len() > 0 {
        lemma_u64s_bytes_len(vals.drop_last());
    }
}

/// Value `i` of a row sits at bytes `8 * i .. 8 * i + 8` of the encoding.
pub proof fn lemma_u64s_bytes_index(vals: Seq<u64>, i: int)
    requires
        0 <= i < vals.len(),
    ensures
        spec_u64s_bytes(vals).subrange(8 * i, 8 * i + 8) == spec_u64_to_le_bytes(vals[i]),
    decreases vals.len(),
{
    vstd::bytes::lemma_auto_spec_u64_to_from_le_bytes();
    lemma_u64s_bytes_len(vals);
    lemma_u64s_bytes_len(vals.drop_last());
    if i == vals.len() - 1 {
        assert(spec_u64s_bytes(vals).subrange(8 * i, 8 * i + 8) =~= spec_u64_to_le_bytes(
            vals[i],
        ));
    } else {
        lemma_u64s_bytes_index(vals.drop_last(), i);
        assert(spec_u64s_bytes(vals).subrange(8 * i, 8 * i + 8) =~= spec_u64s_bytes(
            vals.drop_last(),
        ).subrange(8 * i, 8 * i + 8));
    }
}

/// Appends the encodings of all values in `vals` to `buf`.
fn write_u64_row(vals: &Vec<u64>, buf: &mut Vec<u8>)
    requires
        old(buf)@.len() + 8 * vals@.len() <= usize::MAX,
    ensures
        final(buf)@ == old(buf)@ + spec_u64s_bytes(vals@),
        final(buf)@.len() == old(buf)@.len() + 8 * vals@.len(),
{
    let mut i: usize = 0;
    let n = vals.len();
    while i < n
        invariant
            i <= n,
            n == vals@.len(),
            buf@ == old(buf)@ + spec_u64s_bytes(vals@.subrange(0, i as int)),
        decreases n - i,
    {
        write_u64_le(vals[i], buf);
        proof {
            let sub1 = vals@.subrange(0, i + 1);
            assert(sub1.drop_last() =~= vals@.subrange(0, i as int));
            assert(buf@ =~= old(buf)@ + spec_u64s_bytes(sub1));
        }
        i = i + 1;
    }
    proof {
        assert(vals@.subrange(0, vals@.len() as int) =~= vals@);
        lemma_u64s_bytes_len(vals@);
    }
}

/// Reads `count` consecutive `u64` values from `buf` starting at `offset`.
fn read_u64_row(buf: &[u8], offset: usize, count: usize) -> (r: Vec<u64>)
    requires
        offset + 8 * count <= buf@.len(),
    ensures
        r@.len() == count,
        forall|i: int|
            0 <= i < count ==> r@[i] == spec_u64_from_le_bytes(
                buf@.subrange(offset + 8 * i, offset + 8 * i + 8),
            ),
{
    let n = buf.len();
    let mut r: Vec<u64> = Vec::new();
    let mut i: usize = 0;
    while i < count
        invariant
            i <= count,
            n == buf@.len(),
            offset + 8 * count <= n,
            r@.len() == i,
            forall|j: int|
                0 <= j < i ==> r@[j] == spec_u64_from_le_bytes(
                    buf@.subrange(offset + 8 * j, offset + 8 * j + 8),
                ),
        decreases count - i,
    {
        let v = read_u64_le(buf, offset + 8 * i).unwrap();
        r.push(v);
        i = i + 1;
    }
    r
}

// -------------------- Name --------------------

/// A 64-byte name-table record: an id, the used length, and a fixed
/// 55-byte value buffer.
#[derive(Debug)]
pub struct Name {
    pub id: u64,
    pub size: u8,
    pub value: Vec<u8>,
}

/// Ghost model of a name record.
pub struct NameV {
    pub id: u64,
    pub size: u8,
    pub value: Seq<u8>,
}

impl NameV {
    pub open spec fn wf(self) -> bool {
        self.value.len() == PROPERTY_NAME_MAX_SIZE
    }
}

impl View for Name {
    type V = NameV;

    open spec fn view(&self) -> NameV {
        NameV { id: self.id, size: self.size, value: self.value@ }
    }
}

/// The 64-byte encoding of a name record.
pub open spec fn spec_name_bytes(n: NameV) -> Seq<u8> {
    spec_u64_to_le_bytes(n.id) + seq![n.size] + n.value
}

/// The name record 64 bytes decode to.
pub open spec fn spec_name_of_bytes(s: Seq<u8>) -> NameV {
    NameV {
        id: spec_u64_from_le_bytes(s.subrange(0, 8)),
        size: s[8],
        value: s.subrange(9, 64),
    }
}

/// Round trip for a name record, with its exact 64-byte size.
pub proof fn lemma_name_round_trip(n: NameV)
    requires
        n.wf(),
    ensures
        spec_name_bytes(n).len() == 64,
        spec_name_of_bytes(spec_name_bytes(n)) == n,
{
    vstd::bytes::lemma_auto_spec_u64_to_from_le_bytes();
    let s = spec_name_bytes(n);
    assert(s.subrange(0, 8) =~= spec_u64_to_le_bytes(n.id));
    assert(s.subrange(9, 64) =~= n.value);
}

impl Default for Name {
    /// An empty name record: id 0, length 0, all value bytes zero.
    fn default() -> (r: Self)
        ensures
            r.id == 0,
            r.size == 0,
            r@.value == zeros(PROPERTY_NAME_MAX_SIZE as nat),
            r@.wf(),
    {
        let mut value: Vec<u8> = Vec::new();
        append_zeros(&mut value, PROPERTY_NAME_MAX_SIZE);
        proof {
            assert(value@ =~= zeros(PROPERTY_NAME_MAX_SIZE as nat));
        }
        Name { id: 0, size: 0, value }
    }
}

impl Name {
    /// Encodes this record as 64 bytes.
    pub fn serialize(&self) -> (r: Vec<u8>)
        requires
            self@.wf(),
        ensures
            r@ == spec_name_bytes(self@),
            r@.len() == 64,
    {
        let mut buf: Vec<u8> = Vec::new();
        write_u64_le(self.id, &mut buf);
        write_u8(self.size, &mut buf);
        write_bytes(self.value.as_slice(), &mut buf);
        proof {
            lemma_name_round_trip(self@);
        }
        buf
    }

    /// Decodes a 64-byte record; accepts all field values as-is.
    pub fn deserialize(buf: &[u8]) -> (r: Self)
        requires
            buf@.len() == 64,
        ensures
            r@ == spec_name_of_bytes(buf@),
            r@.wf(),
    {
        let id = read_u64_le(buf, 0).unwrap();
        let size = read_u8(buf, 8).unwrap();
        let window = crate::endian::read_bytes(buf, 9, PROPERTY_NAME_MAX_SIZE).unwrap();
        let value = vstd::slice::slice_to_vec(window);
        Name { id, size, value }
    }
}

// -------------------- PropertyType --------------------

/// The closed enumeration of property value types, stored as one byte on
/// disk; `InvalidType` is the default sentinel tag.
#[derive(Clone, Copy, Debug, PartialEq, Eq, Structural)]
pub enum PropertyType {
    Int8,
    Int16,
    Int32,
    Int64,
    Float8,
    Float16,
    Float32,
    Float64,
    String32,
    String64,
    String512,
    Page,
    Bool,
    InvalidType,
}

impl PropertyType {
    /// The byte tag this type is stored as.
    pub open spec fn spec_as_u8(self) -> u8 {
        match self {
            PropertyType::Int8 => 0,
            PropertyType::Int16 => 1,
            PropertyType::Int32 => 2,
            PropertyType::Int64 => 3,
            PropertyType::Float8 => 4,
            PropertyType::Float16 => 5,
            PropertyType::Float32 => 6,
            PropertyType::Float64 => 7,
            PropertyType::String32 => 8,
            PropertyType::String64 => 9,
            PropertyType::String512 => 10,
            PropertyType::Page => 11,
            PropertyType::Bool => 12,
            PropertyType::InvalidType => 13,
        }
    }

    /// Returns the byte tag this type is stored as.
    pub fn as_u8(self) -> (r: u8)
        ensures
            r == self.spec_as_u8(),
    {
        match self {
            PropertyType::Int8 => 0,
            PropertyType::Int16 => 1,
            PropertyType::Int32 => 2,
            PropertyType::Int64 => 3,
            PropertyType::Float8 => 4,
            PropertyType::Float16 => 5,
            PropertyType::Float32 => 6,
            PropertyType::Float64 => 7,
            PropertyType::String32 => 8,
            PropertyType::String64 => 9,
            PropertyType::String512 => 10,
            PropertyType::Page => 11,
            PropertyType::Bool => 12,
            PropertyType::InvalidType => 13,
        }
    }
}

impl Default for PropertyType {
    fn default() -> (r: Self)
        ensures
            r == PropertyType::InvalidType,
    {
        PropertyType::InvalidType
    }
}

// -------------------- PropertyDefinition --------------------

/// A 16-byte property descriptor: the id of its name record, its type tag,
/// and whether it is optional (one byte, zero or one).
#[derive(Clone, Copy, Debug, PartialEq, Eq, Structural)]
pub struct PropertyDefinition {
    pub name_id: u64,
    pub type_tag: u8,
    pub optional: u8,
}

/// The 16-byte encoding of a property descriptor.
pub open spec fn spec_property_definition_bytes(p: PropertyDefinition) -> Seq<u8> {
    spec_u64_to_le_bytes(p.name_id) + seq![p.type_tag] + seq![p.optional] + zeros(6)
}

/// The property descriptor 16 bytes decode to.
pub open spec fn spec_property_definition_of_bytes(s: Seq<u8>) -> PropertyDefinition {
    PropertyDefinition {
        name_id: spec_u64_from_le_bytes(s.subrange(0, 8)),
        type_tag: s[8],
        optional: s[9],
    }
}

/// Round trip for a property descriptor, with its exact 16-byte size.
pub proof fn lemma_property_definition_round_trip(p: PropertyDefinition)
    ensures
        spec_property_definition_bytes(p).len() == 16,
        spec_property_definition_of_bytes(spec_property_definition_bytes(p)) == p,
{
    vstd::bytes::lemma_auto_spec_u64_to_from_le_bytes();
    let s = spec_property_definition_bytes(p);
    assert(s.subrange(0, 8) =~= spec_u64_to_le_bytes(p.name_id));
}

impl Default for PropertyDefinition {
    /// An unset descriptor: the sentinel type tag, not optional.
    fn default() -> (r: Self)
        ensures
            r.name_id == 0,
            r.type_tag == PropertyType::InvalidType.spec_as_u8(),
            r.optional == 0,
    {
        PropertyDefinition { name_id: 0, type_tag: PropertyType::InvalidType.as_u8(), optional: 0 }
    }
}

impl PropertyDefinition {
    /// Encodes this descriptor as 16 bytes.
    pub fn serialize(&self) -> (r: Vec<u8>)
        ensures
            r@ == spec_property_definition_bytes(*self),
            r@.len() == 16,
    {
        let mut buf: Vec<u8> = Vec::new();
        write_u64_le(self.name_id, &mut buf);
        write_u8(self.type_tag, &mut buf);
        write_u8(self.optional, &mut buf);
        append_zeros(&mut buf, 6);
        proof {
            lemma_property_definition_round_trip(*self);
            assert(buf@ =~= spec_property_definition_bytes(*self));
        }
        buf
    }

    /// Decodes a 16-byte descriptor; accepts all field values as-is (an
    /// out-of-range type tag is not rejected here).
    pub fn deserialize(buf: &[u8]) -> (r: Self)
        requires
            buf@.len() == 16,
        ensures
            r == spec_property_definition_of_bytes(buf@),
    {
        let name_id = read_u64_le(buf, 0).unwrap();
        let type_tag = read_u8(buf, 8).unwrap();
        let optional = read_u8(buf, 9).unwrap();
        PropertyDefinition { name_id, type_tag, optional }
    }
}

// -------------------- NodeSchema --------------------

/// A 1024-byte node-schema record: an id, the number of used property
/// slots, and 120 property-definition ids.
#[derive(Debug)]
pub struct NodeSchema {
    pub id: u64,
    pub property_count: u16,
    pub properties: Vec<u64>,
}

/// Ghost model of a node schema record.
pub struct NodeSchemaV {
    pub id: u64,
    pub property_count: u16,
    pub properties: Seq<u64>,
}

impl NodeSchemaV {
    pub open spec fn wf(self) -> bool {
        self.properties.len() == MAX_PROPERTIES_COUNT
    }
}

impl View for NodeSchema {
    type V = NodeSchemaV;

    open spec fn view(&self) -> NodeSchemaV {
        NodeSchemaV {
            id: self.id,
            property_count: self.property_count,
            properties: self.properties@,
        }
    }
}

/// The 1024-byte encoding of a node schema record.
pub open spec fn spec_node_schema_bytes(n: NodeSchemaV) -> Seq<u8> {
    spec_u64_to_le_bytes(n.id) + spec_u16_to_le_bytes(n.property_count) + zeros(6)
        + spec_u64s_bytes(n.properties) + zeros(48)
}

/// The node schema record 1024 bytes decode to.
pub open spec fn spec_node_schema_of_bytes(s: Seq<u8>) -> NodeSchemaV {
    NodeSchemaV {
        id: spec_u64_from_le_bytes(s.subrange(0, 8)),
        property_count: spec_u16_from_le_bytes(s.subrange(8, 10)),
        properties: Seq::new(
            MAX_PROPERTIES_COUNT as nat,
            |i: int| spec_u64_from_le_bytes(s.subrange(16 + 8 * i, 16 + 8 * i + 8)),
        ),
    }
}

/// Round trip for a node schema record, with its exact 1024-byte size.
pub proof fn lemma_node_schema_round_trip(n: NodeSchemaV)
    requires
        n.wf(),
    ensures
        spec_node_schema_bytes(n).len() == KB1,
        spec_node_schema_of_bytes(spec_node_schema_bytes(n)) == n,
{
    vstd::bytes::lemma_auto_spec_u64_to_from_le_bytes();
    vstd::bytes::lemma_auto_spec_u16_to_from_le_bytes();
    lemma_u64s_bytes_len(n.properties);
    let s = spec_node_schema_bytes(n);
    let d = spec_node_schema_of_bytes(s);
    assert(s.subrange(0, 8) =~= spec_u64_to_le_bytes(n.id));
    assert(s.subrange(8, 10) =~= spec_u16_to_le_bytes(n.property_count));
    assert forall|i: int| 0 <= i < MAX_PROPERTIES_COUNT implies d.properties[i]
        == n.properties[i] by {
        lemma_u64s_bytes_index(n.properties, i);
        assert(s.subrange(16 + 8 * i, 16 + 8 * i + 8) =~= spec_u64s_bytes(n.properties).subrange(
            8 * i,
            8 * i + 8,
        ));
    }
    assert(d.properties =~= n.properties);
}

impl Default for NodeSchema {
    /// An empty schema: id 0, no used slots, all slot ids zero.
    fn default() -> (r: Self)
        ensures
            r.id == 0,
            r.property_count == 0,
            r@.properties == Seq::new(MAX_PROPERTIES_COUNT as nat, |i: int| 0u64),
            r@.wf(),
    {
        let properties = zero_u64_row(MAX_PROPERTIES_COUNT);
        NodeSchema { id: 0, property_count: 0, properties }
    }
}

impl NodeSchema {
    /// Encodes this record as 1024 bytes.
    pub fn serialize(&self) -> (r: Vec<u8>)
        requires
            self@.wf(),
        ensures
            r@ == spec_node_schema_bytes(self@),
            r@.len() == KB1,
    {
        let mut buf: Vec<u8> = Vec::new();
        write_u64_le(self.id, &mut buf);
        write_u16_le(self.property_count, &mut buf);
        append_zeros(&mut buf, 6);
        write_u64_row(&self.properties, &mut buf);
        append_zeros(&mut buf, 48);
        proof {
            lemma_node_schema_round_trip(self@);
            assert(buf@ =~= spec_node_schema_bytes(self@));
        }
        buf
    }

    /// Decodes a 1024-byte record; accepts all field values as-is.
    pub fn deserialize(buf: &[u8]) -> (r: Self)
        requires
            buf@.len() == KB1,
        ensures
            r@ == spec_node_schema_of_bytes(buf@),
            r@.wf(),
    {
        let id = read_u64_le(buf, 0).unwrap();
        let property_count = read_u16_le(buf, 8).unwrap();
        let properties = read_u64_row(buf, 16, MAX_PROPERTIES_COUNT);
        let r = NodeSchema { id, property_count, properties };
        proof {
            assert(r@.properties =~= spec_node_schema_of_bytes(buf@).properties);
        }
        r
    }
}

// -------------------- EdgeSchema --------------------

/// A 1024-byte edge-schema record, laid out exactly as a node schema.
#[derive(Debug)]
pub struct EdgeSchema {
    pub id: u64,
    pub property_count: u16,
    pub properties: Vec<u64>,
}

/// Ghost model of an edge schema record.
pub struct EdgeSchemaV {
    pub id: u64,
    pub property_count: u16,
    pub properties: Seq<u64>,
}

impl EdgeSchemaV {
    pub open spec fn wf(self) -> bool {
        self.properties.len() == MAX_PROPERTIES_COUNT
    }
}

impl View for EdgeSchema {
    type V = EdgeSchemaV;

    open spec fn view(&self) -> EdgeSchemaV {
        EdgeSchemaV {
            id: self.id,
            property_count: self.property_count,
            properties: self.properties@,
        }
    }
}

/// The 1024-byte encoding of an edge schema record.
pub open spec fn spec_edge_schema_bytes(e: EdgeSchemaV) -> Seq<u8> {
    spec_u64_to_le_bytes(e.id) + spec_u16_to_le_bytes(e.property_count) + zeros(6)
        + spec_u64s_bytes(e.properties) + zeros(48)
}

/// The edge schema record 1024 bytes decode to.
pub open spec fn spec_edge_schema_of_bytes(s: Seq<u8>) -> EdgeSchemaV {
    EdgeSchemaV {
        id: spec_u64_from_le_bytes(s.subrange(0, 8)),
        property_count: spec_u16_from_le_bytes(s.subrange(8, 10)),
        properties: Seq::new(
            MAX_PROPERTIES_COUNT as nat,
            |i: int| spec_u64_from_le_bytes(s.subrange(16 + 8 * i, 16 + 8 * i + 8)),
        ),
    }
}

/// Round trip for an edge schema record, with its exact 1024-byte size.
pub proof fn lemma_edge_schema_round_trip(e: EdgeSchemaV)
    requires
        e.wf(),
    ensures
        spec_edge_schema_bytes(e).len() == KB1,
        spec_edge_schema_of_bytes(spec_edge_schema_bytes(e)) == e,
{
    vstd::bytes::lemma_auto_spec_u64_to_from_le_bytes();
    vstd::bytes::lemma_auto_spec_u16_to_from_le_bytes();
    lemma_u64s_bytes_len(e.properties);
    let s = spec_edge_schema_bytes(e);
    let d = spec_edge_schema_of_bytes(s);
    assert(s.subrange(0, 8) =~= spec_u64_to_le_bytes(e.id));
    assert(s.subrange(8, 10) =~= spec_u16_to_le_bytes(e.property_count));
    assert forall|i: int| 0 <= i < MAX_PROPERTIES_COUNT implies d.properties[i]
        == e.properties[i] by {
        lemma_u64s_bytes_index(e.properties, i);
        assert(s.subrange(16 + 8 * i, 16 + 8 * i + 8) =~= spec_u64s_bytes(e.properties).subrange(
            8 * i,
            8 * i + 8,
        ));
    }
    assert(d.properties =~= e.properties);
}

impl Default for EdgeSchema {
    /// An empty schema: id 0, no used slots, all slot ids zero.
    fn default() -> (r: Self)
        ensures
            r.id == 0,
            r.property_count == 0,
            r@.properties == Seq::new(MAX_PROPERTIES_COUNT as nat, |i: int| 0u64),
            r@.wf(),
    {
        let properties = zero_u64_row(MAX_PROPERTIES_COUNT);
        EdgeSchema { id: 0, property_count: 0, properties }
    }
}

impl EdgeSchema {
    /// Encodes this record as 1024 bytes.
    pub fn serialize(&self) -> (r: Vec<u8>)
        requires
            self@.wf(),
        ensures
            r@ == spec_edge_schema_bytes(self@),
            r@.len() == KB1,
    {
        let mut buf: Vec<u8> = Vec::new();
        write_u64_le(self.id, &mut buf);
        write_u16_le(self.property_count, &mut buf);
        append_zeros(&mut buf, 6);
        write_u64_row(&self.properties, &mut buf);
        append_zeros(&mut buf, 48);
        proof {
            lemma_edge_schema_round_trip(self@);
            assert(buf@ =~= spec_edge_schema_bytes(self@));
        }
        buf
    }

    /// Decodes a 1024-byte record; accepts all field values as-is.
    pub fn deserialize(buf: &[u8]) -> (r: Self)
        requires
            buf@.len() == KB1,
        ensures
            r@ == spec_edge_schema_of_bytes(buf@),
            r@.wf(),
    {
        let id = read_u64_le(buf, 0).unwrap();
        let property_count = read_u16_le(buf, 8).unwrap();
        let properties = read_u64_row(buf, 16, MAX_PROPERTIES_COUNT);
        let r = EdgeSchema { id, property_count, properties };
        proof {
            assert(r@.properties =~= spec_edge_schema_of_bytes(buf@).properties);
        }
        r
    }
}

/// A row of `n` zero values, as fresh records are initialized with.
fn zero_u64_row(n: usize) -> (r: Vec<u64>)
    ensures
        r@ == Seq::new(n as nat, |i: int| 0u64),
{
    let mut r: Vec<u64> = Vec::new();
    let mut i: usize = 0;
    while i < n
        invariant
            i <= n,
            r@.len() == i,
            forall|j: int| 0 <= j < i ==> r@[j] == 0u64,
        decreases n - i,
    {
        r.push(0u64);
        i = i + 1;
    }
    proof {
        assert(r@ =~= Seq::new(n as nat, |i: int| 0u64));
    }
    r
}

// -------------------- Node --------------------

/// A 1024-byte node record: an id, the id of its schema, and 120 raw
/// property values positionally aligned with that schema.
#[derive(Debug)]
pub struct Node {
    pub id: u64,
    pub schema_id: u64,
    pub property_values: Vec<u64>,
}

/// Ghost model of a node record.
pub struct NodeV {
    pub id: u64,
    pub schema_id: u64,
    pub property_values: Seq<u64>,
}

impl NodeV {
    pub open spec fn wf(self) -> bool {
        self.property_values.len() == MAX_PROPERTIES_COUNT
    }
}

impl View for Node {
    type V = NodeV;

    open spec fn view(&self) -> NodeV {
        NodeV { id: self.id, schema_id: self.schema_id, property_values: self.property_values@ }
    }
}

/// The 1024-byte encoding of a node record.
pub open spec fn spec_node_bytes(n: NodeV) -> Seq<u8> {
    spec_u64_to_le_bytes(n.id) + spec_u64_to_le_bytes(n.schema_id) + spec_u64s_bytes(
        n.property_values,
    ) + zeros(48)
}

/// The node record 1024 bytes decode to.
pub open spec fn spec_node_of_bytes(s: Seq<u8>) -> NodeV {
    NodeV {
        id: spec_u64_from_le_bytes(s.subrange(0, 8)),
        schema_id: spec_u64_from_le_bytes(s.subrange(8, 16)),
        property_values: Seq::new(
            MAX_PROPERTIES_COUNT as nat,
            |i: int| spec_u64_from_le_bytes(s.subrange(16 + 8 * i, 16 + 8 * i + 8)),
        ),
    }
}

/// Round trip for a node record, with its exact 1024-byte size.
pub proof fn lemma_node_round_trip(n: NodeV)
    requires
        n.wf(),
    ensures
        spec_node_bytes(n).len() == KB1,
        spec_node_of_bytes(spec_node_bytes(n)) == n,
{
    vstd::bytes::lemma_auto_spec_u64_to_from_le_bytes();
    lemma_u64s_bytes_len(n.property_values);
    let s = spec_node_bytes(n);
    let d = spec_node_of_bytes(s);
    assert(s.subrange(0, 8) =~= spec_u64_to_le_bytes(n.id));
    assert(s.subrange(8, 16) =~= spec_u64_to_le_bytes(n.schema_id));
    assert forall|i: int| 0 <= i < MAX_PROPERTIES_COUNT implies d.property_values[i]
        == n.property_values[i] by {
        lemma_u64s_bytes_index(n.property_values, i);
        assert(s.subrange(16 + 8 * i, 16 + 8 * i + 8) =~= spec_u64s_bytes(
            n.property_values,
        ).subrange(8 * i, 8 * i + 8));
    }
    assert(d.property_values =~= n.property_values);
}

impl Default for Node {
    /// An empty node record: all identifiers and values zero.
    fn default() -> (r: Self)
        ensures
            r.id == 0,
            r.schema_id == 0,
            r@.property_values == Seq::new(MAX_PROPERTIES_COUNT as nat, |i: int| 0u64),
            r@.wf(),
    {
        let property_values = zero_u64_row(MAX_PROPERTIES_COUNT);
        Node { id: 0, schema_id: 0, property_values }
    }
}

impl Node {
    /// Encodes this record as 1024 bytes.
    pub fn serialize(&self) -> (r: Vec<u8>)
        requires
            self@.wf(),
        ensures
            r@ == spec_node_bytes(self@),
            r@.len() == KB1,
    {
        let mut buf: Vec<u8> = Vec::new();
        write_u64_le(self.id, &mut buf);
        write_u64_le(self.schema_id, &mut buf);
        write_u64_row(&self.property_values, &mut buf);
        append_zeros(&mut buf, 48);
        proof {
            lemma_node_round_trip(self@);
            assert(buf@ =~= spec_node_bytes(self@));
        }
        buf
    }

    /// Decodes a 1024-byte record; accepts all field values as-is.
    pub fn deserialize(buf: &[u8]) -> (r: Self)
        requires
            buf@.len() == KB1,
        ensures
            r@ == spec_node_of_bytes(buf@),
            r@.wf(),
    {
        let id = read_u64_le(buf, 0).unwrap();
        let schema_id = read_u64_le(buf, 8).unwrap();
        let property_values = read_u64_row(buf, 16, MAX_PROPERTIES_COUNT);
        let r = Node { id, schema_id, property_values };
        proof {
            assert(r@.property_values =~= spec_node_of_bytes(buf@).property_values);
        }
        r
    }
}

// -------------------- Edge --------------------

/// A 1024-byte edge record: identifiers of the edge, its schema, its source
/// and destination nodes, and 120 raw property values.
#[derive(Debug)]
pub struct Edge {
    pub id: u64,
    pub schema_id: u64,
    pub source_id: u64,
    pub destination_id: u64,
    pub property_values: Vec<u64>,
}

/// Ghost model of an edge record.
pub struct EdgeV {
    pub id: u64,
    pub schema_id: u64,
    pub source_id: u64,
    pub destination_id: u64,
    pub property_values: Seq<u64>,
}

impl EdgeV {
    pub open spec fn wf(self) -> bool {
        self.property_values.len() == MAX_PROPERTIES_COUNT
    }
}

impl View for Edge {
    type V = EdgeV;

    open spec fn view(&self) -> EdgeV {
        EdgeV {
            id: self.id,
            schema_id: self.schema_id,
            source_id: self.source_id,
            destination_id: self.destination_id,
            property_values: self.property_values@,
        }
    }
}

/// The 1024-byte encoding of an edge record.
pub open spec fn spec_edge_bytes(e: EdgeV) -> Seq<u8> {
    spec_u64_to_le_bytes(e.id) + spec_u64_to_le_bytes(e.schema_id) + spec_u64_to_le_bytes(
        e.source_id,
    ) + spec_u64_to_le_bytes(e.destination_id) + spec_u64s_bytes(e.property_values) + zeros(32)
}

/// The edge record 1024 bytes decode to.
pub open spec fn spec_edge_of_bytes(s: Seq<u8>) -> EdgeV {
    EdgeV {
        id: spec_u64_from_le_bytes(s.subrange(0, 8)),
        schema_id: spec_u64_from_le_bytes(s.subrange(8, 16)),
        source_id: spec_u64_from_le_bytes(s.subrange(16, 24)),
        destination_id: spec_u64_from_le_bytes(s.subrange(24, 32)),
        property_values: Seq::new(
            MAX_PROPERTIES_COUNT as nat,
            |i: int| spec_u64_from_le_bytes(s.subrange(32 + 8 * i, 32 + 8 * i + 8)),
        ),
    }
}

/// Round trip for an edge record, with its exact 1024-byte size.
pub proof fn lemma_edge_round_trip(e: EdgeV)
    requires
        e.wf(),
    ensures
        spec_edge_bytes(e).len() == KB1,
        spec_edge_of_bytes(spec_edge_bytes(e)) == e,
{
    vstd::bytes::lemma_auto_spec_u64_to_from_le_bytes();
    lemma_u64s_bytes_len(e.property_values);
    let s = spec_edge_bytes(e);
    let d = spec_edge_of_bytes(s);
    assert(s.subrange(0, 8) =~= spec_u64_to_le_bytes(e.id));
    assert(s.subrange(8, 16) =~= spec_u64_to_le_bytes(e.schema_id));
    assert(s.subrange(16, 24) =~= spec_u64_to_le_bytes(e.source_id));
    assert(s.subrange(24, 32) =~= spec_u64_to_le_bytes(e.destination_id));
    assert forall|i: int| 0 <= i < MAX_PROPERTIES_COUNT implies d.property_values[i]
        == e.property_values[i] by {
        lemma_u64s_bytes_index(e.property_values, i);
        assert(s.subrange(32 + 8 * i, 32 + 8 * i + 8) =~= spec_u64s_bytes(
            e.property_values,
        ).subrange(8 * i, 8 * i + 8));
    }
    assert(d.property_values =~= e.property_values);
}

impl Default for Edge {
    /// An empty edge record: all identifiers and values zero.
    fn default() -> (r: Self)
        ensures
            r.id == 0,
            r.schema_id == 0,
            r.source_id == 0,
            r.destination_id == 0,
            r@.property_values == Seq::new(MAX_PROPERTIES_COUNT as nat, |i: int| 0u64),
            r@.wf(),
    {
        let property_values = zero_u64_row(MAX_PROPERTIES_COUNT);
        Edge { id: 0, schema_id: 0, source_id: 0, destination_id: 0, property_values }
    }
}

impl Edge {
    /// Encodes this record as 1024 bytes.
    pub fn serialize(&self) -> (r: Vec<u8>)
        requires
            self@.wf(),
        ensures
            r@ == spec_edge_bytes(self@),
            r@.len() == KB1,
    {
        let mut buf: Vec<u8> = Vec::new();
        write_u64_le(self.id, &mut buf);
        write_u64_le(self.schema_id, &mut buf);
        write_u64_le(self.source_id, &mut buf);
        write_u64_le(self.destination_id, &mut buf);
        write_u64_row(&self.property_values, &mut buf);
        append_zeros(&mut buf, 32);
        proof {
            lemma_edge_round_trip(self@);
            assert(buf@ =~= spec_edge_bytes(self@));
        }
        buf
    }

    /// Decodes a 1024-byte record; accepts all field values as-is.
    pub fn deserialize(buf: &[u8]) -> (r: Self)
        requires
            buf@.len() == KB1,
        ensures
            r@ == spec_edge_of_bytes(buf@),
            r@.wf(),
    {
        let id = read_u64_le(buf, 0).unwrap();
        let schema_id = read_u64_le(buf, 8).unwrap();
        let source_id = read_u64_le(buf, 16).unwrap();
        let destination_id = read_u64_le(buf, 24).unwrap();
        let property_values = read_u64_row(buf, 32, MAX_PROPERTIES_COUNT);
        let r = Edge { id, schema_id, source_id, destination_id, property_values };
        proof {
            assert(r@.property_values =~= spec_edge_of_bytes(buf@).property_values);
        }
        r
    }
}

// -------------------- NexoraFile --------------------

/// The in-memory mirror of a file: its header and footer pages. The chunk
/// pages between them live on disk only and are read and rewritten
/// page-by-page.
#[derive(Clone, Copy, Debug)]
pub struct NexoraFile {
    pub header: NexoraHeader,
    pub footer: NexoraFooter,
}

/// Ghost model of a file mirror.
pub struct FileV {
    pub header: HeaderV,
    pub footer: NexoraFooter,
}

impl View for NexoraFile {
    type V = FileV;

    open spec fn view(&self) -> FileV {
        FileV { header: self.header@, footer: self.footer }
    }
}

/// `n` consecutive pages each holding an empty offset-table chunk.
pub open spec fn spec_empty_chunk_pages(n: nat) -> Seq<u8>
    decreases n,
{
    if n == 0 {
        Seq::empty()
    } else {
        spec_empty_chunk_pages((n - 1) as nat) + spec_chunk_bytes(spec_default_chunk())
    }
}

/// Empty chunk pages take one page each.
pub proof fn lemma_empty_chunk_pages_len(n: nat)
    ensures
        spec_empty_chunk_pages(n).len() == n * PAGE_SIZE,
    decreases n,
{
    if n > 0 {
        lemma_empty_chunk_pages_len((n - 1) as nat);
        lemma_chunk_bytes_len(spec_default_chunk());
    }
}

/// The 10-page bootstrap image: header page, eight empty chunk pages in
/// fixed section order, footer page.
pub open spec fn spec_file_image_bytes(f: FileV) -> Seq<u8> {
    spec_header_bytes(f.header) + spec_empty_chunk_pages(8) + spec_footer_bytes(f.footer)
}

/// The bootstrap image is exactly ten pages.
pub proof fn lemma_file_image_bytes_len(f: FileV)
    requires
        f.header.wf(),
    ensures
        spec_file_image_bytes(f).len() == 10 * PAGE_SIZE,
{
    lemma_header_bytes_len(f.header);
    lemma_empty_chunk_pages_len(8);
    lemma_footer_bytes_len(f.footer);
}

/// The layout `NexoraFile::default()` produces: header pointing at page 9,
/// one empty chunk page per section at pages 1 through 8.
pub open spec fn spec_default_file() -> FileV {
    FileV {
        header: HeaderV {
            footer_offset: (9 * PAGE_SIZE) as u64,
            created_unix: 0,
            magic: spec_magic(),
            version: 0,
            flags: 0,
        },
        footer: NexoraFooter {
            name_table_offset: OffsetMetadataTable {
                nb_total_items: 0,
                base_chunk_offset: (1 * PAGE_SIZE) as u64,
            },
            node_schema_offset: OffsetMetadataTable {
                nb_total_items: 0,
                base_chunk_offset: (2 * PAGE_SIZE) as u64,
            },
            edge_schema_offset: OffsetMetadataTable {
                nb_total_items: 0,
                base_chunk_offset: (3 * PAGE_SIZE) as u64,
            },
            schema_properties_offset: OffsetMetadataTable {
                nb_total_items: 0,
                base_chunk_offset: (4 * PAGE_SIZE) as u64,
            },
            metadata_offset: OffsetMetadataTable {
                nb_total_items: 0,
                base_chunk_offset: (5 * PAGE_SIZE) as u64,
            },
            indices_offset: OffsetMetadataTable {
                nb_total_items: 0,
                base_chunk_offset: (6 * PAGE_SIZE) as u64,
            },
            nodes_offset: OffsetMetadataTable {
                nb_total_items: 0,
                base_chunk_offset: (7 * PAGE_SIZE) as u64,
            },
            edges_offset: OffsetMetadataTable {
                nb_total_items: 0,
                base_chunk_offset: (8 * PAGE_SIZE) as u64,
            },
        },
    }
}

/// The bootstrap image is self-describing: the file can be revalidated and
/// reloaded purely from its own bytes, since page 0 decodes back to the
/// header and the page at the header's recorded `footer_offset` decodes
/// back to the footer.
pub proof fn lemma_file_image_self_describing(f: FileV)
    requires
        f.header.wf(),
        f.header.footer_offset == 9 * PAGE_SIZE,
    ensures
        spec_header_of_bytes(spec_file_image_bytes(f).subrange(0, PAGE_SIZE as int)) == f.header,
        spec_footer_of_bytes(
            spec_file_image_bytes(f).subrange(
                f.header.footer_offset as int,
                f.header.footer_offset + PAGE_SIZE,
            ),
        ) == f.footer,
{
    lemma_header_bytes_len(f.header);
    lemma_empty_chunk_pages_len(8);
    lemma_footer_bytes_len(f.footer);
    let s = spec_file_image_bytes(f);
    assert(s.subrange(0, PAGE_SIZE as int) =~= spec_header_bytes(f.header));
    lemma_header_round_trip(f.header);
    assert(s.subrange(f.header.footer_offset as int, f.header.footer_offset + PAGE_SIZE)
        =~= spec_footer_bytes(f.footer));
    lemma_footer_round_trip(f.footer);
}

impl Default for NexoraFile {
    /// Lays out an empty file: page 0 the header, pages 1 through 8 one
    /// empty chunk per section in fixed order, page 9 the footer. The
    /// header's `footer_offset` points at page 9 and each section's
    /// `base_chunk_offset` at its dedicated chunk page.
    fn default() -> (r: Self)
        ensures
            r@ == spec_default_file(),
            r.header.footer_offset == 9 * PAGE_SIZE,
            r.header.created_unix == 0,
            r.header@.magic == spec_magic(),
            r.header.version == 0,
            r.header.flags == 0,
            r.footer.name_table_offset == (OffsetMetadataTable {
                nb_total_items: 0,
                base_chunk_offset: (1 * PAGE_SIZE) as u64,
            }),
            r.footer.node_schema_offset == (OffsetMetadataTable {
                nb_total_items: 0,
                base_chunk_offset: (2 * PAGE_SIZE) as u64,
            }),
            r.footer.edge_schema_offset == (OffsetMetadataTable {
                nb_total_items: 0,
                base_chunk_offset: (3 * PAGE_SIZE) as u64,
            }),
            r.footer.schema_properties_offset == (OffsetMetadataTable {
                nb_total_items: 0,
                base_chunk_offset: (4 * PAGE_SIZE) as u64,
            }),
            r.footer.metadata_offset == (OffsetMetadataTable {
                nb_total_items: 0,
                base_chunk_offset: (5 * PAGE_SIZE) as u64,
            }),
            r.footer.indices_offset == (OffsetMetadataTable {
                nb_total_items: 0,
                base_chunk_offset: (6 * PAGE_SIZE) as u64,
            }),
            r.footer.nodes_offset == (OffsetMetadataTable {
                nb_total_items: 0,
                base_chunk_offset: (7 * PAGE_SIZE) as u64,
            }),
            r.footer.edges_offset == (OffsetMetadataTable {
                nb_total_items: 0,
                base_chunk_offset: (8 * PAGE_SIZE) as u64,
            }),
    {
        let page = PAGE_SIZE as u64;
        let mut offset: u64 = page;
        let name_table_offset = OffsetMetadataTable { nb_total_items: 0, base_chunk_offset: offset };
        offset = offset + page;
        let node_schema_offset = OffsetMetadataTable {
            nb_total_items: 0,
            base_chunk_offset: offset,
        };
        offset = offset + page;
        let edge_schema_offset = OffsetMetadataTable {
            nb_total_items: 0,
            base_chunk_offset: offset,
        };
        offset = offset + page;
        let schema_properties_offset = OffsetMetadataTable {
            nb_total_items: 0,
            base_chunk_offset: offset,
        };
        offset = offset + page;
        let metadata_offset = OffsetMetadataTable { nb_total_items: 0, base_chunk_offset: offset };
        offset = offset + page;
        let indices_offset = OffsetMetadataTable { nb_total_items: 0, base_chunk_offset: offset };
        offset = offset + page;
        let nodes_offset = OffsetMetadataTable { nb_total_items: 0, base_chunk_offset: offset };
        offset = offset + page;
        let edges_offset = OffsetMetadataTable { nb_total_items: 0, base_chunk_offset: offset };
        offset = offset + page;
        let header = NexoraHeader {
            footer_offset: offset,
            created_unix: 0,
            magic: file_header_magic(),
            version: 0,
            flags: 0,
        };
        let footer = NexoraFooter {
            name_table_offset,
            node_schema_offset,
            edge_schema_offset,
            schema_properties_offset,
            metadata_offset,
            indices_offset,
            nodes_offset,
            edges_offset,
        };
        NexoraFile { header, footer }
    }
}

impl NexoraFile {
    /// Produces the full 10-page bootstrap image in exact byte order:
    /// header page, eight empty chunk pages, footer page. This is the only
    /// way a fresh file image is produced.
    pub fn serialize(&self) -> (r: Vec<u8>)
        ensures
            r@ == spec_file_image_bytes(self@),
            r@.len() == 10 * PAGE_SIZE,
    {
        let mut buf = self.header.serialize();
        let mut i: usize = 0;
        while i < 8
            invariant
                i <= 8,
                buf@.len() == PAGE_SIZE + i * PAGE_SIZE,
                buf@ == spec_header_bytes(self@.header) + spec_empty_chunk_pages(i as nat),
            decreases 8 - i,
        {
            let chunk = OffsetTableChunk::default();
            let chunk_page = chunk.serialize();
            write_bytes(chunk_page.as_slice(), &mut buf);
            proof {
                assert(buf@ =~= spec_header_bytes(self@.header) + spec_empty_chunk_pages(
                    (i + 1) as nat,
                ));
            }
            i = i + 1;
        }
        let footer_page = self.footer.serialize();
        write_bytes(footer_page.as_slice(), &mut buf);
        proof {
            lemma_file_image_bytes_len(self@);
            assert(buf@ =~= spec_file_image_bytes(self@));
        }
        buf
    }
}

} // verus!
