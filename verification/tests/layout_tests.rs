use nexora::file_layout::{
    Edge, EdgeSchema, Name, NexoraFile, NexoraFooter, NexoraHeader, Node, NodeSchema, OffsetItem,
    OffsetMetadataTable, OffsetTableChunk, PropertyDefinition, PropertyType, CHUNK_CAPACITY,
    INVALID_OFFSET, KB1, MAX_PROPERTIES_COUNT, PAGE_SIZE, PROPERTY_NAME_MAX_SIZE,
};

const MAGIC: [u8; 6] = [0x4E, 0x58, 0x52, 0x76, 0x30, 0x00];

#[test]
fn header_round_trip_arbitrary_values() {
    let h = NexoraHeader {
        footer_offset: 0xDEAD_BEEF_0000_1000,
        created_unix: 1_700_000_000,
        magic: MAGIC,
        version: 0x0102,
        flags: 0xF00D,
    };
    let bytes = h.serialize();
    assert_eq!(bytes.len(), PAGE_SIZE);
    let d = NexoraHeader::deserialize(&bytes);
    assert_eq!(d.footer_offset, h.footer_offset);
    assert_eq!(d.created_unix, h.created_unix);
    assert_eq!(d.magic, h.magic);
    assert_eq!(d.version, h.version);
    assert_eq!(d.flags, h.flags);
}

#[test]
fn header_round_trip_sentinel_offset() {
    let mut h = NexoraHeader::default();
    h.footer_offset = INVALID_OFFSET;
    let d = NexoraHeader::deserialize(&h.serialize());
    assert_eq!(d.footer_offset, INVALID_OFFSET);
    assert_eq!(d.magic, MAGIC);
}

#[test]
fn verify_magic_accepts_only_exact_signature() {
    assert!(NexoraHeader::verify_magic(MAGIC));
    // any single-byte mutation must be rejected
    for i in 0..6 {
        let mut mutated = MAGIC;
        mutated[i] = mutated[i].wrapping_add(1);
        assert!(!NexoraHeader::verify_magic(mutated));
        let mut flipped = MAGIC;
        flipped[i] ^= 0x80;
        assert!(!NexoraHeader::verify_magic(flipped));
    }
}

#[test]
fn metadata_table_round_trip() {
    let t = OffsetMetadataTable { nb_total_items: 12345, base_chunk_offset: INVALID_OFFSET };
    let bytes = t.serialize();
    assert_eq!(bytes.len(), 16);
    assert_eq!(OffsetMetadataTable::deserialize(&bytes, 0), t);
}

#[test]
fn footer_round_trip() {
    let mut f = NexoraFooter::default();
    f.name_table_offset = OffsetMetadataTable { nb_total_items: 1, base_chunk_offset: 4096 };
    f.nodes_offset = OffsetMetadataTable { nb_total_items: 99, base_chunk_offset: 28672 };
    f.edges_offset = OffsetMetadataTable {
        nb_total_items: u64::MAX,
        base_chunk_offset: INVALID_OFFSET,
    };
    let bytes = f.serialize();
    assert_eq!(bytes.len(), PAGE_SIZE);
    assert_eq!(NexoraFooter::deserialize(&bytes), f);
}

#[test]
fn chunk_round_trip_empty() {
    let c = OffsetTableChunk::default();
    let bytes = c.serialize();
    assert_eq!(bytes.len(), PAGE_SIZE);
    let d = OffsetTableChunk::deserialize(&bytes);
    assert_eq!(d.nb_items, 0);
    assert_eq!(d.previous_chunk, INVALID_OFFSET);
    assert_eq!(d.next_chunk, INVALID_OFFSET);
    assert_eq!(d.offset_items.len(), CHUNK_CAPACITY);
    for item in &d.offset_items {
        assert_eq!(*item, OffsetItem::default());
    }
}

#[test]
fn chunk_round_trip_full() {
    let mut c = OffsetTableChunk::default();
    c.nb_items = 254;
    c.previous_chunk = 8192;
    c.next_chunk = 12288;
    for (i, slot) in c.offset_items.iter_mut().enumerate() {
        *slot = OffsetItem { id: i as u64, offset: (i as u64) * 4096 };
    }
    let bytes = c.serialize();
    assert_eq!(bytes.len(), PAGE_SIZE);
    let d = OffsetTableChunk::deserialize(&bytes);
    assert_eq!(d.nb_items, 254);
    assert_eq!(d.previous_chunk, 8192);
    assert_eq!(d.next_chunk, 12288);
    assert_eq!(d.offset_items, c.offset_items);
}

#[test]
fn chunk_layout_byte_positions() {
    let mut c = OffsetTableChunk::default();
    c.nb_items = 7;
    c.offset_items[0] = OffsetItem { id: 1, offset: 2 };
    let bytes = c.serialize();
    assert_eq!(bytes[0], 7);
    assert_eq!(&bytes[1..8], &[0u8; 7]); // pad
    assert_eq!(&bytes[8..16], &[0xFF; 8]); // previous_chunk sentinel
    assert_eq!(&bytes[16..24], &[0xFF; 8]); // next_chunk sentinel
    assert_eq!(&bytes[24..32], &[1, 0, 0, 0, 0, 0, 0, 0]); // first item id
    assert_eq!(&bytes[32..40], &[2, 0, 0, 0, 0, 0, 0, 0]); // first item offset
    assert_eq!(&bytes[PAGE_SIZE - 8..], &[0u8; 8]); // reserved tail
}

#[test]
fn name_round_trip() {
    let mut n = Name::default();
    n.id = 77;
    n.size = 5;
    n.value[0] = b'h';
    n.value[1] = b'e';
    n.value[2] = b'l';
    n.value[3] = b'l';
    n.value[4] = b'o';
    let bytes = n.serialize();
    assert_eq!(bytes.len(), 64);
    let d = Name::deserialize(&bytes);
    assert_eq!(d.id, 77);
    assert_eq!(d.size, 5);
    assert_eq!(d.value, n.value);
    assert_eq!(d.value.len(), PROPERTY_NAME_MAX_SIZE);
}

#[test]
fn property_definition_round_trip() {
    let p = PropertyDefinition { name_id: 9, type_tag: PropertyType::Bool.as_u8(), optional: 1 };
    let bytes = p.serialize();
    assert_eq!(bytes.len(), 16);
    assert_eq!(PropertyDefinition::deserialize(&bytes), p);
    // default carries the sentinel type tag
    let d = PropertyDefinition::default();
    assert_eq!(d.type_tag, PropertyType::InvalidType.as_u8());
    assert_eq!(d.type_tag, 13);
}

#[test]
fn node_schema_round_trip_full_slots() {
    let mut s = NodeSchema::default();
    s.id = 3;
    s.property_count = MAX_PROPERTIES_COUNT as u16;
    for (i, p) in s.properties.iter_mut().enumerate() {
        *p = 1000 + i as u64;
    }
    let bytes = s.serialize();
    assert_eq!(bytes.len(), KB1);
    let d = NodeSchema::deserialize(&bytes);
    assert_eq!(d.id, 3);
    assert_eq!(d.property_count, 120);
    assert_eq!(d.properties, s.properties);
}

#[test]
fn edge_schema_round_trip_empty_slots() {
    let mut s = EdgeSchema::default();
    s.id = 4;
    let bytes = s.serialize();
    assert_eq!(bytes.len(), KB1);
    let d = EdgeSchema::deserialize(&bytes);
    assert_eq!(d.id, 4);
    assert_eq!(d.property_count, 0);
    assert_eq!(d.properties, vec![0u64; MAX_PROPERTIES_COUNT]);
}

#[test]
fn node_round_trip() {
    let mut n = Node::default();
    n.id = 11;
    n.schema_id = 3;
    n.property_values[0] = u64::MAX;
    n.property_values[119] = 1;
    let bytes = n.serialize();
    assert_eq!(bytes.len(), KB1);
    let d = Node::deserialize(&bytes);
    assert_eq!(d.id, 11);
    assert_eq!(d.schema_id, 3);
    assert_eq!(d.property_values, n.property_values);
}

#[test]
fn edge_round_trip() {
    let mut e = Edge::default();
    e.id = 21;
    e.schema_id = 4;
    e.source_id = 11;
    e.destination_id = 12;
    e.property_values[7] = 777;
    let bytes = e.serialize();
    assert_eq!(bytes.len(), KB1);
    let d = Edge::deserialize(&bytes);
    assert_eq!(d.id, 21);
    assert_eq!(d.schema_id, 4);
    assert_eq!(d.source_id, 11);
    assert_eq!(d.destination_id, 12);
    assert_eq!(d.property_values, e.property_values);
}

#[test]
fn default_file_layout_matches_documented_offsets() {
    let f = NexoraFile::default();
    assert_eq!(f.header.footer_offset, 9 * PAGE_SIZE as u64);
    assert_eq!(f.header.footer_offset, 36864);
    assert_eq!(f.header.magic, MAGIC);
    let sections = [
        f.footer.name_table_offset,
        f.footer.node_schema_offset,
        f.footer.edge_schema_offset,
        f.footer.schema_properties_offset,
        f.footer.metadata_offset,
        f.footer.indices_offset,
        f.footer.nodes_offset,
        f.footer.edges_offset,
    ];
    for (i, section) in sections.iter().enumerate() {
        assert_eq!(section.nb_total_items, 0);
        assert_eq!(section.base_chunk_offset, ((1 + i) * PAGE_SIZE) as u64);
    }
}

#[test]
fn default_file_image_is_ten_pages_in_order() {
    let f = NexoraFile::default();
    let image = f.serialize();
    assert_eq!(image.len(), 10 * PAGE_SIZE);
    // page 0 decodes back to the header
    let h = NexoraHeader::deserialize(&image[..PAGE_SIZE]);
    assert_eq!(h.footer_offset, 36864);
    assert_eq!(h.magic, MAGIC);
    // pages 1..=8 are empty chunks
    for p in 1..9 {
        let c = OffsetTableChunk::deserialize(&image[p * PAGE_SIZE..(p + 1) * PAGE_SIZE]);
        assert_eq!(c.nb_items, 0);
        assert_eq!(c.previous_chunk, INVALID_OFFSET);
        assert_eq!(c.next_chunk, INVALID_OFFSET);
    }
    // page 9 decodes back to the footer
    let ft = NexoraFooter::deserialize(&image[9 * PAGE_SIZE..]);
    assert_eq!(ft, f.footer);
}
