use nexora::file_layout::{
    NexoraFile, NexoraFooter, OffsetItem, OffsetTableChunk, INVALID_OFFSET, PAGE_SIZE,
};
use nexora::schema_builder::{
    EdgeSchemaBuilder, NodeSchemaBuilder, PropertyBuilder, PropertyType,
};
use nexora::storage_engine::{CorruptedFileError, StorageEngine, StorageError};

fn default_image() -> Vec<u8> {
    NexoraFile::default().serialize()
}

#[test]
fn load_of_fresh_image_reflects_header_and_footer() {
    // end to end: write the default image to storage, reopen it, and the
    // decoded pages carry the documented offsets
    let engine = StorageEngine::load(default_image()).unwrap();
    assert_eq!(engine.file_layout.header.footer_offset, 36864);
    assert_eq!(engine.file_layout.footer.nodes_offset.base_chunk_offset, 28672);
    assert_eq!(engine.file_layout.footer.nodes_offset.nb_total_items, 0);
}

#[test]
fn load_rejects_bad_magic() {
    let mut image = default_image();
    image[16] = b'X';
    match StorageEngine::load(image) {
        Err(StorageError::Corrupted(CorruptedFileError::InvalidMagicValue)) => {},
        other => panic!("expected invalid-magic error, got {:?}", other.map(|_| ())),
    }
}

#[test]
fn load_rejects_truncated_store() {
    match StorageEngine::load(Vec::new()) {
        Err(StorageError::Io) => {},
        other => panic!("expected io error, got {:?}", other.map(|_| ())),
    }
    // magic intact but no full header page
    let image = default_image()[..100].to_vec();
    match StorageEngine::load(image) {
        Err(StorageError::Io) => {},
        other => panic!("expected io error, got {:?}", other.map(|_| ())),
    }
    // header intact but footer page out of reach
    let image = default_image()[..5 * PAGE_SIZE].to_vec();
    match StorageEngine::load(image) {
        Err(StorageError::Io) => {},
        other => panic!("expected io error, got {:?}", other.map(|_| ())),
    }
}

#[test]
fn read_offset_table_rejects_sentinel_offset() {
    let engine = StorageEngine::load(default_image()).unwrap();
    match engine.read_offset_table(INVALID_OFFSET) {
        Err(StorageError::Corrupted(CorruptedFileError::InvalidOffsetValue)) => {},
        other => panic!("expected invalid-offset error, got {:?}", other.map(|_| ())),
    }
}

#[test]
fn insert_offset_item_rejects_sentinel_offset_without_io() {
    let mut engine = StorageEngine::load(default_image()).unwrap();
    let before = engine.storage.clone();
    let layout_footer_offset = engine.file_layout.header.footer_offset;
    match engine.insert_offset_item(INVALID_OFFSET, OffsetItem { id: 1, offset: 2 }) {
        Err(StorageError::Corrupted(CorruptedFileError::InvalidOffsetValue)) => {},
        other => panic!("expected invalid-offset error, got {:?}", other),
    }
    assert_eq!(engine.storage, before);
    assert_eq!(engine.file_layout.header.footer_offset, layout_footer_offset);
}

#[test]
fn read_offset_table_decodes_empty_section_chunk() {
    let engine = StorageEngine::load(default_image()).unwrap();
    let base = engine.file_layout.footer.name_table_offset.base_chunk_offset;
    assert_eq!(base, 4096);
    let chunk = engine.read_offset_table(base).unwrap();
    assert_eq!(chunk.nb_items, 0);
    assert_eq!(chunk.previous_chunk, INVALID_OFFSET);
    assert_eq!(chunk.next_chunk, INVALID_OFFSET);
}

#[test]
fn insert_fills_first_free_slot_and_persists() {
    let mut engine = StorageEngine::load(default_image()).unwrap();
    let base = engine.file_layout.footer.name_table_offset.base_chunk_offset;
    engine.insert_offset_item(base, OffsetItem { id: 42, offset: 8192 }).unwrap();
    let chunk = engine.read_offset_table(base).unwrap();
    assert_eq!(chunk.nb_items, 1);
    assert_eq!(chunk.offset_items[0], OffsetItem { id: 42, offset: 8192 });
    // no new page allocated for an in-place insert
    assert_eq!(engine.file_layout.header.footer_offset, 36864);
    assert_eq!(engine.storage.len(), 10 * PAGE_SIZE);
}

#[test]
fn inserting_255_items_grows_a_second_chunk() {
    let mut engine = StorageEngine::load(default_image()).unwrap();
    let base = engine.file_layout.footer.name_table_offset.base_chunk_offset;
    let old_footer_offset = engine.file_layout.header.footer_offset;
    for i in 0..255u64 {
        engine.insert_offset_item(base, OffsetItem { id: i, offset: i * 16 }).unwrap();
    }
    // the first chunk holds 254 items and points at the newly allocated page
    let first = engine.read_offset_table(base).unwrap();
    assert_eq!(first.nb_items, 254);
    assert_eq!(first.previous_chunk, INVALID_OFFSET);
    assert_eq!(first.next_chunk, old_footer_offset);
    for i in 0..254u64 {
        assert_eq!(first.offset_items[i as usize], OffsetItem { id: i, offset: i * 16 });
    }
    // the second chunk holds exactly the overflow item and links back
    let second = engine.read_offset_table(first.next_chunk).unwrap();
    assert_eq!(second.nb_items, 1);
    assert_eq!(second.previous_chunk, base);
    assert_eq!(second.next_chunk, INVALID_OFFSET);
    assert_eq!(second.offset_items[0], OffsetItem { id: 254, offset: 254 * 16 });
    // the allocation mark advanced by exactly one page and the footer was
    // re-persisted there
    assert_eq!(engine.file_layout.header.footer_offset, old_footer_offset + PAGE_SIZE as u64);
    assert_eq!(engine.storage.len(), 11 * PAGE_SIZE);
    let fo = engine.file_layout.header.footer_offset as usize;
    let persisted = NexoraFooter::deserialize(&engine.storage[fo..fo + PAGE_SIZE]);
    assert_eq!(persisted, engine.file_layout.footer);
}

#[test]
fn insert_traverses_linked_chunks_to_a_free_slot() {
    let mut engine = StorageEngine::load(default_image()).unwrap();
    let base = engine.file_layout.footer.metadata_offset.base_chunk_offset;
    for i in 0..300u64 {
        engine.insert_offset_item(base, OffsetItem { id: i, offset: i }).unwrap();
    }
    let first = engine.read_offset_table(base).unwrap();
    let second = engine.read_offset_table(first.next_chunk).unwrap();
    assert_eq!(first.nb_items, 254);
    assert_eq!(second.nb_items, 46);
    assert_eq!(second.offset_items[45], OffsetItem { id: 299, offset: 299 });
}

#[test]
fn insert_detects_cyclic_chunk_list_as_corruption() {
    let mut engine = StorageEngine::load(default_image()).unwrap();
    // hand-craft a full chunk whose next link points back at itself
    let mut cyclic = OffsetTableChunk::default();
    cyclic.nb_items = 254;
    cyclic.next_chunk = 4096;
    let page = cyclic.serialize();
    for (i, b) in page.iter().enumerate() {
        engine.storage[4096 + i] = *b;
    }
    match engine.insert_offset_item(4096, OffsetItem { id: 1, offset: 1 }) {
        Err(StorageError::Corrupted(CorruptedFileError::InvalidOffsetValue)) => {},
        other => panic!("expected corruption error on cyclic list, got {:?}", other),
    }
}

#[test]
fn node_schema_builder_accumulates_properties() {
    let builder = NodeSchemaBuilder::new(7)
        .property(PropertyBuilder::new("age".to_string(), PropertyType::Int64, false))
        .property(PropertyBuilder::new("nick".to_string(), PropertyType::String64, true));
    assert_eq!(builder.id, 7);
    assert_eq!(builder.properties.len(), 2);
    assert_eq!(builder.properties[0].name, "age");
    assert_eq!(builder.properties[0].property_type, PropertyType::Int64);
    assert!(!builder.properties[0].optional);
    assert!(builder.properties[1].optional);
}

#[test]
fn edge_schema_builder_accumulates_properties() {
    let mut builder = EdgeSchemaBuilder::new(8);
    for i in 0..120 {
        builder = builder.property(PropertyBuilder::new(
            format!("p{}", i),
            PropertyType::Bool,
            false,
        ));
    }
    assert_eq!(builder.id, 8);
    assert_eq!(builder.properties.len(), 120);
}
