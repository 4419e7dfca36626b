use encapure::cache::EmbeddingsCache;
use encapure::cache::save_embeddings_cache;
use encapure::cache::try_load_embeddings_cache;
use encapure::catalog::EncapureTool;

fn b(s: &str) -> Vec<u8> {
    s.as_bytes().to_vec()
}

fn make_test_tool(name: &str, desc: &str) -> EncapureTool {
    EncapureTool {
        name: b(name),
        server_origin: b("test"),
        inference_view: b(&format!("TOOL: {} | FUNC: {}", name, desc)),
        raw_definition: b(&format!("{{\"name\":\"{}\"}}", name)),
    }
}

fn words(values: &[f32]) -> Vec<u32> {
    values.iter().map(|v| v.to_bits()).collect()
}

#[test]
fn test_hash_changes_with_tools() {
    let tools1 = vec![make_test_tool("tool1", "desc1")];
    let tools2 = vec![make_test_tool("tool2", "desc2")];

    let hash1 = EmbeddingsCache::compute_tools_hash(&tools1);
    let hash2 = EmbeddingsCache::compute_tools_hash(&tools2);

    assert_ne!(hash1, hash2);
}

#[test]
fn test_save_and_load() {
    let tools = vec![make_test_tool("tool1", "desc1"), make_test_tool("tool2", "desc2")];
    let matrix = words(&[1.0, 2.0, 3.0, 4.0, 5.0, 6.0, 7.0, 8.0]);

    let cache = EmbeddingsCache::new(&tools, matrix.clone(), 4);
    let encoded = cache.encode();

    let loaded = EmbeddingsCache::decode(&encoded).unwrap().unwrap();

    assert_eq!(loaded.num_tools, 2);
    assert_eq!(loaded.embedding_dim, 4);
    assert_eq!(loaded.embeddings, matrix);
    assert!(loaded.is_valid_for(&tools));
}

#[test]
fn test_cache_invalidation() {
    let tools1 = vec![make_test_tool("tool1", "desc1")];
    let tools2 = vec![make_test_tool("tool2", "desc2")];
    let matrix = words(&[1.0, 2.0, 3.0, 4.0]);

    let cache = EmbeddingsCache::new(&tools1, matrix, 4);
    let encoded = cache.encode();

    let loaded = EmbeddingsCache::decode(&encoded).unwrap().unwrap();
    assert!(loaded.is_valid_for(&tools1));
    assert!(!loaded.is_valid_for(&tools2));
}

#[test]
fn test_cache_layout_is_exact() {
    let tools = vec![make_test_tool("t", "d")];
    let matrix = words(&[1.0]);
    let encoded = EmbeddingsCache::new(&tools, matrix, 1).encode();

    assert_eq!(encoded.len(), 60 + 4);
    assert_eq!(&encoded[0..8], b"ENCAPURE");
    assert_eq!(&encoded[8..12], &1u32.to_le_bytes());
    assert_eq!(&encoded[44..52], &1u64.to_le_bytes());
    assert_eq!(&encoded[52..60], &1u64.to_le_bytes());
    assert_eq!(&encoded[60..64], &1.0f32.to_le_bytes());
}

#[test]
fn test_decode_wrong_magic_is_miss() {
    let data = b"NOTMAGIC rest of the file".to_vec();
    assert!(EmbeddingsCache::decode(&data).unwrap().is_none());
}

#[test]
fn test_decode_short_file_is_miss() {
    let data = vec![0x45u8, 0x4e];
    assert!(EmbeddingsCache::decode(&data).unwrap().is_none());
}

#[test]
fn test_decode_wrong_version_is_miss() {
    let mut data = b"ENCAPURE".to_vec();
    data.extend_from_slice(&9u32.to_le_bytes());
    data.extend_from_slice(&[0u8; 48]);
    assert!(EmbeddingsCache::decode(&data).unwrap().is_none());
}

#[test]
fn test_decode_truncated_header_is_error() {
    let mut data = b"ENCAPURE".to_vec();
    data.extend_from_slice(&1u32.to_le_bytes());
    data.extend_from_slice(&[0u8; 10]);
    let err = EmbeddingsCache::decode(&data).unwrap_err();
    assert_eq!(err.status_code(), 400);
}

#[test]
fn test_decode_truncated_body_is_error() {
    let tools = vec![make_test_tool("t", "d")];
    let matrix = words(&[1.0, 2.0]);
    let mut encoded = EmbeddingsCache::new(&tools, matrix, 2).encode();
    encoded.pop();
    let err = EmbeddingsCache::decode(&encoded).unwrap_err();
    assert_eq!(err.status_code(), 400);
}

#[test]
fn test_try_load_round_trip() {
    let tools = vec![make_test_tool("t1", "a"), make_test_tool("t2", "b")];
    let matrix = words(&[1.0, 2.0, 3.0, 4.0, 5.0, 6.0, 7.0, 8.0]);
    let encoded = save_embeddings_cache(&tools, matrix.clone(), 4);

    let hit = try_load_embeddings_cache(Some(&encoded), &tools).unwrap();
    let (loaded, dim) = hit.unwrap();
    assert_eq!(loaded, matrix);
    assert_eq!(dim, 4);

    // A changed inference view invalidates the cache.
    let mut changed = tools.clone();
    changed[1].inference_view = b("TOOL: t2 | FUNC: c");
    assert!(try_load_embeddings_cache(Some(&encoded), &changed).unwrap().is_none());

    // A missing file is a miss, not an error.
    assert!(try_load_embeddings_cache(None, &tools).unwrap().is_none());
}
