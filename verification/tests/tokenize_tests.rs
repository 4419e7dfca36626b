use encapure::tokenize::TokenizerWrapper;

/// A minimal word-level tokenizer definition, enough to exercise encoding.
fn tiny_tokenizer_json() -> Vec<u8> {
    let json = r#"{
        "version": "1.0",
        "truncation": null,
        "padding": null,
        "added_tokens": [],
        "normalizer": null,
        "pre_tokenizer": { "type": "Whitespace" },
        "post_processor": null,
        "decoder": null,
        "model": {
            "type": "WordLevel",
            "vocab": { "[UNK]": 0, "hello": 1, "world": 2, "again": 3 },
            "unk_token": "[UNK]"
        }
    }"#;
    json.as_bytes().to_vec()
}

#[test]
fn test_tokenizer_load_rejects_garbage() {
    let err = match TokenizerWrapper::load(&b"not a tokenizer".to_vec(), 16) {
        Err(e) => e,
        Ok(_) => panic!("garbage bytes must not load"),
    };
    assert_eq!(err.status_code(), 500);
}

#[test]
fn test_tokenize_pairs_shapes_batch() {
    let tok = TokenizerWrapper::load(&tiny_tokenizer_json(), 16).unwrap();
    let documents = vec!["world".to_string(), "world again hello".to_string()];
    let batch = tok.tokenize_pairs("hello", &documents).unwrap();

    // One row per document, padded to the longest pair in the batch.
    assert_eq!(batch.ids.len(), 2);
    assert_eq!(batch.attention_mask.len(), 2);
    assert_eq!(batch.type_ids.len(), 2);
    let cols = batch.ids[0].len();
    assert!(cols <= 16);
    for i in 0..2 {
        assert_eq!(batch.ids[i].len(), cols);
        assert_eq!(batch.attention_mask[i].len(), cols);
        assert_eq!(batch.type_ids[i].len(), cols);
    }

    // The longer pair has more real tokens than the shorter one; the
    // shorter row is padded with zero-mask positions.
    let mask_sum = |row: &Vec<i64>| row.iter().sum::<i64>();
    assert!(mask_sum(&batch.attention_mask[1]) > mask_sum(&batch.attention_mask[0]));

    // The first pair is (hello, world): both known words, distinct ids.
    assert_eq!(batch.ids[0][0], 1);
    assert_eq!(batch.ids[0][1], 2);
}

#[test]
fn test_tokenize_pairs_rejects_empty_documents() {
    let tok = TokenizerWrapper::load(&tiny_tokenizer_json(), 16).unwrap();
    let err = match tok.tokenize_pairs("hello", &vec![]) {
        Err(e) => e,
        Ok(_) => panic!("an empty document list must be rejected"),
    };
    assert!(matches!(err, encapure::error::AppError::TokenizationError(_)));
    assert!(err.message().contains("empty"));
}

#[test]
fn test_tokenize_pairs_truncates_to_cap() {
    let tok = TokenizerWrapper::load(&tiny_tokenizer_json(), 3).unwrap();
    let documents = vec!["world again hello world again hello".to_string()];
    let batch = tok.tokenize_pairs("hello hello hello", &documents).unwrap();
    assert_eq!(batch.ids[0].len(), 3);
}

#[test]
fn test_encode_texts_zeroes_type_ids() {
    let tok = TokenizerWrapper::load(&tiny_tokenizer_json(), 16).unwrap();
    let texts = vec!["hello world".to_string(), "again".to_string()];
    let batch = tok.encode_texts(&texts).unwrap();

    assert_eq!(batch.ids.len(), 2);
    for row in &batch.type_ids {
        assert!(row.iter().all(|&v| v == 0));
    }
    // Real tokens carry distinct vocabulary ids, so the encoder plainly ran.
    assert_eq!(batch.ids[0][0], 1);
    assert_eq!(batch.ids[0][1], 2);
    assert_eq!(batch.ids[1][0], 3);
}
