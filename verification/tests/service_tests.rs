use encapure::config::Config;
use encapure::config::OperatingMode;
use encapure::config::compute_budget;
use encapure::config::is_oversubscribed;
use encapure::error::AppError;
use encapure::handlers::HealthResponse;
use encapure::handlers::RerankRequest;
use encapure::handlers::SearchRequest;
use encapure::handlers::decimal_string;
use encapure::handlers::default_top_k;
use encapure::handlers::health_response;
use encapure::handlers::ready_response;
use encapure::handlers::search_plan;
use encapure::handlers::validate_rerank_request;
use encapure::handlers::validate_search_request;
use encapure::pool::AdmissionGate;
use encapure::pool::DispatchCore;
use encapure::pool::SlotPool;
use encapure::ranking::chunk_bounds;
use encapure::ranking::compose_ranking;
use encapure::ranking::rank_descending;
use encapure::ranking::select_top_k;

/// Sigmoid activation: 1 / (1 + e^-x)
fn sigmoid(x: f32) -> f32 {
    1.0 / (1.0 + (-x).exp())
}

/// An order key for a float score: greater scores get greater keys.
fn score_key(x: f32) -> u64 {
    let bits = x.to_bits() as u64;
    if x >= 0.0 {
        bits | 0x8000_0000
    } else {
        !bits & 0xffff_ffff
    }
}

fn rerank_req(query: &str, documents: &[&str]) -> RerankRequest {
    RerankRequest {
        query: query.to_string(),
        documents: documents.iter().map(|d| d.to_string()).collect(),
    }
}

// ============================================================================
// Validation
// ============================================================================

#[test]
fn test_rerank_empty_query_returns_400() {
    let err = validate_rerank_request(&rerank_req("", &["a"]), 100).unwrap_err();
    assert_eq!(err.status_code(), 400);
    assert!(err.message().contains("empty"));
}

#[test]
fn test_rerank_empty_documents_returns_400() {
    let err = validate_rerank_request(&rerank_req("test query", &[]), 100).unwrap_err();
    assert_eq!(err.status_code(), 400);
    assert!(err.message().contains("empty"));
}

#[test]
fn test_rerank_too_many_documents_returns_400() {
    let documents: Vec<String> = (0..101).map(|i| format!("document {}", i)).collect();
    let req = RerankRequest { query: "test query".to_string(), documents };
    let err = validate_rerank_request(&req, 100).unwrap_err();
    assert_eq!(err.status_code(), 400);
    assert!(err.message().contains("100"));
}

#[test]
fn test_rerank_valid_request_passes() {
    assert!(validate_rerank_request(&rerank_req("q", &["a", "b"]), 100).is_ok());
}

#[test]
fn test_search_empty_query_returns_400() {
    let req = SearchRequest { query: "".to_string(), top_k: 3 };
    let err = validate_search_request(&req, 5).unwrap_err();
    assert_eq!(err.status_code(), 400);
    assert!(err.message().to_lowercase().contains("empty"));
}

#[test]
fn test_search_zero_top_k_returns_400() {
    let req = SearchRequest { query: "test".to_string(), top_k: 0 };
    let err = validate_search_request(&req, 5).unwrap_err();
    assert_eq!(err.status_code(), 400);
    assert!(err.message().to_lowercase().contains("top_k"));
}

#[test]
fn test_search_empty_catalog_returns_400() {
    let req = SearchRequest { query: "test".to_string(), top_k: 3 };
    let err = validate_search_request(&req, 0).unwrap_err();
    assert_eq!(err.status_code(), 400);
    assert!(err.message().contains("No tools loaded"));
}

#[test]
fn test_error_status_codes() {
    assert_eq!(AppError::ModelError("x".to_string()).status_code(), 500);
    assert_eq!(AppError::ValidationError("x".to_string()).status_code(), 400);
    assert_eq!(AppError::ResourceError("x".to_string()).status_code(), 503);
    assert_eq!(AppError::TokenizationError("x".to_string()).status_code(), 500);
}

#[test]
fn test_decimal_string() {
    assert_eq!(decimal_string(0), "0");
    assert_eq!(decimal_string(7), "7");
    assert_eq!(decimal_string(100), "100");
    assert_eq!(decimal_string(90210), "90210");
}

// ============================================================================
// Health and readiness
// ============================================================================

#[test]
fn test_health_endpoint_returns_200() {
    let body: HealthResponse = health_response("0.1.0".to_string());
    assert_eq!(body.status, "healthy");
    assert_eq!(body.version, "0.1.0");
}

#[test]
fn test_ready_endpoint_returns_200_after_warmup() {
    let (code, body) = ready_response(true, "0.1.0".to_string());
    assert_eq!(code, 200);
    assert_eq!(body.status, "ready");
}

#[test]
fn test_ready_endpoint_returns_503_before_warmup() {
    let (code, body) = ready_response(false, "0.1.0".to_string());
    assert_eq!(code, 503);
    assert_eq!(body.status, "not_ready");
}

// ============================================================================
// Sigmoid
// ============================================================================

#[test]
fn test_sigmoid_zero() {
    let result = sigmoid(0.0);
    assert!((result - 0.5).abs() < 0.0001);
}

#[test]
fn test_sigmoid_positive() {
    let result = sigmoid(10.0);
    assert!(result > 0.99);
}

#[test]
fn test_sigmoid_negative() {
    let result = sigmoid(-10.0);
    assert!(result < 0.01);
}

// ============================================================================
// Ranking
// ============================================================================

#[test]
fn test_rank_descending_sorts_scores() {
    // Three documents scored by logits, as a rerank response would be.
    let logits: Vec<f32> = vec![2.5, -1.0, 0.75];
    let keys: Vec<u64> = logits.iter().map(|&x| score_key(x)).collect();
    let order = rank_descending(&keys);

    assert_eq!(order, vec![0, 2, 1]);

    // Scores along the ranking never increase, and each index appears once.
    let scores: Vec<f32> = order.iter().map(|&i| sigmoid(logits[i])).collect();
    for i in 1..scores.len() {
        assert!(scores[i - 1] >= scores[i]);
    }
    let mut seen = vec![false; 3];
    for &i in &order {
        assert!(!seen[i]);
        seen[i] = true;
    }
    assert!(seen.iter().all(|&x| x));
}

#[test]
fn test_rank_descending_breaks_ties_by_index() {
    let keys: Vec<u64> = vec![5, 9, 5, 9];
    assert_eq!(rank_descending(&keys), vec![1, 3, 0, 2]);
}

#[test]
fn test_rank_descending_result_size_matches_input() {
    let keys: Vec<u64> = vec![4, 4, 4, 1, 9];
    assert_eq!(rank_descending(&keys).len(), keys.len());
}

#[test]
fn test_select_top_k_clamps() {
    // A catalog of 4 tools with top_k 10 yields all 4 results.
    let keys: Vec<u64> = vec![10, 40, 20, 30];
    let order = rank_descending(&keys);
    let top = select_top_k(&order, 10);
    assert_eq!(top.len(), 4);
    assert_eq!(top, vec![1, 3, 2, 0]);

    let top2 = select_top_k(&order, 2);
    assert_eq!(top2, vec![1, 3]);
}

#[test]
fn test_default_top_k_is_three() {
    assert_eq!(default_top_k(), 3);
}

#[test]
fn test_search_plan_clamps_to_catalog() {
    assert_eq!(search_plan(10, 20, 4), (4, 4));
    assert_eq!(search_plan(3, 20, 100), (3, 20));
}

#[test]
fn test_compose_ranking_maps_candidates() {
    // Stage 1 kept tools 7, 3 and 9; stage 2 ranked them as (2, 0, 1).
    let candidates: Vec<usize> = vec![7, 3, 9];
    let order: Vec<usize> = vec![2, 0, 1];
    assert_eq!(compose_ranking(&candidates, &order), vec![9, 7, 3]);
}

#[test]
fn test_chunk_bounds_cover_range() {
    let chunks = chunk_bounds(10, 4);
    assert_eq!(chunks, vec![(0, 4), (4, 8), (8, 10)]);
    assert!(chunk_bounds(0, 4).is_empty());
    assert_eq!(chunk_bounds(4, 4), vec![(0, 4)]);
}

// ============================================================================
// Pool and admission gate
// ============================================================================

#[test]
fn test_pool_slots_are_exclusive() {
    let mut pool = SlotPool::new(2);
    let a = pool.acquire_session().unwrap();
    let c = pool.acquire_session().unwrap();
    assert_ne!(a, c);
    assert!(a < 2 && c < 2);

    // The pool is exhausted: the next acquisition fails fast.
    let err = pool.acquire_session().unwrap_err();
    assert_eq!(err.status_code(), 503);
    assert!(err.message().contains("No available sessions"));

    // A released slot can be acquired again.
    pool.release_session(a);
    let again = pool.acquire_session().unwrap();
    assert_eq!(again, a);
}

#[test]
fn test_pool_conserves_slots() {
    // After balanced acquire/release rounds both slots are available again.
    let mut pool = SlotPool::new(2);
    for _ in 0..3 {
        let a = pool.acquire_session().unwrap();
        let c = pool.acquire_session().unwrap();
        pool.release_session(a);
        pool.release_session(c);
    }
    let mut seen = vec![false; 2];
    let a = pool.acquire_session().unwrap();
    let c = pool.acquire_session().unwrap();
    seen[a] = true;
    seen[c] = true;
    assert!(seen.iter().all(|&x| x));
}

#[test]
fn test_gate_rejects_beyond_permits() {
    // With one permit, a second concurrent request is turned away.
    let mut gate = AdmissionGate::new(1);
    assert!(gate.try_acquire());
    assert!(!gate.try_acquire());
    gate.release();
    assert!(gate.try_acquire());
}

#[test]
fn test_overloaded_dispatch_returns_503() {
    // With one permit, two requests in flight cannot both be admitted; the
    // overflow maps to HTTP 503.
    let mut core = DispatchCore::new(1, 2);
    let first = core.admit_and_acquire().unwrap();
    let err = core.admit_and_acquire().unwrap_err();
    assert_eq!(err.status_code(), 503);
    assert!(err.message().contains("overloaded"));
    core.release_and_depart(first);
    assert!(core.admit_and_acquire().is_ok());
}

#[test]
fn test_permit_holder_always_gets_slot() {
    // permits <= pool size: every admitted request gets a slot at once.
    let mut core = DispatchCore::new(2, 3);
    let a = core.admit_and_acquire().unwrap();
    let c = core.admit_and_acquire().unwrap();
    assert_ne!(a, c);
    core.release_and_depart(a);
    core.release_and_depart(c);
}

// ============================================================================
// Configuration
// ============================================================================

#[test]
fn test_mode_from_label() {
    assert_eq!(OperatingMode::from_label(&"single".to_string()), OperatingMode::Single);
    assert_eq!(OperatingMode::from_label(&"low-latency".to_string()), OperatingMode::Single);
    assert_eq!(OperatingMode::from_label(&"concurrent".to_string()), OperatingMode::Concurrent);
    assert_eq!(OperatingMode::from_label(&"multi".to_string()), OperatingMode::Concurrent);
    assert_eq!(OperatingMode::from_label(&"".to_string()), OperatingMode::Custom);
    assert_eq!(OperatingMode::from_label(&"whatever".to_string()), OperatingMode::Custom);
}

#[test]
fn test_mode_presets() {
    assert_eq!(OperatingMode::Single.preset_overrides(), (Some(1), Some(1), Some(8)));
    assert_eq!(OperatingMode::Concurrent.preset_overrides(), (Some(10), Some(6), Some(2)));
    assert_eq!(OperatingMode::Custom.preset_overrides(), (None, None, None));
}

#[test]
fn test_compute_budget_defaults() {
    // 12 logical cores: 6 physical; with 2 threads each, 3 permits.
    assert_eq!(compute_budget(12, None, None, 2), (6, 3));
    // 1 logical core still yields one slot and one permit.
    assert_eq!(compute_budget(1, None, None, 8), (1, 1));
    // Explicit settings win.
    assert_eq!(compute_budget(12, Some(10), Some(6), 2), (10, 6));
}

#[test]
fn test_oversubscription_warning() {
    assert!(is_oversubscribed(6, 3, 12));
    assert!(!is_oversubscribed(6, 2, 12));
}

#[test]
fn test_config_mode_getter() {
    let config = Config {
        host: "0.0.0.0".to_string(),
        port: 8080,
        model_path: "./models/model_int8.onnx".to_string(),
        tokenizer_path: "./models/tokenizer.json".to_string(),
        max_sequence_length: 1024,
        shutdown_timeout_secs: 30,
        pool_size: None,
        max_documents: 100000,
        batch_size: 32,
        tools_path: None,
        bi_encoder_model_path: "./bi-encoder-model/model_int8.onnx".to_string(),
        bi_encoder_tokenizer_path: "./bi-encoder-model/tokenizerbiencoder.json".to_string(),
        retrieval_candidates: 20,
        intra_threads: 8,
        permits: None,
        embeddings_cache_path: ".encapure/embeddings.bin".to_string(),
        operating_mode: OperatingMode::Concurrent,
    };
    assert_eq!(config.mode(), OperatingMode::Concurrent);
}

#[test]
fn test_discovery_pipeline_keeps_relevant_tools() {
    // Catalog order and stage scores for a server-status query: the DevOps
    // tools carry the high keys, the rest the low ones.
    let names = [
        "aws_list_instances",
        "k8s_get_pods",
        "check_service_health",
        "read_file",
        "send_slack_message",
    ];
    let stage1_keys: Vec<u64> = vec![80, 75, 90, 20, 10];
    let order1 = rank_descending(&stage1_keys);
    let candidates = select_top_k(&order1, 3);
    assert_eq!(candidates, vec![2, 0, 1]);

    // Stage 2 rescoring of the three candidates, in candidate order.
    let stage2_keys: Vec<u64> = vec![95, 60, 70];
    let order2 = rank_descending(&stage2_keys);
    let ranked_tools = compose_ranking(&candidates, &order2);
    let top: Vec<&str> = select_top_k(&ranked_tools, 3).iter().map(|&i| names[i]).collect();

    assert_eq!(top.len(), 3);
    let devops = ["aws_list_instances", "k8s_get_pods", "check_service_health"];
    assert!(top.iter().filter(|n| devops.contains(n)).count() >= 2);
    assert!(!top.contains(&"read_file"));
    assert!(!top.contains(&"send_slack_message"));
}
