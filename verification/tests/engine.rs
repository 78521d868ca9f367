use manga_reader_engine::cache::{CacheIndex, EvictionPolicy};
use manga_reader_engine::engine::{config_from_env, parse_flag, parse_unsigned, EngineConfig, EngineContext};
use manga_reader_engine::models::{Category, NewCategory};
use manga_reader_engine::plugin::{HookAction, HookResult, PluginMetadata};

#[test]
fn default_configuration() {
    let c = EngineConfig::default();
    assert_eq!(c.db_path, "manga_reader.db");
    assert_eq!(c.cache_dir, "cache");
    assert_eq!(c.index_dir, "index");
    assert_eq!(c.ipc_endpoint, "127.0.0.1:8500");
    assert_eq!(c.max_cache_size, 512 * 1024 * 1024);
    assert!(!c.gpu_enabled && !c.yolo_enabled);
    assert_eq!(c.worker_threads, 4);
}

#[test]
fn context_builds_the_cache() {
    let config = EngineConfig::default();
    let ctx = EngineContext::new(config, CacheIndex::new(), 100);
    assert_eq!(ctx.image_cache.cache_dir(), "cache");
    assert_eq!(ctx.image_cache.total_size(), 0);
    assert_eq!(ctx.config.worker_threads, 4);
    let _ = EvictionPolicy::Lru;
}

#[test]
fn default_hook_result_continues() {
    let r = HookResult::default();
    assert!(matches!(r.action, HookAction::Continue));
    assert!(r.message.is_none() && r.data.is_none());
    let meta = PluginMetadata { id: "com.example.t", name: "T", version: "1.0.0", description: "d", author: "a" };
    assert_eq!(meta.id, "com.example.t");
}

#[test]
fn records_hold_their_fields() {
    let c = Category { id: 1, name: "Seinen".to_string(), description: None, color: "#808080".to_string(), created_at: String::new() };
    let n = NewCategory { name: c.name.clone(), description: Some("adult".to_string()), color: None };
    assert_eq!(n.name, "Seinen");
}

#[test]
fn numbers_parse_as_std_does() {
    for s in ["0", "42", "+7", "18446744073709551615", "", "+", "-1", "12a", " 1", "18446744073709551616"] {
        assert_eq!(parse_unsigned(s, u64::MAX), s.parse::<u64>().ok(), "{:?}", s);
    }
    assert_eq!(parse_unsigned("300", 255), None);
    assert_eq!(parse_unsigned("255", 255), Some(255));
}

#[test]
fn flags_are_one_or_true() {
    assert!(parse_flag("1") && parse_flag("TRUE") && parse_flag("True"));
    assert!(!parse_flag("yes") && !parse_flag("0") && !parse_flag(""));
}

#[test]
fn configuration_from_the_environment() {
    let c = config_from_env(None, Some("/tmp/c".to_string()), None, None, Some("1024".to_string()), Some("0".to_string()), None, Some("x".to_string()));
    assert_eq!(c.db_path, "manga_reader.db");
    assert_eq!(c.cache_dir, "/tmp/c");
    assert_eq!(c.ipc_endpoint, "\\\\.\\pipe\\manga-reader-engine");
    assert_eq!(c.max_cache_size, 1024);
    assert!(!c.gpu_enabled);
    assert!(c.yolo_enabled);
    assert_eq!(c.worker_threads, 4);
    let d = config_from_env(None, None, None, None, Some("-5".to_string()), None, Some("true".to_string()), Some("8".to_string()));
    assert_eq!(d.max_cache_size, 512 * 1024 * 1024);
    assert_eq!(d.worker_threads, 8);
}
