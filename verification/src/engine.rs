//! The engine's configuration and the context that holds its services.
use vstd::prelude::*;
use crate::cache::{CacheIndex, ImageCache, EvictionPolicy};
use crate::text::{chars_of, owned, str_eq, to_lowercase, unicode_lower};

verus! {

/// Engine configuration loaded at startup.
#[derive(Debug, Clone)]
pub struct EngineConfig {
    /// Path to the SQLite database file.
    pub db_path: String,
    /// Path to the image cache directory.
    pub cache_dir: String,
    /// Path to the full-text index directory.
    pub index_dir: String,
    /// IPC socket path (Unix) or pipe name (Windows).
    pub ipc_endpoint: String,
    /// Maximum cache size in bytes (default: 512 MB).
    pub max_cache_size: u64,
    /// Whether to enable GPU compute.
    pub gpu_enabled: bool,
    /// Whether to enable YOLO inference.
    pub yolo_enabled: bool,
    /// Number of async worker threads.
    pub worker_threads: usize,
}

/// The default maximum cache size: 512 MiB.
pub const DEFAULT_MAX_CACHE_SIZE: u64 = 536870912;

impl Default for EngineConfig {
    /// `manga_reader.db`, `cache`, `index`, `127.0.0.1:8500`, a 512 MiB cache,
    /// GPU and YOLO off, four workers.
    fn default() -> (c: Self)
        ensures
            c.db_path@ == "manga_reader.db"@,
            c.cache_dir@ == "cache"@,
            c.index_dir@ == "index"@,
            c.ipc_endpoint@ == "127.0.0.1:8500"@,
            c.max_cache_size == 512 * 1024 * 1024,
            !c.gpu_enabled,
            !c.yolo_enabled,
            c.worker_threads == 4,
    {
        EngineConfig {
            db_path: owned("manga_reader.db"),
            cache_dir: owned("cache"),
            index_dir: owned("index"),
            ipc_endpoint: owned("127.0.0.1:8500"),
            max_cache_size: DEFAULT_MAX_CACHE_SIZE,
            gpu_enabled: false,
            yolo_enabled: false,
            worker_threads: 4,
        }
    }
}

/// Engine runtime context holding its services.
pub struct EngineContext {
    pub config: EngineConfig,
    pub image_cache: ImageCache,
}

impl EngineContext {
    /// The context for `config`: an image cache rooted at the configured directory,
    /// limited to the configured size, evicting down to `eviction_target`, holding
    /// the entries of the loaded `index`.
    pub fn new(config: EngineConfig, index: CacheIndex, eviction_target: u64) -> (ctx: EngineContext)
        requires
            index.wf(),
            eviction_target <= config.max_cache_size,
        ensures
            ctx.config == config,
            ctx.image_cache.wf(),
            ctx.image_cache.dir() == config.cache_dir@,
            ctx.image_cache.max() == config.max_cache_size,
            ctx.image_cache.target() == eviction_target,
            ctx.image_cache.eviction_policy() == EvictionPolicy::Lru,
            ctx.image_cache.index_map() == index.view_map(),
            ctx.image_cache.total() == index.total(),
            ctx.image_cache.hot() == Map::<Seq<char>, Seq<u8>>::empty(),
            ctx.image_cache.counter() == 0,
    {
        let image_cache = ImageCache::new(config.cache_dir.as_str(), config.max_cache_size, eviction_target, index);
        EngineContext { config, image_cache }
    }
}


// ─── Settings from the environment ──────────────────────────────────

/// A decimal digit.
pub open spec fn is_digit(c: char) -> bool {
    '0' <= c && c <= '9'
}

/// The value of a decimal digit.
pub open spec fn digit_value(c: char) -> int {
    (c as int) - ('0' as int)
}

/// The value of a string of decimal digits.
pub open spec fn digits_value(s: Seq<char>) -> int
    decreases s.len(),
{
    if s.len() == 0 {
        0
    } else {
        digits_value(s.drop_last()) * 10 + digit_value(s.last())
    }
}

/// The number an unsigned integer of at most `max` is parsed from `s`, as std's
/// `str::parse` reads it: an optional `+`, then one or more decimal digits whose
/// value is at most `max`; `None` for anything else.
pub open spec fn parsed_unsigned(s: Seq<char>, max: int) -> Option<int> {
    let d = unsigned_digits(s);
    if d.len() > 0 && all_digits(d) && digits_value(d) <= max {
        Some(digits_value(d))
    } else {
        None
    }
}

/// `s` without a leading `+`.
pub open spec fn unsigned_digits(s: Seq<char>) -> Seq<char> {
    if s.len() > 0 && s[0] == '+' { s.drop_first() } else { s }
}

/// Every character of `d` is a decimal digit.
pub open spec fn all_digits(d: Seq<char>) -> bool {
    forall|i: int| 0 <= i < d.len() ==> is_digit(#[trigger] d[i])
}

proof fn lemma_digits_prefix(s: Seq<char>, k: int, n: int)
    requires
        0 <= k <= n <= s.len(),
        forall|i: int| 0 <= i < s.len() ==> is_digit(#[trigger] s[i]),
    ensures
        0 <= digits_value(s.take(k)) <= digits_value(s.take(n)),
    decreases n,
{
    if n > 0 {
        assert(s.take(n).drop_last() =~= s.take(n - 1));
        assert(is_digit(s[n - 1]));
        if k < n {
            lemma_digits_prefix(s, k, n - 1);
        } else {
            lemma_digits_prefix(s, n - 1, n - 1);
        }
    } else {
        assert(s.take(0) =~= Seq::<char>::empty());
    }
}

/// Digits whose prefix is already too large parse to nothing.
proof fn lemma_too_large(s: Seq<char>, max: int, d: Seq<char>, k: int)
    requires
        d == unsigned_digits(s),
        0 <= k < d.len(),
        digits_value(d.take(k + 1)) > max,
    ensures
        parsed_unsigned(s, max) is None,
{
    if all_digits(d) {
        lemma_digits_prefix(d, k + 1, d.len() as int);
        assert(d.take(d.len() as int) =~= d);
        assert(!(digits_value(d) <= max));
    } else {
        let j = choose|j: int| 0 <= j < d.len() && !is_digit(#[trigger] d[j]);
        assert(!is_digit(d[j]));
    }
}

/// Parse an unsigned integer of at most `max` (see [`parsed_unsigned`]).
pub fn parse_unsigned(s: &str, max: u64) -> (r: Option<u64>)
    ensures
        match parsed_unsigned(s@, max as int) {
            Some(v) => r is Some && r->0 as int == v,
            None => r is None,
        },
{
    let all = chars_of(s);
    let start: usize = if all.len() > 0 && all[0] == '+' { 1 } else { 0 };
    let ghost d = unsigned_digits(s@);
    assert(d =~= all@.skip(start as int));
    if start >= all.len() {
        return None;
    }
    let mut acc: u64 = 0;
    let mut i: usize = start;
    assert(d.take(0) =~= Seq::<char>::empty());
    while i < all.len()
        invariant
            start <= i <= all@.len(),
            start < all@.len(),
            all@ == s@,
            d == unsigned_digits(s@),
            d == all@.skip(start as int),
            forall|j: int| 0 <= j < i - start ==> is_digit(#[trigger] d[j]),
            acc == digits_value(d.take(i - start)),
            acc <= max,
        decreases all.len() - i,
    {
        let c = all[i];
        let k = i - start;
        assert(d[k as int] == c);
        if !(c >= '0' && c <= '9') {
            assert(!is_digit(d[k as int]));
            return None;
        }
        let dv: u64 = (c as u32 - '0' as u32) as u64;
        assert(dv == digit_value(c));
        assert(d.take(k + 1).drop_last() =~= d.take(k as int));
        let next = match acc.checked_mul(10) {
            Some(t) => t.checked_add(dv),
            None => None,
        };
        match next {
            Some(v) if v <= max => {
                acc = v;
            },
            _ => {
                proof {
                    lemma_too_large(s@, max as int, d, k as int);
                }
                return None;
            },
        }
        i = i + 1;
    }
    assert(d.take(d.len() as int) =~= d);
    Some(acc)
}

/// A flag that is set: `1`, or `true` in any case.
pub open spec fn flag_set(v: Seq<char>) -> bool {
    v == "1"@ || unicode_lower(v) == "true"@
}

/// Whether a flag's value sets it (see [`flag_set`]).
pub fn parse_flag(v: &str) -> (r: bool)
    ensures
        r == flag_set(v@),
{
    if str_eq(v, "1") {
        return true;
    }
    let lower = to_lowercase(v);
    str_eq(lower.as_str(), "true")
}

/// The configuration the environment gives where there is no configuration file:
/// each setting present is used (numbers parsed, flags set by `1` or `true`), and
/// each one absent or unreadable takes its default; GPU and YOLO default to on, the
/// endpoint to the engine's named pipe.
pub fn config_from_env(
    db_path: Option<String>,
    cache_dir: Option<String>,
    index_dir: Option<String>,
    ipc_endpoint: Option<String>,
    max_cache_size: Option<String>,
    gpu_enabled: Option<String>,
    yolo_enabled: Option<String>,
    worker_threads: Option<String>,
) -> (c: EngineConfig)
    ensures
        c.db_path@ == match db_path { Some(v) => v@, None => "manga_reader.db"@ },
        c.cache_dir@ == match cache_dir { Some(v) => v@, None => "cache"@ },
        c.index_dir@ == match index_dir { Some(v) => v@, None => "index"@ },
        c.ipc_endpoint@ == match ipc_endpoint { Some(v) => v@, None => "\\\\.\\pipe\\manga-reader-engine"@ },
        match max_cache_size {
            Some(v) => match parsed_unsigned(v@, u64::MAX as int) {
                Some(n) => c.max_cache_size as int == n,
                None => c.max_cache_size == DEFAULT_MAX_CACHE_SIZE,
            },
            None => c.max_cache_size == DEFAULT_MAX_CACHE_SIZE,
        },
        c.gpu_enabled == match gpu_enabled { Some(v) => flag_set(v@), None => true },
        c.yolo_enabled == match yolo_enabled { Some(v) => flag_set(v@), None => true },
        match worker_threads {
            Some(v) => match parsed_unsigned(v@, usize::MAX as int) {
                Some(n) => c.worker_threads as int == n,
                None => c.worker_threads == 4,
            },
            None => c.worker_threads == 4,
        },
{
    let max_cache_size = match max_cache_size {
        Some(v) => match parse_unsigned(v.as_str(), u64::MAX) {
            Some(n) => n,
            None => DEFAULT_MAX_CACHE_SIZE,
        },
        None => DEFAULT_MAX_CACHE_SIZE,
    };
    assert(usize::MAX as u64 as int == usize::MAX as int);
    let worker_threads: usize = match worker_threads {
        Some(v) => {
            let r = parse_unsigned(v.as_str(), usize::MAX as u64);
            match r {
                Some(n) => n as usize,
                None => 4,
            }
        },
        None => 4,
    };
    EngineConfig {
        db_path: match db_path { Some(v) => v, None => owned("manga_reader.db") },
        cache_dir: match cache_dir { Some(v) => v, None => owned("cache") },
        index_dir: match index_dir { Some(v) => v, None => owned("index") },
        ipc_endpoint: match ipc_endpoint { Some(v) => v, None => owned("\\\\.\\pipe\\manga-reader-engine") },
        max_cache_size,
        gpu_enabled: match gpu_enabled { Some(v) => parse_flag(v.as_str()), None => true },
        yolo_enabled: match yolo_enabled { Some(v) => parse_flag(v.as_str()), None => true },
        worker_threads,
    }
}

} // verus!
