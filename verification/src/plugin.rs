//! The data that the reader and its plugins exchange.
use vstd::prelude::*;
use serde_json::Value;
use std::collections::HashMap;

verus! {

/// Represents a single manga page the reader has opened.
#[derive(Debug, Clone)]
pub struct PageInfo {
    /// Zero-based index of the page within the current chapter.
    pub page_index: u32,
    /// Path to the rendered image file on disk (host-local).
    pub image_path: String,
    /// Width of the page image in pixels.
    pub width: u32,
    /// Height of the page image in pixels.
    pub height: u32,
    /// Optional metadata key-value pairs (e.g., detected language, OCR hints).
    pub metadata: HashMap<String, String>,
}

/// What the host should do after a hook.
#[derive(Debug, Clone)]
pub enum HookAction {
    /// Allow normal processing to continue (no-op).
    Continue,
    /// Replace or augment the default behaviour with custom data.
    Override(Vec<u8>),
    /// Block the default action entirely.
    Block,
}

/// Payload returned from a plugin hook invocation.
#[derive(Debug, Clone)]
pub struct HookResult {
    /// What the host should do after this hook.
    pub action: HookAction,
    /// Human-readable message for logging / debug overlays.
    pub message: Option<String>,
    /// Arbitrary JSON payload the host can forward to the renderer.
    pub data: Option<Value>,
}

impl Default for HookResult {
    /// Continue, with no message and no data.
    fn default() -> (r: Self)
        ensures
            r.action is Continue,
            r.message is None,
            r.data is None,
    {
        HookResult { action: HookAction::Continue, message: None, data: None }
    }
}

/// Static metadata every plugin must expose.
#[derive(Debug, Clone)]
pub struct PluginMetadata {
    /// Unique identifier (e.g., `"com.example.translator"`).
    pub id: &'static str,
    /// Human-readable name (e.g., `"DeepL Translator"`).
    pub name: &'static str,
    /// Semantic version.
    pub version: &'static str,
    /// Short description of what the plugin does.
    pub description: &'static str,
    /// Author / organisation.
    pub author: &'static str,
}

} // verus!
