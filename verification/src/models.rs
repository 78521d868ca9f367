//! The catalog records: what is stored for a manga, a page, a bookmark and a
//! category, and the payloads that create them.
use vstd::prelude::*;

verus! {

// ─── Manga ─────────────────────────────────────────────────────────

/// A manga series in the catalog.
#[derive(Debug, Clone)]
pub struct Manga {
    pub id: i64,
    pub title: String,
    pub alt_title: Option<String>,
    pub author: Option<String>,
    pub artist: Option<String>,
    pub description: Option<String>,
    pub status: String,
    pub cover_path: Option<String>,
    pub source: Option<String>,
    pub source_url: Option<String>,
    pub created_at: String,
    pub updated_at: String,
}

/// Payload for creating a new manga entry.
#[derive(Debug, Clone)]
pub struct NewManga {
    pub title: String,
    pub alt_title: Option<String>,
    pub author: Option<String>,
    pub artist: Option<String>,
    pub description: Option<String>,
    pub status: String,
    pub cover_path: Option<String>,
    pub source: Option<String>,
    pub source_url: Option<String>,
}

// ─── Page ───────────────────────────────────────────────────────────

/// A single page image within a chapter.
#[derive(Debug, Clone)]
pub struct Page {
    pub id: i64,
    pub chapter_id: i64,
    pub page_number: i64,
    pub image_path: String,
    pub width: Option<i64>,
    pub height: Option<i64>,
    pub file_size: Option<i64>,
    pub created_at: String,
}

/// Payload for creating a new page.
#[derive(Debug, Clone)]
pub struct NewPage {
    pub chapter_id: i64,
    pub page_number: i64,
    pub image_path: String,
    pub width: Option<i64>,
    pub height: Option<i64>,
    pub file_size: Option<i64>,
}

// ─── Bookmark ───────────────────────────────────────────────────────

/// A user bookmark on a specific page.
#[derive(Debug, Clone)]
pub struct Bookmark {
    pub id: i64,
    pub manga_id: i64,
    pub chapter_id: Option<i64>,
    pub page_number: i64,
    pub note: Option<String>,
    pub user_id: String,
    pub created_at: String,
}

/// Payload for creating a new bookmark.
#[derive(Debug, Clone)]
pub struct NewBookmark {
    pub manga_id: i64,
    pub chapter_id: Option<i64>,
    pub page_number: i64,
    pub note: Option<String>,
    pub user_id: String,
}

// ─── Category ───────────────────────────────────────────────────────

/// A category/tag for organizing manga.
#[derive(Debug, Clone)]
pub struct Category {
    pub id: i64,
    pub name: String,
    pub description: Option<String>,
    pub color: String,
    pub created_at: String,
}

/// Payload for creating a new category.
#[derive(Debug, Clone)]
pub struct NewCategory {
    pub name: String,
    pub description: Option<String>,
    pub color: Option<String>,
}

} // verus!
