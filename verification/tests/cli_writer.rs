//! Line edits of the command line.

use vaultdb::cli::writer::{add_tag, remove_tag, set_field, unset_field};
use vaultdb::writer::ChangeDescription;

const MOVIE_FILE: &str = "\
---
aliases:
tags:
  - type/leaf
  - topic/movies
  - source/video
  - genre/drama
status: to-watch
rating:
director: Sam Mendes
year: 2019
related-to:
---

Part of [[Watchlist]]
";

const CHINESE_FILE: &str = "\
---
aliases:
- kuài
tags:
- type/concept
- topic/chinese
- source/self-study
pinyin: kuài
anlam: hızlı
tür: sifat
hsk: 1
kaliplar:
- kalip: 快乐
  pinyin: kuàilè
  anlam: mutlu, neşeli
ornekler:
- cumle: 他跑得很快。
  pinyin: Tā pǎo de hěn kuài.
  anlam: O çok hızlı koşuyor.
related-to:
---

# 快 (kuài) — hızlı

Body text.
";

#[test]
fn writer_set_existing_scalar_field() {
    let (result, change) = set_field(MOVIE_FILE, "status", "watched").unwrap();
    assert!(result.contains("status: watched"));
    assert!(!result.contains("to-watch"));
    // Body preserved
    assert!(result.contains("Part of [[Watchlist]]"));
    match change {
        ChangeDescription::SetField {
            field,
            old_value,
            new_value,
        } => {
            assert_eq!(field, "status");
            assert_eq!(old_value, "to-watch");
            assert_eq!(new_value, "watched");
        }
        _ => panic!("expected SetField"),
    }
}

#[test]
fn writer_set_null_field() {
    let (result, _) = set_field(MOVIE_FILE, "rating", "8").unwrap();
    assert!(result.contains("rating: 8"));
}

#[test]
fn writer_set_new_field() {
    let (result, _) = set_field(MOVIE_FILE, "language", "English").unwrap();
    assert!(result.contains("language: English"));
    // Should be inserted before closing ---
    let closing_idx = result.rfind("\n---\n").unwrap();
    let lang_idx = result.find("language: English").unwrap();
    assert!(lang_idx < closing_idx);
}

#[test]
fn set_complex_field_rejected() {
    let result = set_field(CHINESE_FILE, "kaliplar", "something");
    assert!(result.is_err());
}

#[test]
fn writer_set_value_needing_quotes() {
    let (result, _) = set_field(MOVIE_FILE, "note", "key: value").unwrap();
    assert!(result.contains("note: 'key: value'"));
}

#[test]
fn writer_unset_scalar_field() {
    let (result, _) = unset_field(MOVIE_FILE, "director").unwrap();
    assert!(!result.contains("director:"));
    // Other fields preserved
    assert!(result.contains("status: to-watch"));
    assert!(result.contains("year: 2019"));
    assert!(result.contains("Part of [[Watchlist]]"));
}

#[test]
fn writer_unset_list_field() {
    let (result, _) = unset_field(CHINESE_FILE, "kaliplar").unwrap();
    assert!(!result.contains("kaliplar:"));
    assert!(!result.contains("快乐"));
    // Other fields preserved
    assert!(result.contains("pinyin: kuài"));
    assert!(result.contains("Body text."));
}

#[test]
fn writer_unset_nonexistent_field() {
    let result = unset_field(MOVIE_FILE, "nonexistent");
    assert!(result.is_err());
}

#[test]
fn writer_add_tag_2space_indent() {
    let (result, _) = add_tag(MOVIE_FILE, "genre/war").unwrap();
    assert!(result.contains("  - genre/war"));
    // Existing tags still present
    assert!(result.contains("  - type/leaf"));
    assert!(result.contains("  - genre/drama"));
}

#[test]
fn writer_add_tag_0indent() {
    let (result, _) = add_tag(CHINESE_FILE, "topic/hsk1").unwrap();
    assert!(result.contains("- topic/hsk1"));
    // Existing tags preserved
    assert!(result.contains("- type/concept"));
    assert!(result.contains("- topic/chinese"));
}

#[test]
fn writer_remove_tag_2space_indent() {
    let (result, _) = remove_tag(MOVIE_FILE, "genre/drama").unwrap();
    assert!(!result.contains("genre/drama"));
    // Other tags preserved
    assert!(result.contains("  - type/leaf"));
    assert!(result.contains("  - source/video"));
}

#[test]
fn writer_remove_tag_0indent() {
    let (result, _) = remove_tag(CHINESE_FILE, "topic/chinese").unwrap();
    assert!(!result.contains("topic/chinese"));
    assert!(result.contains("- type/concept"));
    assert!(result.contains("- source/self-study"));
}

#[test]
fn writer_remove_nonexistent_tag() {
    let result = remove_tag(MOVIE_FILE, "nonexistent/tag");
    assert!(result.is_err());
}

#[test]
fn writer_body_preserved_after_set() {
    let (result, _) = set_field(MOVIE_FILE, "status", "watched").unwrap();
    assert!(result.ends_with("Part of [[Watchlist]]\n"));
}

#[test]
fn writer_body_preserved_after_unset() {
    let (result, _) = unset_field(CHINESE_FILE, "hsk").unwrap();
    assert!(result.contains("# 快 (kuài) — hızlı"));
    assert!(result.contains("Body text."));
}

#[test]
fn writer_body_preserved_after_add_tag() {
    let (result, _) = add_tag(CHINESE_FILE, "topic/hsk1").unwrap();
    assert!(result.contains("# 快 (kuài) — hızlı"));
}

#[test]
fn writer_chinese_content_preserved() {
    let (result, _) = set_field(CHINESE_FILE, "hsk", "2").unwrap();
    assert!(result.contains("pinyin: kuài"));
    assert!(result.contains("anlam: hızlı"));
    assert!(result.contains("tür: sifat"));
    assert!(result.contains("kalip: 快乐"));
    assert!(result.contains("cumle: 他跑得很快。"));
}

// ── Safety checks ─────────────────────────

#[test]
fn writer_set_field_rejects_flow_style() {
    let content = "---\ntags: [a, b, c]\n---\nBody.\n";
    let result = set_field(content, "tags", "x");
    assert!(result.is_err());
    let err = result.unwrap_err().to_string();
    assert!(err.contains("flow-style"));
}

#[test]
fn writer_set_field_rejects_multiline_scalar() {
    let content = "---\ndescription: |\n  Multi line\n  content here\n---\nBody.\n";
    let result = set_field(content, "description", "new value");
    assert!(result.is_err());
    let err = result.unwrap_err().to_string();
    assert!(err.contains("multiline"));
}

#[test]
fn writer_add_tag_rejects_flow_style() {
    let content = "---\ntags: [type/concept, topic/ai]\n---\nBody.\n";
    let result = add_tag(content, "topic/new");
    assert!(result.is_err());
    let err = result.unwrap_err().to_string();
    assert!(err.contains("flow-style"));
}

#[test]
fn writer_remove_tag_rejects_flow_style() {
    let content = "---\ntags: [type/concept, topic/ai]\n---\nBody.\n";
    let result = remove_tag(content, "topic/ai");
    assert!(result.is_err());
    let err = result.unwrap_err().to_string();
    assert!(err.contains("flow-style"));
}

#[test]
fn writer_edits_an_indented_frontmatter() {
    let note = "---\n  status: x\n  tags:\n    - a\n---\nB\n";
    let (text, _) = set_field(note, "status", "y").unwrap();
    assert_eq!(text, "---\n  status: y\n  tags:\n    - a\n---\nB\n");
    let (text, _) = add_tag(note, "b").unwrap();
    assert_eq!(text, "---\n  status: x\n  tags:\n    - a\n    - b\n---\nB\n");
    let (text, _) = remove_tag(note, "a").unwrap();
    assert_eq!(text, "---\n  status: x\n  tags:\n---\nB\n");
    let (text, _) = unset_field(note, "status").unwrap();
    assert_eq!(text, "---\n  tags:\n    - a\n---\nB\n");
    assert!(set_field(note, "tags", "b").is_err());
}

#[test]
fn writer_sets_a_value_that_starts_like_a_block() {
    let (text, change) = set_field("---\nk: >= 5\n---\n", "k", "six").unwrap();
    assert_eq!(text, "---\nk: six\n---\n");
    assert!(matches!(change, ChangeDescription::SetField { old_value, .. } if old_value == ">= 5"));
    assert!(set_field("---\nk: >-\n  text\n---\n", "k", "six").is_err());
}
