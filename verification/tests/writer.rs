//! Edits of the text of a note.

use vaultdb::record::Value;
use vaultdb::writer::{
    add_tag, append_body, clear_body, remove_tag, set_body, set_field, set_field_block, set_field_preformatted,
    unset_field, ChangeDescription,
};

const MOVIE_FILE: &str = "\
---
aliases:
tags:
  - type/leaf
  - topic/movies
  - source/video
  - genre/drama
status: to-watch
rating:
director: Sam Mendes
year: 2019
related-to:
---

Part of [[Watchlist]]
";

const CHINESE_FILE: &str = "\
---
aliases:
- kuài
tags:
- type/concept
- topic/chinese
- source/self-study
pinyin: kuài
anlam: hızlı
tür: sifat
hsk: 1
kaliplar:
- kalip: 快乐
  pinyin: kuàilè
  anlam: mutlu, neşeli
ornekler:
- cumle: 他跑得很快。
  pinyin: Tā pǎo de hěn kuài.
  anlam: O çok hızlı koşuyor.
related-to:
---

# 快 (kuài) — hızlı

Body text.
";

#[test]
fn set_existing_scalar_field() {
    let (result, change) = set_field(MOVIE_FILE, "status", "watched").unwrap();
    assert!(result.contains("status: watched"));
    assert!(!result.contains("to-watch"));
    // Body preserved
    assert!(result.contains("Part of [[Watchlist]]"));
    match change {
        ChangeDescription::SetField {
            field,
            old_value,
            new_value,
        } => {
            assert_eq!(field, "status");
            assert_eq!(old_value, "to-watch");
            assert_eq!(new_value, "watched");
        }
        _ => panic!("expected SetField"),
    }
}

#[test]
fn set_null_field() {
    // A bare scalar that could be read as another type is quoted.
    let (result, _) = set_field(MOVIE_FILE, "rating", "8").unwrap();
    assert!(result.contains("rating: '8'"), "got:\n{}", result);
}

#[test]
fn set_new_field() {
    let (result, _) = set_field(MOVIE_FILE, "language", "English").unwrap();
    assert!(result.contains("language: English"));
    // Should be inserted before closing ---
    let closing_idx = result.rfind("\n---\n").unwrap();
    let lang_idx = result.find("language: English").unwrap();
    assert!(lang_idx < closing_idx);
}

#[test]
fn set_scalar_over_block_field_replaces() {
    // A scalar set over a block-style list or map replaces the whole field.
    let (result, change) = set_field(CHINESE_FILE, "kaliplar", "something").unwrap();
    assert!(result.contains("kaliplar: something"), "got:\n{}", result);
    assert!(!result.contains("快乐")); // old block item gone
    assert!(!result.contains("kuàilè"));
    // Neighbouring fields on both sides of the replaced span survive.
    assert!(result.contains("hsk: 1"));
    assert!(result.contains("ornekler:"));
    assert!(result.contains("Body text."));
    match change {
        ChangeDescription::SetField {
            field, new_value, ..
        } => {
            assert_eq!(field, "kaliplar");
            assert_eq!(new_value, "something");
        }
        _ => panic!("expected SetField"),
    }
}

#[test]
fn set_field_initializes_frontmatter_on_bare_file() {
    // A file with no frontmatter block at all gets one synthesized so the
    // field can be added, rather than the write being refused.
    let bare = "# Just a heading\n\nSome body text.\n";
    let (result, _) = set_field(bare, "db-table", "rusen-wiki").unwrap();
    assert!(result.starts_with("---\n"), "got:\n{}", result);
    assert!(result.contains("db-table: rusen-wiki"));
    // Body preserved after the synthesized frontmatter.
    assert!(result.contains("# Just a heading"));
    assert!(result.contains("Some body text."));
    // Frontmatter re-parses and carries the new field.
    let fm_end = result[4..].find("\n---\n").unwrap() + 4;
    let fm = &result[4..fm_end];
    let parsed: serde_yaml::Value = serde_yaml::from_str(fm).unwrap();
    assert_eq!(
        parsed
            .as_mapping()
            .and_then(|m| m.get("db-table"))
            .and_then(|v| v.as_str()),
        Some("rusen-wiki")
    );
}

#[test]
fn set_value_needing_quotes() {
    let (result, _) = set_field(MOVIE_FILE, "note", "key: value").unwrap();
    assert!(result.contains("note: 'key: value'"));
}

// ── set_field_block (typed list/map writes) ──────────────────────────

#[test]
fn set_field_block_inserts_new_list_as_block_yaml() {
    let value = Value::List(vec![Value::String("kedi".into())]);
    let (result, change) = set_field_block(MOVIE_FILE, "anlamlar", &value).unwrap();
    // A `key:` line followed by `- item` lines.
    assert!(result.contains("anlamlar:\n- kedi"));
    assert!(!result.contains("anlamlar: '- kedi'"));
    // Inserted before closing `---`.
    let closing_idx = result.rfind("\n---\n").unwrap();
    assert!(result.find("anlamlar:").unwrap() < closing_idx);
    match change {
        ChangeDescription::SetField {
            field, new_value, ..
        } => {
            assert_eq!(field, "anlamlar");
            assert_eq!(new_value.trim_end(), "- kedi");
        }
        _ => panic!("expected SetField"),
    }
}

#[test]
fn set_field_block_multi_item_list_round_trips() {
    let value = Value::List(vec![
        Value::String("猫が好きです。".into()),
        Value::String("私の猫は黒いです。".into()),
    ]);
    let (result, _) = set_field_block(MOVIE_FILE, "ornekler_jp", &value).unwrap();
    assert!(result.contains("ornekler_jp:\n- 猫が好きです。\n- 私の猫は黒いです。"));
    // Parse the result back and confirm the field is a list, not a string.
    let fm_end = result[4..].find("\n---\n").unwrap() + 4;
    let fm = &result[4..fm_end];
    let parsed: serde_yaml::Value = serde_yaml::from_str(fm).unwrap();
    let items = parsed
        .as_mapping()
        .and_then(|m| m.get("ornekler_jp"))
        .and_then(|v| v.as_sequence())
        .expect("ornekler_jp must round-trip as a YAML sequence");
    assert_eq!(items.len(), 2);
}

#[test]
fn set_field_block_replaces_existing_block_list() {
    // CHINESE_FILE has `kaliplar` as a block-style list of maps. Replace
    // it with a fresh list and confirm the old span is gone.
    let value = Value::List(vec![Value::String("replaced".into())]);
    let (result, _) = set_field_block(CHINESE_FILE, "kaliplar", &value).unwrap();
    assert!(result.contains("kaliplar:\n- replaced"));
    assert!(!result.contains("快乐")); // old item gone
    assert!(!result.contains("kuàilè")); // old nested key gone
    // Adjacent fields preserved.
    assert!(result.contains("hsk: 1"));
    assert!(result.contains("ornekler:"));
}

#[test]
fn set_field_block_writes_map_as_nested_yaml() {
    let value = Value::Mapping(vec![
        ("k1".into(), Value::String("v1".into())),
        ("k2".into(), Value::Integer(2)),
    ]);
    let (result, _) = set_field_block(MOVIE_FILE, "meta", &value).unwrap();
    assert!(result.contains("meta:\n  k1: v1\n  k2: 2"));
}

#[test]
fn set_field_block_rejects_flow_style_existing() {
    let content = "---\ntags: [a, b]\n---\nbody\n";
    let value = Value::List(vec![Value::String("c".into())]);
    let err = set_field_block(content, "tags", &value).unwrap_err();
    let msg = err.to_string();
    assert!(msg.contains("flow-style"), "got: {}", msg);
}

#[test]
fn set_field_block_rejects_scalar_value() {
    // Programmer error guard: scalars must go through set_field, not here.
    let err =
        set_field_block(MOVIE_FILE, "status", &Value::String("watched".into())).unwrap_err();
    let msg = err.to_string();
    assert!(msg.contains("scalar value"), "got: {}", msg);
}

#[test]
fn unset_scalar_field() {
    let (result, _) = unset_field(MOVIE_FILE, "director").unwrap();
    assert!(!result.contains("director:"));
    // Other fields preserved
    assert!(result.contains("status: to-watch"));
    assert!(result.contains("year: 2019"));
    assert!(result.contains("Part of [[Watchlist]]"));
}

#[test]
fn unset_list_field() {
    let (result, _) = unset_field(CHINESE_FILE, "kaliplar").unwrap();
    assert!(!result.contains("kaliplar:"));
    assert!(!result.contains("快乐"));
    // Other fields preserved
    assert!(result.contains("pinyin: kuài"));
    assert!(result.contains("Body text."));
}

#[test]
fn unset_nonexistent_field() {
    let result = unset_field(MOVIE_FILE, "nonexistent");
    assert!(result.is_err());
}

#[test]
fn add_tag_2space_indent() {
    let (result, _) = add_tag(MOVIE_FILE, "genre/war").unwrap();
    assert!(result.contains("  - genre/war"));
    // Existing tags still present
    assert!(result.contains("  - type/leaf"));
    assert!(result.contains("  - genre/drama"));
}

#[test]
fn add_tag_0indent() {
    let (result, _) = add_tag(CHINESE_FILE, "topic/hsk1").unwrap();
    assert!(result.contains("- topic/hsk1"));
    // Existing tags preserved
    assert!(result.contains("- type/concept"));
    assert!(result.contains("- topic/chinese"));
}

#[test]
fn remove_tag_2space_indent() {
    let (result, _) = remove_tag(MOVIE_FILE, "genre/drama").unwrap();
    assert!(!result.contains("genre/drama"));
    // Other tags preserved
    assert!(result.contains("  - type/leaf"));
    assert!(result.contains("  - source/video"));
}

#[test]
fn remove_tag_0indent() {
    let (result, _) = remove_tag(CHINESE_FILE, "topic/chinese").unwrap();
    assert!(!result.contains("topic/chinese"));
    assert!(result.contains("- type/concept"));
    assert!(result.contains("- source/self-study"));
}

#[test]
fn remove_nonexistent_tag() {
    let result = remove_tag(MOVIE_FILE, "nonexistent/tag");
    assert!(result.is_err());
}

#[test]
fn body_preserved_after_set() {
    let (result, _) = set_field(MOVIE_FILE, "status", "watched").unwrap();
    assert!(result.ends_with("Part of [[Watchlist]]\n"));
}

#[test]
fn body_preserved_after_unset() {
    let (result, _) = unset_field(CHINESE_FILE, "hsk").unwrap();
    assert!(result.contains("# 快 (kuài) — hızlı"));
    assert!(result.contains("Body text."));
}

#[test]
fn body_preserved_after_add_tag() {
    let (result, _) = add_tag(CHINESE_FILE, "topic/hsk1").unwrap();
    assert!(result.contains("# 快 (kuài) — hızlı"));
}

#[test]
fn chinese_content_preserved() {
    let (result, _) = set_field(CHINESE_FILE, "hsk", "2").unwrap();
    assert!(result.contains("pinyin: kuài"));
    assert!(result.contains("anlam: hızlı"));
    assert!(result.contains("tür: sifat"));
    assert!(result.contains("kalip: 快乐"));
    assert!(result.contains("cumle: 他跑得很快。"));
}

// ── Safety checks ─────────────────────────

#[test]
fn set_field_rejects_flow_style() {
    let content = "---\ntags: [a, b, c]\n---\nBody.\n";
    let result = set_field(content, "tags", "x");
    assert!(result.is_err());
    let err = result.unwrap_err().to_string();
    assert!(err.contains("flow-style"));
}

#[test]
fn set_field_rejects_multiline_scalar() {
    let content = "---\ndescription: |\n  Multi line\n  content here\n---\nBody.\n";
    let result = set_field(content, "description", "new value");
    assert!(result.is_err());
    let err = result.unwrap_err().to_string();
    assert!(err.contains("multiline"));
}

#[test]
fn add_tag_rejects_flow_style() {
    let content = "---\ntags: [type/concept, topic/ai]\n---\nBody.\n";
    let result = add_tag(content, "topic/new");
    assert!(result.is_err());
    let err = result.unwrap_err().to_string();
    assert!(err.contains("flow-style"));
}

#[test]
fn remove_tag_rejects_flow_style() {
    let content = "---\ntags: [type/concept, topic/ai]\n---\nBody.\n";
    let result = remove_tag(content, "topic/ai");
    assert!(result.is_err());
    let err = result.unwrap_err().to_string();
    assert!(err.contains("flow-style"));
}

#[test]
fn set_field_preformatted_writes_value_verbatim() {
    // The value is taken as it is.
    let content = "---\nurl:\n---\nBody\n";
    let preformatted = "'https://www.amazon.com.tr/foo'";
    let (out, _) = set_field_preformatted(content, "url", preformatted).unwrap();
    assert!(
        out.contains("url: 'https://www.amazon.com.tr/foo'"),
        "got:\n{}",
        out
    );
    assert!(
        !out.contains("url: \"'"),
        "preformatted value was double-quoted; got:\n{}",
        out
    );
}

// ── Body mutations ───────────────────────────────────────────────────

#[test]
fn set_body_replaces_existing_body() {
    let (result, change) = set_body(MOVIE_FILE, "New body content.\n").unwrap();
    // Frontmatter intact.
    assert!(result.contains("director: Sam Mendes"));
    assert!(result.contains("status: to-watch"));
    // Old body gone, new body present.
    assert!(!result.contains("Part of [[Watchlist]]"));
    assert!(result.contains("New body content."));
    // Body sits immediately after the closing `---\n`.
    assert!(result.ends_with("---\nNew body content.\n"));
    match change {
        ChangeDescription::SetBody { new_len, .. } => assert_eq!(new_len, 18),
        other => panic!("expected SetBody, got {:?}", other),
    }
}

#[test]
fn set_body_writes_verbatim_no_trailing_newline_added() {
    // Caller controls the trailing-newline behaviour. If they pass a
    // body without `\n`, the file ends without one.
    let (result, _) = set_body(MOVIE_FILE, "no newline").unwrap();
    assert!(result.ends_with("---\nno newline"));
}

#[test]
fn set_body_on_frontmatter_only_file() {
    // File with frontmatter and empty body — set_body fills it in.
    let fm_only = "---\nstatus: x\n---\n";
    let (result, _) = set_body(fm_only, "Hello.\n").unwrap();
    assert_eq!(result, "---\nstatus: x\n---\nHello.\n");
}

#[test]
fn set_body_on_bare_file_synthesizes_frontmatter() {
    // No frontmatter delimiters at all — split_frontmatter synthesizes
    // empty frontmatter and treats the original content as body.
    // set_body then replaces that body.
    let bare = "Just a bare note.\n";
    let (result, change) = set_body(bare, "Replaced.\n").unwrap();
    assert!(result.starts_with("---\n---\n"));
    assert!(result.ends_with("Replaced.\n"));
    assert!(!result.contains("Just a bare note"));
    match change {
        ChangeDescription::SetBody { old_len, new_len } => {
            assert_eq!(old_len, bare.len());
            assert_eq!(new_len, "Replaced.\n".len());
        }
        other => panic!("expected SetBody, got {:?}", other),
    }
}

#[test]
fn clear_body_keeps_frontmatter_and_drops_body() {
    let (result, change) = clear_body(MOVIE_FILE).unwrap();
    assert!(result.contains("director: Sam Mendes"));
    assert!(!result.contains("Part of [[Watchlist]]"));
    // Body region is empty: ends with the closing `---\n`.
    assert!(result.ends_with("---\n"));
    match change {
        ChangeDescription::ClearBody { old_len } => assert!(old_len > 0),
        other => panic!("expected ClearBody, got {:?}", other),
    }
}

#[test]
fn append_body_on_existing_body_uses_separator() {
    // MOVIE_FILE body is "\nPart of [[Watchlist]]\n" — note the leading
    // blank line is part of the body. Appending "next" with "\n"
    // separator strips the trailing newline from the existing body,
    // then joins.
    let (result, change) = append_body(MOVIE_FILE, "Next line.", "\n").unwrap();
    assert!(result.contains("Part of [[Watchlist]]"));
    assert!(result.ends_with("Part of [[Watchlist]]\nNext line."));
    match change {
        ChangeDescription::AppendBody { added_len } => assert_eq!(added_len, 10),
        other => panic!("expected AppendBody, got {:?}", other),
    }
}

#[test]
fn append_body_with_custom_separator() {
    // Pass a blank-line separator. Result should have one blank line
    // between old and new content.
    let fm_with_body = "---\nstatus: x\n---\nFirst.\n";
    let (result, _) = append_body(fm_with_body, "Second.", "\n\n").unwrap();
    assert!(result.ends_with("First.\n\nSecond."));
}

#[test]
fn append_body_on_empty_body_skips_separator() {
    // Empty body → no separator added; appended text becomes the body.
    let fm_only = "---\nstatus: x\n---\n";
    let (result, _) = append_body(fm_only, "First line.", "\n").unwrap();
    assert_eq!(result, "---\nstatus: x\n---\nFirst line.");
}

#[test]
fn append_body_idempotent_against_trailing_newlines() {
    // Repeatedly appending with "\n" separator should not accumulate
    // blank lines, even if each append leaves a trailing newline.
    let start = "---\n---\n";
    let (r1, _) = append_body(start, "a\n", "\n").unwrap();
    let (r2, _) = append_body(&r1, "b\n", "\n").unwrap();
    let (r3, _) = append_body(&r2, "c\n", "\n").unwrap();
    assert_eq!(r3, "---\n---\na\nb\nc\n");
}

#[test]
fn append_body_on_bare_file_appends_after_original() {
    // Bare file — synthesized fm, body is the original content.
    // Append adds to the end of that content.
    let bare = "Existing.\n";
    let (result, _) = append_body(bare, "More.", "\n").unwrap();
    assert!(result.starts_with("---\n---\n"));
    assert!(result.ends_with("Existing.\nMore."));
}

#[test]
fn set_field_still_quotes_raw_values() {
    // Raw strings with special characters are quoted exactly once.
    let content = "---\nurl:\n---\n";
    let (out, _) = set_field(content, "url", "https://www.example.com").unwrap();
    assert!(
        out.contains("url: 'https://www.example.com'"),
        "got:\n{}",
        out
    );
    // No double-quoted wrapping.
    assert!(!out.contains("url: \"'"), "got:\n{}", out);
}
