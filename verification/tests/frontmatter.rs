//! The frontmatter of a note.

use vaultdb::frontmatter::{extract_frontmatter, parse_frontmatter};
use vaultdb::record::Value;

fn get<'a>(fields: &'a [(String, Value)], key: &str) -> Option<&'a Value> {
    fields.iter().find(|(k, _)| k == key).map(|(_, v)| v)
}

#[test]
fn extract_simple_frontmatter() {
    let content = "---\ntitle: hello\n---\nBody text here.\n";
    let (fm, body_start) = extract_frontmatter(content).unwrap();
    assert_eq!(fm, "title: hello");
    assert_eq!(&content[body_start..], "Body text here.\n");
}

#[test]
fn extract_no_frontmatter() {
    let content = "# Just a heading\n\nSome body.\n";
    assert!(extract_frontmatter(content).is_none());
}

#[test]
fn extract_empty_frontmatter() {
    let content = "---\n---\nBody.\n";
    let (fm, _) = extract_frontmatter(content).unwrap();
    assert_eq!(fm, "");
}

#[test]
fn extract_task_file_no_frontmatter() {
    let content = "## Today's Tasks\n- [ ] Study OS\n";
    assert!(extract_frontmatter(content).is_none());
}

#[test]
fn parse_movie_frontmatter() {
    let yaml = r#"aliases:
tags:
  - type/leaf
  - topic/movies
  - source/video
  - genre/drama
  - genre/war
  - director/sam-mendes
status: to-watch
rating:
director: Sam Mendes
year: 2019
related-to:
"#;
    let fields = parse_frontmatter(yaml).unwrap();

    assert_eq!(
        get(&fields, "status"),
        Some(&Value::String("to-watch".into()))
    );
    assert_eq!(get(&fields, "rating"), Some(&Value::Null));
    assert_eq!(
        get(&fields, "director"),
        Some(&Value::String("Sam Mendes".into()))
    );
    assert_eq!(get(&fields, "year"), Some(&Value::Integer(2019)));

    // Tags should be a list
    match get(&fields, "tags") {
        Some(Value::List(tags)) => {
            assert_eq!(tags.len(), 6);
            assert_eq!(tags[0], Value::String("type/leaf".into()));
            assert_eq!(tags[3], Value::String("genre/drama".into()));
        }
        other => panic!("expected List for tags, got {:?}", other),
    }
}

#[test]
fn parse_chinese_vocab_frontmatter() {
    let yaml = r#"aliases:
- kuài
tags:
- type/concept
- topic/chinese
- source/self-study
pinyin: kuài
anlam: hızlı
tür: sifat
hsk: 1
kaliplar:
- kalip: 快乐
  pinyin: kuàilè
  anlam: mutlu, neşeli
- kalip: 快要
  pinyin: kuàiyào
  anlam: yakında, az kaldı
ornekler:
- cumle: 他跑得很快。
  pinyin: Tā pǎo de hěn kuài.
  anlam: O çok hızlı koşuyor.
related-to:
"#;
    let fields = parse_frontmatter(yaml).unwrap();

    assert_eq!(
        get(&fields, "pinyin"),
        Some(&Value::String("kuài".into()))
    );
    assert_eq!(
        get(&fields, "anlam"),
        Some(&Value::String("hızlı".into()))
    );
    assert_eq!(get(&fields, "hsk"), Some(&Value::Integer(1)));

    // kaliplar should be a list of maps
    match get(&fields, "kaliplar") {
        Some(Value::List(items)) => {
            assert_eq!(items.len(), 2);
            match &items[0] {
                Value::Mapping(m) => {
                    assert_eq!(get(m, "kalip"), Some(&Value::String("快乐".into())));
                    assert_eq!(get(m, "pinyin"), Some(&Value::String("kuàilè".into())));
                }
                other => panic!("expected Map in kaliplar, got {:?}", other),
            }
        }
        other => panic!("expected List for kaliplar, got {:?}", other),
    }
}

#[test]
fn parse_wiki_links_in_frontmatter() {
    let yaml = r#"aliases:
tags:
  - type/leaf
related-to:
  - "[[2FA Setup - Yubi]]"
  - "[[Watchlist]]"
"#;
    let fields = parse_frontmatter(yaml).unwrap();

    match get(&fields, "related-to") {
        Some(Value::List(items)) => {
            assert_eq!(items.len(), 2);
            assert_eq!(items[0], Value::String("[[2FA Setup - Yubi]]".into()));
        }
        other => panic!("expected List for related-to, got {:?}", other),
    }
}

#[test]
fn parse_null_aliases_and_related_to() {
    let yaml = "aliases:\ntags:\n  - type/concept\nrelated-to:\n";
    let fields = parse_frontmatter(yaml).unwrap();
    assert_eq!(get(&fields, "aliases"), Some(&Value::Null));
    assert_eq!(get(&fields, "related-to"), Some(&Value::Null));
}

#[test]
fn parse_empty_frontmatter_string() {
    let fields = parse_frontmatter("").unwrap();
    assert!(fields.is_empty());
}

#[test]
fn parse_only_whitespace_frontmatter() {
    let fields = parse_frontmatter("   \n  \n").unwrap();
    assert!(fields.is_empty());
}

#[test]
fn roundtrip_full_file_extraction() {
    let content = "---\naliases:\ntags:\n- type/concept\n- topic/chinese\npinyin: kuài\n---\n\n# 快 (kuài)\n\nBody text.\n";
    let (fm, body_start) = extract_frontmatter(content).unwrap();
    let fields = parse_frontmatter(&fm).unwrap();

    assert_eq!(
        get(&fields, "pinyin"),
        Some(&Value::String("kuài".into()))
    );
    assert!(content[body_start..].contains("Body text."));
}
