use wereader::error::ExportError;
use wereader::export::{export_best_bookmarks, export_bookmarks, render_bookmarks};
use wereader::json::{decode_document, Json};
use wereader::outline::{decode_outline, find_level};

const OUTLINE: &str = r#"{"data":[{"updated":[
    {"title":"Intro","level":1},
    {"title":"Body","anchors":[{"title":"Body.1","level":2}]},
    {"title":"End"}
]}]}"#;

#[test]
fn outline_mixed_shapes() {
    let doc = decode_document(
        r#"{"data":[{"updated":[{"title":"Intro","level":1},{"title":"Body","anchors":[{"title":"Body.1","level":2}]}]}]}"#,
    )
    .unwrap();
    let outline = decode_outline(&doc).ok().unwrap();
    assert_eq!(outline.len(), 3);
    assert_eq!(find_level(&outline, "Intro"), Some(1));
    assert_eq!(find_level(&outline, "Body"), Some(1));
    assert_eq!(find_level(&outline, "Body.1"), Some(2));
    assert_eq!(find_level(&outline, "Other"), None);
}

#[test]
fn outline_flat_entries_default_to_top_level() {
    let doc = decode_document(OUTLINE).ok().unwrap();
    let outline = decode_outline(&doc).ok().unwrap();
    assert_eq!(find_level(&outline, "End"), Some(1));
}

#[test]
fn outline_anchored_titles_last_write_wins() {
    let doc = decode_document(
        r#"{"data":[{"updated":[
            {"title":"A","level":1,"anchors":[{"title":"X","level":2}]},
            {"title":"B","level":3,"anchors":[{"title":"X","level":4},{"title":"Y","level":2}]}
        ]}]}"#,
    )
    .unwrap();
    let outline = decode_outline(&doc).ok().unwrap();
    assert_eq!(outline.len(), 5);
    assert_eq!(find_level(&outline, "A"), Some(1));
    assert_eq!(find_level(&outline, "B"), Some(3));
    assert_eq!(find_level(&outline, "X"), Some(4));
    assert_eq!(find_level(&outline, "Y"), Some(2));
}

#[test]
fn outline_anchor_without_level_is_missing_field() {
    let doc = decode_document(r#"{"data":[{"updated":[{"title":"A","anchors":[{"title":"X"}]}]}]}"#).ok().unwrap();
    assert!(matches!(decode_outline(&doc), Err(ExportError::MissingField)));
}

#[test]
fn bookmark_quote_is_trimmed() {
    let body = r#"{"chapters":[{"chapterUid":"c1","title":"Intro"}],
        "updated":[{"chapterUid":"c1","markText":" Hello ","range":"5-10","createTime":"100"}]}"#;
    let out = export_bookmarks(body, OUTLINE).ok().unwrap();
    assert_eq!(out, "# Intro\n> Hello\n\n\n");
    assert!(out.contains("> Hello\n\n"));
}

#[test]
fn bookmarks_sorted_by_start_within_chapter() {
    let body = r#"{"chapters":[{"chapterUid":"c2","title":"Body.1"},{"chapterUid":"c1","title":"Intro"}],
        "updated":[
            {"chapterUid":"c2","markText":"late","range":"30-40"},
            {"chapterUid":"c1","markText":"one","range":"1-2"},
            {"chapterUid":"c2","markText":"early","range":"3-9"},
            {"chapterUid":"c2","markText":"tie","range":"30-31"}
        ]}"#;
    let out = export_bookmarks(body, OUTLINE).ok().unwrap();
    assert_eq!(out, "## Body.1\n> early\n\n> late\n\n> tie\n\n\n# Intro\n> one\n\n\n");
}

#[test]
fn chapter_without_highlights_is_key_error() {
    let body = r#"{"chapters":[{"chapterUid":"c1","title":"Intro"},{"chapterUid":"c9","title":"End"}],
        "updated":[{"chapterUid":"c1","markText":"a","range":"0-1"}]}"#;
    assert!(matches!(export_bookmarks(body, OUTLINE), Err(ExportError::Key)));
    let best = r#"{"chapters":[{"chapterUid":"c1","title":"Intro"},{"chapterUid":"c9","title":"End"}],
        "items":[{"chapterUid":"c1","markText":"a"}]}"#;
    assert!(matches!(export_best_bookmarks(best, OUTLINE), Err(ExportError::Key)));
}

#[test]
fn missing_title_without_highlights_is_key_error() {
    let body = r#"{"chapters":[{"chapterUid":"c1","title":"Intro"},{"chapterUid":"c9","title":"Nowhere"}],
        "updated":[{"chapterUid":"c1","markText":"a","range":"0-1"}]}"#;
    assert!(matches!(export_bookmarks(body, OUTLINE), Err(ExportError::Key)));
}

#[test]
fn repeated_chapter_id_shown_once() {
    let body = r#"{"chapters":[{"chapterUid":"c1","title":"Intro"},{"chapterUid":"c1","title":"Intro"}],
        "updated":[{"chapterUid":"c1","markText":"a","range":"0-1"}]}"#;
    assert_eq!(export_bookmarks(body, OUTLINE).ok().unwrap(), "# Intro\n> a\n\n\n");
    let best = r#"{"chapters":[{"chapterUid":"c1","title":"Intro"},{"chapterUid":"c1","title":"Intro"}],
        "items":[{"chapterUid":"c1","markText":"a"}]}"#;
    assert_eq!(export_best_bookmarks(best, OUTLINE).ok().unwrap(), "# Intro\n> a\n\n\n");
}

#[test]
fn quote_trims_unicode_white_space() {
    let body = "{\"chapters\":[{\"chapterUid\":\"c1\",\"title\":\"Intro\"}],\"updated\":[{\"chapterUid\":\"c1\",\"markText\":\"\u{3000}\\t x y\u{a0}\",\"range\":\"1-2\"}]}";
    assert_eq!(export_bookmarks(body, OUTLINE).ok().unwrap(), "# Intro\n> x y\n\n\n");
}

#[test]
fn export_twice_gives_same_text() {
    let body = r#"{"chapters":[{"chapterUid":"c1","title":"Body"}],
        "updated":[{"chapterUid":"c1","markText":"b","range":"9-10"},{"chapterUid":"c1","markText":"a","range":"2-3"}]}"#;
    let first = export_bookmarks(body, OUTLINE).ok().unwrap();
    let second = export_bookmarks(body, OUTLINE).ok().unwrap();
    assert_eq!(first, second);
    assert_eq!(first, "# Body\n> a\n\n> b\n\n\n");
}

#[test]
fn title_without_outline_level_is_key_error() {
    let body = r#"{"chapters":[{"chapterUid":"c1","title":"Unknown"}],
        "updated":[{"chapterUid":"c1","markText":"a","range":"0-1"}]}"#;
    assert!(matches!(export_bookmarks(body, OUTLINE), Err(ExportError::Key)));
}

#[test]
fn body_that_is_not_json_is_decode_error() {
    assert!(matches!(export_bookmarks("not json", OUTLINE), Err(ExportError::Decode)));
    let body = r#"{"chapters":[],"updated":[]}"#;
    assert!(matches!(export_bookmarks(body, "{"), Err(ExportError::Decode)));
}

#[test]
fn bookmark_without_range_is_missing_field() {
    let body = r#"{"chapters":[],"updated":[{"chapterUid":"c1","markText":"a"}]}"#;
    assert!(matches!(export_bookmarks(body, OUTLINE), Err(ExportError::MissingField)));
    let bad_range = r#"{"chapters":[],"updated":[{"chapterUid":"c1","markText":"a","range":"x-1"}]}"#;
    assert!(matches!(export_bookmarks(bad_range, OUTLINE), Err(ExportError::MissingField)));
}

#[test]
fn best_bookmarks_keep_response_order() {
    let body = r#"{"chapters":[{"chapterUid":"c1","title":"Intro"},{"chapterUid":"c3","title":"Body.1"}],
        "items":[
            {"chapterUid":"c3","markText":"second "},
            {"chapterUid":"c1","markText":"  first"},
            {"chapterUid":"c3","markText":"third"}
        ]}"#;
    let out = export_best_bookmarks(body, OUTLINE).ok().unwrap();
    assert_eq!(out, "# Intro\n> first\n\n\n## Body.1\n> second\n\n> third\n\n\n");
}

#[test]
fn render_from_parsed_documents() {
    let doc = decode_document(
        r#"{"chapters":[{"chapterUid":"c1","title":"End"}],"updated":[{"chapterUid":"c1","markText":"x","range":"4-5"}]}"#,
    )
    .unwrap();
    let outline = decode_document(OUTLINE).ok().unwrap();
    assert_eq!(render_bookmarks(&doc, &outline).ok().unwrap(), "# End\n> x\n\n\n");
    let empty_start = decode_document(
        r#"{"chapters":[{"chapterUid":"c1","title":"End"}],"updated":[{"chapterUid":"c1","markText":"x","range":"-4-5"}]}"#,
    )
    .unwrap();
    assert!(matches!(render_bookmarks(&empty_start, &outline), Err(ExportError::MissingField)));
}

#[test]
fn json_numbers_keep_unsigned_value() {
    assert!(matches!(decode_document("[1,"), Err(ExportError::Decode)));
    match decode_document(r#"[7, -1, 2.5]"#).ok().unwrap() {
        Json::Array(items) => {
            assert!(matches!(items[0], Json::Number(Some(7))));
            assert!(matches!(items[1], Json::Number(None)));
            assert!(matches!(items[2], Json::Number(None)));
        }
        _ => panic!("expected an array"),
    }
}
