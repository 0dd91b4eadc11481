use wereader::error::ExportError;
use wereader::shelf::{list_notebooks, list_shelf};

#[test]
fn shelf_skips_non_numeric_ids_and_keeps_duplicates() {
    let body = r#"{
        "finishReadBooks":[
            {"bookId":"MP_WXS_123","title":"Listing","author":"x","cover":"c0"},
            {"bookId":"42","title":"Zeta","author":"Ann","cover":"c1"}
        ],
        "recentBooks":[
            {"bookId":"42","title":"Zeta","author":"Ann","cover":"c1"},
            {"title":"No id"},
            {"bookId":"7","title":"Alpha","author":"Bo","cover":"c2"}
        ]}"#;
    let books = list_shelf(body).ok().unwrap();
    assert_eq!(books.len(), 3);
    assert_eq!(books[0].title, "Alpha");
    assert_eq!(books[0].book_id, "7");
    assert_eq!(books[1].book_id, "42");
    assert_eq!(books[2].book_id, "42");
    assert!(books.iter().all(|b| b.book_id != "MP_WXS_123"));
}

#[test]
fn shelf_book_without_title_is_missing_field() {
    let body = r#"{"finishReadBooks":[{"bookId":"1","author":"a","cover":"c"}],"recentBooks":[]}"#;
    assert!(matches!(list_shelf(body), Err(ExportError::MissingField)));
}

#[test]
fn notebooks_sorted_by_title() {
    let body = r#"{"books":[
        {"book":{"bookId":"3","title":"b","author":"x","cover":"u"}},
        {"book":{"bookId":"1","title":"B","author":"y","cover":"v"}},
        {"book":{"bookId":"2","title":"a","author":"z","cover":"w"}}
    ]}"#;
    let books = list_notebooks(body).ok().unwrap();
    let titles: Vec<&str> = books.iter().map(|b| b.title.as_str()).collect();
    assert_eq!(titles, vec!["B", "a", "b"]);
    assert_eq!(books[0].author, "y");
    assert_eq!(books[0].cover, "v");
}

#[test]
fn notebook_listing_errors() {
    assert!(matches!(list_notebooks("[1,"), Err(ExportError::Decode)));
    assert!(matches!(list_notebooks(r#"{"books":[{"other":1}]}"#), Err(ExportError::MissingField)));
}
