use vstd::prelude::*;
use crate::error::ExportError;
use crate::json::{Json, parsed_json, parse_json};
use crate::outline::{OutlineEntry, entries_view, outline_of, decode_outline};
use crate::annotations::{
    ChapterRef, Bookmark, BestBookmark, MarkView, chapters_of, marks_of, bests_of, decode_chapters,
    decode_bookmarks, decode_best_bookmarks,
};
use crate::group::{
    bookmark_group, best_group, bookmark_texts, best_texts, ascending, sort_by_start, chapter_marks,
    lemma_sort_by_start_ascending,
};
use crate::render::{
    document, sections, join, text_result, groups_view, chapters_view, texts_view, render_document,
    lemma_sections_nonempty,
};

verus! {

/// The personal-highlight groups of the listed chapters, one per chapter.
pub open spec fn bookmark_groups(chs: Seq<(Seq<char>, Seq<char>)>, ms: Seq<MarkView>) -> Seq<Seq<Seq<char>>> {
    chs.map_values(|c: (Seq<char>, Seq<char>)| bookmark_group(ms, c.0))
}

/// The crowd-highlight groups of the listed chapters, one per chapter.
pub open spec fn best_groups(chs: Seq<(Seq<char>, Seq<char>)>, bs: Seq<(Seq<char>, Seq<char>)>) -> Seq<Seq<Seq<char>>> {
    chs.map_values(|c: (Seq<char>, Seq<char>)| best_group(bs, c.0))
}

/// The export of a bookmark list response, given the book's chapter-info response.
pub open spec fn bookmarks_document(doc: Json, outline_doc: Json) -> Result<Seq<char>, ExportError> {
    match (chapters_of(doc), marks_of(doc), outline_of(outline_doc)) {
        (Some(chs), Some(ms), Some(o)) => document(chs, bookmark_groups(chs, ms), o),
        _ => Err(ExportError::MissingField),
    }
}

/// The export of a best-bookmark response, given the book's chapter-info response.
pub open spec fn best_bookmarks_document(doc: Json, outline_doc: Json) -> Result<Seq<char>, ExportError> {
    match (chapters_of(doc), bests_of(doc), outline_of(outline_doc)) {
        (Some(chs), Some(bs), Some(o)) => document(chs, best_groups(chs, bs), o),
        _ => Err(ExportError::MissingField),
    }
}

/// The export of a bookmark list body, given the chapter-info body: a body
/// that is not JSON fails with `Decode`, the annotation body being read first.
pub open spec fn bookmarks_export(body: Seq<char>, outline_body: Seq<char>) -> Result<Seq<char>, ExportError> {
    match parsed_json(body) {
        None => Err(ExportError::Decode),
        Some(doc) => if chapters_of(doc) is None || marks_of(doc) is None {
            Err(ExportError::MissingField)
        } else {
            match parsed_json(outline_body) {
                None => Err(ExportError::Decode),
                Some(o) => bookmarks_document(doc, o),
            }
        },
    }
}

/// The export of a best-bookmark body, given the chapter-info body.
pub open spec fn best_bookmarks_export(body: Seq<char>, outline_body: Seq<char>) -> Result<Seq<char>, ExportError> {
    match parsed_json(body) {
        None => Err(ExportError::Decode),
        Some(doc) => if chapters_of(doc) is None || bests_of(doc) is None {
            Err(ExportError::MissingField)
        } else {
            match parsed_json(outline_body) {
                None => Err(ExportError::Decode),
                Some(o) => best_bookmarks_document(doc, o),
            }
        },
    }
}

fn render_bookmark_parts(
    chapters: &Vec<ChapterRef>,
    marks: &Vec<Bookmark>,
    outline: &Vec<OutlineEntry>,
) -> (r: Result<String, ExportError>)
    ensures
        text_result(r) == document(
            chapters_view(chapters@),
            bookmark_groups(chapters_view(chapters@), marks@.map_values(|m: Bookmark| m@)),
            entries_view(outline@),
        ),
{
    let ghost ms = marks@.map_values(|m: Bookmark| m@);
    let ghost cv = chapters_view(chapters@);
    let mut groups: Vec<Vec<String>> = Vec::new();
    let mut i: usize = 0;
    while i < chapters.len()
        invariant
            0 <= i <= chapters@.len(),
            groups@.len() == i,
            ms == marks@.map_values(|m: Bookmark| m@),
            cv == chapters_view(chapters@),
            groups_view(groups@) == bookmark_groups(cv, ms).take(i as int),
        decreases chapters@.len() - i,
    {
        let g = bookmark_texts(marks, chapters[i].uid.as_str());
        let ghost prev = groups@;
        groups.push(g);
        assert(groups_view(groups@) =~= groups_view(prev).push(texts_view(g@)));
        assert(bookmark_groups(cv, ms).take(i + 1) =~= bookmark_groups(cv, ms).take(i as int).push(
            bookmark_group(ms, cv[i as int].0),
        ));
        i = i + 1;
    }
    assert(bookmark_groups(cv, ms).take(i as int) =~= bookmark_groups(cv, ms));
    render_document(chapters, &groups, outline)
}

fn render_best_parts(
    chapters: &Vec<ChapterRef>,
    items: &Vec<BestBookmark>,
    outline: &Vec<OutlineEntry>,
) -> (r: Result<String, ExportError>)
    ensures
        text_result(r) == document(
            chapters_view(chapters@),
            best_groups(chapters_view(chapters@), items@.map_values(|b: BestBookmark| b@)),
            entries_view(outline@),
        ),
{
    let ghost bs = items@.map_values(|b: BestBookmark| b@);
    let ghost cv = chapters_view(chapters@);
    let mut groups: Vec<Vec<String>> = Vec::new();
    let mut i: usize = 0;
    while i < chapters.len()
        invariant
            0 <= i <= chapters@.len(),
            groups@.len() == i,
            bs == items@.map_values(|b: BestBookmark| b@),
            cv == chapters_view(chapters@),
            groups_view(groups@) == best_groups(cv, bs).take(i as int),
        decreases chapters@.len() - i,
    {
        let g = best_texts(items, chapters[i].uid.as_str());
        let ghost prev = groups@;
        groups.push(g);
        assert(groups_view(groups@) =~= groups_view(prev).push(texts_view(g@)));
        assert(best_groups(cv, bs).take(i + 1) =~= best_groups(cv, bs).take(i as int).push(
            best_group(bs, cv[i as int].0),
        ));
        i = i + 1;
    }
    assert(best_groups(cv, bs).take(i as int) =~= best_groups(cv, bs));
    render_document(chapters, &groups, outline)
}

/// Renders a bookmark list response as text: one heading per listed chapter
/// identifier, at the outline level of its title, then the chapter's
/// highlights in ascending order of start offset. A listed chapter without
/// highlights, or whose title has no outline level, fails with `Key`.
pub fn render_bookmarks(doc: &Json, outline_doc: &Json) -> (r: Result<String, ExportError>)
    ensures
        text_result(r) == bookmarks_document(*doc, *outline_doc),
{
    let chapters = match decode_chapters(doc) {
        Ok(c) => c,
        Err(e) => return Err(e),
    };
    let marks = match decode_bookmarks(doc) {
        Ok(m) => m,
        Err(e) => return Err(e),
    };
    let outline = match decode_outline(outline_doc) {
        Ok(o) => o,
        Err(e) => return Err(e),
    };
    render_bookmark_parts(&chapters, &marks, &outline)
}

/// Renders a best-bookmark response as text: as `render_bookmarks`, with
/// each chapter's highlights in the order the response lists them.
pub fn render_best_bookmarks(doc: &Json, outline_doc: &Json) -> (r: Result<String, ExportError>)
    ensures
        text_result(r) == best_bookmarks_document(*doc, *outline_doc),
{
    let chapters = match decode_chapters(doc) {
        Ok(c) => c,
        Err(e) => return Err(e),
    };
    let items = match decode_best_bookmarks(doc) {
        Ok(b) => b,
        Err(e) => return Err(e),
    };
    let outline = match decode_outline(outline_doc) {
        Ok(o) => o,
        Err(e) => return Err(e),
    };
    render_best_parts(&chapters, &items, &outline)
}

/// Exports a book's personal highlights from the bodies of its bookmark list
/// and chapter-info responses.
pub fn export_bookmarks(body: &str, outline_body: &str) -> (r: Result<String, ExportError>)
    ensures
        text_result(r) == bookmarks_export(body@, outline_body@),
{
    let doc = match parse_json(body) {
        Some(d) => d,
        None => return Err(ExportError::Decode),
    };
    let chapters = match decode_chapters(&doc) {
        Ok(c) => c,
        Err(e) => return Err(e),
    };
    let marks = match decode_bookmarks(&doc) {
        Ok(m) => m,
        Err(e) => return Err(e),
    };
    let outline_doc = match parse_json(outline_body) {
        Some(d) => d,
        None => return Err(ExportError::Decode),
    };
    let outline = match decode_outline(&outline_doc) {
        Ok(o) => o,
        Err(e) => return Err(e),
    };
    render_bookmark_parts(&chapters, &marks, &outline)
}

/// Exports a book's crowd highlights from the bodies of its best-bookmark
/// and chapter-info responses.
pub fn export_best_bookmarks(body: &str, outline_body: &str) -> (r: Result<String, ExportError>)
    ensures
        text_result(r) == best_bookmarks_export(body@, outline_body@),
{
    let doc = match parse_json(body) {
        Some(d) => d,
        None => return Err(ExportError::Decode),
    };
    let chapters = match decode_chapters(&doc) {
        Ok(c) => c,
        Err(e) => return Err(e),
    };
    let items = match decode_best_bookmarks(&doc) {
        Ok(b) => b,
        Err(e) => return Err(e),
    };
    let outline_doc = match parse_json(outline_body) {
        Some(d) => d,
        None => return Err(ExportError::Decode),
    };
    let outline = match decode_outline(&outline_doc) {
        Ok(o) => o,
        Err(e) => return Err(e),
    };
    render_best_parts(&chapters, &items, &outline)
}

/// A successful bookmark export is the text of its sections, one heading and
/// its quote blocks after another; in it every chapter that is shown has at
/// least one highlight, the texts under it are that chapter's highlights,
/// they stand in ascending order of start offset, and no chapter identifier
/// is shown twice.
pub proof fn lemma_bookmark_export_shape(
    chapters: Seq<(Seq<char>, Seq<char>)>,
    marks: Seq<MarkView>,
    outline: Seq<(Seq<char>, u64)>,
)
    requires
        sections(chapters, bookmark_groups(chapters, marks), outline) is Ok,
    ensures
        forall|k: int| 0 <= k < sections(chapters, bookmark_groups(chapters, marks), outline)->Ok_0.len() ==> {
            let s = #[trigger] sections(chapters, bookmark_groups(chapters, marks), outline)->Ok_0[k];
            &&& s.texts.len() > 0
            &&& s.texts == bookmark_group(marks, s.uid)
            &&& ascending(sort_by_start(chapter_marks(marks, s.uid)))
        },
        forall|k1: int, k2: int|
            0 <= k1 < k2 < sections(chapters, bookmark_groups(chapters, marks), outline)->Ok_0.len() ==> (
            #[trigger] sections(chapters, bookmark_groups(chapters, marks), outline)->Ok_0[k1]).uid != (
            #[trigger] sections(chapters, bookmark_groups(chapters, marks), outline)->Ok_0[k2]).uid,
        document(chapters, bookmark_groups(chapters, marks), outline) == Ok::<Seq<char>, ExportError>(
            join(sections(chapters, bookmark_groups(chapters, marks), outline)->Ok_0),
        ),
{
    let groups = bookmark_groups(chapters, marks);
    lemma_sections_nonempty(chapters, groups, outline);
    let secs = sections(chapters, groups, outline)->Ok_0;
    assert forall|k: int| 0 <= k < secs.len() implies {
        let s = #[trigger] secs[k];
        &&& s.texts.len() > 0
        &&& s.texts == bookmark_group(marks, s.uid)
        &&& ascending(sort_by_start(chapter_marks(marks, s.uid)))
    } by {
        let s = secs[k];
        let i = choose|i: int| 0 <= i < chapters.len() && chapters[i].0 == s.uid && groups[i] == s.texts;
        lemma_sort_by_start_ascending(chapter_marks(marks, s.uid));
    }
}

/// Exporting twice from the same response bodies gives the same text, or
/// the same error: the result depends on the bodies alone.
pub proof fn lemma_export_repeatable(body: Seq<char>, outline_body: Seq<char>, body2: Seq<char>, outline_body2: Seq<char>)
    requires
        body == body2,
        outline_body == outline_body2,
    ensures
        bookmarks_export(body, outline_body) == bookmarks_export(body2, outline_body2),
        best_bookmarks_export(body, outline_body) == best_bookmarks_export(body2, outline_body2),
{
}

} // verus!
