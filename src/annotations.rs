use vstd::prelude::*;
use crate::error::ExportError;
use crate::json::{Json, str_field, array_field, get_str, get_array};
use crate::text::{text_eq, range_start, parse_range_start};

verus! {

/// Decodes each element with `f`; `None` as soon as one element fails.
pub open spec fn decode_each<T>(items: Seq<Json>, f: spec_fn(Json) -> Option<T>) -> Option<Seq<T>>
    decreases items.len(),
{
    if items.len() == 0 {
        Some(Seq::empty())
    } else {
        match (decode_each(items.drop_last(), f), f(items.last())) {
            (Some(s), Some(x)) => Some(s.push(x)),
            _ => None,
        }
    }
}

proof fn lemma_decode_each_fails<T>(items: Seq<Json>, f: spec_fn(Json) -> Option<T>, i: int)
    requires
        0 <= i < items.len(),
        f(items[i]) is None,
    ensures
        decode_each(items, f) is None,
    decreases items.len(),
{
    if i < items.len() - 1 {
        lemma_decode_each_fails(items.drop_last(), f, i);
    }
}

proof fn lemma_decode_each_step<T>(items: Seq<Json>, f: spec_fn(Json) -> Option<T>, i: int)
    requires
        0 <= i < items.len(),
    ensures
        decode_each(items.take(i + 1), f) == match (decode_each(items.take(i), f), f(items[i])) {
            (Some(s), Some(x)) => Some(s.push(x)),
            _ => None,
        },
{
    assert(items.take(i + 1).drop_last() == items.take(i));
}

/// A chapter of the book as an annotation response lists it: the identifier
/// that annotations carry and the title that the outline is keyed by.
pub struct ChapterRef {
    pub uid: String,
    pub title: String,
}

impl View for ChapterRef {
    type V = (Seq<char>, Seq<char>);

    open spec fn view(&self) -> (Seq<char>, Seq<char>) {
        (self.uid@, self.title@)
    }
}

/// A personal highlight: its chapter, its text, when it was made where the
/// response says so, and the offset at which it starts in the chapter.
pub struct Bookmark {
    pub chapter_uid: String,
    pub text: String,
    pub create_time: Option<String>,
    pub start: i32,
}

/// What a personal highlight holds, as plain values.
pub struct MarkView {
    pub uid: Seq<char>,
    pub text: Seq<char>,
    pub created: Option<Seq<char>>,
    pub start: i32,
}

impl View for Bookmark {
    type V = MarkView;

    open spec fn view(&self) -> MarkView {
        MarkView {
            uid: self.chapter_uid@,
            text: self.text@,
            created: match self.create_time {
                Some(t) => Some(t@),
                None => None,
            },
            start: self.start,
        }
    }
}

/// A highlight that many readers made; it carries no position.
pub struct BestBookmark {
    pub chapter_uid: String,
    pub text: String,
}

impl View for BestBookmark {
    type V = (Seq<char>, Seq<char>);

    open spec fn view(&self) -> (Seq<char>, Seq<char>) {
        (self.chapter_uid@, self.text@)
    }
}

/// An entry of the `chapters` array: `chapterUid` and `title`, both texts.
pub open spec fn chapter_of(c: Json) -> Option<(Seq<char>, Seq<char>)> {
    match (str_field(c, "chapterUid"@), str_field(c, "title"@)) {
        (Some(u), Some(t)) => Some((u, t)),
        _ => None,
    }
}

/// An entry of a bookmark list's `updated` array: `chapterUid`, `markText`
/// and a `range` whose start is an integer; `createTime` is kept where it is
/// a text.
pub open spec fn mark_of(item: Json) -> Option<MarkView> {
    match (str_field(item, "chapterUid"@), str_field(item, "markText"@), str_field(item, "range"@)) {
        (Some(u), Some(t), Some(r)) => match range_start(r) {
            Some(s) => Some(MarkView { uid: u, text: t, created: str_field(item, "createTime"@), start: s }),
            None => None,
        },
        _ => None,
    }
}

/// An entry of a best-bookmark list's `items` array: `chapterUid` and `markText`.
pub open spec fn best_of(item: Json) -> Option<(Seq<char>, Seq<char>)> {
    match (str_field(item, "chapterUid"@), str_field(item, "markText"@)) {
        (Some(u), Some(t)) => Some((u, t)),
        _ => None,
    }
}

/// The chapters that an annotation response lists, in order.
pub open spec fn chapters_of(doc: Json) -> Option<Seq<(Seq<char>, Seq<char>)>> {
    match array_field(doc, "chapters"@) {
        Some(cs) => decode_each(cs, |c: Json| chapter_of(c)),
        None => None,
    }
}

/// The personal highlights of a bookmark list response, in order.
pub open spec fn marks_of(doc: Json) -> Option<Seq<MarkView>> {
    match array_field(doc, "updated"@) {
        Some(us) => decode_each(us, |u: Json| mark_of(u)),
        None => None,
    }
}

/// The crowd highlights of a best-bookmark response, in order.
pub open spec fn bests_of(doc: Json) -> Option<Seq<(Seq<char>, Seq<char>)>> {
    match array_field(doc, "items"@) {
        Some(xs) => decode_each(xs, |x: Json| best_of(x)),
        None => None,
    }
}

/// Decodes the `chapters` array of an annotation response.
pub fn decode_chapters(doc: &Json) -> (r: Result<Vec<ChapterRef>, ExportError>)
    ensures
        match chapters_of(*doc) {
            Some(s) => r is Ok && r->Ok_0@.map_values(|c: ChapterRef| c@) == s,
            None => r == Err::<Vec<ChapterRef>, ExportError>(ExportError::MissingField),
        },
{
    let ghost f = |c: Json| chapter_of(c);
    let cs = match get_array(doc, "chapters") {
        Some(a) => a,
        None => return Err(ExportError::MissingField),
    };
    let mut out: Vec<ChapterRef> = Vec::new();
    let mut i: usize = 0;
    assert(cs@.take(0) == Seq::<Json>::empty());
    assert(out@.map_values(|c: ChapterRef| c@) == Seq::<(Seq<char>, Seq<char>)>::empty());
    while i < cs.len()
        invariant
            0 <= i <= cs@.len(),
            f == (|c: Json| chapter_of(c)),
            array_field(*doc, "chapters"@) == Some(cs@),
            decode_each(cs@.take(i as int), f) is Some,
            out@.map_values(|c: ChapterRef| c@) == decode_each(cs@.take(i as int), f)->Some_0,
        decreases cs@.len() - i,
    {
        proof {
            lemma_decode_each_step(cs@, f, i as int);
        }
        let c = &cs[i];
        match (get_str(c, "chapterUid"), get_str(c, "title")) {
            (Some(u), Some(t)) => {
                let e = ChapterRef { uid: u.clone(), title: t.clone() };
                let ghost before = out@;
                out.push(e);
                assert(out@.map_values(|c: ChapterRef| c@) == before.map_values(|c: ChapterRef| c@).push(e@));
            },
            _ => {
                proof {
                    lemma_decode_each_fails(cs@, f, i as int);
                }
                return Err(ExportError::MissingField);
            },
        }
        i = i + 1;
    }
    assert(cs@.take(i as int) == cs@);
    Ok(out)
}

/// Decodes the `updated` array of a bookmark list response.
pub fn decode_bookmarks(doc: &Json) -> (r: Result<Vec<Bookmark>, ExportError>)
    ensures
        match marks_of(*doc) {
            Some(s) => r is Ok && r->Ok_0@.map_values(|m: Bookmark| m@) == s,
            None => r == Err::<Vec<Bookmark>, ExportError>(ExportError::MissingField),
        },
{
    let ghost f = |u: Json| mark_of(u);
    let us = match get_array(doc, "updated") {
        Some(a) => a,
        None => return Err(ExportError::MissingField),
    };
    let mut out: Vec<Bookmark> = Vec::new();
    let mut i: usize = 0;
    assert(us@.take(0) == Seq::<Json>::empty());
    assert(out@.map_values(|m: Bookmark| m@) == Seq::<MarkView>::empty());
    while i < us.len()
        invariant
            0 <= i <= us@.len(),
            f == (|u: Json| mark_of(u)),
            array_field(*doc, "updated"@) == Some(us@),
            decode_each(us@.take(i as int), f) is Some,
            out@.map_values(|m: Bookmark| m@) == decode_each(us@.take(i as int), f)->Some_0,
        decreases us@.len() - i,
    {
        proof {
            lemma_decode_each_step(us@, f, i as int);
        }
        let u = &us[i];
        let start = match get_str(u, "range") {
            Some(r) => parse_range_start(r.as_str()),
            None => None,
        };
        match (get_str(u, "chapterUid"), get_str(u, "markText"), start) {
            (Some(c), Some(t), Some(s)) => {
                let create_time = match get_str(u, "createTime") {
                    Some(ct) => Some(ct.clone()),
                    None => None,
                };
                let e = Bookmark { chapter_uid: c.clone(), text: t.clone(), create_time, start: s };
                let ghost before = out@;
                out.push(e);
                assert(out@.map_values(|m: Bookmark| m@) == before.map_values(|m: Bookmark| m@).push(e@));
            },
            _ => {
                proof {
                    lemma_decode_each_fails(us@, f, i as int);
                }
                return Err(ExportError::MissingField);
            },
        }
        i = i + 1;
    }
    assert(us@.take(i as int) == us@);
    Ok(out)
}

/// Decodes the `items` array of a best-bookmark response.
pub fn decode_best_bookmarks(doc: &Json) -> (r: Result<Vec<BestBookmark>, ExportError>)
    ensures
        match bests_of(*doc) {
            Some(s) => r is Ok && r->Ok_0@.map_values(|b: BestBookmark| b@) == s,
            None => r == Err::<Vec<BestBookmark>, ExportError>(ExportError::MissingField),
        },
{
    let ghost f = |x: Json| best_of(x);
    let xs = match get_array(doc, "items") {
        Some(a) => a,
        None => return Err(ExportError::MissingField),
    };
    let mut out: Vec<BestBookmark> = Vec::new();
    let mut i: usize = 0;
    assert(xs@.take(0) == Seq::<Json>::empty());
    assert(out@.map_values(|b: BestBookmark| b@) == Seq::<(Seq<char>, Seq<char>)>::empty());
    while i < xs.len()
        invariant
            0 <= i <= xs@.len(),
            f == (|x: Json| best_of(x)),
            array_field(*doc, "items"@) == Some(xs@),
            decode_each(xs@.take(i as int), f) is Some,
            out@.map_values(|b: BestBookmark| b@) == decode_each(xs@.take(i as int), f)->Some_0,
        decreases xs@.len() - i,
    {
        proof {
            lemma_decode_each_step(xs@, f, i as int);
        }
        let x = &xs[i];
        match (get_str(x, "chapterUid"), get_str(x, "markText")) {
            (Some(c), Some(t)) => {
                let e = BestBookmark { chapter_uid: c.clone(), text: t.clone() };
                let ghost before = out@;
                out.push(e);
                assert(out@.map_values(|b: BestBookmark| b@) == before.map_values(|b: BestBookmark| b@).push(e@));
            },
            _ => {
                proof {
                    lemma_decode_each_fails(xs@, f, i as int);
                }
                return Err(ExportError::MissingField);
            },
        }
        i = i + 1;
    }
    assert(xs@.take(i as int) == xs@);
    Ok(out)
}

} // verus!
