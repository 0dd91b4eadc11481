use vstd::prelude::*;
use crate::error::ExportError;
use crate::text::{trimmed, trim_text, text_eq};
use crate::outline::{OutlineEntry, entries_view, level_of, find_level};
use crate::annotations::ChapterRef;

verus! {

/// `n` heading markers.
pub open spec fn hashes(n: nat) -> Seq<char> {
    Seq::new(n, |i: int| '#')
}

/// A heading line: as many markers as the level, a space, the title.
pub open spec fn heading(level: u64, title: Seq<char>) -> Seq<char> {
    hashes(level as nat) + " "@ + title + "\n"@
}

/// One quote block per text, each trimmed and followed by a blank line.
pub open spec fn quotes(texts: Seq<Seq<char>>) -> Seq<char>
    decreases texts.len(),
{
    if texts.len() == 0 {
        Seq::empty()
    } else {
        quotes(texts.drop_last()) + "> "@ + trimmed(texts.last()) + "\n\n"@
    }
}

/// A chapter's part of the document: heading, quotes, one blank line.
pub open spec fn section_text(level: u64, title: Seq<char>, texts: Seq<Seq<char>>) -> Seq<char> {
    heading(level, title) + quotes(texts) + "\n"@
}

/// A chapter as the document shows it.
pub struct Section {
    pub uid: Seq<char>,
    pub title: Seq<char>,
    pub level: u64,
    pub texts: Seq<Seq<char>>,
}

/// Whether a chapter identifier is among those of a chapter list.
pub open spec fn listed(chapters: Seq<(Seq<char>, Seq<char>)>, uid: Seq<char>) -> bool {
    exists|j: int| 0 <= j < chapters.len() && (#[trigger] chapters[j]).0 == uid
}

/// The sections of a document, one for each chapter identifier, in the
/// order in which identifiers first appear in the chapter list; a later
/// entry with an identifier already listed is passed over. `groups[i]` holds
/// the texts of `chapters[i]`. Each chapter's title is looked up in the
/// outline first: a title without a level fails with `Key`, and so does a
/// chapter without texts.
pub open spec fn sections(
    chapters: Seq<(Seq<char>, Seq<char>)>,
    groups: Seq<Seq<Seq<char>>>,
    outline: Seq<(Seq<char>, u64)>,
) -> Result<Seq<Section>, ExportError>
    decreases chapters.len(),
{
    if chapters.len() == 0 || groups.len() == 0 {
        Ok(Seq::empty())
    } else {
        match sections(chapters.drop_last(), groups.drop_last(), outline) {
            Err(e) => Err(e),
            Ok(prev) => {
                let c = chapters.last();
                let g = groups.last();
                if listed(chapters.drop_last(), c.0) {
                    Ok(prev)
                } else {
                    match level_of(outline, c.1) {
                        None => Err(ExportError::Key),
                        Some(l) => if g.len() == 0 {
                            Err(ExportError::Key)
                        } else {
                            Ok(prev.push(Section { uid: c.0, title: c.1, level: l, texts: g }))
                        },
                    }
                }
            },
        }
    }
}

/// The text of a list of sections.
pub open spec fn join(secs: Seq<Section>) -> Seq<char>
    decreases secs.len(),
{
    if secs.len() == 0 {
        Seq::empty()
    } else {
        join(secs.drop_last()) + section_text(secs.last().level, secs.last().title, secs.last().texts)
    }
}

/// The rendered document, or the error that stops it.
pub open spec fn document(
    chapters: Seq<(Seq<char>, Seq<char>)>,
    groups: Seq<Seq<Seq<char>>>,
    outline: Seq<(Seq<char>, u64)>,
) -> Result<Seq<char>, ExportError> {
    match sections(chapters, groups, outline) {
        Ok(secs) => Ok(join(secs)),
        Err(e) => Err(e),
    }
}

/// What a rendering result holds, as plain values.
pub open spec fn text_result(r: Result<String, ExportError>) -> Result<Seq<char>, ExportError> {
    match r {
        Ok(s) => Ok(s@),
        Err(e) => Err(e),
    }
}

/// The texts that a list of strings holds.
pub open spec fn texts_view(v: Seq<String>) -> Seq<Seq<char>> {
    v.map_values(|s: String| s@)
}

/// The text groups that a list of string lists holds.
pub open spec fn groups_view(g: Seq<Vec<String>>) -> Seq<Seq<Seq<char>>> {
    g.map_values(|v: Vec<String>| texts_view(v@))
}

/// The (identifier, title) pairs that a chapter list holds.
pub open spec fn chapters_view(c: Seq<ChapterRef>) -> Seq<(Seq<char>, Seq<char>)> {
    c.map_values(|x: ChapterRef| x@)
}

fn push_hashes(out: &mut String, n: u64)
    ensures
        final(out)@ == old(out)@ + hashes(n as nat),
{
    let ghost start = out@;
    let mut i: u64 = 0;
    proof {
        reveal_strlit("#");
    }
    assert(hashes(0) == Seq::<char>::empty());
    while i < n
        invariant
            0 <= i <= n,
            out@ == start + hashes(i as nat),
        decreases n - i,
    {
        out.append("#");
        proof {
            reveal_strlit("#");
        }
        assert(hashes((i + 1) as nat) =~= hashes(i as nat) + "#"@);
        i = i + 1;
    }
}

fn push_section(out: &mut String, level: u64, title: &str, texts: &Vec<String>)
    ensures
        final(out)@ == old(out)@ + section_text(level, title@, texts_view(texts@)),
{
    let ghost start = out@;
    push_hashes(out, level);
    out.append(" ");
    out.append(title);
    out.append("\n");
    let ghost head = out@;
    assert(head == start + heading(level, title@));
    let mut i: usize = 0;
    assert(texts_view(texts@).take(0) == Seq::<Seq<char>>::empty());
    while i < texts.len()
        invariant
            0 <= i <= texts@.len(),
            out@ == head + quotes(texts_view(texts@).take(i as int)),
        decreases texts@.len() - i,
    {
        assert(texts_view(texts@).take(i + 1).drop_last() == texts_view(texts@).take(i as int));
        let t = trim_text(texts[i].as_str());
        out.append("> ");
        out.append(t.as_str());
        out.append("\n\n");
        i = i + 1;
    }
    assert(texts_view(texts@).take(i as int) == texts_view(texts@));
    out.append("\n");
}

/// Whether the identifier `uid` is among those of the first `i` chapters.
fn listed_before(chapters: &Vec<ChapterRef>, i: usize, uid: &str) -> (r: bool)
    requires
        i <= chapters@.len(),
    ensures
        r == listed(chapters_view(chapters@).take(i as int), uid@),
{
    let ghost cv = chapters_view(chapters@).take(i as int);
    let mut j: usize = 0;
    while j < i
        invariant
            0 <= j <= i <= chapters@.len(),
            cv == chapters_view(chapters@).take(i as int),
            forall|k: int| 0 <= k < j ==> (#[trigger] cv[k]).0 != uid@,
        decreases i - j,
    {
        assert(cv[j as int] == chapters@[j as int]@);
        if text_eq(chapters[j].uid.as_str(), uid) {
            assert(cv[j as int].0 == uid@);
            return true;
        }
        j = j + 1;
    }
    false
}

/// Renders the chapters in the order in which their identifiers first
/// appear: each gets its heading at the outline level of its title and one
/// quote block per text. A title without a level, or a chapter without
/// texts, fails with `Key`.
pub fn render_document(
    chapters: &Vec<ChapterRef>,
    groups: &Vec<Vec<String>>,
    outline: &Vec<OutlineEntry>,
) -> (r: Result<String, ExportError>)
    requires
        chapters@.len() == groups@.len(),
    ensures
        text_result(r) == document(chapters_view(chapters@), groups_view(groups@), entries_view(outline@)),
{
    let ghost cv = chapters_view(chapters@);
    let ghost gv = groups_view(groups@);
    let ghost ov = entries_view(outline@);
    let mut out = String::new();
    let ghost mut secs: Seq<Section> = Seq::empty();
    let mut i: usize = 0;
    assert(cv.take(0) == Seq::<(Seq<char>, Seq<char>)>::empty());
    while i < chapters.len()
        invariant
            0 <= i <= chapters@.len(),
            chapters@.len() == groups@.len(),
            cv == chapters_view(chapters@),
            gv == groups_view(groups@),
            ov == entries_view(outline@),
            sections(cv.take(i as int), gv.take(i as int), ov) == Ok::<Seq<Section>, ExportError>(secs),
            out@ == join(secs),
        decreases chapters@.len() - i,
    {
        assert(cv.take(i + 1).drop_last() == cv.take(i as int));
        assert(gv.take(i + 1).drop_last() == gv.take(i as int));
        assert(gv.take(i + 1).last() == texts_view(groups@[i as int]@));
        assert(cv.take(i + 1).last() == chapters@[i as int]@);
        let c = &chapters[i];
        let g = &groups[i];
        if !listed_before(chapters, i, c.uid.as_str()) {
            match find_level(outline, c.title.as_str()) {
                Some(level) => {
                    if g.len() == 0 {
                        proof {
                            lemma_sections_error_stays(cv, gv, ov, i as int + 1);
                        }
                        return Err(ExportError::Key);
                    }
                    push_section(&mut out, level, c.title.as_str(), g);
                    proof {
                        let s = Section { uid: c.uid@, title: c.title@, level, texts: texts_view(g@) };
                        assert(secs.push(s).drop_last() == secs);
                        secs = secs.push(s);
                    }
                },
                None => {
                    proof {
                        lemma_sections_error_stays(cv, gv, ov, i as int + 1);
                    }
                    return Err(ExportError::Key);
                },
            }
        }
        i = i + 1;
    }
    assert(cv.take(i as int) == cv);
    assert(gv.take(i as int) == gv);
    Ok(out)
}

proof fn lemma_sections_error_stays(
    chapters: Seq<(Seq<char>, Seq<char>)>,
    groups: Seq<Seq<Seq<char>>>,
    outline: Seq<(Seq<char>, u64)>,
    k: int,
)
    requires
        0 < k <= chapters.len(),
        chapters.len() == groups.len(),
        sections(chapters.take(k), groups.take(k), outline) is Err,
    ensures
        sections(chapters, groups, outline) == sections(chapters.take(k), groups.take(k), outline),
    decreases chapters.len(),
{
    if k < chapters.len() {
        assert(chapters.drop_last().take(k) == chapters.take(k));
        assert(groups.drop_last().take(k) == groups.take(k));
        lemma_sections_error_stays(chapters.drop_last(), groups.drop_last(), outline, k);
    } else {
        assert(chapters.take(k) == chapters);
        assert(groups.take(k) == groups);
    }
}

/// Every section of a rendered document belongs to a listed chapter and
/// holds that chapter's texts, no section is without texts, and no chapter
/// identifier is shown twice.
pub proof fn lemma_sections_nonempty(
    chapters: Seq<(Seq<char>, Seq<char>)>,
    groups: Seq<Seq<Seq<char>>>,
    outline: Seq<(Seq<char>, u64)>,
)
    requires
        chapters.len() == groups.len(),
        sections(chapters, groups, outline) is Ok,
    ensures
        forall|k: int| 0 <= k < sections(chapters, groups, outline)->Ok_0.len() ==> {
            let s = #[trigger] sections(chapters, groups, outline)->Ok_0[k];
            &&& s.texts.len() > 0
            &&& exists|i: int| 0 <= i < chapters.len() && chapters[i].0 == s.uid && groups[i] == s.texts
        },
        forall|k1: int, k2: int|
            0 <= k1 < k2 < sections(chapters, groups, outline)->Ok_0.len() ==> (#[trigger] sections(
                chapters,
                groups,
                outline,
            )->Ok_0[k1]).uid != (#[trigger] sections(chapters, groups, outline)->Ok_0[k2]).uid,
    decreases chapters.len(),
{
    if chapters.len() > 0 {
        let cd = chapters.drop_last();
        let gd = groups.drop_last();
        lemma_sections_nonempty(cd, gd, outline);
        let prev = sections(cd, gd, outline)->Ok_0;
        let secs = sections(chapters, groups, outline)->Ok_0;
        assert forall|k: int| 0 <= k < secs.len() implies {
            let s = #[trigger] secs[k];
            &&& s.texts.len() > 0
            &&& exists|i: int| 0 <= i < chapters.len() && chapters[i].0 == s.uid && groups[i] == s.texts
        } by {
            if k < prev.len() {
                assert(secs[k] == prev[k]);
                let s = prev[k];
                let i = choose|i: int| 0 <= i < cd.len() && cd[i].0 == s.uid && gd[i] == s.texts;
                assert(chapters[i] == cd[i] && groups[i] == gd[i]);
            } else {
                let n = chapters.len() - 1;
                assert(chapters[n].0 == secs[k].uid && groups[n] == secs[k].texts);
            }
        }
        assert forall|k1: int, k2: int| 0 <= k1 < k2 < secs.len() implies (#[trigger] secs[k1]).uid
            != (#[trigger] secs[k2]).uid by {
            if k2 < prev.len() {
                assert(secs[k1] == prev[k1] && secs[k2] == prev[k2]);
            } else {
                assert(secs[k1] == prev[k1]);
                let s = prev[k1];
                let i = choose|i: int| 0 <= i < cd.len() && cd[i].0 == s.uid && gd[i] == s.texts;
                if s.uid == chapters.last().0 {
                    assert(listed(cd, chapters.last().0));
                }
            }
        }
    }
}

/// A newly listed chapter without texts ends the export with `Key`, where
/// the chapters before it rendered; it neither disappears nor shows a bare
/// heading.
pub proof fn lemma_empty_chapter_fails(
    chapters: Seq<(Seq<char>, Seq<char>)>,
    groups: Seq<Seq<Seq<char>>>,
    outline: Seq<(Seq<char>, u64)>,
    chapter: (Seq<char>, Seq<char>),
)
    requires
        chapters.len() == groups.len(),
        !listed(chapters, chapter.0),
    ensures
        document(chapters.push(chapter), groups.push(Seq::empty()), outline) == match document(
            chapters,
            groups,
            outline,
        ) {
            Ok(_) => Err::<Seq<char>, ExportError>(ExportError::Key),
            Err(e) => Err(e),
        },
{
    assert(chapters.push(chapter).drop_last() == chapters);
    assert(groups.push(Seq::<Seq<char>>::empty()).drop_last() == groups);
}

/// A newly listed chapter whose title has no outline level ends the export
/// with `Key`, whatever texts it has, where the chapters before it rendered.
pub proof fn lemma_missing_title_fails(
    chapters: Seq<(Seq<char>, Seq<char>)>,
    groups: Seq<Seq<Seq<char>>>,
    outline: Seq<(Seq<char>, u64)>,
    chapter: (Seq<char>, Seq<char>),
    texts: Seq<Seq<char>>,
)
    requires
        chapters.len() == groups.len(),
        !listed(chapters, chapter.0),
        level_of(outline, chapter.1) is None,
    ensures
        document(chapters.push(chapter), groups.push(texts), outline) == match document(
            chapters,
            groups,
            outline,
        ) {
            Ok(_) => Err::<Seq<char>, ExportError>(ExportError::Key),
            Err(e) => Err(e),
        },
{
    assert(chapters.push(chapter).drop_last() == chapters);
    assert(groups.push(texts).drop_last() == groups);
}

/// A chapter identifier listed a second time adds nothing: it is shown
/// once, where it first appears.
pub proof fn lemma_repeated_chapter_shown_once(
    chapters: Seq<(Seq<char>, Seq<char>)>,
    groups: Seq<Seq<Seq<char>>>,
    outline: Seq<(Seq<char>, u64)>,
    chapter: (Seq<char>, Seq<char>),
    texts: Seq<Seq<char>>,
)
    requires
        chapters.len() == groups.len(),
        listed(chapters, chapter.0),
    ensures
        document(chapters.push(chapter), groups.push(texts), outline) == document(chapters, groups, outline),
{
    assert(chapters.push(chapter).drop_last() == chapters);
    assert(groups.push(texts).drop_last() == groups);
}

} // verus!
