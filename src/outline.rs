use vstd::prelude::*;
use crate::error::ExportError;
use crate::json::{Json, field, str_field, array_field, u64_field, get_field, get_str, get_array, get_u64};
use crate::text::text_eq;

verus! {

/// One heading of a book's outline: a chapter title and its nesting depth
/// (1 is the top level).
pub struct OutlineEntry {
    pub title: String,
    pub level: u64,
}

impl View for OutlineEntry {
    type V = (Seq<char>, u64);

    open spec fn view(&self) -> (Seq<char>, u64) {
        (self.title@, self.level)
    }
}

/// The (title, level) pairs that a list of entries holds, in order.
pub open spec fn entries_view(v: Seq<OutlineEntry>) -> Seq<(Seq<char>, u64)> {
    v.map_values(|e: OutlineEntry| e@)
}

/// The level that an outline entry declares; 1 where it declares none, and
/// `None` where its `level` is not an unsigned integer.
pub open spec fn declared_level(item: Json) -> Option<u64> {
    match field(item, "level"@) {
        None => Some(1),
        Some(Json::Number(Some(n))) => Some(n),
        Some(_) => None,
    }
}

/// The pair of a subordinate section: both its title and its level must be there.
pub open spec fn anchor_pair(a: Json) -> Option<(Seq<char>, u64)> {
    match (str_field(a, "title"@), u64_field(a, "level"@)) {
        (Some(t), Some(l)) => Some((t, l)),
        _ => None,
    }
}

/// The pairs of a list of subordinate sections, in order.
pub open spec fn anchors_outline(anchors: Seq<Json>) -> Option<Seq<(Seq<char>, u64)>>
    decreases anchors.len(),
{
    if anchors.len() == 0 {
        Some(Seq::empty())
    } else {
        match (anchors_outline(anchors.drop_last()), anchor_pair(anchors.last())) {
            (Some(s), Some(p)) => Some(s.push(p)),
            _ => None,
        }
    }
}

/// The pairs that one entry of the chapter list contributes: its own, then
/// those of its `anchors` where it has them.
pub open spec fn item_outline(item: Json) -> Option<Seq<(Seq<char>, u64)>> {
    match (str_field(item, "title"@), declared_level(item)) {
        (Some(t), Some(l)) => match field(item, "anchors"@) {
            None => Some(seq![(t, l)]),
            Some(Json::Array(a)) => match anchors_outline(a@) {
                Some(s) => Some(seq![(t, l)] + s),
                None => None,
            },
            Some(_) => None,
        },
        _ => None,
    }
}

/// The pairs of all entries of the chapter list, in order.
pub open spec fn items_outline(items: Seq<Json>) -> Option<Seq<(Seq<char>, u64)>>
    decreases items.len(),
{
    if items.len() == 0 {
        Some(Seq::empty())
    } else {
        match (items_outline(items.drop_last()), item_outline(items.last())) {
            (Some(s), Some(p)) => Some(s + p),
            _ => None,
        }
    }
}

/// The entries of the chapter list in a chapter-info response: `data[0].updated`.
pub open spec fn outline_items(doc: Json) -> Option<Seq<Json>> {
    match array_field(doc, "data"@) {
        Some(d) => if d.len() > 0 {
            array_field(d[0], "updated"@)
        } else {
            None
        },
        None => None,
    }
}

/// The outline pairs of a chapter-info response, or `None` where a field is
/// missing or of another type.
pub open spec fn outline_of(doc: Json) -> Option<Seq<(Seq<char>, u64)>> {
    match outline_items(doc) {
        Some(items) => items_outline(items),
        None => None,
    }
}

/// The level of a title: that of its last pair, as a map written in order keeps it.
pub open spec fn level_of(outline: Seq<(Seq<char>, u64)>, title: Seq<char>) -> Option<u64>
    decreases outline.len(),
{
    if outline.len() == 0 {
        None
    } else if outline.last().0 == title {
        Some(outline.last().1)
    } else {
        level_of(outline.drop_last(), title)
    }
}

/// The title-to-level map that writing the pairs in order builds.
pub open spec fn outline_map(outline: Seq<(Seq<char>, u64)>) -> Map<Seq<char>, u64>
    decreases outline.len(),
{
    if outline.len() == 0 {
        Map::empty()
    } else {
        outline_map(outline.drop_last()).insert(outline.last().0, outline.last().1)
    }
}

proof fn lemma_entries_push(v: Seq<OutlineEntry>, e: OutlineEntry)
    ensures
        entries_view(v.push(e)) == entries_view(v).push(e@),
{
    assert(entries_view(v.push(e)) == entries_view(v).push(e@));
}

fn push_entry(out: &mut Vec<OutlineEntry>, title: &String, level: u64)
    ensures
        entries_view(final(out)@) == entries_view(old(out)@).push((title@, level)),
{
    let e = OutlineEntry { title: title.clone(), level };
    proof {
        lemma_entries_push(out@, e);
    }
    out.push(e);
}

/// Appends the pairs of one chapter-list entry to `out`; `false` where the
/// entry is malformed.
fn push_item(out: &mut Vec<OutlineEntry>, item: &Json) -> (r: bool)
    ensures
        match item_outline(*item) {
            Some(s) => r && entries_view(final(out)@) == entries_view(old(out)@) + s,
            None => !r,
        },
{
    let title = match get_str(item, "title") {
        Some(t) => t,
        None => return false,
    };
    let level = match get_field(item, "level") {
        None => 1u64,
        Some(Json::Number(Some(n))) => *n,
        Some(_) => return false,
    };
    let ghost start = entries_view(out@);
    push_entry(out, title, level);
    match get_field(item, "anchors") {
        None => {
            assert(entries_view(out@) == start + seq![(title@, level)]);
            true
        },
        Some(Json::Array(anchors)) => {
            let mut i: usize = 0;
            assert(anchors@.take(0) == Seq::<Json>::empty());
            while i < anchors.len()
                invariant
                    0 <= i <= anchors@.len(),
                    field(*item, "anchors"@) == Some(Json::Array(*anchors)),
                    str_field(*item, "title"@) == Some(title@),
                    declared_level(*item) == Some(level),
                    anchors_outline(anchors@.take(i as int)) is Some,
                    entries_view(out@) == start + seq![(title@, level)]
                        + anchors_outline(anchors@.take(i as int))->Some_0,
                decreases anchors@.len() - i,
            {
                assert(anchors@.take(i + 1).drop_last() == anchors@.take(i as int));
                let a = &anchors[i];
                let at = match get_str(a, "title") {
                    Some(t) => t,
                    None => {
                        proof {
                            lemma_anchors_fail(anchors@, i as int);
                            assert(field(*item, "anchors"@) == Some(Json::Array(*anchors)));
                        }
                        return false;
                    },
                };
                let al = match get_u64(a, "level") {
                    Some(l) => l,
                    None => {
                        proof {
                            lemma_anchors_fail(anchors@, i as int);
                            assert(field(*item, "anchors"@) == Some(Json::Array(*anchors)));
                        }
                        return false;
                    },
                };
                push_entry(out, at, al);
                i = i + 1;
            }
            assert(anchors@.take(i as int) == anchors@);
            true
        },
        Some(_) => false,
    }
}

proof fn lemma_anchors_fail(anchors: Seq<Json>, i: int)
    requires
        0 <= i < anchors.len(),
        anchor_pair(anchors[i]) is None,
    ensures
        anchors_outline(anchors) is None,
    decreases anchors.len(),
{
    if i < anchors.len() - 1 {
        lemma_anchors_fail(anchors.drop_last(), i);
    }
}

proof fn lemma_items_fail(items: Seq<Json>, i: int)
    requires
        0 <= i < items.len(),
        item_outline(items[i]) is None,
    ensures
        items_outline(items) is None,
    decreases items.len(),
{
    if i < items.len() - 1 {
        lemma_items_fail(items.drop_last(), i);
    }
}

/// Decodes a chapter-info response into its outline pairs, in the order in
/// which they stand.
pub fn decode_outline(doc: &Json) -> (r: Result<Vec<OutlineEntry>, ExportError>)
    ensures
        match outline_of(*doc) {
            Some(s) => r is Ok && entries_view(r->Ok_0@) == s,
            None => r == Err::<Vec<OutlineEntry>, ExportError>(ExportError::MissingField),
        },
{
    let data = match get_array(doc, "data") {
        Some(d) => d,
        None => return Err(ExportError::MissingField),
    };
    if data.len() == 0 {
        return Err(ExportError::MissingField);
    }
    let items = match get_array(&data[0], "updated") {
        Some(u) => u,
        None => return Err(ExportError::MissingField),
    };
    let mut out: Vec<OutlineEntry> = Vec::new();
    let mut i: usize = 0;
    assert(outline_items(*doc) == Some(items@));
    assert(items@.take(0) == Seq::<Json>::empty());
    assert(entries_view(out@) == Seq::<(Seq<char>, u64)>::empty());
    while i < items.len()
        invariant
            0 <= i <= items@.len(),
            outline_items(*doc) == Some(items@),
            items_outline(items@.take(i as int)) is Some,
            entries_view(out@) == items_outline(items@.take(i as int))->Some_0,
        decreases items@.len() - i,
    {
        assert(items@.take(i + 1).drop_last() == items@.take(i as int));
        if !push_item(&mut out, &items[i]) {
            proof {
                lemma_items_fail(items@, i as int);
                assert(outline_items(*doc) == Some(items@));
            }
            return Err(ExportError::MissingField);
        }
        i = i + 1;
    }
    assert(items@.take(i as int) == items@);
    Ok(out)
}

/// Looks up the level of a title; where several entries share it, the last one counts.
pub fn find_level(outline: &Vec<OutlineEntry>, title: &str) -> (r: Option<u64>)
    ensures
        r == level_of(entries_view(outline@), title@),
{
    let mut found: Option<u64> = None;
    let mut i: usize = 0;
    while i < outline.len()
        invariant
            0 <= i <= outline@.len(),
            found == level_of(entries_view(outline@).take(i as int), title@),
        decreases outline@.len() - i,
    {
        assert(entries_view(outline@).take(i + 1).drop_last() == entries_view(outline@).take(i as int));
        if text_eq(outline[i].title.as_str(), title) {
            found = Some(outline[i].level);
        }
        i = i + 1;
    }
    assert(entries_view(outline@).take(i as int) == entries_view(outline@));
    found
}

/// The titles that a list of pairs names.
pub open spec fn pair_titles(outline: Seq<(Seq<char>, u64)>) -> Set<Seq<char>>
    decreases outline.len(),
{
    if outline.len() == 0 {
        Set::empty()
    } else {
        pair_titles(outline.drop_last()).insert(outline.last().0)
    }
}

/// The titles of a list of subordinate sections.
pub open spec fn anchor_titles(anchors: Seq<Json>) -> Set<Seq<char>>
    decreases anchors.len(),
{
    if anchors.len() == 0 {
        Set::empty()
    } else {
        match str_field(anchors.last(), "title"@) {
            Some(t) => anchor_titles(anchors.drop_last()).insert(t),
            None => anchor_titles(anchors.drop_last()),
        }
    }
}

/// The titles of the entries of a chapter list and of all their anchors.
pub open spec fn response_titles(items: Seq<Json>) -> Set<Seq<char>>
    decreases items.len(),
{
    if items.len() == 0 {
        Set::empty()
    } else {
        let item = items.last();
        let own = match str_field(item, "title"@) {
            Some(t) => set![t],
            None => Set::empty(),
        };
        let below = match array_field(item, "anchors"@) {
            Some(a) => anchor_titles(a),
            None => Set::empty(),
        };
        response_titles(items.drop_last()).union(own).union(below)
    }
}

proof fn lemma_map_dom(s: Seq<(Seq<char>, u64)>)
    ensures
        outline_map(s).dom() == pair_titles(s),
        forall|t: Seq<char>| #[trigger] level_of(s, t) == if outline_map(s).contains_key(t) {
            Some(outline_map(s)[t])
        } else {
            None
        },
    decreases s.len(),
{
    if s.len() > 0 {
        lemma_map_dom(s.drop_last());
        assert forall|t: Seq<char>| #[trigger] level_of(s, t) == if outline_map(s).contains_key(t) {
            Some(outline_map(s)[t])
        } else {
            None
        } by {
            assert(level_of(s.drop_last(), t) == if outline_map(s.drop_last()).contains_key(t) {
                Some(outline_map(s.drop_last())[t])
            } else {
                None
            });
        }
        assert(outline_map(s).dom() =~= pair_titles(s));
    }
}

proof fn lemma_pair_titles_concat(a: Seq<(Seq<char>, u64)>, b: Seq<(Seq<char>, u64)>)
    ensures
        pair_titles(a + b) == pair_titles(a).union(pair_titles(b)),
    decreases b.len(),
{
    if b.len() == 0 {
        assert(a + b == a);
    } else {
        assert((a + b).drop_last() == a + b.drop_last());
        lemma_pair_titles_concat(a, b.drop_last());
    }
}

proof fn lemma_anchor_titles(anchors: Seq<Json>)
    requires
        anchors_outline(anchors) is Some,
    ensures
        pair_titles(anchors_outline(anchors)->Some_0) == anchor_titles(anchors),
    decreases anchors.len(),
{
    if anchors.len() > 0 {
        lemma_anchor_titles(anchors.drop_last());
        let s = anchors_outline(anchors.drop_last())->Some_0;
        let p = anchor_pair(anchors.last())->Some_0;
        assert(s.push(p).drop_last() == s);
    }
}

proof fn lemma_response_titles(items: Seq<Json>)
    requires
        items_outline(items) is Some,
    ensures
        pair_titles(items_outline(items)->Some_0) == response_titles(items),
    decreases items.len(),
{
    if items.len() > 0 {
        lemma_response_titles(items.drop_last());
        let item = items.last();
        let prev = items_outline(items.drop_last())->Some_0;
        let own = item_outline(item)->Some_0;
        lemma_pair_titles_concat(prev, own);
        let t = str_field(item, "title"@)->Some_0;
        let l = declared_level(item)->Some_0;
        assert(seq![(t, l)].drop_last() == Seq::<(Seq<char>, u64)>::empty());
        assert(pair_titles(Seq::<(Seq<char>, u64)>::empty()) == Set::<Seq<char>>::empty());
        assert(seq![(t, l)].last() == (t, l));
        assert(pair_titles(seq![(t, l)]) == Set::<Seq<char>>::empty().insert(t));
        assert(pair_titles(seq![(t, l)]) =~= set![t]);
        match field(item, "anchors"@) {
            Some(Json::Array(a)) => {
                let below = anchors_outline(a@)->Some_0;
                lemma_pair_titles_concat(seq![(t, l)], below);
                lemma_anchor_titles(a@);
                assert(pair_titles(items_outline(items)->Some_0) =~= response_titles(items));
            },
            _ => {
                assert(own == seq![(t, l)]);
                assert(pair_titles(items_outline(items)->Some_0) =~= response_titles(items));
            },
        }
    }
}

/// Decoding a chapter list whose entries all carry anchors puts every parent
/// title and every anchor title in the title-to-level map exactly once (a
/// map's domain holds each key once), and nothing else; looking up a title
/// gives what the map holds, which is the level of the last pair written
/// under that title.
pub proof fn lemma_anchored_outline_map(items: Seq<Json>)
    requires
        forall|i: int| 0 <= i < items.len() ==> (#[trigger] field(items[i], "anchors"@)) is Some,
        items_outline(items) is Some,
    ensures
        outline_map(items_outline(items)->Some_0).dom() == response_titles(items),
        forall|t: Seq<char>| #[trigger] level_of(items_outline(items)->Some_0, t)
            == if outline_map(items_outline(items)->Some_0).contains_key(t) {
            Some(outline_map(items_outline(items)->Some_0)[t])
        } else {
            None
        },
{
    lemma_map_dom(items_outline(items)->Some_0);
    lemma_response_titles(items);
}

} // verus!
