use vstd::prelude::*;
use crate::text::text_eq;
use crate::annotations::{Bookmark, BestBookmark, MarkView};
use crate::render::texts_view;

verus! {

/// Where a highlight starting at `key` goes in a list ordered by start: after
/// every entry that starts at or before it.
pub open spec fn insert_pos(s: Seq<(i32, Seq<char>)>, key: i32) -> int
    decreases s.len(),
{
    if s.len() == 0 {
        0
    } else if s.last().0 > key {
        insert_pos(s.drop_last(), key)
    } else {
        s.len() as int
    }
}

/// The (start, text) pairs ordered by start; pairs with equal starts keep
/// their order.
pub open spec fn sort_by_start(s: Seq<(i32, Seq<char>)>) -> Seq<(i32, Seq<char>)>
    decreases s.len(),
{
    if s.len() == 0 {
        s
    } else {
        let t = sort_by_start(s.drop_last());
        t.insert(insert_pos(t, s.last().0), s.last())
    }
}

/// Whether the pairs stand in ascending order of start.
pub open spec fn ascending(s: Seq<(i32, Seq<char>)>) -> bool {
    forall|i: int, j: int| 0 <= i < j < s.len() ==> s[i].0 <= s[j].0
}

/// The (start, text) pairs of one chapter's personal highlights, in list order.
pub open spec fn chapter_marks(ms: Seq<MarkView>, uid: Seq<char>) -> Seq<(i32, Seq<char>)> {
    ms.filter(|m: MarkView| m.uid == uid).map_values(|m: MarkView| (m.start, m.text))
}

/// The texts of one chapter's personal highlights, in ascending order of start.
pub open spec fn bookmark_group(ms: Seq<MarkView>, uid: Seq<char>) -> Seq<Seq<char>> {
    sort_by_start(chapter_marks(ms, uid)).map_values(|p: (i32, Seq<char>)| p.1)
}

/// The texts of one chapter's crowd highlights, in list order.
pub open spec fn best_group(bs: Seq<(Seq<char>, Seq<char>)>, uid: Seq<char>) -> Seq<Seq<char>> {
    bs.filter(|b: (Seq<char>, Seq<char>)| b.0 == uid).map_values(|b: (Seq<char>, Seq<char>)| b.1)
}

/// The (start, text) pairs that a list holds.
pub open spec fn pairs_view(v: Seq<(i32, String)>) -> Seq<(i32, Seq<char>)> {
    v.map_values(|p: (i32, String)| (p.0, p.1@))
}

proof fn lemma_insert_pos_bounds(s: Seq<(i32, Seq<char>)>, key: i32)
    ensures
        0 <= insert_pos(s, key) <= s.len(),
    decreases s.len(),
{
    if s.len() > 0 {
        lemma_insert_pos_bounds(s.drop_last(), key);
    }
}

fn insert_by_start(sorted: &mut Vec<(i32, String)>, start: i32, text: String)
    ensures
        pairs_view(final(sorted)@) == pairs_view(old(sorted)@).insert(
            insert_pos(pairs_view(old(sorted)@), start),
            (start, text@),
        ),
{
    let ghost v = pairs_view(sorted@);
    let mut p: usize = sorted.len();
    assert(v.take(p as int) == v);
    while p > 0 && sorted[p - 1].0 > start
        invariant
            0 <= p <= sorted@.len(),
            v == pairs_view(sorted@),
            insert_pos(v, start) == insert_pos(v.take(p as int), start),
        decreases p,
    {
        assert(v.take(p as int).drop_last() == v.take(p - 1));
        p = p - 1;
    }
    if p > 0 {
        assert(v.take(p as int).last() == v[p - 1]);
    }
    proof {
        lemma_insert_pos_bounds(v.take(p as int), start);
    }
    sorted.insert(p, (start, text));
    assert(pairs_view(sorted@) =~= v.insert(p as int, (start, text@)));
}

/// The texts of the personal highlights of chapter `uid`, in ascending order
/// of start; highlights with equal starts keep their list order.
pub fn bookmark_texts(marks: &Vec<Bookmark>, uid: &str) -> (r: Vec<String>)
    ensures
        texts_view(r@) == bookmark_group(marks@.map_values(|m: Bookmark| m@), uid@),
{
    let ghost ms = marks@.map_values(|m: Bookmark| m@);
    let mut sorted: Vec<(i32, String)> = Vec::new();
    let mut i: usize = 0;
    assert(ms.take(0) == Seq::<MarkView>::empty());
    assert(pairs_view(sorted@) == Seq::<(i32, Seq<char>)>::empty());
    while i < marks.len()
        invariant
            0 <= i <= marks@.len(),
            ms == marks@.map_values(|m: Bookmark| m@),
            pairs_view(sorted@) == sort_by_start(chapter_marks(ms.take(i as int), uid@)),
        decreases marks@.len() - i,
    {
        let ghost before = ms.take(i as int);
        proof {
            reveal(Seq::filter);
        }
        assert(ms.take(i + 1).drop_last() == before);
        assert(ms.take(i + 1).last() == marks@[i as int]@);
        let m = &marks[i];
        if text_eq(m.chapter_uid.as_str(), uid) {
            let ghost f = before.filter(|x: MarkView| x.uid == uid@);
            assert(ms.take(i + 1).filter(|x: MarkView| x.uid == uid@) == f.push(m@));
            assert(chapter_marks(ms.take(i + 1), uid@) =~= chapter_marks(before, uid@).push((m.start, m.text@)));
            assert(chapter_marks(ms.take(i + 1), uid@).drop_last() == chapter_marks(before, uid@));
            insert_by_start(&mut sorted, m.start, m.text.clone());
        } else {
            assert(ms.take(i + 1).filter(|x: MarkView| x.uid == uid@) == before.filter(
                |x: MarkView| x.uid == uid@,
            ));
        }
        i = i + 1;
    }
    assert(ms.take(i as int) == ms);
    let mut out: Vec<String> = Vec::new();
    let mut k: usize = 0;
    while k < sorted.len()
        invariant
            0 <= k <= sorted@.len(),
            texts_view(out@) == pairs_view(sorted@).take(k as int).map_values(|p: (i32, Seq<char>)| p.1),
        decreases sorted@.len() - k,
    {
        let ghost prev = out@;
        out.push(sorted[k].1.clone());
        assert(texts_view(out@) =~= texts_view(prev).push(sorted@[k as int].1@));
        assert(pairs_view(sorted@).take(k + 1) == pairs_view(sorted@).take(k as int).push(
            pairs_view(sorted@)[k as int],
        ));
        assert(texts_view(out@) =~= pairs_view(sorted@).take(k + 1).map_values(|p: (i32, Seq<char>)| p.1));
        k = k + 1;
    }
    assert(pairs_view(sorted@).take(k as int) == pairs_view(sorted@));
    out
}

/// The texts of the crowd highlights of chapter `uid`, in list order.
pub fn best_texts(items: &Vec<BestBookmark>, uid: &str) -> (r: Vec<String>)
    ensures
        texts_view(r@) == best_group(items@.map_values(|b: BestBookmark| b@), uid@),
{
    let ghost bs = items@.map_values(|b: BestBookmark| b@);
    let mut out: Vec<String> = Vec::new();
    let mut i: usize = 0;
    assert(bs.take(0) == Seq::<(Seq<char>, Seq<char>)>::empty());
    assert(texts_view(out@) == Seq::<Seq<char>>::empty());
    while i < items.len()
        invariant
            0 <= i <= items@.len(),
            bs == items@.map_values(|b: BestBookmark| b@),
            texts_view(out@) == best_group(bs.take(i as int), uid@),
        decreases items@.len() - i,
    {
        let ghost before = bs.take(i as int);
        proof {
            reveal(Seq::filter);
        }
        assert(bs.take(i + 1).drop_last() == before);
        assert(bs.take(i + 1).last() == items@[i as int]@);
        let b = &items[i];
        if text_eq(b.chapter_uid.as_str(), uid) {
            let ghost f = before.filter(|x: (Seq<char>, Seq<char>)| x.0 == uid@);
            assert(bs.take(i + 1).filter(|x: (Seq<char>, Seq<char>)| x.0 == uid@) == f.push(b@));
            let ghost prev = out@;
            out.push(b.text.clone());
            assert(texts_view(out@) =~= texts_view(prev).push(b.text@));
            assert(texts_view(out@) =~= best_group(bs.take(i + 1), uid@));
        } else {
            assert(bs.take(i + 1).filter(|x: (Seq<char>, Seq<char>)| x.0 == uid@) == before.filter(
                |x: (Seq<char>, Seq<char>)| x.0 == uid@,
            ));
        }
        i = i + 1;
    }
    assert(bs.take(i as int) == bs);
    out
}

proof fn lemma_insert_pos_split(t: Seq<(i32, Seq<char>)>, key: i32)
    requires
        ascending(t),
    ensures
        0 <= insert_pos(t, key) <= t.len(),
        forall|j: int| 0 <= j < insert_pos(t, key) ==> t[j].0 <= key,
        forall|j: int| insert_pos(t, key) <= j < t.len() ==> t[j].0 > key,
    decreases t.len(),
{
    lemma_insert_pos_bounds(t, key);
    if t.len() > 0 {
        let d = t.drop_last();
        assert(ascending(d));
        lemma_insert_pos_split(d, key);
        if t.last().0 > key {
            assert forall|j: int| 0 <= j < insert_pos(t, key) implies t[j].0 <= key by {
                assert(t[j] == d[j]);
            }
            assert forall|j: int| insert_pos(t, key) <= j < t.len() implies t[j].0 > key by {
                if j < t.len() - 1 {
                    assert(t[j] == d[j]);
                }
            }
        } else {
            assert forall|j: int| 0 <= j < insert_pos(t, key) implies t[j].0 <= key by {
                if j < t.len() - 1 {
                    assert(t[j].0 <= t[t.len() - 1].0);
                }
            }
        }
    }
}

/// Ordering by start leaves the pairs in ascending order of start and keeps
/// their number.
pub proof fn lemma_sort_by_start_ascending(s: Seq<(i32, Seq<char>)>)
    ensures
        ascending(sort_by_start(s)),
        sort_by_start(s).len() == s.len(),
    decreases s.len(),
{
    if s.len() > 0 {
        let t = sort_by_start(s.drop_last());
        lemma_sort_by_start_ascending(s.drop_last());
        let x = s.last();
        lemma_insert_pos_split(t, x.0);
        let p = insert_pos(t, x.0);
        let u = t.insert(p, x);
        assert forall|i: int, j: int| 0 <= i < j < u.len() implies u[i].0 <= u[j].0 by {
            if j < p {
            } else if j == p {
                assert(u[i] == t[i]);
            } else if i < p {
                assert(u[i] == t[i]);
                assert(u[j] == t[j - 1]);
            } else if i == p {
                assert(u[j] == t[j - 1]);
            } else {
                assert(u[i] == t[i - 1]);
                assert(u[j] == t[j - 1]);
            }
        }
    }
}

} // verus!
