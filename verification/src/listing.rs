//! Views of a log: what to list, which labels it uses, the newest version
//! of one note, and the log without one of its notes.

use vstd::prelude::*;
use crate::compaction::{
    compacted, has_id, is_newest, lemma_compacted_same_ids, lemma_has_id_reverse,
};
use crate::note::{formatted, Note, NoteView};
use crate::sorting::{
    by_itself, lemma_filter_front, lemma_insert_contains, lemma_sorted_by, reversed, sort_text,
    sorted_by,
};
use crate::text::{contains_text, lemma_lex_le_antisymmetric, lex_le, lex_lt, same_text};

verus! {

/// The test that a version does not belong to the note `id`.
pub open spec fn other_than(id: Seq<char>) -> spec_fn(NoteView) -> bool {
    |note: NoteView| note.id != id
}

/// The test that a version is wanted in a listing for `tag`: every version
/// where `tag` is empty, and else those that carry the label `tag`.
pub open spec fn tagged(tag: Seq<char>) -> spec_fn(NoteView) -> bool {
    |note: NoteView| tag.len() == 0 || note.labels.contains(tag)
}

/// The rendering of a version for a listing, as a function of the version.
pub open spec fn as_line(with_colors: bool) -> spec_fn(NoteView) -> Seq<char> {
    |note: NoteView| formatted(note, with_colors)
}

/// The listing of a log for `tag`: of the versions wanted, the newest of
/// each note, rendered, in descending order of the rendered lines.
pub open spec fn listed(log: Seq<NoteView>, tag: Seq<char>, with_colors: bool) -> Seq<Seq<char>> {
    sorted_by(
        compacted(log.filter(tagged(tag))).map_values(as_line(with_colors)),
        by_itself(),
    ).reverse()
}

/// Some version in `log` carries the label `tag`.
pub open spec fn is_label_in(log: Seq<NoteView>, tag: Seq<char>) -> bool {
    exists|i: int| 0 <= i < log.len() && (#[trigger] log[i]).labels.contains(tag)
}

/// Each string of `s` comes strictly before the next.
pub open spec fn strictly_ascending(s: Seq<Seq<char>>) -> bool {
    forall|i: int, j: int| 0 <= i < j < s.len() ==> lex_lt(s[i], s[j])
}

/// Sorting strings of which no two are equal puts each strictly before the
/// next.
pub proof fn lemma_sorted_strictly(s: Seq<Seq<char>>)
    requires
        s.no_duplicates(),
    ensures
        strictly_ascending(sorted_by(s, by_itself())),
{
    broadcast use vstd::multiset::group_multiset_axioms;

    let out = sorted_by(s, by_itself());
    lemma_sorted_by(s, by_itself());
    s.lemma_multiset_has_no_duplicates();
    out.lemma_multiset_has_no_duplicates_conv();
    assert forall|i: int, j: int| 0 <= i < j < out.len() implies lex_lt(out[i], out[j]) by {
        assert(lex_le(by_itself()(out[i]), by_itself()(out[j])));
        if lex_le(out[j], out[i]) {
            lemma_lex_le_antisymmetric(out[i], out[j]);
        }
    }
}

/// A listing holds one line for each note that has a version wanted, and
/// no line comes before a line that is greater.
pub proof fn lemma_listed_descends(log: Seq<NoteView>, tag: Seq<char>, with_colors: bool)
    ensures
        listed(log, tag, with_colors).len() == compacted(log.filter(tagged(tag))).len(),
        forall|i: int, j: int|
            0 <= i <= j < listed(log, tag, with_colors).len() ==> lex_le(
                listed(log, tag, with_colors)[j],
                listed(log, tag, with_colors)[i],
            ),
{
    let lines = compacted(log.filter(tagged(tag))).map_values(as_line(with_colors));
    let up = sorted_by(lines, by_itself());
    lemma_sorted_by(lines, by_itself());
    let down = up.reverse();
    assert forall|i: int, j: int| 0 <= i <= j < down.len() implies lex_le(down[j], down[i]) by {
        assert(lex_le(by_itself()(up[up.len() - 1 - j]), by_itself()(up[up.len() - 1 - i])));
    }
}

/// Whether one of `notes` belongs to the note `id`.
fn refers_to_id(notes: &Vec<&Note>, id: &str) -> (found: bool)
    ensures
        found == exists|k: int| 0 <= k < notes.len() && (#[trigger] notes[k])@.id == id@,
{
    let mut i: usize = 0;
    while i < notes.len()
        invariant
            i <= notes.len(),
            forall|k: int| 0 <= k < i ==> (#[trigger] notes[k])@.id != id@,
        decreases notes.len() - i,
    {
        if same_text(notes[i].get_id(), id) {
            return true;
        }
        i += 1;
    }
    false
}

/// The newest version of the note `id`, if the log holds one.
pub fn latest_version<'a>(log: &'a Vec<Note>, id: &str) -> (found: Option<&'a Note>)
    ensures
        match found {
            Some(note) => exists|p: int|
                is_newest(log.deep_view(), p) && note@ == #[trigger] log.deep_view()[p]
                    && note@.id == id@,
            None => !has_id(log.deep_view(), id@),
        },
{
    let mut i: usize = log.len();
    while i > 0
        invariant
            i <= log.len(),
            forall|k: int| i <= k < log.len() ==> log.deep_view()[k].id != id@,
        decreases i,
    {
        i -= 1;
        if same_text(log[i].get_id(), id) {
            assert(is_newest(log.deep_view(), i as int));
            assert(log[i as int]@ == log.deep_view()[i as int]);
            return Some(&log[i]);
        }
    }
    None
}

/// Lists a log for `tag`: of the versions that carry the label, or of all
/// versions where `tag` is empty, the newest of each note, rendered, the
/// greatest line first.
pub fn list(log: &Vec<Note>, tag: &str, with_colors: bool) -> (lines: Vec<String>)
    ensures
        lines.deep_view() == listed(log.deep_view(), tag@, with_colors),
{
    let ghost all = log.deep_view();
    let ghost wanted = tagged(tag@);
    let ghost end = log.len() as int;
    let mut newest_first: Vec<&Note> = Vec::new();
    let ghost mut shown: Seq<NoteView> = Seq::empty();
    let mut i: usize = log.len();
    proof {
        reveal(Seq::filter);
        assert(all.subrange(end, end) =~= Seq::empty());
        assert(shown.reverse() =~= compacted(all.subrange(end, end).filter(wanted)));
    }
    while i > 0
        invariant
            i <= log.len(),
            end == log.len(),
            all == log.deep_view(),
            wanted == tagged(tag@),
            shown.len() == newest_first.len(),
            forall|k: int| 0 <= k < shown.len() ==> (#[trigger] newest_first[k])@ == shown[k],
            shown.reverse() == compacted(all.subrange(i as int, end).filter(wanted)),
        decreases i,
    {
        i -= 1;
        let note = &log[i];
        let ghost tail = all.subrange(i + 1, end).filter(wanted);
        proof {
            assert(note@ == all[i as int]);
            assert(all.subrange(i as int, end) =~= seq![note@] + all.subrange(i + 1, end));
            lemma_filter_front(note@, all.subrange(i + 1, end), wanted);
            lemma_compacted_same_ids(tail, note@.id);
            lemma_has_id_reverse(shown, note@.id);
            assert((seq![note@] + tail).drop_first() =~= tail);
        }
        let seen = refers_to_id(&newest_first, note.get_id());
        proof {
            if seen {
                let k = choose|k: int|
                    0 <= k < newest_first.len() && (#[trigger] newest_first[k])@.id == note@.id;
                assert(shown[k].id == note@.id);
            }
            if has_id(shown, note@.id) {
                let k = choose|k: int| 0 <= k < shown.len() && #[trigger] shown[k].id == note@.id;
                assert(newest_first[k]@.id == note@.id);
            }
        }
        if !seen && (tag.is_empty() || note.has_tag(tag)) {
            newest_first.push(note);
            proof {
                assert(shown.push(note@).reverse() =~= seq![note@] + shown.reverse());
                shown = shown.push(note@);
            }
        }
    }
    assert(all.subrange(0, end) =~= all);
    let oldest_first = reversed(newest_first);
    let ghost kept = compacted(all.filter(wanted));
    assert(kept =~= shown.reverse());
    let mut lines: Vec<String> = Vec::new();
    let mut k: usize = 0;
    while k < oldest_first.len()
        invariant
            k <= oldest_first.len(),
            oldest_first.len() == kept.len(),
            forall|m: int| 0 <= m < kept.len() ==> (#[trigger] oldest_first[m])@ == kept[m],
            lines.len() == k,
            forall|m: int|
                0 <= m < k ==> (#[trigger] lines[m])@ == formatted(kept[m], with_colors),
        decreases oldest_first.len() - k,
    {
        lines.push(oldest_first[k].format(with_colors));
        k += 1;
    }
    assert(lines.deep_view() =~= kept.map_values(as_line(with_colors)));
    let ascending = sort_text(lines);
    let ghost up = ascending.deep_view();
    let descending = reversed(ascending);
    assert(descending.deep_view() =~= up.reverse());
    descending
}

/// Takes every version of the note `id` out of the log. The other versions
/// keep their order.
pub fn remove(log: Vec<Note>, id: &str) -> (out: Vec<Note>)
    ensures
        out.deep_view() == log.deep_view().filter(other_than(id@)),
{
    let ghost all = log.deep_view();
    let ghost keep = other_than(id@);
    let mut out: Vec<Note> = Vec::new();
    proof {
        reveal(Seq::filter);
        assert(all.subrange(0, 0) =~= Seq::empty());
        assert(out.deep_view() =~= all.subrange(0, 0).filter(keep));
    }
    for note in it: log
        invariant
            all == log.deep_view(),
            keep == other_than(id@),
            out.deep_view() == all.subrange(0, it.index() as int).filter(keep),
    {
        let ghost so_far = out.deep_view();
        proof {
            reveal(Seq::filter);
            assert(all.subrange(0, it.index() + 1).drop_last() =~= all.subrange(
                0,
                it.index() as int,
            ));
            assert(all.subrange(0, it.index() + 1).last() == note@);
        }
        if !same_text(note.get_id(), id) {
            out.push(note);
            assert(out.deep_view() =~= so_far.push(note@));
        }
    }
    assert(all.subrange(0, all.len() as int) =~= all);
    out
}

/// The labels that the log uses, each once, in ascending order.
pub fn get_tags(log: &Vec<Note>) -> (tags: Vec<String>)
    ensures
        strictly_ascending(tags.deep_view()),
        forall|tag: Seq<char>|
            tags.deep_view().contains(tag) <==> is_label_in(log.deep_view(), tag),
{
    let ghost all = log.deep_view();
    let mut found: Vec<String> = Vec::new();
    let mut i: usize = 0;
    while i < log.len()
        invariant
            i <= log.len(),
            all == log.deep_view(),
            found.deep_view().no_duplicates(),
            forall|tag: Seq<char>|
                found.deep_view().contains(tag) <==> is_label_in(all.subrange(0, i as int), tag),
        decreases log.len() - i,
    {
        let labels = log[i].get_tags();
        let ghost before = all.subrange(0, i as int);
        let mut j: usize = 0;
        while j < labels.len()
            invariant
                j <= labels.len(),
                i < log.len(),
                all == log.deep_view(),
                before == all.subrange(0, i as int),
                labels.deep_view() == all[i as int].labels,
                found.deep_view().no_duplicates(),
                forall|tag: Seq<char>|
                    found.deep_view().contains(tag) <==> (is_label_in(before, tag)
                        || labels.deep_view().subrange(0, j as int).contains(tag)),
            decreases labels.len() - j,
        {
            let ghost so_far = found.deep_view();
            let ghost label = labels.deep_view()[j as int];
            let ghost seen = labels.deep_view().subrange(0, j as int);
            let ghost seen_next = labels.deep_view().subrange(0, j + 1);
            assert(labels[j as int]@ == label);
            if !contains_text(&found, labels[j].as_str()) {
                found.push(labels[j].clone());
                assert(found.deep_view() =~= so_far.push(label));
            }
            proof {
                let now = found.deep_view();
                assert(seen_next =~= seen.push(label));
                assert forall|tag: Seq<char>| now.contains(tag) <==> (is_label_in(before, tag)
                    || seen_next.contains(tag)) by {
                    lemma_push_contains(seen, label, tag);
                    if so_far.contains(label) {
                        assert(now == so_far);
                    } else {
                        lemma_push_contains(so_far, label, tag);
                    }
                    assert(so_far.contains(tag) <==> (is_label_in(before, tag) || seen.contains(
                        tag,
                    )));
                }
            }
            j += 1;
        }
        proof {
            let next = all.subrange(0, i + 1);
            assert(labels.deep_view().subrange(0, labels.len() as int) =~= all[i as int].labels);
            assert forall|tag: Seq<char>|
                found.deep_view().contains(tag) <==> is_label_in(next, tag) by {
                if is_label_in(before, tag) {
                    let k = choose|k: int|
                        0 <= k < before.len() && (#[trigger] before[k]).labels.contains(tag);
                    assert(next[k].labels.contains(tag));
                }
                if all[i as int].labels.contains(tag) {
                    assert(next[i as int].labels.contains(tag));
                }
                if is_label_in(next, tag) {
                    let k = choose|k: int|
                        0 <= k < next.len() && (#[trigger] next[k]).labels.contains(tag);
                    if k < i {
                        assert(before[k].labels.contains(tag));
                    }
                }
            }
        }
        i += 1;
    }
    assert(all.subrange(0, log.len() as int) =~= all);
    let ghost unsorted = found.deep_view();
    let tags = sort_text(found);
    proof {
        lemma_sorted_strictly(unsorted);
        lemma_sorted_by(unsorted, by_itself());
        assert forall|tag: Seq<char>|
            tags.deep_view().contains(tag) <==> is_label_in(all, tag) by {
            assert(sorted_by(unsorted, by_itself()).contains(tag) <==> unsorted.contains(tag));
        }
    }
    tags
}

/// A sequence with one more item at its end holds that item and what it
/// held before.
proof fn lemma_push_contains<A>(s: Seq<A>, x: A, y: A)
    ensures
        s.push(x).contains(y) <==> (s.contains(y) || y == x),
{
    assert(s.push(x) =~= s.insert(s.len() as int, x));
    lemma_insert_contains(s, s.len() as int, x, y);
}

} // verus!
