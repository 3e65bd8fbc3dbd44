//! Compaction: a log reduced to the newest version of each note.

use vstd::prelude::*;
use crate::note::{Note, NoteView};
use crate::sorting::reversed;
use crate::text::same_text;

verus! {

/// Some version in `log` belongs to the note `id`.
pub open spec fn has_id(log: Seq<NoteView>, id: Seq<char>) -> bool {
    exists|j: int| 0 <= j < log.len() && #[trigger] log[j].id == id
}

/// Position `i` of `log` holds the newest version of its note: no later
/// position holds a version with the same `id`.
pub open spec fn is_newest(log: Seq<NoteView>, i: int) -> bool {
    &&& 0 <= i < log.len()
    &&& forall|j: int| i < j < log.len() ==> #[trigger] log[j].id != log[i].id
}

/// No two versions in `log` belong to the same note.
pub open spec fn distinct_ids(log: Seq<NoteView>) -> bool {
    forall|i: int, j: int|
        0 <= i < j < log.len() ==> #[trigger] log[i].id != #[trigger] log[j].id
}

/// The log with every superseded version taken out: a version stays exactly
/// when no later version has its `id`, and what stays keeps its order.
pub open spec fn compacted(log: Seq<NoteView>) -> Seq<NoteView>
    decreases log.len(),
{
    if log.len() == 0 {
        Seq::empty()
    } else if has_id(log.drop_first(), log[0].id) {
        compacted(log.drop_first())
    } else {
        seq![log[0]] + compacted(log.drop_first())
    }
}

/// Compaction neither loses a note nor invents one.
pub proof fn lemma_compacted_same_ids(log: Seq<NoteView>, id: Seq<char>)
    ensures
        has_id(compacted(log), id) <==> has_id(log, id),
    decreases log.len(),
{
    if log.len() > 0 {
        let rest = log.drop_first();
        lemma_compacted_same_ids(rest, id);
        lemma_compacted_same_ids(rest, log[0].id);
        let c = compacted(log);
        if has_id(log, id) {
            let j = choose|j: int| 0 <= j < log.len() && #[trigger] log[j].id == id;
            if j > 0 {
                assert(rest[j - 1].id == id);
            }
            if has_id(rest, id) {
                let k = choose|k: int|
                    0 <= k < compacted(rest).len() && #[trigger] compacted(rest)[k].id == id;
                if !has_id(rest, log[0].id) {
                    assert(c[k + 1].id == id);
                }
            } else {
                assert(j == 0);
                assert(c[0].id == id);
            }
        }
        if has_id(c, id) {
            let k = choose|k: int| 0 <= k < c.len() && #[trigger] c[k].id == id;
            if has_id(rest, log[0].id) {
                let j = choose|j: int| 0 <= j < rest.len() && #[trigger] rest[j].id == id;
                assert(log[j + 1].id == id);
            } else if k == 0 {
                assert(log[0].id == id);
            } else {
                assert(compacted(rest)[k - 1].id == id);
                let j = choose|j: int| 0 <= j < rest.len() && #[trigger] rest[j].id == id;
                assert(log[j + 1].id == id);
            }
        }
    }
}

/// A compacted log holds one version of each note.
pub proof fn lemma_compacted_distinct(log: Seq<NoteView>)
    ensures
        distinct_ids(compacted(log)),
    decreases log.len(),
{
    if log.len() > 0 {
        let rest = log.drop_first();
        lemma_compacted_distinct(rest);
        if !has_id(rest, log[0].id) {
            lemma_compacted_same_ids(rest, log[0].id);
            let c = compacted(log);
            assert forall|i: int, j: int| 0 <= i < j < c.len() implies #[trigger] c[i].id
                != #[trigger] c[j].id by {
                if i == 0 {
                    assert(compacted(rest)[j - 1].id == c[j].id);
                } else {
                    assert(compacted(rest)[i - 1].id == c[i].id);
                    assert(compacted(rest)[j - 1].id == c[j].id);
                }
            }
        }
    }
}

/// A log that holds one version of each note is its own compaction.
pub proof fn lemma_compacted_of_distinct(log: Seq<NoteView>)
    requires
        distinct_ids(log),
    ensures
        compacted(log) == log,
    decreases log.len(),
{
    if log.len() > 0 {
        let rest = log.drop_first();
        assert forall|i: int, j: int| 0 <= i < j < rest.len() implies #[trigger] rest[i].id
            != #[trigger] rest[j].id by {
            assert(rest[i].id == log[i + 1].id);
            assert(rest[j].id == log[j + 1].id);
        }
        lemma_compacted_of_distinct(rest);
        if has_id(rest, log[0].id) {
            let j = choose|j: int| 0 <= j < rest.len() && #[trigger] rest[j].id == log[0].id;
            assert(log[j + 1].id == log[0].id);
        }
        assert(seq![log[0]] + rest =~= log);
    } else {
        assert(compacted(log) =~= log);
    }
}

/// Compacting twice gives what compacting once gives.
pub proof fn lemma_compaction_idempotent(log: Seq<NoteView>)
    ensures
        compacted(compacted(log)) == compacted(log),
{
    lemma_compacted_distinct(log);
    lemma_compacted_of_distinct(compacted(log));
}

/// The version at a newest position survives compaction, and it is the only
/// survivor of its note.
pub proof fn lemma_compaction_keeps_newest(log: Seq<NoteView>, p: int)
    requires
        is_newest(log, p),
    ensures
        compacted(log).contains(log[p]),
        forall|k: int|
            0 <= k < compacted(log).len() && #[trigger] compacted(log)[k].id == log[p].id
                ==> compacted(log)[k] == log[p],
    decreases log.len(),
{
    let rest = log.drop_first();
    let c = compacted(log);
    lemma_compacted_distinct(log);
    if p == 0 {
        if has_id(rest, log[0].id) {
            let j = choose|j: int| 0 <= j < rest.len() && #[trigger] rest[j].id == log[0].id;
            assert(log[j + 1].id == log[0].id);
        }
        assert(c[0] == log[0]);
    } else {
        assert forall|j: int| p - 1 < j < rest.len() implies #[trigger] rest[j].id != rest[p
            - 1].id by {
            assert(log[j + 1].id != log[p].id);
        }
        lemma_compaction_keeps_newest(rest, p - 1);
        let k = choose|k: int| 0 <= k < compacted(rest).len() && compacted(rest)[k] == rest[p - 1];
        if has_id(rest, log[0].id) {
            assert(c[k] == log[p]);
        } else {
            assert(c[k + 1] == log[p]);
        }
    }
    assert forall|k: int| 0 <= k < c.len() && #[trigger] c[k].id == log[p].id implies c[k]
        == log[p] by {
        let w = choose|w: int| 0 <= w < c.len() && c[w] == log[p];
        if k < w {
            assert(c[k].id != c[w].id);
        } else if w < k {
            assert(c[w].id != c[k].id);
        }
    }
}

/// The positions of `log` that hold the newest version of their note, in
/// ascending order.
pub open spec fn newest_positions(log: Seq<NoteView>) -> Seq<int>
    decreases log.len(),
{
    if log.len() == 0 {
        Seq::empty()
    } else {
        let later = newest_positions(log.drop_first()).map_values(|p: int| p + 1);
        if has_id(log.drop_first(), log[0].id) {
            later
        } else {
            seq![0int] + later
        }
    }
}

/// Compaction takes the versions at the newest positions, all of them and
/// no others, and leaves them in the order of their positions.
pub proof fn lemma_compaction_by_position(log: Seq<NoteView>)
    ensures
        newest_positions(log).len() == compacted(log).len(),
        forall|k: int|
            0 <= k < compacted(log).len() ==> is_newest(log, #[trigger] newest_positions(log)[k])
                && compacted(log)[k] == log[newest_positions(log)[k]],
        forall|i: int, j: int|
            0 <= i < j < newest_positions(log).len() ==> newest_positions(log)[i]
                < newest_positions(log)[j],
        forall|p: int| is_newest(log, p) ==> newest_positions(log).contains(p),
    decreases log.len(),
{
    if log.len() > 0 {
        let rest = log.drop_first();
        let inner = newest_positions(rest);
        let later = inner.map_values(|p: int| p + 1);
        let at = newest_positions(log);
        let c = compacted(log);
        let shift: int = if has_id(rest, log[0].id) { 0 } else { 1 };
        lemma_compaction_by_position(rest);
        assert forall|k: int| 0 <= k < later.len() implies is_newest(log, #[trigger] later[k])
            && log[later[k]] == compacted(rest)[k] && at[k + shift] == later[k] by {
            let q = inner[k];
            assert(is_newest(rest, q));
            assert forall|j: int| q + 1 < j < log.len() implies #[trigger] log[j].id != log[q
                + 1].id by {
                assert(rest[j - 1].id != rest[q].id);
            }
        }
        if shift == 1 {
            assert forall|j: int| 0 < j < log.len() implies #[trigger] log[j].id != log[0].id by {
                assert(rest[j - 1].id == log[j].id);
            }
            assert(at[0] == 0 && c[0] == log[0]);
        }
        assert forall|k: int| 0 <= k < c.len() implies is_newest(log, #[trigger] at[k]) && c[k]
            == log[at[k]] by {
            if k >= shift {
                assert(at[k] == later[k - shift]);
                assert(c[k] == compacted(rest)[k - shift]);
            }
        }
        assert forall|i: int, j: int| 0 <= i < j < at.len() implies at[i] < at[j] by {
            assert(at[j] == later[j - shift]);
            assert(later[j - shift] == inner[j - shift] + 1);
            assert(is_newest(rest, inner[j - shift]));
            if i >= shift {
                assert(at[i] == later[i - shift]);
                assert(inner[i - shift] < inner[j - shift]);
            }
        }
        assert forall|p: int| is_newest(log, p) implies at.contains(p) by {
            if p == 0 {
                if has_id(rest, log[0].id) {
                    let j = choose|j: int| 0 <= j < rest.len() && #[trigger] rest[j].id == log[0].id;
                    assert(log[j + 1].id == log[0].id);
                }
                assert(at[0] == 0);
            } else {
                assert forall|j: int| p - 1 < j < rest.len() implies #[trigger] rest[j].id
                    != rest[p - 1].id by {
                    assert(log[j + 1].id != log[p].id);
                }
                assert(is_newest(rest, p - 1));
                let k = choose|k: int| 0 <= k < inner.len() && inner[k] == p - 1;
                assert(later[k] == p);
                assert(at[k + shift] == p);
            }
        }
    }
}

/// Whether some version in `log` belongs to the note `id`.
pub fn contains_id(log: &Vec<Note>, id: &str) -> (found: bool)
    ensures
        found == has_id(log.deep_view(), id@),
{
    let mut i: usize = 0;
    while i < log.len()
        invariant
            i <= log.len(),
            forall|k: int| 0 <= k < i ==> log.deep_view()[k].id != id@,
        decreases log.len() - i,
    {
        if same_text(log[i].get_id(), id) {
            assert(log.deep_view()[i as int].id == id@);
            return true;
        }
        i += 1;
    }
    false
}

/// Reduces a log to the newest version of each note. The survivors keep the
/// order in which they stood in `log`.
pub fn compact(log: Vec<Note>) -> (kept: Vec<Note>)
    ensures
        kept.deep_view() == compacted(log.deep_view()),
{
    let ghost whole = log.deep_view();
    let mut rest = log;
    let mut newest_first: Vec<Note> = Vec::new();
    assert(whole.subrange(whole.len() as int, whole.len() as int) =~= Seq::empty());
    assert(newest_first.deep_view().reverse() =~= Seq::empty());
    while rest.len() > 0
        invariant
            rest.len() <= whole.len(),
            rest.deep_view() == whole.subrange(0, rest.len() as int),
            newest_first.deep_view().reverse() == compacted(
                whole.subrange(rest.len() as int, whole.len() as int),
            ),
        decreases rest.len(),
    {
        let ghost before = rest.deep_view();
        let ghost kept_before = newest_first.deep_view();
        let note = rest.pop().unwrap();
        let ghost k = rest.len() as int;
        let ghost tail = whole.subrange(k + 1, whole.len() as int);
        let ghost from_here = whole.subrange(k, whole.len() as int);
        assert(note@ == before[k]);
        assert(rest.deep_view() =~= whole.subrange(0, k));
        assert(from_here.drop_first() =~= tail);
        assert(from_here[0] == note@);
        let seen = contains_id(&newest_first, note.get_id());
        proof {
            lemma_compacted_same_ids(tail, note@.id);
            lemma_has_id_reverse(kept_before, note@.id);
        }
        if !seen {
            newest_first.push(note);
            assert(newest_first.deep_view() =~= kept_before.push(note@));
            assert(kept_before.push(note@).reverse() =~= seq![note@] + kept_before.reverse());
        }
    }
    assert(whole.subrange(0, whole.len() as int) =~= whole);
    let ghost backwards = newest_first.deep_view();
    let kept = reversed(newest_first);
    assert(kept.deep_view() =~= backwards.reverse());
    kept
}

/// A note occurs in a log exactly when it occurs in the log read backwards.
pub proof fn lemma_has_id_reverse(log: Seq<NoteView>, id: Seq<char>)
    ensures
        has_id(log.reverse(), id) <==> has_id(log, id),
{
    let r = log.reverse();
    if has_id(log, id) {
        let j = choose|j: int| 0 <= j < log.len() && #[trigger] log[j].id == id;
        assert(r[log.len() - 1 - j].id == id);
    }
    if has_id(r, id) {
        let j = choose|j: int| 0 <= j < r.len() && #[trigger] r[j].id == id;
        assert(log[log.len() - 1 - j].id == id);
    }
}

} // verus!
