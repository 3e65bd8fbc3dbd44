//! Reconciling a local and a remote log around the watermark of the last
//! synchronisation.

use vstd::prelude::*;
use crate::metadata::{Metadata, MetadataView};
use crate::note::{Note, NoteView};
use crate::sorting::{by_date, lemma_sorted_by, ordered_by, sort_by_date, sorted_by};
use crate::text::{lex_le, lex_lt, str_le};

verus! {

/// A version dated `date` is news to a replica whose watermark is
/// `watermark`: its date lies strictly after the watermark. An empty
/// watermark lies before every date.
pub open spec fn is_news(date: Seq<char>, watermark: Seq<char>) -> bool {
    watermark.len() == 0 || lex_lt(watermark, date)
}

/// The test `is_news` against a fixed watermark, as a predicate on versions.
pub open spec fn news_since(watermark: Seq<char>) -> spec_fn(NoteView) -> bool {
    |note: NoteView| is_news(note.date, watermark)
}

/// The local log after a merge: the local versions and the remote versions
/// that are news, ordered by date where the local log held anything.
/// Versions with equal dates keep their order, local ones first.
pub open spec fn merged_local(
    local: Seq<NoteView>,
    remote: Seq<NoteView>,
    watermark: Seq<char>,
) -> Seq<NoteView> {
    let gathered = local + remote.filter(news_since(watermark));
    if local.len() > 0 {
        sorted_by(gathered, by_date())
    } else {
        gathered
    }
}

/// The remote log after a merge: the remote versions, followed by the local
/// versions that are news.
pub open spec fn merged_remote(
    local: Seq<NoteView>,
    remote: Seq<NoteView>,
    watermark: Seq<char>,
) -> Seq<NoteView> {
    remote + local.filter(news_since(watermark))
}

/// The replica's state after a merge: the watermark moves to the date of the
/// last version of the merged local log where the local log held anything,
/// and stays where it was otherwise.
pub open spec fn merged_metadata(
    local: Seq<NoteView>,
    remote: Seq<NoteView>,
    metadata: MetadataView,
) -> MetadataView {
    if local.len() > 0 {
        MetadataView {
            hash: metadata.hash,
            last_snapshot: Some(merged_local(local, remote, metadata.watermark()).last().date),
        }
    } else {
        metadata
    }
}

/// A merge loses nothing of the local log.
pub proof fn lemma_merge_keeps_local(
    local: Seq<NoteView>,
    remote: Seq<NoteView>,
    watermark: Seq<char>,
    note: NoteView,
)
    requires
        local.contains(note),
    ensures
        merged_local(local, remote, watermark).contains(note),
{
    let gathered = local + remote.filter(news_since(watermark));
    let i = choose|i: int| 0 <= i < local.len() && local[i] == note;
    assert(gathered[i] == note);
    assert(gathered.contains(note));
    lemma_sorted_by(gathered, by_date());
}

/// A first merge loses nothing: where the replica has no watermark, or an
/// empty one, every version of the local log and every version of the
/// remote log stands in the merged local log.
pub proof fn lemma_first_merge_conserves(
    local: Seq<NoteView>,
    remote: Seq<NoteView>,
    metadata: MetadataView,
    note: NoteView,
)
    requires
        metadata.watermark().len() == 0,
        local.contains(note) || remote.contains(note),
    ensures
        merged_local(local, remote, metadata.watermark()).contains(note),
{
    let watermark = metadata.watermark();
    let news = remote.filter(news_since(watermark));
    let gathered = local + news;
    if local.contains(note) {
        lemma_merge_keeps_local(local, remote, watermark, note);
    } else {
        let i = choose|i: int| 0 <= i < remote.len() && remote[i] == note;
        remote.lemma_filter_contains(news_since(watermark), i);
        let k = choose|k: int| 0 <= k < news.len() && news[k] == note;
        assert(gathered[local.len() + k] == note);
        assert(gathered.contains(note));
        lemma_sorted_by(gathered, by_date());
    }
}

/// A merge invents nothing: whatever the merged local log holds stood in
/// the local log or in the remote one.
pub proof fn lemma_merge_invents_nothing(
    local: Seq<NoteView>,
    remote: Seq<NoteView>,
    watermark: Seq<char>,
    note: NoteView,
)
    requires
        merged_local(local, remote, watermark).contains(note),
    ensures
        local.contains(note) || (remote.contains(note) && is_news(note.date, watermark)),
{
    let news = remote.filter(news_since(watermark));
    let gathered = local + news;
    lemma_sorted_by(gathered, by_date());
    assert(sorted_by(gathered, by_date()).contains(note) <==> gathered.contains(note));
    let i = choose|i: int| 0 <= i < gathered.len() && gathered[i] == note;
    if i >= local.len() {
        assert(news[i - local.len()] == note);
        remote.lemma_filter_pred(news_since(watermark), i - local.len());
        remote.lemma_filter_contains_rev(news_since(watermark), note);
    } else {
        assert(local[i] == note);
    }
}

/// Where the local log held anything, the watermark after a merge is the
/// latest date of the merged local log: a date of that log, with no later
/// date in it.
pub proof fn lemma_watermark_advances(
    local: Seq<NoteView>,
    remote: Seq<NoteView>,
    metadata: MetadataView,
)
    requires
        local.len() > 0,
    ensures
        merged_local(local, remote, metadata.watermark()).len() > 0,
        merged_metadata(local, remote, metadata).last_snapshot == Some(
            merged_local(local, remote, metadata.watermark()).last().date,
        ),
        forall|i: int|
            0 <= i < merged_local(local, remote, metadata.watermark()).len() ==> lex_le(
                (#[trigger] merged_local(local, remote, metadata.watermark())[i]).date,
                merged_metadata(local, remote, metadata).watermark(),
            ),
{
    let gathered = local + remote.filter(news_since(metadata.watermark()));
    lemma_sorted_by(gathered, by_date());
}

/// A merge from an empty local log leaves the replica's state as it was.
pub proof fn lemma_watermark_stays(
    local: Seq<NoteView>,
    remote: Seq<NoteView>,
    metadata: MetadataView,
)
    requires
        local.len() == 0,
    ensures
        merged_metadata(local, remote, metadata) == metadata,
{
}

/// A copy of a log, version by version.
pub fn copy_log(log: &Vec<Note>) -> (out: Vec<Note>)
    ensures
        out.deep_view() == log.deep_view(),
{
    let mut out: Vec<Note> = Vec::new();
    let mut i: usize = 0;
    while i < log.len()
        invariant
            i <= log.len(),
            out.len() == i,
            forall|k: int| 0 <= k < i ==> out[k]@ == log[k]@,
        decreases log.len() - i,
    {
        out.push(log[i].clone());
        i += 1;
    }
    out
}

/// Appends to `target` a copy of each version of `source` that is news
/// against `watermark`, in the order of `source`.
pub fn append_news(target: &mut Vec<Note>, source: &Vec<Note>, watermark: &str)
    ensures
        final(target).deep_view() == old(target).deep_view() + source.deep_view().filter(
            news_since(watermark@),
        ),
{
    let ghost start = target.deep_view();
    let ghost all = source.deep_view();
    let ghost news = news_since(watermark@);
    let mut i: usize = 0;
    proof {
        reveal(Seq::filter);
    }
    while i < source.len()
        invariant
            i <= source.len(),
            all == source.deep_view(),
            news == news_since(watermark@),
            target.deep_view() == start + all.subrange(0, i as int).filter(news),
        decreases source.len() - i,
    {
        let ghost so_far = target.deep_view();
        proof {
            reveal(Seq::filter);
            assert(all.subrange(0, i + 1).drop_last() =~= all.subrange(0, i as int));
        }
        if watermark.is_empty() || !str_le(source[i].get_date(), watermark) {
            target.push(source[i].clone());
            assert(target.deep_view() =~= so_far.push(source[i as int]@));
        }
        i += 1;
    }
    assert(all.subrange(0, source.len() as int) =~= all);
}

/// Reconciles the local and the remote log. Returns the new local log, the
/// new remote log and the replica's new state, in this order. Neither log
/// comes out compacted.
pub fn merge(local: &Vec<Note>, remote: &Vec<Note>, metadata: Metadata) -> (out: (
    Vec<Note>,
    Vec<Note>,
    Metadata,
))
    ensures
        out.0.deep_view() == merged_local(
            local.deep_view(),
            remote.deep_view(),
            metadata@.watermark(),
        ),
        out.1.deep_view() == merged_remote(
            local.deep_view(),
            remote.deep_view(),
            metadata@.watermark(),
        ),
        out.2@ == merged_metadata(local.deep_view(), remote.deep_view(), metadata@),
        local.len() == 0 ==> out.2@ == metadata@,
{
    let mut metadata = metadata;
    let mut new_local = copy_log(local);
    append_news(&mut new_local, remote, metadata.get_last_snapshot());
    let mut new_remote = copy_log(remote);
    append_news(&mut new_remote, local, metadata.get_last_snapshot());
    if local.len() > 0 {
        new_local = sort_by_date(new_local);
        let last = new_local.len() - 1;
        metadata.set_last_snapshot(new_local[last].get_date());
    }
    (new_local, new_remote, metadata)
}

} // verus!
