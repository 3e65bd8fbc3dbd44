//! Stable sorting by a text key: by date for a log, by the text itself for a
//! list of strings.

use vstd::prelude::*;
use crate::note::{Note, NoteView};
use crate::text::{lex_le, lemma_lex_le_total, lemma_lex_le_transitive, str_le};

verus! {

/// The key by which a log is ordered: the date of a version.
pub open spec fn by_date() -> spec_fn(NoteView) -> Seq<char> {
    |note: NoteView| note.date
}

/// The key by which a list of strings is ordered: the string itself.
pub open spec fn by_itself() -> spec_fn(Seq<char>) -> Seq<char> {
    |text: Seq<char>| text
}

/// The keys of `s` never go down from one position to a later one.
pub open spec fn ordered_by<A>(s: Seq<A>, key: spec_fn(A) -> Seq<char>) -> bool {
    forall|i: int, j: int| 0 <= i <= j < s.len() ==> lex_le(key(s[i]), key(s[j]))
}

/// `x` put into `s` in front of the first item whose key is not below
/// that of `x`, and at the end if there is none.
pub open spec fn inserted<A>(x: A, s: Seq<A>, key: spec_fn(A) -> Seq<char>) -> Seq<A>
    decreases s.len(),
{
    if s.len() == 0 {
        seq![x]
    } else if lex_le(key(x), key(s[0])) {
        seq![x] + s
    } else {
        seq![s[0]] + inserted(x, s.drop_first(), key)
    }
}

/// The items of `s` in ascending order of their keys. Items with equal keys
/// keep the order in which they stand in `s`.
pub open spec fn sorted_by<A>(s: Seq<A>, key: spec_fn(A) -> Seq<char>) -> Seq<A>
    decreases s.len(),
{
    if s.len() == 0 {
        s
    } else {
        inserted(s[0], sorted_by(s.drop_first(), key), key)
    }
}

/// Where `inserted` puts an item: at the first position whose key is not
/// below the item's key.
pub proof fn lemma_inserted_at<A>(x: A, s: Seq<A>, key: spec_fn(A) -> Seq<char>, p: int)
    requires
        0 <= p <= s.len(),
        forall|j: int| 0 <= j < p ==> !lex_le(key(x), key(#[trigger] s[j])),
        p < s.len() ==> lex_le(key(x), key(s[p])),
    ensures
        inserted(x, s, key) == s.insert(p, x),
    decreases s.len(),
{
    if s.len() > 0 && p > 0 {
        lemma_inserted_at(x, s.drop_first(), key, p - 1);
    }
}

/// Inserting adds one item and keeps all the others.
pub proof fn lemma_inserted_contains<A>(x: A, s: Seq<A>, key: spec_fn(A) -> Seq<char>, y: A)
    ensures
        inserted(x, s, key).len() == s.len() + 1,
        inserted(x, s, key).contains(y) <==> (y == x || s.contains(y)),
        inserted(x, s, key).to_multiset() == s.to_multiset().insert(x),
    decreases s.len(),
{
    broadcast use vstd::seq_lib::group_to_multiset_ensures;

    let r = inserted(x, s, key);
    if s.len() == 0 {
        assert(r =~= s.insert(0, x));
    } else if lex_le(key(x), key(s[0])) {
        assert(r =~= s.insert(0, x));
    } else {
        let rest = s.drop_first();
        let tail = inserted(x, rest, key);
        lemma_inserted_contains(x, rest, key, y);
        assert(r =~= tail.insert(0, s[0]));
        assert(s =~= rest.insert(0, s[0]));
        lemma_insert_contains(tail, 0, s[0], y);
        lemma_insert_contains(rest, 0, s[0], y);
    }
    lemma_insert_contains(s, 0, x, y);
}

/// A sequence with one more item put into it holds that item and what it
/// held before.
pub proof fn lemma_insert_contains<A>(s: Seq<A>, at: int, x: A, y: A)
    requires
        0 <= at <= s.len(),
    ensures
        s.insert(at, x).contains(y) <==> (y == x || s.contains(y)),
{
    let t = s.insert(at, x);
    if s.contains(y) {
        let k = choose|k: int| 0 <= k < s.len() && s[k] == y;
        assert(t[if k < at { k } else { k + 1 }] == y);
    }
    if y == x {
        assert(t[at] == y);
    }
    if t.contains(y) {
        let k = choose|k: int| 0 <= k < t.len() && t[k] == y;
        if k < at {
            assert(s[k] == y);
        } else if k > at {
            assert(s[k - 1] == y);
        }
    }
}

/// Inserting into an ordered sequence leaves it ordered.
pub proof fn lemma_inserted_ordered<A>(x: A, s: Seq<A>, key: spec_fn(A) -> Seq<char>)
    requires
        ordered_by(s, key),
    ensures
        ordered_by(inserted(x, s, key), key),
    decreases s.len(),
{
    let r = inserted(x, s, key);
    crate::text::lemma_lex_le_reflexive(key(x));
    if s.len() > 0 && lex_le(key(x), key(s[0])) {
        assert forall|i: int, j: int| 0 <= i <= j < r.len() implies lex_le(
            key(r[i]),
            key(r[j]),
        ) by {
            if i == 0 && j > 0 {
                lemma_lex_le_transitive(key(x), key(s[0]), key(s[j - 1]));
            }
        }
    } else if s.len() > 0 {
        let rest = s.drop_first();
        let tail = inserted(x, rest, key);
        lemma_inserted_ordered(x, rest, key);
        lemma_lex_le_total(key(x), key(s[0]));
        assert forall|i: int, j: int| 0 <= i <= j < r.len() implies lex_le(
            key(r[i]),
            key(r[j]),
        ) by {
            if i == 0 && j > 0 {
                lemma_inserted_contains(x, rest, key, tail[j - 1]);
            }
        }
    }
}

/// A sorted sequence is ordered, and holds the items of the sequence it
/// was made from, each as often as that one.
pub proof fn lemma_sorted_by<A>(s: Seq<A>, key: spec_fn(A) -> Seq<char>)
    ensures
        ordered_by(sorted_by(s, key), key),
        sorted_by(s, key).len() == s.len(),
        sorted_by(s, key).to_multiset() == s.to_multiset(),
        forall|y: A| sorted_by(s, key).contains(y) <==> s.contains(y),
    decreases s.len(),
{
    broadcast use vstd::seq_lib::group_to_multiset_ensures;

    if s.len() > 0 {
        let rest = s.drop_first();
        let inner = sorted_by(rest, key);
        lemma_sorted_by(rest, key);
        lemma_inserted_ordered(s[0], inner, key);
        lemma_inserted_contains(s[0], inner, key, s[0]);
        assert(s =~= rest.insert(0, s[0]));
        assert forall|y: A| sorted_by(s, key).contains(y) <==> s.contains(y) by {
            lemma_inserted_contains(s[0], inner, key, y);
            assert(rest.contains(y) ==> s.contains(y));
        }
    }
}

/// The test that an item has the key `wanted`.
pub open spec fn keyed<A>(key: spec_fn(A) -> Seq<char>, wanted: Seq<char>) -> spec_fn(A) -> bool {
    |item: A| key(item) == wanted
}

/// An item in front of a sequence adds itself to what a test keeps of the
/// sequence, if it passes the test, and nothing if it does not.
pub proof fn lemma_filter_front<A>(first: A, rest: Seq<A>, test: spec_fn(A) -> bool)
    ensures
        (seq![first] + rest).filter(test) == if test(first) {
            seq![first] + rest.filter(test)
        } else {
            rest.filter(test)
        },
{
    reveal_with_fuel(Seq::filter, 2);
    Seq::filter_distributes_over_add(seq![first], rest, test);
    assert(seq![first].filter(test) =~= if test(first) {
        seq![first]
    } else {
        Seq::empty()
    });
}

/// An inserted item goes in front of the items that have its key.
pub proof fn lemma_inserted_stable<A>(
    x: A,
    s: Seq<A>,
    key: spec_fn(A) -> Seq<char>,
    wanted: Seq<char>,
)
    ensures
        inserted(x, s, key).filter(keyed(key, wanted)) == (seq![x] + s).filter(keyed(key, wanted)),
    decreases s.len(),
{
    let test = keyed(key, wanted);
    if s.len() > 0 && !lex_le(key(x), key(s[0])) {
        let rest = s.drop_first();
        crate::text::lemma_lex_le_reflexive(key(x));
        lemma_inserted_stable(x, rest, key, wanted);
        lemma_filter_front(s[0], inserted(x, rest, key), test);
        lemma_filter_front(x, rest, test);
        assert(seq![s[0]] + rest =~= s);
    }
}

/// Sorting keeps items with equal keys in the order in which they stood:
/// the items that have a given key are the same before and after, in the
/// same order.
pub proof fn lemma_sorted_stable<A>(s: Seq<A>, key: spec_fn(A) -> Seq<char>, wanted: Seq<char>)
    ensures
        sorted_by(s, key).filter(keyed(key, wanted)) == s.filter(keyed(key, wanted)),
    decreases s.len(),
{
    if s.len() > 0 {
        let rest = s.drop_first();
        lemma_sorted_stable(rest, key, wanted);
        lemma_inserted_stable(s[0], sorted_by(rest, key), key, wanted);
        assert(seq![s[0]] + rest =~= s);
    }
}

/// Sorts a log by date, ascending. Versions with the same date keep their
/// order.
pub fn sort_by_date(log: Vec<Note>) -> (out: Vec<Note>)
    ensures
        out.deep_view() == sorted_by(log.deep_view(), by_date()),
{
    let ghost whole = log.deep_view();
    let mut rest = log;
    let mut out: Vec<Note> = Vec::new();
    while rest.len() > 0
        invariant
            rest.len() <= whole.len(),
            out.len() + rest.len() == whole.len(),
            rest.deep_view() == whole.subrange(0, rest.len() as int),
            out.deep_view() == sorted_by(
                whole.subrange(rest.len() as int, whole.len() as int),
                by_date(),
            ),
        decreases rest.len(),
    {
        let ghost before = rest.deep_view();
        let ghost sorted_tail = out.deep_view();
        let note = rest.pop().unwrap();
        let ghost k = rest.len() as int;
        assert(note@ == before[k]);
        assert(whole.subrange(k, whole.len() as int).drop_first() =~= whole.subrange(
            k + 1,
            whole.len() as int,
        ));
        let mut p: usize = 0;
        while p < out.len() && !str_le(note.get_date(), out[p].get_date())
            invariant
                p <= out.len(),
                out.deep_view() == sorted_tail,
                forall|j: int| 0 <= j < p ==> !lex_le(note@.date, (#[trigger] sorted_tail[j]).date),
            decreases out.len() - p,
        {
            p += 1;
        }
        proof {
            lemma_inserted_at(note@, sorted_tail, by_date(), p as int);
        }
        out.insert(p, note);
    }
    assert(whole.subrange(0, whole.len() as int) =~= whole);
    out
}

/// Sorts strings in ascending order.
pub fn sort_text(items: Vec<String>) -> (out: Vec<String>)
    ensures
        out.deep_view() == sorted_by(items.deep_view(), by_itself()),
{
    let ghost whole = items.deep_view();
    let mut rest = items;
    let mut out: Vec<String> = Vec::new();
    while rest.len() > 0
        invariant
            rest.len() <= whole.len(),
            out.len() + rest.len() == whole.len(),
            rest.deep_view() == whole.subrange(0, rest.len() as int),
            out.deep_view() == sorted_by(
                whole.subrange(rest.len() as int, whole.len() as int),
                by_itself(),
            ),
        decreases rest.len(),
    {
        let ghost before = rest.deep_view();
        let ghost sorted_tail = out.deep_view();
        let item = rest.pop().unwrap();
        let ghost k = rest.len() as int;
        assert(item@ == before[k]);
        assert(whole.subrange(k, whole.len() as int).drop_first() =~= whole.subrange(
            k + 1,
            whole.len() as int,
        ));
        let mut p: usize = 0;
        while p < out.len() && !str_le(item.as_str(), out[p].as_str())
            invariant
                p <= out.len(),
                out.deep_view() == sorted_tail,
                forall|j: int| 0 <= j < p ==> !lex_le(item@, #[trigger] sorted_tail[j]),
            decreases out.len() - p,
        {
            p += 1;
        }
        proof {
            lemma_inserted_at(item@, sorted_tail, by_itself(), p as int);
        }
        out.insert(p, item);
    }
    assert(whole.subrange(0, whole.len() as int) =~= whole);
    out
}

/// The items of `items` in the opposite order.
pub fn reversed<T>(items: Vec<T>) -> (out: Vec<T>)
    ensures
        out@ == items@.reverse(),
{
    let ghost whole = items@;
    let mut rest = items;
    let mut out: Vec<T> = Vec::new();
    while rest.len() > 0
        invariant
            rest.len() + out.len() == whole.len(),
            rest@ == whole.subrange(0, rest.len() as int),
            forall|k: int| 0 <= k < out.len() ==> out@[k] == whole[whole.len() - 1 - k],
        decreases rest.len(),
    {
        let item = rest.pop().unwrap();
        out.push(item);
    }
    out
}

} // verus!
