//! Bounded windows over sequences: the most recent entries that fit.
use vstd::prelude::*;

verus! {

/// The last `m` entries of `s`, or all of `s` when it holds no more.
pub open spec fn window<A>(s: Seq<A>, m: nat) -> Seq<A> {
    if s.len() <= m {
        s
    } else {
        s.subrange(s.len() - m, s.len() as int)
    }
}

/// The window after appending `items` one at a time, oldest first, each
/// append followed by evicting the oldest entries beyond `m`.
pub open spec fn append_each<A>(start: Seq<A>, items: Seq<A>, m: nat) -> Seq<A>
    decreases items.len(),
{
    if items.len() == 0 {
        start
    } else {
        window(append_each(start, items.drop_last(), m).push(items.last()), m)
    }
}

/// Appending to a window and trimming again gives the window of the whole.
pub proof fn lemma_window_push<A>(s: Seq<A>, x: A, m: nat)
    ensures
        window(window(s, m).push(x), m) == window(s.push(x), m),
{
    if s.len() > m {
        assert(window(window(s, m).push(x), m) =~= window(s.push(x), m));
    } else {
        assert(window(s, m) == s);
    }
}

/// Appending items one at a time to a window gives the window of the
/// concatenation.
pub proof fn lemma_append_each<A>(start: Seq<A>, items: Seq<A>, m: nat)
    ensures
        append_each(window(start, m), items, m) == window(start + items, m),
    decreases items.len(),
{
    if items.len() == 0 {
        assert(start + items =~= start);
        if start.len() > m {
            assert(window(window(start, m), m) =~= window(start, m));
        }
    } else {
        lemma_append_each(start, items.drop_last(), m);
        lemma_window_push(start + items.drop_last(), items.last(), m);
        assert((start + items.drop_last()).push(items.last()) =~= start + items);
    }
}

} // verus!
