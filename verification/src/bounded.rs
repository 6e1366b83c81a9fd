//! The ring discipline shared by the bounded containers: pushing onto a
//! full container silently evicts the oldest entry, so the container
//! always holds the most recent entries, in arrival order.

use vstd::prelude::*;

verus! {

/// One bounded push: append, evicting the oldest entry at capacity.
pub open spec fn fifo_push<T>(h: Seq<T>, x: T, cap: int) -> Seq<T> {
    if h.len() < cap {
        h.push(x)
    } else {
        h.skip(1).push(x)
    }
}

/// All of `xs` pushed in order.
pub open spec fn fifo_push_all<T>(h: Seq<T>, xs: Seq<T>, cap: int) -> Seq<T>
    decreases xs.len(),
{
    if xs.len() == 0 {
        h
    } else {
        fifo_push_all(fifo_push(h, xs[0], cap), xs.skip(1), cap)
    }
}

/// The last `cap` entries of a sequence, or all of it when shorter.
pub open spec fn last_window<T>(s: Seq<T>, cap: int) -> Seq<T> {
    if s.len() <= cap {
        s
    } else {
        s.skip(s.len() - cap)
    }
}

/// Dropping entries that fall before the final window does not change it.
proof fn lemma_window_shift<T>(s: Seq<T>, t: Seq<T>, cap: int)
    requires
        cap >= 1,
    ensures
        last_window(last_window(s, cap) + t, cap) == last_window(s + t, cap),
{
    if s.len() <= cap {
        assert(last_window(s, cap) + t =~= s + t);
    } else {
        let d = s.len() - cap;
        assert(last_window(s, cap) + t =~= (s + t).skip(d));
        let u = s + t;
        let v = u.skip(d);
        if v.len() <= cap {
            // Everything left fits: t must be empty and the windows agree.
            assert(last_window(v, cap) =~= last_window(u, cap));
        } else {
            assert(v.skip(v.len() - cap) =~= u.skip(u.len() - cap));
        }
    }
}

/// The window law of a bounded container: after any sequence of pushes
/// it holds exactly the last `cap` of everything it ever held, in
/// arrival order — in particular never more than `cap` entries, and
/// after more than `cap` pushes from empty, exactly the last `cap`.
pub proof fn lemma_fifo_window<T>(h: Seq<T>, xs: Seq<T>, cap: int)
    requires
        cap >= 1,
        h.len() <= cap,
    ensures
        fifo_push_all(h, xs, cap) == last_window(h + xs, cap),
    decreases xs.len(),
{
    if xs.len() == 0 {
        assert(h + xs =~= h);
    } else {
        let h1 = fifo_push(h, xs[0], cap);
        assert(h1 =~= last_window(h + seq![xs[0]], cap)) by {
            if h.len() < cap {
                assert(h.push(xs[0]) =~= h + seq![xs[0]]);
            } else {
                assert(h.skip(1).push(xs[0]) =~= (h + seq![xs[0]]).skip(1));
            }
        }
        assert(h1.len() <= cap);
        lemma_fifo_window(h1, xs.skip(1), cap);
        lemma_window_shift(h + seq![xs[0]], xs.skip(1), cap);
        assert((h + seq![xs[0]]) + xs.skip(1) =~= h + xs);
    }
}

/// The window law from an empty container.
pub proof fn lemma_fifo_window_from_empty<T>(xs: Seq<T>, cap: int)
    requires
        cap >= 1,
    ensures
        fifo_push_all(Seq::empty(), xs, cap) == last_window(xs, cap),
        fifo_push_all(Seq::<T>::empty(), xs, cap).len() <= cap,
{
    lemma_fifo_window(Seq::empty(), xs, cap);
    assert(Seq::<T>::empty() + xs =~= xs);
}

} // verus!
