//! Integer logic of the feature stage: the sliding sample window that cuts
//! the depth stream into feature windows, the pore (falling-edge) count, and
//! the partition of a window into the sub-windows of the humping index.

use vstd::prelude::*;
use vstd::arithmetic::div_mod::{
    lemma_fundamental_div_mod, lemma_fundamental_div_mod_converse_div,
    lemma_fundamental_div_mod_converse_mod,
};

verus! {

/// Buffers samples and hands out a full window every `window` samples.
pub struct SampleWindow<T> {
    window: usize,
    buf: Vec<T>,
}

/// How many samples are pending after one more is pushed onto `pending`
/// samples of a window of size `w`.
pub open spec fn next_pending_len(w: nat, pending: nat) -> nat {
    if pending + 1 >= w {
        0
    } else {
        pending + 1
    }
}

/// Pending samples after `n` pushes onto a fresh window of size `w`.
pub open spec fn pending_after(w: nat, n: nat) -> nat
    decreases n,
{
    if n == 0 {
        0
    } else {
        next_pending_len(w, pending_after(w, (n - 1) as nat))
    }
}

/// Windows handed out by `n` pushes onto a fresh window of size `w`.
pub open spec fn windows_after(w: nat, n: nat) -> nat
    decreases n,
{
    if n == 0 {
        0
    } else {
        let p = pending_after(w, (n - 1) as nat);
        windows_after(w, (n - 1) as nat) + if p + 1 >= w {
            1nat
        } else {
            0nat
        }
    }
}

impl<T> SampleWindow<T> {
    /// The window size.
    pub closed spec fn size(&self) -> nat {
        self.window as nat
    }

    /// The samples pushed since the last full window, oldest first.
    pub closed spec fn pending(&self) -> Seq<T> {
        self.buf@
    }

    /// Fewer samples pending than make a window (none at all for size 0).
    pub open spec fn wf(&self) -> bool {
        self.pending().len() < self.size() || self.pending().len() == 0
    }

    /// An empty window of `window` samples.
    pub fn new(window: usize) -> (w: Self)
        ensures
            w.size() == window,
            w.pending() == Seq::<T>::empty(),
            w.wf(),
    {
        SampleWindow { window, buf: Vec::new() }
    }

    /// The window size.
    pub fn window(&self) -> (w: usize)
        ensures
            w == self.size(),
    {
        self.window
    }

    /// Pushes one sample. When this completes a window, returns every pending
    /// sample, oldest first, and starts over empty; otherwise returns `None`.
    pub fn push(&mut self, d: T) -> (r: Option<Vec<T>>)
        ensures
            final(self).size() == old(self).size(),
            final(self).pending().len() == next_pending_len(
                old(self).size(),
                old(self).pending().len(),
            ),
            old(self).pending().len() + 1 >= old(self).size() ==> {
                &&& r matches Some(v) && v@ == old(self).pending().push(d)
                &&& final(self).pending() == Seq::<T>::empty()
            },
            old(self).pending().len() + 1 < old(self).size() ==> {
                &&& r is None
                &&& final(self).pending() == old(self).pending().push(d)
            },
            old(self).wf() ==> final(self).wf(),
            old(self).wf() && old(self).size() > 0 && r is Some ==> r->0@.len() == old(self).size(),
    {
        self.buf.push(d);
        if self.buf.len() < self.window {
            return None;
        }
        let mut win: Vec<T> = Vec::new();
        std::mem::swap(&mut win, &mut self.buf);
        Some(win)
    }
}

/// A window of size `w > 0` fed `n` samples from empty has handed out `n / w`
/// windows and holds the last `n % w` samples.
pub proof fn law_window_cadence(w: nat, n: nat)
    requires
        w > 0,
    ensures
        pending_after(w, n) == n % w,
        windows_after(w, n) == n / w,
    decreases n,
{
    if n == 0 {
        assert(0nat % w == 0) by {
            lemma_fundamental_div_mod_converse_mod(0, w as int, 0, 0);
        }
        assert(0nat / w == 0) by {
            lemma_fundamental_div_mod_converse_div(0, w as int, 0, 0);
        }
    } else {
        let m = (n - 1) as nat;
        law_window_cadence(w, m);
        let p = m % w;
        let e = m / w;
        lemma_fundamental_div_mod(m as int, w as int);
        assert(m == w * e + p);
        if p + 1 >= w {
            assert(n == (e + 1) * w + 0) by (nonlinear_arith)
                requires
                    m == w * e + p,
                    n == m + 1,
                    p + 1 == w,
            ;
            lemma_fundamental_div_mod_converse_mod(n as int, w as int, (e + 1) as int, 0);
            lemma_fundamental_div_mod_converse_div(n as int, w as int, (e + 1) as int, 0);
        } else {
            assert(n == e * w + (p + 1)) by (nonlinear_arith)
                requires
                    m == w * e + p,
                    n == m + 1,
            ;
            lemma_fundamental_div_mod_converse_mod(n as int, w as int, e as int, (p + 1) as int);
            lemma_fundamental_div_mod_converse_div(n as int, w as int, e as int, (p + 1) as int);
        }
    }
}

/// Number of `true` flags in `s`.
pub open spec fn count_true(s: Seq<bool>) -> nat
    decreases s.len(),
{
    if s.len() == 0 {
        0
    } else {
        count_true(s.drop_last()) + if s.last() {
            1nat
        } else {
            0nat
        }
    }
}

/// Counts the `true` flags: how many samples of a window lie above the
/// penetration threshold, how many adjacent steps exceed the spike delta, or
/// how many samples lie near a given one.
pub fn count_flags(flags: &[bool]) -> (n: usize)
    ensures
        n == count_true(flags@),
        n == flags@.filter(|b: bool| b).len(),
        n <= flags@.len(),
{
    proof {
        law_count_true_is_true_flags(flags@);
    }
    let mut count: usize = 0;
    let mut i: usize = 0;
    while i < flags.len()
        invariant
            i <= flags@.len(),
            count <= i,
            count == count_true(flags@.take(i as int)),
        decreases flags@.len() - i,
    {
        assert(flags@.take(i + 1).drop_last() =~= flags@.take(i as int));
        if flags[i] {
            count = count + 1;
        }
        i = i + 1;
    }
    assert(flags@.take(flags@.len() as int) =~= flags@);
    count
}

/// `count_true` counts exactly the `true` flags: it is the length of the
/// subsequence of `true` flags.
pub proof fn law_count_true_is_true_flags(s: Seq<bool>)
    ensures
        count_true(s) == s.filter(|b: bool| b).len(),
    decreases s.len(),
{
    if s.len() > 0 {
        let t = s.drop_last();
        law_count_true_is_true_flags(t);
        assert(t.push(s.last()) =~= s);
        t.lemma_filter_len_push(|b: bool| b, s.last());
    }
}

/// The adjacent pairs of `s` that go from `true` to `false`, as flags.
pub open spec fn falls(s: Seq<bool>) -> Seq<bool> {
    Seq::new(if s.len() == 0 { 0 } else { (s.len() - 1) as nat }, |i: int| s[i] && !s[i + 1])
}

/// `falling_edges` counts exactly the indices `i` where `s[i]` holds and
/// `s[i + 1]` does not.
pub proof fn law_falling_edges_counts_falls(s: Seq<bool>)
    ensures
        falling_edges(s) == falls(s).filter(|b: bool| b).len(),
    decreases s.len(),
{
    if s.len() >= 2 {
        let t = s.drop_last();
        law_falling_edges_counts_falls(t);
        let last = s[s.len() - 2] && !s[s.len() - 1];
        assert(falls(t).push(last) =~= falls(s));
        falls(t).lemma_filter_len_push(|b: bool| b, last);
    } else {
        assert(falls(s) =~= Seq::<bool>::empty());
    }
}

/// Number of places where `s` goes from `true` to `false`.
pub open spec fn falling_edges(s: Seq<bool>) -> nat
    decreases s.len(),
{
    if s.len() < 2 {
        0
    } else {
        falling_edges(s.drop_last()) + if s[s.len() - 2] && !s[s.len() - 1] {
            1nat
        } else {
            0nat
        }
    }
}

/// Counts the places where `above` goes from `true` to `false`: the pore
/// count of a window, given which valid samples lie above the penetration
/// threshold.
pub fn count_falling_edges(above: &[bool]) -> (n: usize)
    ensures
        n == falling_edges(above@),
        n == falls(above@).filter(|b: bool| b).len(),
{
    proof {
        law_falling_edges_counts_falls(above@);
    }
    let mut count: usize = 0;
    let mut prev_above = false;
    let mut i: usize = 0;
    while i < above.len()
        invariant
            i <= above@.len(),
            count <= i,
            count == falling_edges(above@.take(i as int)),
            prev_above == (i > 0 && above@[i - 1]),
        decreases above@.len() - i,
    {
        let now_above = above[i];
        assert(above@.take(i + 1).drop_last() =~= above@.take(i as int));
        if prev_above && !now_above {
            count = count + 1;
        }
        prev_above = now_above;
        i = i + 1;
    }
    assert(above@.take(above@.len() as int) =~= above@);
    count
}

/// Number of sub-windows of a window of `n` samples: eight, or fewer for
/// short windows.
pub open spec fn sub_window_count(n: nat) -> nat {
    if n >= 8 {
        8
    } else if n == 0 {
        1
    } else {
        n
    }
}

/// Samples per sub-window of a window of `n` samples (at least one).
pub open spec fn sub_window_len(n: nat) -> nat {
    if n / sub_window_count(n) == 0 {
        1
    } else {
        n / sub_window_count(n)
    }
}

/// Sub-window `k` of a window of `n` samples: `per` samples from `k * per`,
/// cut at `n`.
pub open spec fn sub_window(n: nat, k: nat) -> (nat, nat) {
    let per = sub_window_len(n);
    (k * per, if (k + 1) * per <= n {
        (k + 1) * per
    } else {
        n
    })
}

proof fn lemma_sub_window_bounds(n: nat, k: nat)
    requires
        n >= 1,
        k < sub_window_count(n),
    ensures
        k * sub_window_len(n) < (k + 1) * sub_window_len(n) <= n,
{
    let g = sub_window_count(n);
    let per = sub_window_len(n);
    lemma_fundamental_div_mod(n as int, g as int);
    assert(g <= n);
    assert(n / g >= 1) by {
        lemma_fundamental_div_mod_converse_div(g as int, g as int, 1, 0);
        vstd::arithmetic::div_mod::lemma_div_is_ordered(g as int, n as int, g as int);
    }
    assert(per == n / g);
    assert(k * per < (k + 1) * per <= n) by (nonlinear_arith)
        requires
            k + 1 <= g,
            per >= 1,
            g * per <= n,
    ;
}

/// A window of at least eight samples has eight sub-windows of `n / 8`
/// samples; a shorter nonempty window has one single-sample sub-window per
/// sample.
pub proof fn law_sub_window_shape(n: nat)
    ensures
        n >= 8 ==> sub_window_count(n) == 8 && sub_window_len(n) == n / 8,
        1 <= n < 8 ==> sub_window_count(n) == n && sub_window_len(n) == 1,
{
    if n >= 8 {
        assert(n / 8 >= 1);
    } else if n >= 1 {
        assert(n / n == 1) by {
            lemma_fundamental_div_mod_converse_div(n as int, n as int, 1, 0);
        }
    }
}

/// The nonempty sub-windows `[start, end)` over which the humping index
/// averages a window of `n` samples, in order: `sub_window_count(n)` windows
/// of `sub_window_len(n)` samples each, none for an empty window. Samples past
/// the last sub-window are not covered.
pub fn sub_windows(n: usize) -> (r: Vec<(usize, usize)>)
    ensures
        r@.len() == if n == 0 {
            0
        } else {
            sub_window_count(n as nat)
        },
        forall|k: int|
            0 <= k < r@.len() ==> (#[trigger] r@[k]).0 == sub_window(n as nat, k as nat).0
                && r@[k].1 == sub_window(n as nat, k as nat).1 && r@[k].0 < r@[k].1,
        n >= 8 ==> r@.len() == 8,
        1 <= n < 8 ==> r@.len() == n,
        forall|k: int|
            0 <= k < r@.len() ==> (#[trigger] r@[k]).0 == k * (if n >= 8 {
                n / 8
            } else {
                1
            }) && r@[k].1 == r@[k].0 + (if n >= 8 {
                n / 8
            } else {
                1
            }),
{
    proof {
        law_sub_window_shape(n as nat);
    }
    let g: usize = if n >= 8 {
        8
    } else if n == 0 {
        1
    } else {
        n
    };
    let mut per = n / g;
    if per == 0 {
        per = 1;
    }
    let mut out: Vec<(usize, usize)> = Vec::new();
    if n == 0 {
        return out;
    }
    let mut k: usize = 0;
    while k < g
        invariant
            n >= 1,
            g == sub_window_count(n as nat),
            per == sub_window_len(n as nat),
            k <= g,
            out@.len() == k,
            forall|j: int|
                0 <= j < k ==> (#[trigger] out@[j]).0 == sub_window(n as nat, j as nat).0
                    && out@[j].1 == sub_window(n as nat, j as nat).1 && out@[j].0 < out@[j].1,
            forall|j: int| 0 <= j < k ==> (#[trigger] out@[j]).0 == j * per && out@[j].1 == out@[j].0 + per,
        decreases g - k,
    {
        proof {
            lemma_sub_window_bounds(n as nat, k as nat);
            assert((k + 1) * per == k * per + per) by (nonlinear_arith);
        }
        let start = k * per;
        let end = (k + 1) * per;
        out.push((start, end));
        k = k + 1;
    }
    out
}

} // verus!
