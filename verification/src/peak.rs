//! Index logic of the keyhole-peak search over a depth profile: which bins
//! the search window admits, and which bins the centre-of-mass interpolation
//! around the maximum covers.

use vstd::prelude::*;

verus! {

/// Lowest bin of the default search window.
pub const SEARCH_MIN: usize = 40;

/// One past the highest bin of the default search window.
pub const SEARCH_MAX: usize = 1000;

/// The search range `[gmin, gmax)` over a profile of `len` bins, when it holds at
/// least two bins and lies inside the profile.
pub open spec fn spec_search_window(gmin: nat, gmax: nat, len: nat) -> Option<(nat, nat)> {
    if gmax <= gmin + 1 || gmax > len {
        None
    } else {
        Some((gmin, gmax))
    }
}

/// Checks the search window `[gmin, gmax)` against a profile of `len` bins:
/// `None` when the window holds fewer than two bins or runs past the profile.
pub fn search_window(gmin: usize, gmax: usize, len: usize) -> (r: Option<(usize, usize)>)
    requires
        gmin < usize::MAX,
    ensures
        r matches Some((a, b)) ==> spec_search_window(gmin as nat, gmax as nat, len as nat) == Some(
            (a as nat, b as nat),
        ),
        r is None <==> spec_search_window(gmin as nat, gmax as nat, len as nat) is None,
        r matches Some((a, b)) ==> a + 2 <= b <= len,
{
    if gmax <= gmin + 1 || gmax > len {
        None
    } else {
        Some((gmin, gmax))
    }
}

/// The default search window over a profile of `len` bins: bins `40..1000`, each end
/// pulled in to fit the profile, and `None` when fewer than two bins remain.
pub open spec fn spec_profile_window(len: nat) -> Option<(nat, nat)> {
    let gmin: nat = if len == 0 {
        0
    } else if (len - 1) < SEARCH_MIN {
        (len - 1) as nat
    } else {
        SEARCH_MIN as nat
    };
    let gmax: nat = if len < SEARCH_MAX {
        len
    } else {
        SEARCH_MAX as nat
    };
    spec_search_window(gmin, gmax, len)
}

/// The default search window over a profile of `len` bins.
pub fn profile_window(len: usize) -> (r: Option<(usize, usize)>)
    ensures
        r matches Some((a, b)) ==> spec_profile_window(len as nat) == Some((a as nat, b as nat)),
        r is None <==> spec_profile_window(len as nat) is None,
{
    let last = len.saturating_sub(1);
    let gmin = if last < SEARCH_MIN {
        last
    } else {
        SEARCH_MIN
    };
    let gmax = if len < SEARCH_MAX {
        len
    } else {
        SEARCH_MAX
    };
    search_window(gmin, gmax, len)
}

/// The bins `[lo, hi)` that the centre-of-mass interpolation weighs around
/// the maximum at `imax`: two below it and two above, cut to the profile.
pub fn centroid_span(imax: usize, len: usize) -> (r: (usize, usize))
    requires
        imax < len,
    ensures
        r.0 == if imax >= 2 {
            imax - 2
        } else {
            0
        },
        r.1 == if imax + 3 <= len {
            imax + 3
        } else {
            len as int
        },
        r.0 <= imax < r.1 <= len,
        r.1 - r.0 <= 5,
{
    let lo = imax.saturating_sub(2);
    let hi = if len - imax >= 3 {
        imax + 3
    } else {
        len
    };
    (lo, hi)
}


/// A search window is admitted exactly when it holds at least two bins and
/// ends inside the profile, and is then returned unchanged.
pub proof fn law_search_window_admits(gmin: nat, gmax: nat, len: nat)
    ensures
        spec_search_window(gmin, gmax, len) is Some <==> gmin + 2 <= gmax <= len,
        spec_search_window(gmin, gmax, len) is Some ==> spec_search_window(gmin, gmax, len)
            == Some((gmin, gmax)),
{
}

/// The default search window covers bins 40 up to 1000 (or the profile's end)
/// and exists exactly for profiles of at least 42 bins.
pub proof fn law_profile_window_shape(len: nat)
    ensures
        spec_profile_window(len) == if len >= 42 {
            Some((40nat, if len < 1000 { len } else { 1000nat }))
        } else {
            None
        },
{
}

} // verus!
