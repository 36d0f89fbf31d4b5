//! Even sampling of the frames of a video: of `n` frames at most `k` are
//! kept, the `i`-th of them being frame `i * n / k`.

use vstd::prelude::*;

verus! {

/// The frames that are kept of `n`, where at most `k` may be: all of them
/// where `k` is no less than `n`, else the frames `i * n / k` for `i` below
/// `k`.
pub open spec fn sampled(n: nat, k: nat) -> Seq<nat> {
    if k >= n {
        Seq::new(n, |i: int| i as nat)
    } else {
        Seq::new(k, |i: int| (i * n / (k as int)) as nat)
    }
}

/// With fewer places than frames, the frame at each place is one of the `n`,
/// and the frame at a later place is a later frame.
pub proof fn lemma_sample_increasing(n: nat, k: nat, i: nat, j: nat)
    requires
        k <= n,
        i < j < k,
    ensures
        i * n / k < j * n / k < n,
{
    let ki = k as int;
    let ni = n as int;
    // one place further is at least one frame further
    assert((i + 1) * ni == i * ni + ni) by (nonlinear_arith);
    assert((i + 1) * ni <= j * ni) by (nonlinear_arith)
        requires
            i + 1 <= j,
            ni >= 0,
    ;
    assert(i * ni >= 0) by (nonlinear_arith)
        requires
            ni >= 0,
    ;
    vstd::arithmetic::div_mod::lemma_div_is_ordered(i * ni + ki, j * ni, ki);
    vstd::arithmetic::div_mod::lemma_div_plus_one(i * ni, ki);
    // the last place is before the end
    assert(j * ni < ni * ki) by (nonlinear_arith)
        requires
            j < ki,
            ni > 0,
    ;
    vstd::arithmetic::div_mod::lemma_div_by_multiple_is_strongly_ordered(j * ni, ni * ki, ni, ki);
    vstd::arithmetic::div_mod::lemma_div_multiples_vanish(ni, ki);
}

/// What is kept: no more than `k` frames, each of them one of the `n`, in
/// rising order; and every frame where `k` is no less than `n`.
pub proof fn lemma_sampled_evenly(n: nat, k: nat)
    ensures
        sampled(n, k).len() == if k >= n {
            n
        } else {
            k
        },
        forall|i: int| 0 <= i < sampled(n, k).len() ==> #[trigger] sampled(n, k)[i] < n,
        forall|i: int, j: int|
            0 <= i < j < sampled(n, k).len() ==> #[trigger] sampled(n, k)[i] < #[trigger] sampled(
                n,
                k,
            )[j],
        k >= n ==> forall|i: int| 0 <= i < n ==> #[trigger] sampled(n, k)[i] == i,
        k < n ==> forall|i: int| 0 <= i < k ==> #[trigger] sampled(n, k)[i] == i * n / (k as int),
{
    if k < n {
        assert forall|i: int, j: int| 0 <= i < j < sampled(n, k).len() implies #[trigger] sampled(
            n,
            k,
        )[i] < #[trigger] sampled(n, k)[j] by {
            lemma_sample_increasing(n, k, i as nat, j as nat);
        }
        assert forall|i: int| 0 <= i < sampled(n, k).len() implies #[trigger] sampled(n, k)[i]
            < n by {
            if i + 1 < k {
                lemma_sample_increasing(n, k, i as nat, (i + 1) as nat);
            } else if i > 0 {
                lemma_sample_increasing(n, k, (i - 1) as nat, i as nat);
            } else {
                assert(0int * n / (k as int) == 0) by (nonlinear_arith)
                    requires
                        k > 0,
                ;
            }
        }
    }
}

/// The indices of the frames to keep of `n`, where at most `k` may be kept.
pub fn sample_evenly(n: usize, k: usize) -> (r: Vec<usize>)
    ensures
        r@.map_values(|x: usize| x as nat) == sampled(n as nat, k as nat),
        forall|i: int| 0 <= i < r@.len() ==> #[trigger] r@[i] < n,
{
    let mut r: Vec<usize> = Vec::new();
    proof {
        lemma_sampled_evenly(n as nat, k as nat);
    }
    let count = if k >= n {
        n
    } else {
        k
    };
    let ghost want = sampled(n as nat, k as nat);
    let mut i: usize = 0;
    while i < count
        invariant
            i <= count,
            count == want.len(),
            count <= n,
            count == if k >= n {
                n
            } else {
                k
            },
            want == sampled(n as nat, k as nat),
            r@.len() == i,
            forall|j: int| 0 <= j < i ==> #[trigger] r@[j] as nat == want[j],
            forall|j: int| 0 <= j < want.len() ==> #[trigger] want[j] < n,
        decreases count - i,
    {
        let index: usize = if k >= n {
            i
        } else {
            proof {
                assert(i as u128 * n as u128 <= 0xffff_ffff_ffff_ffff * 0xffff_ffff_ffff_ffff)
                    by (nonlinear_arith)
                    requires
                        i <= 0xffff_ffff_ffff_ffff,
                        n <= 0xffff_ffff_ffff_ffff,
                ;
            }
            ((i as u128 * n as u128) / (k as u128)) as usize
        };
        r.push(index);
        i = i + 1;
    }
    r
}

/// The indices of the frames to encode of the `n` that a video gave: all of
/// them where no limit is set.
pub fn select_frames(n: usize, max_frames: Option<usize>) -> (r: Vec<usize>)
    ensures
        r@.map_values(|x: usize| x as nat) == sampled(
            n as nat,
            match max_frames {
                Some(k) => k as nat,
                None => n as nat,
            },
        ),
        forall|i: int| 0 <= i < r@.len() ==> #[trigger] r@[i] < n,
{
    match max_frames {
        Some(k) => sample_evenly(n, k),
        None => sample_evenly(n, n),
    }
}

} // verus!
