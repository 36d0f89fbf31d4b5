//! The size that a picture is scaled to before it is encoded: the longer side
//! becomes `imgsz`; the shorter side follows in proportion, is cut to a whole
//! number, and is raised by one where that number is odd.

use vstd::prelude::*;

verus! {

/// `n` where it is even, and the next number where it is odd.
pub open spec fn round_up_even(n: nat) -> nat {
    n + n % 2
}

/// The scaled length of the shorter side, where the longer side `long`
/// becomes `imgsz`.
pub open spec fn scaled_side(short: nat, long: nat, imgsz: nat) -> nat {
    if long == 0 {
        0
    } else {
        round_up_even(short * imgsz / long)
    }
}

/// Width and height of the scaled picture.
pub open spec fn scaled_size(width: nat, height: nat, imgsz: nat) -> (nat, nat) {
    if width > height {
        (imgsz, scaled_side(height, width, imgsz))
    } else {
        (scaled_side(width, height, imgsz), imgsz)
    }
}

/// The shorter side scales to no more than `imgsz`, and to less where it is
/// strictly the shorter.
pub proof fn lemma_scaled_within(short: nat, long: nat, imgsz: nat)
    requires
        short <= long,
        long > 0,
    ensures
        short * imgsz / long <= imgsz,
        short < long && imgsz > 0 ==> short * imgsz / long < imgsz,
        short == long ==> short * imgsz / long == imgsz,
{
    assert(short * imgsz <= long * imgsz) by (nonlinear_arith)
        requires
            short <= long,
    ;
    vstd::arithmetic::div_mod::lemma_div_is_ordered(
        (short * imgsz) as int,
        (long * imgsz) as int,
        long as int,
    );
    vstd::arithmetic::div_mod::lemma_div_multiples_vanish(imgsz as int, long as int);
    if short < long && imgsz > 0 {
        assert(short * imgsz < long * imgsz) by (nonlinear_arith)
            requires
                short < long,
                imgsz > 0,
        ;
        assert(imgsz * long == long * imgsz) by (nonlinear_arith);
        vstd::arithmetic::div_mod::lemma_div_by_multiple_is_strongly_ordered(
            (short * imgsz) as int,
            (imgsz * long) as int,
            imgsz as int,
            long as int,
        );
    }
}

/// The longer side of the scaled picture is `imgsz` and the shorter side is
/// even. This holds but for a square picture with an odd `imgsz`, whose two
/// sides come out as `imgsz + 1` and `imgsz`.
pub proof fn lemma_scaled_longer_side(width: nat, height: nat, imgsz: nat)
    requires
        imgsz % 2 == 0 || width != height || width == 0,
    ensures
        ({
            let (w, h) = scaled_size(width, height, imgsz);
            &&& (w == imgsz || h == imgsz)
            &&& w <= imgsz
            &&& h <= imgsz
            &&& (if width > height {
                h
            } else {
                w
            }) % 2 == 0
        }),
{
    if width > height {
        lemma_scaled_within(height, width, imgsz);
    } else if height > 0 {
        lemma_scaled_within(width, height, imgsz);
    }
}

/// Neither side of the scaled picture is longer than `imgsz + 1`.
pub proof fn lemma_scaled_bounded(width: nat, height: nat, imgsz: nat)
    ensures
        scaled_size(width, height, imgsz).0 <= imgsz + 1,
        scaled_size(width, height, imgsz).1 <= imgsz + 1,
{
    if width > height {
        lemma_scaled_within(height, width, imgsz);
    } else if height > 0 {
        lemma_scaled_within(width, height, imgsz);
    }
}

/// The shorter side of the scaled picture is even, whatever the picture.
pub proof fn lemma_scaled_shorter_even(short: nat, long: nat, imgsz: nat)
    ensures
        scaled_side(short, long, imgsz) % 2 == 0,
{
}

/// The size to which a picture of `width` by `height` is scaled.
pub fn scaled_dimensions(width: u32, height: u32, imgsz: u32) -> (r: (u32, u32))
    requires
        imgsz < u32::MAX,
    ensures
        (r.0 as nat, r.1 as nat) == scaled_size(width as nat, height as nat, imgsz as nat),
        r.0 == imgsz || r.1 == imgsz,
        width > height ==> r.1 % 2 == 0,
        width <= height ==> r.0 % 2 == 0,
        imgsz % 2 == 0 || width != height || width == 0 ==> r.0 <= imgsz && r.1 <= imgsz,
{
    proof {
        if imgsz % 2 == 0 || width != height || width == 0 {
            lemma_scaled_longer_side(width as nat, height as nat, imgsz as nat);
        }
    }
    if width > height {
        proof {
            lemma_scaled_within(height as nat, width as nat, imgsz as nat);
            assert(height as u64 * imgsz as u64 <= 0xffff_ffff * 0xffff_ffff) by (nonlinear_arith)
                requires
                    height <= 0xffff_ffff,
                    imgsz <= 0xffff_ffff,
            ;
        }
        let side: u64 = (height as u64 * imgsz as u64) / (width as u64);
        let side: u64 = side + side % 2;
        (imgsz, side as u32)
    } else if height == 0 {
        (0, imgsz)
    } else {
        proof {
            lemma_scaled_within(width as nat, height as nat, imgsz as nat);
            assert(width as u64 * imgsz as u64 <= 0xffff_ffff * 0xffff_ffff) by (nonlinear_arith)
                requires
                    width <= 0xffff_ffff,
                    imgsz <= 0xffff_ffff,
            ;
        }
        let side: u64 = (width as u64 * imgsz as u64) / (height as u64);
        let side: u64 = side + side % 2;
        (side as u32, imgsz)
    }
}

} // verus!
