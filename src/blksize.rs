use vstd::prelude::*;

verus! {

/// The default I/O transfer size, and the least size that is ever chosen.
pub const IO_BUFSIZE: u64 = 262144;

/// The largest power of two that a `u64` holds.
pub const TOP_POW2: u64 = 0x8000_0000_0000_0000;

/// `n` is a power of two.
pub open spec fn is_pow2(n: nat) -> bool
    decreases n,
{
    if n <= 1 {
        n == 1
    } else {
        n % 2 == 0 && is_pow2(n / 2)
    }
}

/// The preferred size that a source reports, or the default where it reports none.
pub open spec fn base_size(st_blksize: int) -> int {
    if st_blksize > 0 {
        st_blksize
    } else {
        IO_BUFSIZE as int
    }
}

/// `m` is the least multiple of `b` that is at least `IO_BUFSIZE`.
pub open spec fn is_padded(m: int, b: int) -> bool {
    &&& m % b == 0
    &&& IO_BUFSIZE <= m < IO_BUFSIZE + b
}

/// `p` is the least power of two that is at least `m`.
pub open spec fn is_pow2_ceiling(p: int, m: int) -> bool {
    &&& p >= 1
    &&& is_pow2(p as nat)
    &&& m <= p
    &&& (p == 1 || p / 2 < m)
}

/// Chooses the I/O transfer size for a source.
///
/// The source's preferred size (`st_blksize`, or `IO_BUFSIZE` where it is not
/// positive) is padded up to its least multiple that is at least `IO_BUFSIZE`.
/// For a regular file the result is then rounded up to a power of two, unless
/// it is already one or exceeds the largest power of two a `u64` holds.
pub fn io_blksize(st_blksize: i64, is_regular: bool) -> (r: u64)
    ensures
        ({
            let b = base_size(st_blksize as int);
            exists|m: int|
                #![trigger is_padded(m, b)]
                is_padded(m, b) && if is_regular && m <= TOP_POW2 {
                    is_pow2_ceiling(r as int, m)
                } else {
                    r as int == m
                }
        }),
{
    let mut blksize: u64 = if st_blksize > 0 {
        st_blksize as u64
    } else {
        IO_BUFSIZE
    };
    let ghost b = blksize as int;
    assert(b == base_size(st_blksize as int));
    let rem = (IO_BUFSIZE - 1) % blksize;
    assert(blksize + (IO_BUFSIZE - 1) - rem < 0x1_0000_0000_0000_0000) by (nonlinear_arith)
        requires
            0 <= rem < blksize,
            blksize <= 0x7fff_ffff_ffff_ffff,
    ;
    assert(rem <= IO_BUFSIZE - 1) by {
        vstd::arithmetic::div_mod::lemma_mod_decreases((IO_BUFSIZE - 1) as nat, blksize as nat);
    }
    blksize = blksize + ((IO_BUFSIZE - 1) - rem);
    let ghost m = blksize as int;
    assert(is_padded(m, b)) by {
        let q = (IO_BUFSIZE - 1) as int / b;
        assert((IO_BUFSIZE - 1) as int == b * q + rem) by (nonlinear_arith)
            requires
                b > 0,
                q == (IO_BUFSIZE - 1) as int / b,
                rem == (IO_BUFSIZE - 1) as int % b,
        ;
        assert(m == b * (q + 1)) by (nonlinear_arith)
            requires
                m == b + (IO_BUFSIZE - 1) - rem,
                (IO_BUFSIZE - 1) as int == b * q + rem,
        ;
        assert(m % b == 0) by (nonlinear_arith)
            requires
                m == b * (q + 1),
                b > 0,
        ;
    }
    if is_regular && blksize <= TOP_POW2 {
        let mut p: u64 = 1;
        assert(is_pow2(1));
        while p < blksize
            invariant
                1 <= p,
                is_pow2(p as nat),
                p == 1 || p / 2 < blksize,
                blksize <= TOP_POW2,
            decreases 2 * blksize - p,
        {
            assert(is_pow2((p * 2) as nat)) by {
                assert((p * 2) as nat / 2 == p as nat);
            }
            p = p * 2;
        }
        blksize = p;
    }
    blksize
}

} // verus!
