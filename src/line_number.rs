use vstd::prelude::*;

verus! {

/// ASCII `0`.
pub const ZERO: u8 = 48;
/// ASCII `9`.
pub const NINE: u8 = 57;
/// ASCII space, which pads a line number on the left.
pub const SPACE: u8 = 32;
/// ASCII `1`, the new leading digit after a carry out of every digit.
pub const ONE: u8 = 49;
/// ASCII `>`, which marks a counter that has run out of room.
pub const GT: u8 = 62;
/// The least width of a printed line number.
pub const MIN_WIDTH: usize = 6;

/// The decimal digits of `n`, most significant first, with no leading zero.
pub open spec fn decimal(n: nat) -> Seq<u8>
    decreases n,
{
    if n < 10 {
        seq![(ZERO + n) as u8]
    } else {
        decimal(n / 10).push((ZERO + n % 10) as u8)
    }
}

/// `k` copies of the byte `b`.
pub open spec fn repeat(b: u8, k: nat) -> Seq<u8> {
    Seq::new(k, |i: int| b)
}

/// A line number as it is printed: the decimal digits of `n`, right-aligned in
/// a field of at least `MIN_WIDTH` bytes padded with spaces.
pub open spec fn line_field(n: nat) -> Seq<u8> {
    let d = decimal(n);
    if d.len() < MIN_WIDTH {
        repeat(SPACE, (MIN_WIDTH - d.len()) as nat) + d
    } else {
        d
    }
}

/// Adds one to a sequence of decimal digits, carrying to the left; an empty
/// sequence stands for zero, so a carry out of every digit yields a new `1`.
pub open spec fn increment(s: Seq<u8>) -> Seq<u8>
    decreases s.len(),
{
    if s.len() == 0 {
        seq![ONE]
    } else if s.last() < NINE {
        s.drop_last().push((s.last() + 1) as u8)
    } else {
        increment(s.drop_last()).push(ZERO)
    }
}

/// Every digit of `decimal(n)` lies in `0..=9`.
pub proof fn lemma_decimal_digits(n: nat)
    ensures
        decimal(n).len() >= 1,
        forall|i: int| 0 <= i < decimal(n).len() ==> ZERO <= #[trigger] decimal(n)[i] <= NINE,
    decreases n,
{
    if n >= 10 {
        lemma_decimal_digits(n / 10);
    }
}

/// Incrementing the digits of `n` gives the digits of `n + 1`.
pub proof fn lemma_increment_decimal(n: nat)
    ensures
        increment(decimal(n)) == decimal(n + 1),
    decreases n,
{
    if n < 9 {
        assert(decimal(n).drop_last() =~= Seq::<u8>::empty());
        assert(increment(decimal(n)) =~= decimal(n + 1));
    } else if n == 9 {
        assert(decimal(9).drop_last() =~= Seq::<u8>::empty());
        assert(decimal(1) =~= seq![ONE]);
        assert(decimal(10) == decimal(1).push(ZERO));
        assert(increment(Seq::<u8>::empty()) == seq![ONE]);
        assert(increment(decimal(9)) == increment(Seq::<u8>::empty()).push(ZERO));
        assert(increment(decimal(n)) =~= decimal(n + 1));
    } else {
        let d = decimal(n);
        assert(d.drop_last() =~= decimal(n / 10));
        if n % 10 < 9 {
            assert((n + 1) / 10 == n / 10);
            assert(increment(d) =~= decimal(n + 1));
        } else {
            assert((n + 1) / 10 == n / 10 + 1);
            assert((n + 1) % 10 == 0);
            lemma_increment_decimal(n / 10);
            assert(increment(d) =~= decimal(n + 1));
        }
    }
}

/// `10^k`.
pub open spec fn pow10(k: nat) -> nat
    decreases k,
{
    if k == 0 {
        1
    } else {
        10 * pow10((k - 1) as nat)
    }
}

/// Numbers below `10^k` have at most `k` digits.
pub proof fn lemma_decimal_len_bound(n: nat, k: nat)
    requires
        k >= 1,
        n < pow10(k),
    ensures
        decimal(n).len() <= k,
    decreases k,
{
    if n >= 10 {
        if k == 1 {
            assert(pow10(1) == 10 * pow10(0));
        } else {
            assert(pow10(k) == 10 * pow10((k - 1) as nat));
            assert(n / 10 < pow10((k - 1) as nat));
            lemma_decimal_len_bound(n / 10, (k - 1) as nat);
        }
    }
}

/// A right-aligned decimal line counter in a fixed buffer.
///
/// The digits of the count occupy `line_buf[line_num_start..=line_num_end]`;
/// every byte before them is a space. The printed field starts at
/// `line_num_print`, which keeps the field at least `MIN_WIDTH` bytes wide and
/// widens it to the left as the count gains digits.
pub struct LineNumber {
    line_buf: Vec<u8>,
    line_num_start: usize,
    line_num_end: usize,
    line_num_print: usize,
    count: Ghost<nat>,
}

impl LineNumber {
    /// The current count.
    pub closed spec fn view(&self) -> nat {
        self.count@
    }

    /// The number of bytes the counter can hold.
    pub closed spec fn size(&self) -> nat {
        self.line_buf@.len()
    }

    /// The buffer holds the count's digits right-aligned after spaces, and the
    /// printed field starts where the digits or the least width need it to.
    pub closed spec fn wf(&self) -> bool {
        &&& self.line_buf@.len() >= MIN_WIDTH
        &&& self.line_num_end == self.line_buf@.len() - 1
        &&& self.line_num_start <= self.line_num_end
        &&& self.line_buf@.subrange(self.line_num_start as int, self.line_num_end + 1)
            == decimal(self.count@)
        &&& forall|i: int|
            0 <= i < self.line_num_start ==> #[trigger] self.line_buf@[i] == SPACE
        &&& self.line_num_print == if self.line_num_start < self.line_num_end + 1 - MIN_WIDTH {
            self.line_num_start
        } else {
            (self.line_num_end + 1 - MIN_WIDTH) as usize
        }
    }

    /// Creates a counter at zero in a buffer of `size` bytes.
    pub fn new(size: usize) -> (r: Self)
        requires
            size >= MIN_WIDTH,
        ensures
            r.wf(),
            r@ == 0,
            r.size() == size,
    {
        let mut line_buf = vec![SPACE; size];
        let line_num_end = size - 1;
        let line_num_start = line_num_end;
        let line_num_print = line_num_end - 5;
        line_buf.set(line_num_end, ZERO);
        let r = LineNumber {
            line_buf,
            line_num_start,
            line_num_end,
            line_num_print,
            count: Ghost(0),
        };
        assert(r.line_buf@.subrange(line_num_start as int, line_num_end + 1) =~= decimal(0));
        r
    }

    /// Advances the counter by one.
    pub fn next_line_num(&mut self)
        requires
            old(self).wf(),
            decimal(old(self)@ + 1).len() <= old(self).size(),
        ensures
            final(self).wf(),
            final(self)@ == old(self)@ + 1,
            final(self).size() == old(self).size(),
    {
        let ghost old_buf = self.line_buf@;
        let ghost s = old_buf.subrange(self.line_num_start as int, self.line_num_end + 1);
        proof {
            lemma_decimal_digits(self.count@);
            lemma_increment_decimal(self.count@);
        }
        let mut endp = self.line_num_end;
        proof {
            assert(s.subrange(0, s.len() as int) =~= s);
            assert(increment(s) + repeat(ZERO, 0) =~= increment(s));
        }
        let ghost l = s.len();
        loop
            invariant_except_break
                forall|i: int|
                    0 <= i <= endp ==> #[trigger] self.line_buf@[i] == old_buf[i],
                forall|i: int|
                    endp < i <= self.line_num_end ==> #[trigger] self.line_buf@[i] == ZERO,
                increment(s) == increment(
                    s.subrange(0, endp - self.line_num_start + 1),
                ) + repeat(ZERO, (self.line_num_end - endp) as nat),
            invariant
                old(self).wf(),
                l == s.len(),
                old_buf == old(self).line_buf@,
                self.line_num_start == old(self).line_num_start,
                self.line_num_end == old(self).line_num_end,
                self.line_num_print == old(self).line_num_print,
                self.count == old(self).count,
                s == old_buf.subrange(self.line_num_start as int, self.line_num_end + 1),
                s == decimal(old(self)@),
                increment(s) == decimal(old(self)@ + 1),
                forall|i: int| 0 <= i < s.len() ==> ZERO <= #[trigger] s[i] <= NINE,
                self.line_num_start <= endp <= self.line_num_end,
                self.line_buf@.len() == old_buf.len(),
            ensures
                forall|i: int|
                    0 <= i < self.line_num_start ==> #[trigger] self.line_buf@[i] == old_buf[i],
                forall|i: int|
                    self.line_num_start <= i <= self.line_num_end ==> #[trigger] self.line_buf@[i]
                        == ZERO,
                increment(s) == seq![ONE] + repeat(ZERO, l),
            decreases endp,
        {
            let ghost p = s.subrange(0, endp - self.line_num_start + 1);
            if self.line_buf[endp] < NINE {
                let d = self.line_buf[endp] + 1;
                self.line_buf.set(endp, d);
                proof {
                    self.count = Ghost(self.count@ + 1);
                    assert(p.last() == old_buf[endp as int]);
                    assert(self.line_buf@.subrange(self.line_num_start as int, self.line_num_end + 1)
                        =~= increment(p) + repeat(ZERO, (self.line_num_end - endp) as nat));
                }
                return;
            }
            self.line_buf.set(endp, ZERO);
            proof {
                assert(p.last() == NINE);
                assert(p.drop_last() =~= s.subrange(0, endp - self.line_num_start));
                assert(repeat(ZERO, (self.line_num_end - endp) as nat).insert(0, ZERO)
                    =~= repeat(ZERO, (self.line_num_end - endp + 1) as nat));
                assert(increment(p) == increment(p.drop_last()).push(ZERO));
                assert(increment(p.drop_last()).push(ZERO) + repeat(ZERO, (self.line_num_end - endp) as nat)
                    =~= increment(p.drop_last()) + repeat(ZERO, (self.line_num_end - endp + 1) as nat));
            }
            if endp == self.line_num_start {
                proof {
                    assert(p.drop_last() =~= Seq::<u8>::empty());
                    assert(self.line_num_end - endp + 1 == l);
                }
                break;
            }
            endp = endp - 1;
        }
        if self.line_num_start > 0 {
            self.line_num_start = self.line_num_start - 1;
            self.line_buf.set(self.line_num_start, ONE);
        } else {
            self.line_buf.set(0, GT);
        }
        if self.line_num_start < self.line_num_print {
            self.line_num_print = self.line_num_print - 1;
        }
        proof {
            self.count = Ghost(self.count@ + 1);
            assert(self.line_buf@.subrange(self.line_num_start as int, self.line_num_end + 1)
                =~= seq![ONE] + repeat(ZERO, l));
        }
    }

    /// The printed field of the current count.
    pub fn get_line_num(&self) -> (r: &[u8])
        requires
            self.wf(),
        ensures
            r@ == line_field(self@),
    {
        proof {
            let d = decimal(self.count@);
            if d.len() < MIN_WIDTH {
                assert(self.line_buf@.subrange(self.line_num_print as int, self.line_num_end + 1)
                    =~= repeat(SPACE, (MIN_WIDTH - d.len()) as nat) + d);
            } else {
                assert(self.line_buf@.subrange(self.line_num_print as int, self.line_num_end + 1)
                    =~= d);
            }
        }
        vstd::slice::slice_subrange(self.line_buf.as_slice(), self.line_num_print, self.line_buf.len())
    }
}

} // verus!
