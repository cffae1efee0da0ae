use vstd::prelude::*;
use crate::config::{Config, NumberMode, LF};
use crate::format::{
    initial_view, lemma_run_append, lemma_run_one, nonprinting_bytes, run, step, trailer, OutView,
};
use crate::line_number::{decimal, lemma_decimal_digits, line_field, ZERO};

verus! {

/// With every transformation off, the formatter reproduces its input: what it
/// emits, followed by the `\r` that may still be pending at the end, is the
/// input byte for byte, however the input is cut into chunks.
pub proof fn lemma_verbatim_identity(cfg: &Config, st: OutView, s: Seq<u8>)
    requires
        cfg.is_verbatim(),
        !st.pre_carriage_return,
    ensures
        run(cfg, st, s).1 + trailer(run(cfg, st, s).0) == s,
    decreases s.len(),
{
    reveal(step);
    if s.len() > 0 {
        let p = s.drop_last();
        lemma_verbatim_identity(cfg, st, p);
        let (mid, out) = run(cfg, st, p);
        assert(out + trailer(mid) == p);
        let b = s.last();
        assert(s =~= p.push(b));
        let (last, more) = step(cfg, mid, b);
        assert(out + more + trailer(last) =~= s);
    }
}

/// Cutting the input at any offset changes nothing: formatting `s[..i]` and
/// then `s[i..]` from the state reached gives the same state and the same
/// output as formatting `s` in one piece.
pub proof fn lemma_chunk_boundary(cfg: &Config, st: OutView, s: Seq<u8>, i: int)
    requires
        0 <= i <= s.len(),
    ensures
        ({
            let (mid, first) = run(cfg, st, s.subrange(0, i));
            let (last, second) = run(cfg, mid, s.subrange(i, s.len() as int));
            (last, first + second) == run(cfg, st, s)
        }),
{
    assert(s.subrange(0, i) + s.subrange(i, s.len() as int) =~= s);
    lemma_run_append(cfg, st, s.subrange(0, i), s.subrange(i, s.len() as int));
}

/// Under non-printing notation, a one-byte line with no line number is that
/// byte's notation followed by the end-of-line bytes.
pub proof fn lemma_nonprinting_line(cfg: &Config, b: u8)
    requires
        cfg.show_nonprinting,
        cfg.number_mode == NumberMode::Off,
        b != LF,
    ensures
        run(cfg, initial_view(), seq![b, LF]).1 == nonprinting_bytes(b, cfg.tab_bytes())
            + cfg.end_bytes(),
{
    reveal(step);
    lemma_run_one(cfg, initial_view(), b);
    assert(seq![b, LF] =~= seq![b] + seq![LF]);
    lemma_run_append(cfg, initial_view(), seq![b], seq![LF]);
    let mid = step(cfg, initial_view(), b).0;
    lemma_run_one(cfg, mid, LF);
    assert(Seq::<u8>::empty() + Seq::<u8>::empty() + nonprinting_bytes(b, cfg.tab_bytes())
        + (Seq::<u8>::empty() + Seq::<u8>::empty() + cfg.end_bytes())
        =~= nonprinting_bytes(b, cfg.tab_bytes()) + cfg.end_bytes());
}

/// `n` line feeds.
pub open spec fn newlines(n: nat) -> Seq<u8> {
    Seq::new(n, |i: int| LF)
}

/// With blank lines squeezed, a run of blank lines at a line start prints as
/// at most one blank line: exactly one where the line before was not blank,
/// none where it was, and none for an empty run.
pub proof fn lemma_squeeze_blank(cfg: &Config, st: OutView, n: nat)
    requires
        cfg.squeeze_blank,
        cfg.number_mode == NumberMode::Off,
        st.new_line,
        !st.pre_carriage_return,
    ensures
        run(cfg, st, newlines(n)).1 == if n == 0 || st.has_blank_line {
            Seq::<u8>::empty()
        } else {
            cfg.end_bytes()
        },
        n >= 1 ==> run(cfg, st, newlines(n)).0 == (OutView {
            has_blank_line: true,
            ..st
        }),
    decreases n,
{
    reveal(step);
    if n == 0 {
        assert(newlines(0) =~= Seq::<u8>::empty());
    } else {
        lemma_squeeze_blank(cfg, st, (n - 1) as nat);
        assert(newlines(n).drop_last() =~= newlines((n - 1) as nat));
        assert(newlines(n).last() == LF);
        if n == 1 {
            assert(newlines(0) =~= Seq::<u8>::empty());
        }
        let (mid, out) = run(cfg, st, newlines((n - 1) as nat));
        assert(out + step(cfg, mid, LF).1 =~= if st.has_blank_line {
            Seq::<u8>::empty()
        } else {
            cfg.end_bytes()
        });
    }
}

/// A larger count never prints narrower.
pub proof fn lemma_decimal_len_monotone(m: nat, n: nat)
    requires
        m <= n,
    ensures
        decimal(m).len() <= decimal(n).len(),
    decreases n,
{
    lemma_decimal_digits(n);
    if m >= 10 {
        lemma_decimal_len_monotone(m / 10, n / 10);
    }
}

/// The leading digit of a positive count is not zero.
pub proof fn lemma_decimal_leading(n: nat)
    requires
        n >= 1,
    ensures
        decimal(n)[0] != ZERO,
    decreases n,
{
    if n >= 10 {
        lemma_decimal_leading(n / 10);
    }
}

/// As the count grows its printed field only widens; the field is its digits
/// right-aligned after spaces, with no leading zero.
pub proof fn lemma_line_field_growth(m: nat, n: nat)
    requires
        1 <= m <= n,
    ensures
        line_field(m).len() <= line_field(n).len(),
        line_field(n).len() == if decimal(n).len() < 6 {
            6
        } else {
            decimal(n).len()
        },
        line_field(n).subrange(line_field(n).len() - decimal(n).len(), line_field(n).len() as int)
            == decimal(n),
        decimal(n)[0] != ZERO,
{
    lemma_decimal_len_monotone(m, n);
    lemma_decimal_leading(n);
    lemma_decimal_digits(n);
    let d = decimal(n);
    if d.len() < 6 {
        assert(line_field(n).subrange(line_field(n).len() - d.len(), line_field(n).len() as int) =~= d);
    } else {
        assert(line_field(n).subrange(0, d.len() as int) =~= d);
    }
}

} // verus!
