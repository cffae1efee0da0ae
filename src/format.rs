use vstd::prelude::*;
use crate::config::{Config, NumberMode, CARET, CR, DASH, LF, TAB, UPPER_I};
use crate::line_number::{lemma_decimal_len_bound, line_field, pow10, LineNumber};

verus! {

/// `?`, as in `^?`.
pub const QMARK: u8 = 63;
/// `M`, as in `M-`.
pub const UPPER_M: u8 = 77;
/// The size of the line counter's buffer.
pub const LINE_COUNTER_BUF_LEN: usize = 20;
/// The largest count of numbered lines that the formatter accepts.
pub const MAX_LINE_COUNT: u64 = 9_999_999_999_999_999_999;

/// What the formatter remembers between bytes, chunks and inputs.
pub struct OutView {
    /// The next byte starts a line.
    pub new_line: bool,
    /// The last line that was printed was blank.
    pub has_blank_line: bool,
    /// A `\r` was read and its rendering waits on the next byte.
    pub pre_carriage_return: bool,
    /// How many line numbers have been printed.
    pub count: nat,
}

/// The state at the start of a run: at a line start, nothing pending, no line numbered.
pub open spec fn initial_view() -> OutView {
    OutView { new_line: true, has_blank_line: false, pre_carriage_return: false, count: 0 }
}

/// A line number as emitted: the printed field followed by a TAB.
pub open spec fn number_bytes(n: nat) -> Seq<u8> {
    line_field(n) + seq![TAB]
}

/// What starts the body of a line: the pending `\r` is emitted as is, and
/// the line number where one is due.
pub open spec fn open_line(cfg: &Config, st: OutView) -> (OutView, Seq<u8>) {
    let cr = if st.pre_carriage_return { seq![CR] } else { Seq::empty() };
    let numbered = st.new_line && !st.pre_carriage_return && cfg.number_mode != NumberMode::Off;
    let count = if numbered { st.count + 1 } else { st.count };
    let num = if numbered { number_bytes(count) } else { Seq::empty() };
    (
        OutView {
            new_line: st.new_line && !st.pre_carriage_return,
            has_blank_line: false,
            pre_carriage_return: false,
            count,
        },
        cr + num,
    )
}

/// The `^` / `M-` notation of a byte; TAB becomes `tab`.
pub open spec fn nonprinting_bytes(b: u8, tab: Seq<u8>) -> Seq<u8> {
    if b == TAB {
        tab
    } else if b < 32 {
        seq![CARET, (b + 64) as u8]
    } else if b < 127 {
        seq![b]
    } else if b == 127 {
        seq![CARET, QMARK]
    } else if b < 160 {
        seq![UPPER_M, DASH, CARET, (b - 64) as u8]
    } else if b < 255 {
        seq![UPPER_M, DASH, (b - 128) as u8]
    } else {
        seq![UPPER_M, DASH, CARET, QMARK]
    }
}

/// What a byte of a line's body becomes under `cfg`.
pub open spec fn body_bytes(cfg: &Config, b: u8) -> Seq<u8> {
    if cfg.show_nonprinting {
        nonprinting_bytes(b, cfg.tab_bytes())
    } else if cfg.show_tabs && b == TAB {
        cfg.tab_bytes()
    } else {
        seq![b]
    }
}

/// The bodies of a sequence of bytes, one after the other.
pub open spec fn bodies(cfg: &Config, s: Seq<u8>) -> Seq<u8>
    decreases s.len(),
{
    if s.len() == 0 {
        Seq::empty()
    } else {
        bodies(cfg, s.drop_last()) + body_bytes(cfg, s.last())
    }
}

/// `b` ends the body of a line: a `\n`, or a `\r` unless it is shown as `^M`.
pub open spec fn ends_body(cfg: &Config, b: u8) -> bool {
    b == LF || (b == CR && !cfg.show_nonprinting)
}

/// The rendering of a pending `\r` that a `\n` resolves.
pub open spec fn cr_before_end(cfg: &Config) -> Seq<u8> {
    if cfg.show_ends {
        seq![CARET, UPPER_M]
    } else {
        seq![CR]
    }
}

/// The effect of one input byte: the next state and the bytes emitted.
#[verifier::opaque]
pub open spec fn step(cfg: &Config, st: OutView, b: u8) -> (OutView, Seq<u8>) {
    if b == LF {
        if st.new_line && cfg.squeeze_blank && st.has_blank_line {
            (OutView { new_line: true, ..st }, Seq::empty())
        } else {
            let numbered = st.new_line && cfg.number_mode == NumberMode::AllLine;
            let count = if numbered { st.count + 1 } else { st.count };
            let num = if numbered { number_bytes(count) } else { Seq::empty() };
            let cr = if st.pre_carriage_return { cr_before_end(cfg) } else { Seq::empty() };
            (
                OutView {
                    new_line: true,
                    has_blank_line: st.new_line,
                    pre_carriage_return: false,
                    count,
                },
                num + cr + cfg.end_bytes(),
            )
        }
    } else {
        let cr = if st.pre_carriage_return { seq![CR] } else { Seq::empty() };
        let numbered = st.new_line && !st.pre_carriage_return && cfg.number_mode
            != NumberMode::Off;
        let count = if numbered { st.count + 1 } else { st.count };
        let num = if numbered { number_bytes(count) } else { Seq::empty() };
        if b == CR && !cfg.show_nonprinting {
            (
                OutView {
                    new_line: false,
                    has_blank_line: false,
                    pre_carriage_return: true,
                    count,
                },
                cr + num,
            )
        } else {
            (
                OutView {
                    new_line: false,
                    has_blank_line: false,
                    pre_carriage_return: false,
                    count,
                },
                cr + num + body_bytes(cfg, b),
            )
        }
    }
}

/// The effect of a sequence of input bytes, fed one at a time from `st`.
pub open spec fn run(cfg: &Config, st: OutView, s: Seq<u8>) -> (OutView, Seq<u8>)
    decreases s.len(),
{
    if s.len() == 0 {
        (st, Seq::empty())
    } else {
        let (mid, out) = run(cfg, st, s.drop_last());
        let (last, more) = step(cfg, mid, s.last());
        (last, out + more)
    }
}

/// What is still owed once every input has ended: a pending `\r` as is.
pub open spec fn trailer(st: OutView) -> Seq<u8> {
    if st.pre_carriage_return {
        seq![CR]
    } else {
        Seq::empty()
    }
}

/// Feeding `a` and then `b` is feeding `a + b`: the state reached after `a`
/// carries on into `b`, and the outputs follow each other. So splitting the
/// input into chunks anywhere changes neither the output nor the final state.
pub proof fn lemma_run_append(cfg: &Config, st: OutView, a: Seq<u8>, b: Seq<u8>)
    ensures
        run(cfg, st, a + b) == ({
            let (mid, out_a) = run(cfg, st, a);
            let (last, out_b) = run(cfg, mid, b);
            (last, out_a + out_b)
        }),
    decreases b.len(),
{
    if b.len() == 0 {
        assert(a + b =~= a);
        assert(run(cfg, st, a).1 + Seq::<u8>::empty() =~= run(cfg, st, a).1);
    } else {
        assert((a + b).drop_last() =~= a + b.drop_last());
        assert((a + b).last() == b.last());
        lemma_run_append(cfg, st, a, b.drop_last());
        let (mid, out_a) = run(cfg, st, a);
        let (m2, o2) = run(cfg, mid, b.drop_last());
        let (last, more) = step(cfg, m2, b.last());
        assert(out_a + o2 + more =~= out_a + (o2 + more));
    }
}

/// Every byte advances the count of numbered lines by at most one.
pub proof fn lemma_run_count(cfg: &Config, st: OutView, s: Seq<u8>)
    ensures
        st.count <= run(cfg, st, s).0.count <= st.count + s.len(),
    decreases s.len(),
{
    reveal(step);
    if s.len() > 0 {
        lemma_run_count(cfg, st, s.drop_last());
    }
}

/// Feeding one byte is one step.
pub proof fn lemma_run_one(cfg: &Config, st: OutView, b: u8)
    ensures
        run(cfg, st, seq![b]) == step(cfg, st, b),
{
    assert(seq![b].drop_last() =~= Seq::<u8>::empty());
    assert(run(cfg, st, Seq::<u8>::empty()) == (st, Seq::<u8>::empty()));
    assert(Seq::<u8>::empty() + step(cfg, st, b).1 =~= step(cfg, st, b).1);
}

/// A byte other than `\n` opens the line, then either leaves a pending `\r`
/// or emits its body.
pub proof fn lemma_step_body(cfg: &Config, st: OutView, b: u8)
    requires
        b != LF,
    ensures
        step(cfg, st, b) == ({
            let (h, o) = open_line(cfg, st);
            if ends_body(cfg, b) {
                (OutView { new_line: false, pre_carriage_return: true, ..h }, o)
            } else {
                (OutView { new_line: false, ..h }, o + body_bytes(cfg, b))
            }
        }),
{
    reveal(step);
}

/// A nonempty piece of a line's body, with no byte that ends the body, is
/// emitted as the opening of the line and the bodies of its bytes.
pub proof fn lemma_run_body(cfg: &Config, st: OutView, body: Seq<u8>)
    requires
        body.len() >= 1,
        forall|i: int| 0 <= i < body.len() ==> !ends_body(cfg, #[trigger] body[i]),
    ensures
        run(cfg, st, body) == ({
            let (h, o) = open_line(cfg, st);
            (OutView { new_line: false, ..h }, o + bodies(cfg, body))
        }),
    decreases body.len(),
{
    let b = body.last();
    assert(!ends_body(cfg, body[body.len() - 1]));
    let (h, o) = open_line(cfg, st);
    lemma_step_body(cfg, st, b);
    if body.len() == 1 {
        assert(body =~= seq![b]);
        lemma_run_one(cfg, st, b);
        assert(bodies(cfg, body.drop_last()) == Seq::<u8>::empty());
        assert(bodies(cfg, body) =~= body_bytes(cfg, b));
    } else {
        let p = body.drop_last();
        assert forall|i: int| 0 <= i < p.len() implies !ends_body(cfg, #[trigger] p[i]) by {
            assert(p[i] == body[i]);
        }
        lemma_run_body(cfg, st, p);
        let mid = OutView { new_line: false, ..h };
        lemma_step_body(cfg, mid, b);
        assert(o + bodies(cfg, p) + (Seq::<u8>::empty() + Seq::<u8>::empty() + body_bytes(cfg, b))
            =~= o + bodies(cfg, body));
    }
}

/// A line's body followed by the byte that ends it.
pub proof fn lemma_run_line(cfg: &Config, st: OutView, body: Seq<u8>, t: u8)
    requires
        forall|i: int| 0 <= i < body.len() ==> !ends_body(cfg, #[trigger] body[i]),
        ends_body(cfg, t),
        body.len() == 0 ==> t != LF,
    ensures
        run(cfg, st, body.push(t)) == ({
            let (h, o) = open_line(cfg, st);
            if body.len() == 0 {
                (OutView { new_line: false, pre_carriage_return: true, ..h }, o)
            } else {
                let a = OutView { new_line: false, ..h };
                let (z, e) = step(cfg, a, t);
                (z, o + bodies(cfg, body) + e)
            }
        }),
{
    if body.len() == 0 {
        assert(body.push(t) =~= seq![t]);
        lemma_run_one(cfg, st, t);
        lemma_step_body(cfg, st, t);
    } else {
        assert(body.push(t) =~= body + seq![t]);
        lemma_run_append(cfg, st, body, seq![t]);
        lemma_run_body(cfg, st, body);
        let (h, o) = open_line(cfg, st);
        let a = OutView { new_line: false, ..h };
        lemma_run_one(cfg, a, t);
    }
}

/// Without tab or non-printing notation a body is emitted as it is.
pub proof fn lemma_bodies_plain(cfg: &Config, s: Seq<u8>)
    requires
        !cfg.show_nonprinting,
        !cfg.show_tabs,
    ensures
        bodies(cfg, s) == s,
    decreases s.len(),
{
    if s.len() > 0 {
        lemma_bodies_plain(cfg, s.drop_last());
        assert(s.drop_last().push(s.last()) =~= s);
    }
}

/// Appends every byte of `data` to `out`.
pub fn push_all(out: &mut Vec<u8>, data: &[u8])
    ensures
        final(out)@ == old(out)@ + data@,
{
    let ghost before = out@;
    out.extend_from_slice(data);
    assert(out@ =~= before + data@);
}

/// The formatter's state, threaded through every chunk of every input.
pub struct OutState {
    new_line: bool,
    has_blank_line: bool,
    pre_carriage_return: bool,
    line_number: LineNumber,
}

impl OutState {
    /// The state as the formatter's specification sees it.
    pub closed spec fn view(&self) -> OutView {
        OutView {
            new_line: self.new_line,
            has_blank_line: self.has_blank_line,
            pre_carriage_return: self.pre_carriage_return,
            count: self.line_number@,
        }
    }

    /// The line counter is well formed and of the usual size.
    pub closed spec fn wf(&self) -> bool {
        &&& self.line_number.wf()
        &&& self.line_number.size() == LINE_COUNTER_BUF_LEN
    }

    /// The state before any input.
    pub fn new() -> (r: Self)
        ensures
            r.wf(),
            r@ == initial_view(),
    {
        OutState {
            new_line: true,
            has_blank_line: false,
            pre_carriage_return: false,
            line_number: LineNumber::new(LINE_COUNTER_BUF_LEN),
        }
    }

    /// Whether a `\r` is still waiting to be rendered.
    pub fn pending_carriage_return(&self) -> (r: bool)
        ensures
            r == self@.pre_carriage_return,
    {
        self.pre_carriage_return
    }

    /// Advances the line counter and emits its field and a TAB.
    fn write_number(&mut self, out: &mut Vec<u8>)
        requires
            old(self).wf(),
            old(self)@.count + 1 <= MAX_LINE_COUNT,
        ensures
            final(self).wf(),
            final(self)@ == (OutView { count: old(self)@.count + 1, ..old(self)@ }),
            final(out)@ == old(out)@ + number_bytes(old(self)@.count + 1),
    {
        proof {
            reveal_with_fuel(pow10, 20);
            lemma_decimal_len_bound(self.line_number@ + 1, 19);
        }
        self.line_number.next_line_num();
        push_all(out, self.line_number.get_line_num());
        out.push(TAB);
    }

    /// Handles a `\n` that starts the rest of a chunk.
    fn format_newline(&mut self, config: &Config, out: &mut Vec<u8>)
        requires
            old(self).wf(),
            old(self)@.count + 1 <= MAX_LINE_COUNT,
        ensures
            final(self).wf(),
            final(self)@ == step(config, old(self)@, LF).0,
            final(out)@ == old(out)@ + step(config, old(self)@, LF).1,
    {
        let ghost st = self@;
        let ghost before = out@;
        reveal(step);
        if !(self.new_line && config.squeeze_blank && self.has_blank_line) {
            if self.new_line && config.number_mode == NumberMode::AllLine {
                self.write_number(out);
            }
            write_end(out, config, self);
            self.has_blank_line = self.new_line;
            assert(out@ =~= before + step(config, st, LF).1);
        } else {
            assert(out@ =~= before + step(config, st, LF).1);
        }
        self.new_line = true;
    }

    /// Opens a line: emits a pending `\r` as is, and the line number where one is due.
    fn start_line(&mut self, config: &Config, out: &mut Vec<u8>)
        requires
            old(self).wf(),
            old(self)@.count + 1 <= MAX_LINE_COUNT,
        ensures
            final(self).wf(),
            final(self)@ == open_line(config, old(self)@).0,
            final(out)@ == old(out)@ + open_line(config, old(self)@).1,
    {
        let ghost st = self@;
        let ghost before = out@;
        self.has_blank_line = false;
        if self.pre_carriage_return {
            out.push(CR);
            self.pre_carriage_return = false;
            self.new_line = false;
        }
        if self.new_line && config.number_mode != NumberMode::Off {
            self.write_number(out);
        }
        assert(out@ =~= before + open_line(config, st).1);
    }

    /// Handles the byte that ends a line's body, once the body is emitted.
    fn end_body(&mut self, t: u8, config: &Config, out: &mut Vec<u8>)
        requires
            old(self).wf(),
            ends_body(config, t),
            !old(self)@.pre_carriage_return,
            !old(self)@.has_blank_line,
            t == LF ==> !old(self)@.new_line,
        ensures
            final(self).wf(),
            t == LF ==> final(self)@ == step(config, old(self)@, t).0 && final(out)@ == old(out)@
                + step(config, old(self)@, t).1,
            t != LF ==> final(self)@ == (OutView {
                new_line: false,
                pre_carriage_return: true,
                ..old(self)@
            }) && final(out)@ == old(out)@,
            t != LF && !old(self)@.new_line ==> final(self)@ == step(config, old(self)@, t).0
                && final(out)@ == old(out)@ + step(config, old(self)@, t).1,
    {
        let ghost st = self@;
        let ghost before = out@;
        reveal(step);
        if t == LF {
            write_end(out, config, self);
            self.has_blank_line = self.new_line;
            self.new_line = true;
            assert(out@ =~= before + step(config, st, t).1);
        } else {
            self.pre_carriage_return = true;
            self.new_line = false;
            proof {
                if !st.new_line {
                    assert(out@ =~= before + step(config, st, t).1);
                }
            }
        }
    }

    /// Handles the rest of a chunk that starts with a byte other than `\n`:
    /// the body of a line up to the byte that ends it, and that byte if the
    /// chunk holds it. Returns how many bytes of `rest` were consumed.
    fn format_line(&mut self, rest: &[u8], config: &Config, out: &mut Vec<u8>) -> (n: usize)
        requires
            old(self).wf(),
            old(self)@.count + 1 <= MAX_LINE_COUNT,
            rest@.len() >= 1,
            rest@[0] != LF,
        ensures
            1 <= n <= rest@.len(),
            final(self).wf(),
            final(self)@ == run(config, old(self)@, rest@.subrange(0, n as int)).0,
            final(out)@ == old(out)@ + run(config, old(self)@, rest@.subrange(0, n as int)).1,
    {
        let ghost mid = self@;
        let ghost out_mid = out@;
        self.start_line(config, out);
        let ghost out_head = out@;
        let len = write_body(out, rest, config);
        let ghost body = rest@.subrange(0, len as int);
        if len > 0 {
            self.new_line = false;
        }
        let ghost after_body = self@;
        if len == rest.len() {
            proof {
                assert(rest@.subrange(0, len as int) =~= body);
                lemma_run_body(config, mid, body);
                assert(out@ =~= out_mid + (open_line(config, mid).1 + bodies(config, body)));
            }
            return len;
        }
        let t = rest[len];
        self.end_body(t, config, out);
        proof {
            assert(rest@.subrange(0, len + 1) =~= body.push(t));
            lemma_run_line(config, mid, body, t);
            if len > 0 {
                assert(out@ =~= out_mid + (open_line(config, mid).1 + bodies(config, body) + step(
                    config,
                    after_body,
                    t,
                ).1));
            } else {
                assert(out@ =~= out_mid + open_line(config, mid).1);
            }
        }
        len + 1
    }

    /// Formats one chunk of input, appending the result to `out`.
    ///
    /// The chunk is processed as if its bytes were fed one at a time to
    /// `step`; the state carries on to the next chunk and the next input.
    pub fn format_chunk(&mut self, chunk: &[u8], config: &Config, out: &mut Vec<u8>)
        requires
            old(self).wf(),
            old(self)@.count + chunk@.len() <= MAX_LINE_COUNT,
        ensures
            final(self).wf(),
            final(self)@ == run(config, old(self)@, chunk@).0,
            final(out)@ == old(out)@ + run(config, old(self)@, chunk@).1,
    {
        let ghost st0 = self@;
        let ghost out0 = out@;
        let mut offset: usize = 0;
        proof {
            assert(chunk@.subrange(0, 0) =~= Seq::<u8>::empty());
            assert(out0 + Seq::<u8>::empty() =~= out0);
        }
        while offset < chunk.len()
            invariant
                self.wf(),
                offset <= chunk@.len(),
                st0.count + chunk@.len() <= MAX_LINE_COUNT,
                self@ == run(config, st0, chunk@.subrange(0, offset as int)).0,
                out@ == out0 + run(config, st0, chunk@.subrange(0, offset as int)).1,
            decreases chunk@.len() - offset,
        {
            let ghost prefix = chunk@.subrange(0, offset as int);
            let ghost mid = self@;
            let ghost out_mid = out@;
            proof {
                lemma_run_count(config, st0, prefix);
            }
            let rest = vstd::slice::slice_subrange(chunk, offset, chunk.len());
            let n = if chunk[offset] == LF {
                self.format_newline(config, out);
                proof {
                    assert(rest@.subrange(0, 1) =~= seq![LF]);
                    lemma_run_one(config, mid, LF);
                }
                1
            } else {
                self.format_line(rest, config, out)
            };
            proof {
                let seg = rest@.subrange(0, n as int);
                assert(chunk@.subrange(0, offset + n) =~= prefix + seg);
                lemma_run_append(config, st0, prefix, seg);
                assert(out0 + run(config, st0, prefix).1 + run(config, mid, seg).1
                    =~= out0 + (run(config, st0, prefix).1 + run(config, mid, seg).1));
            }
            offset = offset + n;
        }
        proof {
            assert(chunk@.subrange(0, chunk@.len() as int) =~= chunk@);
        }
    }
}

/// Ends a line: renders a pending `\r`, then emits the end-of-line bytes.
pub fn write_end(out: &mut Vec<u8>, config: &Config, state: &mut OutState)
    ensures
        final(state)@ == (OutView { pre_carriage_return: false, ..old(state)@ }),
        final(state).wf() == old(state).wf(),
        final(out)@ == old(out)@ + (if old(state)@.pre_carriage_return {
            cr_before_end(config)
        } else {
            Seq::empty()
        }) + config.end_bytes(),
{
    let ghost before = out@;
    if state.pre_carriage_return {
        if config.show_ends {
            out.push(CARET);
            out.push(UPPER_M);
        } else {
            out.push(CR);
        }
        state.pre_carriage_return = false;
    }
    let ghost mid = out@;
    push_all(out, config.end_str());
    assert(out@ =~= before + mid.subrange(before.len() as int, mid.len() as int) + config.end_bytes());
    assert(mid.subrange(before.len() as int, mid.len() as int) =~= if old(state)@.pre_carriage_return {
        cr_before_end(config)
    } else {
        Seq::empty()
    });
}

/// Emits a line's body with the encoding that `config` selects, up to the
/// byte that ends it; returns how many bytes of `in_buf` it consumed.
pub fn write_body(out: &mut Vec<u8>, in_buf: &[u8], config: &Config) -> (r: usize)
    ensures
        r <= in_buf@.len(),
        forall|i: int| 0 <= i < r ==> !ends_body(config, #[trigger] in_buf@[i]),
        r < in_buf@.len() ==> ends_body(config, in_buf@[r as int]),
        final(out)@ == old(out)@ + bodies(config, in_buf@.subrange(0, r as int)),
{
    if config.show_nonprinting {
        write_line_nonprinting(out, in_buf, config)
    } else if config.show_tabs {
        write_line_show_tab(out, in_buf, config)
    } else {
        let n = write_line_plain(out, in_buf);
        proof {
            lemma_bodies_plain(config, in_buf@.subrange(0, n as int));
        }
        n
    }
}

/// Emits a line's body in `^` / `M-` notation, up to the first `\n`; returns
/// how many bytes of `in_buf` it consumed.
pub fn write_line_nonprinting(out: &mut Vec<u8>, in_buf: &[u8], config: &Config) -> (r: usize)
    requires
        config.show_nonprinting,
    ensures
        r <= in_buf@.len(),
        forall|i: int| 0 <= i < r ==> !ends_body(config, #[trigger] in_buf@[i]),
        r < in_buf@.len() ==> ends_body(config, in_buf@[r as int]),
        final(out)@ == old(out)@ + bodies(config, in_buf@.subrange(0, r as int)),
{
    let ghost before = out@;
    let mut pos: usize = 0;
    assert(in_buf@.subrange(0, 0) =~= Seq::<u8>::empty());
    assert(before + Seq::<u8>::empty() =~= before);
    while pos < in_buf.len()
        invariant
            config.show_nonprinting,
            before == old(out)@,
            pos <= in_buf@.len(),
            forall|i: int| 0 <= i < pos ==> !ends_body(config, #[trigger] in_buf@[i]),
            out@ == before + bodies(config, in_buf@.subrange(0, pos as int)),
        decreases in_buf@.len() - pos,
    {
        let byte = in_buf[pos];
        let ghost mid = out@;
        if byte == LF {
            return pos;
        }
        if byte < 32 || byte > 126 {
            if byte == TAB {
                push_all(out, config.tab_str());
            } else if byte == 127 {
                out.push(CARET);
                out.push(QMARK);
            } else if byte >= 128 && byte <= 159 {
                out.push(UPPER_M);
                out.push(DASH);
                out.push(CARET);
                out.push(byte - 64);
            } else if byte >= 160 && byte <= 254 {
                out.push(UPPER_M);
                out.push(DASH);
                out.push(byte - 128);
            } else if byte == 255 {
                out.push(UPPER_M);
                out.push(DASH);
                out.push(CARET);
                out.push(QMARK);
            } else {
                out.push(CARET);
                out.push(byte + 64);
            }
        } else {
            out.push(byte);
        }
        proof {
            let s = in_buf@.subrange(0, pos + 1);
            assert(s.drop_last() =~= in_buf@.subrange(0, pos as int));
            assert(s.last() == byte);
            assert(out@ =~= mid + body_bytes(config, byte));
        }
        pos = pos + 1;
    }
    pos
}

/// Emits a line's body with each TAB shown as configured, up to the first
/// `\n` or `\r`; returns how many bytes of `in_buf` it consumed.
pub fn write_line_show_tab(out: &mut Vec<u8>, in_buf: &[u8], config: &Config) -> (r: usize)
    requires
        !config.show_nonprinting,
        config.show_tabs,
    ensures
        r <= in_buf@.len(),
        forall|i: int| 0 <= i < r ==> !ends_body(config, #[trigger] in_buf@[i]),
        r < in_buf@.len() ==> ends_body(config, in_buf@[r as int]),
        final(out)@ == old(out)@ + bodies(config, in_buf@.subrange(0, r as int)),
{
    let ghost before = out@;
    let mut pos: usize = 0;
    assert(in_buf@.subrange(0, 0) =~= Seq::<u8>::empty());
    assert(before + Seq::<u8>::empty() =~= before);
    while pos < in_buf.len()
        invariant
            !config.show_nonprinting,
            config.show_tabs,
            before == old(out)@,
            pos <= in_buf@.len(),
            forall|i: int| 0 <= i < pos ==> !ends_body(config, #[trigger] in_buf@[i]),
            out@ == before + bodies(config, in_buf@.subrange(0, pos as int)),
        decreases in_buf@.len() - pos,
    {
        let byte = in_buf[pos];
        let ghost mid = out@;
        if byte == LF || byte == CR {
            return pos;
        }
        if byte == TAB {
            push_all(out, config.tab_str());
        } else {
            out.push(byte);
        }
        proof {
            let s = in_buf@.subrange(0, pos + 1);
            assert(s.drop_last() =~= in_buf@.subrange(0, pos as int));
            assert(s.last() == byte);
            assert(out@ =~= mid + body_bytes(config, byte));
        }
        pos = pos + 1;
    }
    pos
}

/// Emits a line's body as it is, up to the first `\n` or `\r`; returns how
/// many bytes of `in_buf` it consumed.
pub fn write_line_plain(out: &mut Vec<u8>, in_buf: &[u8]) -> (r: usize)
    ensures
        r <= in_buf@.len(),
        forall|i: int| 0 <= i < r ==> #[trigger] in_buf@[i] != LF && in_buf@[i] != CR,
        r < in_buf@.len() ==> (in_buf@[r as int] == LF || in_buf@[r as int] == CR),
        final(out)@ == old(out)@ + in_buf@.subrange(0, r as int),
{
    let mut pos: usize = 0;
    while pos < in_buf.len() && in_buf[pos] != LF && in_buf[pos] != CR
        invariant
            pos <= in_buf@.len(),
            forall|i: int| 0 <= i < pos ==> #[trigger] in_buf@[i] != LF && in_buf@[i] != CR,
        decreases in_buf@.len() - pos,
    {
        pos = pos + 1;
    }
    push_all(out, vstd::slice::slice_subrange(in_buf, 0, pos));
    pos
}

} // verus!
