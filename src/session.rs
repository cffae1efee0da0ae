use vstd::prelude::*;
use crate::config::{Config, CR};
use crate::format::{initial_view, lemma_run_count, push_all, run, trailer, OutState, OutView, MAX_LINE_COUNT};

verus! {

/// One run over a list of inputs: the formatter's state, carried from input to
/// input, and whether any input has failed.
///
/// The caller reads each input and hands its chunks over in order, reports an
/// input that could not be opened or read, and at the end writes what
/// `finish` appends and exits with the status it returns.
pub struct Session {
    state: OutState,
    fed: u64,
    failed: bool,
}

impl Session {
    /// The formatter's state.
    pub closed spec fn out_view(&self) -> OutView {
        self.state@
    }

    /// How many bytes have been formatted so far.
    pub closed spec fn fed(&self) -> nat {
        self.fed as nat
    }

    /// Whether some input has failed.
    pub closed spec fn has_failed(&self) -> bool {
        self.failed
    }

    /// The formatter's state is well formed and has numbered at most one line
    /// per byte formatted.
    pub closed spec fn wf(&self) -> bool {
        &&& self.state.wf()
        &&& self.state@.count <= self.fed
        &&& self.fed <= MAX_LINE_COUNT
    }

    /// A session before any input.
    pub fn new() -> (r: Self)
        ensures
            r.wf(),
            r.out_view() == initial_view(),
            r.fed() == 0,
            !r.has_failed(),
    {
        Session { state: OutState::new(), fed: 0, failed: false }
    }

    /// Handles one chunk of the current input, appending what is due to `out`.
    ///
    /// Where every transformation is off the chunk is copied as it is.
    /// Otherwise it is formatted, unless the line counter could run out of
    /// digits within it: then the input fails and nothing is appended.
    pub fn handle_chunk(&mut self, chunk: &[u8], config: &Config, out: &mut Vec<u8>)
        requires
            old(self).wf(),
        ensures
            final(self).wf(),
            config.is_verbatim() ==> final(out)@ == old(out)@ + chunk@ && final(self).out_view()
                == old(self).out_view() && final(self).fed() == old(self).fed()
                && final(self).has_failed() == old(self).has_failed(),
            !config.is_verbatim() && old(self).fed() + chunk@.len() <= MAX_LINE_COUNT ==> {
                &&& final(self).out_view() == run(config, old(self).out_view(), chunk@).0
                &&& final(out)@ == old(out)@ + run(config, old(self).out_view(), chunk@).1
                &&& final(self).fed() == old(self).fed() + chunk@.len()
                &&& final(self).has_failed() == old(self).has_failed()
            },
            !config.is_verbatim() && old(self).fed() + chunk@.len() > MAX_LINE_COUNT ==> {
                &&& final(self).out_view() == old(self).out_view()
                &&& final(out)@ == old(out)@
                &&& final(self).fed() == old(self).fed()
                &&& final(self).has_failed()
            },
    {
        if config.can_easy_write() {
            push_all(out, chunk);
        } else if chunk.len() as u64 <= MAX_LINE_COUNT - self.fed {
            proof {
                lemma_run_count(config, self.state@, chunk@);
            }
            self.state.format_chunk(chunk, config, out);
            self.fed = self.fed + chunk.len() as u64;
        } else {
            self.failed = true;
        }
    }

    /// Records that the current input could not be opened or read.
    pub fn input_failed(&mut self)
        ensures
            final(self).out_view() == old(self).out_view(),
            final(self).fed() == old(self).fed(),
            final(self).wf() == old(self).wf(),
            final(self).has_failed(),
    {
        self.failed = true;
    }

    /// Ends the run: appends a `\r` that is still pending, and returns the exit
    /// status, 0 if every input was handled and 1 otherwise.
    pub fn finish(&self, out: &mut Vec<u8>) -> (status: i32)
        ensures
            final(out)@ == old(out)@ + trailer(self.out_view()),
            status == if self.has_failed() { 1i32 } else { 0i32 },
    {
        if self.state.pending_carriage_return() {
            out.push(CR);
        } else {
            assert(out@ =~= old(out)@ + trailer(self.out_view()));
        }
        if self.failed {
            1
        } else {
            0
        }
    }
}

} // verus!
