use vstd::prelude::*;
use vstd::string::StrSliceExecFns;

verus! {

/// Line feed, `\n`.
pub const LF: u8 = 10;
/// Carriage return, `\r`.
pub const CR: u8 = 13;
/// Horizontal tab, `\t`.
pub const TAB: u8 = 9;
/// `$`, the end-of-line marker.
pub const DOLLAR: u8 = 36;
/// `^`, which introduces a control-character escape.
pub const CARET: u8 = 94;
/// `I`, as in `^I`.
pub const UPPER_I: u8 = 73;
/// `-`, as in `M-`.
pub const DASH: u8 = 45;

/// How output lines are numbered.
#[derive(PartialEq, Eq, Structural, Clone, Copy, Debug)]
pub enum NumberMode {
    /// No line numbers.
    Off,
    /// Number only nonempty output lines.
    NonBlank,
    /// Number every output line.
    AllLine,
}

/// The active transformations and the list of inputs.
pub struct Config {
    /// Line numbering mode.
    pub number_mode: NumberMode,
    /// Display `$` at the end of each line (and a pending `\r` as `^M`).
    pub show_ends: bool,
    /// Suppress repeated empty output lines.
    pub squeeze_blank: bool,
    /// Display TAB characters as `^I`.
    pub show_tabs: bool,
    /// Use `^` and `M-` notation, except for LFD and TAB.
    pub show_nonprinting: bool,
    /// Input names; `-` stands for standard input.
    pub files: Vec<String>,
}

/// The command-line switches that shape a `Config`, each set or not.
#[derive(Clone, Copy, Debug, Default)]
pub struct Flags {
    /// `-A`: show everything, as `-vET`.
    pub show_all: bool,
    /// `-b`: number nonempty lines; overrides `-n`.
    pub number_nonblank: bool,
    /// `-e`: as `-vE`.
    pub show_nonprinting_ends: bool,
    /// `-E`: show `$` at line ends.
    pub show_ends: bool,
    /// `-n`: number every line.
    pub number: bool,
    /// `-s`: squeeze repeated blank lines.
    pub squeeze_blank: bool,
    /// `-t`: as `-vT`.
    pub show_nonprinting_tabs: bool,
    /// `-T`: show TAB as `^I`.
    pub show_tabs: bool,
    /// `-v`: use `^` and `M-` notation.
    pub show_nonprinting: bool,
}

impl Config {
    /// Builds the configuration from the switches that were given and the
    /// input names; with no input name, standard input (`-`) is read.
    pub fn from(flags: &Flags, files: Vec<String>) -> (r: Config)
        ensures
            r.number_mode == if flags.number_nonblank {
                NumberMode::NonBlank
            } else if flags.number {
                NumberMode::AllLine
            } else {
                NumberMode::Off
            },
            r.show_ends == (flags.show_all || flags.show_nonprinting_ends || flags.show_ends),
            r.squeeze_blank == flags.squeeze_blank,
            r.show_tabs == (flags.show_all || flags.show_nonprinting_tabs || flags.show_tabs),
            r.show_nonprinting == (flags.show_all || flags.show_nonprinting
                || flags.show_nonprinting_ends || flags.show_nonprinting_tabs),
            files@.len() > 0 ==> r.files@ == files@,
            files@.len() == 0 ==> r.files@.len() == 1 && r.files@[0]@ == "-"@,
    {
        let number_mode = if flags.number_nonblank {
            NumberMode::NonBlank
        } else if flags.number {
            NumberMode::AllLine
        } else {
            NumberMode::Off
        };
        let show_ends = flags.show_all || flags.show_nonprinting_ends || flags.show_ends;
        let squeeze_blank = flags.squeeze_blank;
        let show_tabs = flags.show_all || flags.show_nonprinting_tabs || flags.show_tabs;
        let show_nonprinting = flags.show_all || flags.show_nonprinting
            || flags.show_nonprinting_ends || flags.show_nonprinting_tabs;
        let files = if files.len() == 0 {
            let mut v: Vec<String> = Vec::new();
            v.push("-".to_owned());
            v
        } else {
            files
        };
        Config { number_mode, show_ends, squeeze_blank, show_tabs, show_nonprinting, files }
    }

    /// True iff every transformation is off, so that input is copied verbatim.
    pub open spec fn is_verbatim(&self) -> bool {
        !self.show_tabs && !self.show_nonprinting && !self.show_ends && !self.squeeze_blank
            && self.number_mode == NumberMode::Off
    }

    /// The bytes that end an output line.
    pub open spec fn end_bytes(&self) -> Seq<u8> {
        if self.show_ends {
            seq![DOLLAR, LF]
        } else {
            seq![LF]
        }
    }

    /// The bytes that stand for a TAB in the body of a line.
    pub open spec fn tab_bytes(&self) -> Seq<u8> {
        if self.show_tabs {
            seq![CARET, UPPER_I]
        } else {
            seq![TAB]
        }
    }

    /// Checks whether the configuration allows a verbatim copy.
    pub fn can_easy_write(&self) -> (r: bool)
        ensures
            r == self.is_verbatim(),
    {
        !(self.show_tabs || self.show_nonprinting || self.show_ends || self.squeeze_blank
            || self.number_mode != NumberMode::Off)
    }

    /// Returns the end-of-line bytes for this configuration.
    pub fn end_str(&self) -> (r: &'static [u8])
        ensures
            r@ == self.end_bytes(),
    {
        if self.show_ends {
            let r: &'static [u8] = &[DOLLAR, LF];
            assert(r@ =~= seq![DOLLAR, LF]);
            r
        } else {
            let r: &'static [u8] = &[LF];
            assert(r@ =~= seq![LF]);
            r
        }
    }

    /// Returns the bytes that a TAB becomes for this configuration.
    pub fn tab_str(&self) -> (r: &'static [u8])
        ensures
            r@ == self.tab_bytes(),
    {
        if self.show_tabs {
            let r: &'static [u8] = &[CARET, UPPER_I];
            assert(r@ =~= seq![CARET, UPPER_I]);
            r
        } else {
            let r: &'static [u8] = &[TAB];
            assert(r@ =~= seq![TAB]);
            r
        }
    }
}

/// The kind of an input source.
#[derive(PartialEq, Eq, Structural, Clone, Copy, Debug)]
pub enum InputType {
    /// Standard input.
    Stdin,
    /// A named file.
    File,
}

/// Determines the type of input from its name: `-` is standard input.
pub fn get_input_type(filename: &str) -> (r: InputType)
    ensures
        r == InputType::Stdin <==> filename@ == seq!['-'],
{
    if filename.unicode_len() == 1 && filename.get_char(0) == '-' {
        assert(filename@ =~= seq!['-']);
        InputType::Stdin
    } else {
        InputType::File
    }
}

} // verus!
