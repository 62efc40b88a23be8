//! The output side: the sink that the results go to, and the compositor that
//! frames a result before it is written.

use crate::text::dashes;
use crate::text::decimal;
use crate::text::decimal_string;
use crate::text::repeated;
use crate::util::kind_name;
use crate::util::ItemType;
use vstd::prelude::*;
use vstd::string::StringExecFns;

verus! {

/// Where the output goes: to the terminal, or nowhere.
#[derive(Clone, Copy, Debug, PartialEq, Eq, Structural)]
pub enum Output {
    Stdout,
    Null,
}

/// The name given for an output is none of those that the search knows.
#[derive(Clone, Copy, Debug, PartialEq, Eq, Structural)]
pub struct InvalidOutput;

/// What becomes of bytes that are handed to an output.
#[derive(Clone, Copy, Debug, PartialEq, Eq, Structural)]
pub enum Written {
    /// The output took this many bytes and dropped them; nothing is left to do.
    Discarded(usize),
    /// The bytes are for the terminal, which says how many of them it took.
    Terminal,
}

/// The output that `name` stands for, if it stands for one.
pub open spec fn output_named(name: Seq<char>) -> Option<Output> {
    if name == "stdout"@ {
        Some(Output::Stdout)
    } else if name == "null"@ {
        Some(Output::Null)
    } else {
        None
    }
}

impl InvalidOutput {
    /// The message of the error.
    pub fn to_string(&self) -> (message: String)
        ensures
            message@ == "Invalid output"@,
    {
        String::from_str("Invalid output")
    }
}

impl Output {
    /// Reads the name of an output: `stdout` or `null`.
    pub fn from_str(s: &str) -> (output: Result<Output, InvalidOutput>)
        ensures
            match output {
                Ok(found) => output_named(s@) == Some(found),
                Err(_) => output_named(s@).is_none(),
            },
    {
        let name = s.to_owned();
        if name == String::from_str("stdout") {
            Ok(Output::Stdout)
        } else if name == String::from_str("null") {
            Ok(Output::Null)
        } else {
            Err(InvalidOutput)
        }
    }

    /// Takes `buf`. The discarding output reports all of it as written,
    /// whatever it holds; bytes for the terminal are the caller's to write.
    pub fn write(&self, buf: &[u8]) -> (written: Written)
        ensures
            written == match *self {
                Output::Stdout => Written::Terminal,
                Output::Null => Written::Discarded(buf@.len() as usize),
            },
    {
        match self {
            Output::Stdout => Written::Terminal,
            Output::Null => Written::Discarded(buf.len()),
        }
    }

    /// Whether the terminal has to be flushed for this output to be flushed.
    pub fn flush(&self) -> (terminal: bool)
        ensures
            terminal == (*self == Output::Stdout),
    {
        match self {
            Output::Stdout => true,
            Output::Null => false,
        }
    }
}

/// The line that says what a result is: the name of its kind, then its first
/// and last line in round brackets.
pub open spec fn descriptor(kind: ItemType, start: nat, end: nat) -> Seq<char> {
    kind_name(kind) + ", ("@ + decimal(start) + ", "@ + decimal(end) + ")"@
}

/// `text` in its frame: the separator, the descriptor and the separator
/// again, each on a line of its own, then the text, and behind it the
/// separator on a line and an empty line.
pub open spec fn framed(
    separator: Seq<char>,
    text: Seq<char>,
    context: ((usize, usize), ItemType),
) -> Seq<char> {
    separator + "\n"@ + descriptor(context.1, context.0.0 as nat, context.0.1 as nat) + "\n"@
        + separator + "\n"@ + text + separator + "\n"@ + "\n"@
}

/// A writer that knows what it writes: it gets the text of a result together
/// with the lines and the kind of the result, and says what is to be written.
pub trait Compositor {
    /// What `write_with` writes for `text` in `context`.
    spec fn composed(&self, text: Seq<char>, context: ((usize, usize), ItemType)) -> Seq<char>;

    /// What is to be written for `text` in `context`.
    fn write_with(&self, text: &str, context: ((usize, usize), ItemType)) -> (out: String)
        ensures
            out@ == self.composed(text@, context),
    ;
}

impl Compositor for Output {
    /// An output by itself writes the text and nothing else.
    open spec fn composed(&self, text: Seq<char>, context: ((usize, usize), ItemType)) -> Seq<
        char,
    > {
        text
    }

    fn write_with(&self, text: &str, context: ((usize, usize), ItemType)) -> (out: String) {
        text.to_owned()
    }
}

/// Frames each result with lines of dashes as wide as the terminal.
#[derive(Debug)]
pub struct TerminalPrinter {
    size: (u16, u16),
    output: Output,
    line: String,
}

impl TerminalPrinter {
    /// A printer for a terminal of `size`: columns, then rows.
    pub fn new(output: Output, size: (u16, u16)) -> (printer: TerminalPrinter)
        ensures
            printer.output() == output,
            printer.size() == size,
            printer.line() == repeated('-', size.0 as nat),
    {
        TerminalPrinter { size, output, line: dashes(size.0) }
    }

    /// The output that the printer writes to.
    pub closed spec fn output(&self) -> Output {
        self.output
    }

    /// The size of the terminal.
    pub closed spec fn size(&self) -> (u16, u16) {
        self.size
    }

    /// The separator line, without its line feed.
    pub closed spec fn line(&self) -> Seq<char> {
        self.line@
    }

    /// The output that the printer writes to.
    pub fn sink(&self) -> (output: Output)
        ensures
            output == self.output(),
    {
        self.output
    }

    /// Takes `buf` as the output of the printer does.
    pub fn write(&self, buf: &[u8]) -> (written: Written)
        ensures
            written == match self.output() {
                Output::Stdout => Written::Terminal,
                Output::Null => Written::Discarded(buf@.len() as usize),
            },
    {
        self.output.write(buf)
    }

    /// Whether the terminal has to be flushed.
    pub fn flush(&self) -> (terminal: bool)
        ensures
            terminal == (self.output() == Output::Stdout),
    {
        self.output.flush()
    }
}

impl Compositor for TerminalPrinter {
    /// The printer writes the text in its frame.
    open spec fn composed(&self, text: Seq<char>, context: ((usize, usize), ItemType)) -> Seq<
        char,
    > {
        framed(self.line(), text, context)
    }

    fn write_with(&self, text: &str, context: ((usize, usize), ItemType)) -> (out: String) {
        let ((start, end), item_type) = context;
        let mut out = String::new();
        out.append(self.line.as_str());
        out.append("\n");
        out.append(item_type.name());
        out.append(", (");
        out.append(decimal_string(start).as_str());
        out.append(", ");
        out.append(decimal_string(end).as_str());
        out.append(")");
        out.append("\n");
        out.append(self.line.as_str());
        out.append("\n");
        out.append(text);
        out.append(self.line.as_str());
        out.append("\n");
        out.append("\n");
        assert(out@ =~= framed(self.line(), text@, context));
        out
    }
}

} // verus!
