//! One named unit of work: a shell command, an optional display prefix, and
//! the last captured output. The block owns its report formatting; the
//! surrounding process executes the command and hands the captured outcome in
//! as plain values.

use vstd::prelude::*;
use vstd::string::*;

use crate::text::{collapse_str, collapse_ws, trim_str, trim_ws};

verus! {

/// What running a shell command produced: whether it exited successfully,
/// the exit status rendered as text, and the captured output streams.
pub struct CmdOutcome {
    pub success: bool,
    pub status: String,
    pub stdout: String,
    pub stderr: String,
}

/// The mathematical value of a [`CmdOutcome`].
pub ghost struct OutcomeV {
    pub success: bool,
    pub status: Seq<char>,
    pub stdout: Seq<char>,
    pub stderr: Seq<char>,
}

impl View for CmdOutcome {
    type V = OutcomeV;

    open spec fn view(&self) -> OutcomeV {
        OutcomeV {
            success: self.success,
            status: self.status@,
            stdout: self.stdout@,
            stderr: self.stderr@,
        }
    }
}

impl DeepView for CmdOutcome {
    type V = OutcomeV;

    open spec fn deep_view(&self) -> OutcomeV {
        self.view()
    }
}

/// A named block: a shell command, an optional display prefix, and the last
/// captured output (initially empty).
pub struct Block {
    pub name: String,
    pub cmd: String,
    pub prefix: Option<String>,
    pub last_output: String,
}

/// The mathematical value of a [`Block`].
pub ghost struct BlockV {
    pub name: Seq<char>,
    pub cmd: Seq<char>,
    pub prefix: Option<Seq<char>>,
    pub last_output: Seq<char>,
}

impl View for Block {
    type V = BlockV;

    open spec fn view(&self) -> BlockV {
        BlockV {
            name: self.name@,
            cmd: self.cmd@,
            prefix: self.prefix.deep_view(),
            last_output: self.last_output@,
        }
    }
}

impl DeepView for Block {
    type V = BlockV;

    open spec fn deep_view(&self) -> BlockV {
        self.view()
    }
}

/// A block after one run of its command: only the cached output changes, to
/// the collapsed standard output of the outcome.
pub open spec fn run_model(b: BlockV, o: OutcomeV) -> BlockV {
    BlockV { last_output: collapse_ws(o.stdout), ..b }
}

/// A block after a direct assignment: only the cached output changes, to the
/// literal text.
pub open spec fn set_model(b: BlockV, text: Seq<char>) -> BlockV {
    BlockV { last_output: text, ..b }
}

/// The report line of a run: `[name]: <status>`, with `, stderr: <trimmed>`
/// appended when the command failed and wrote to its error stream.
pub open spec fn run_line(name: Seq<char>, o: OutcomeV) -> Seq<char> {
    let head = "["@ + name + "]: "@ + o.status;
    let tail = if !o.success && o.stderr.len() > 0 {
        head + ", stderr: "@ + trim_ws(o.stderr)
    } else {
        head
    };
    tail + "\n"@
}

/// The report line of a direct assignment: `[name]: set to 'text'`.
pub open spec fn set_line(name: Seq<char>, text: Seq<char>) -> Seq<char> {
    "["@ + name + "]: set to '"@ + text + "'\n"@
}

/// The bar segment a block contributes: nothing while its cached output is
/// empty, else the output behind its prefix.
pub open spec fn block_draw(b: BlockV) -> Option<Seq<char>> {
    if b.last_output.len() == 0 {
        None
    } else {
        match b.prefix {
            Some(p) => Some(p + " "@ + b.last_output),
            None => Some(b.last_output),
        }
    }
}

impl Block {
    /// A fresh block with the given name, command and prefix; its cached
    /// output starts empty.
    pub fn init(name: String, cmd: String, prefix: Option<String>) -> (b: Block)
        ensures
            b@ == (BlockV {
                name: name@,
                cmd: cmd@,
                prefix: prefix.deep_view(),
                last_output: Seq::<char>::empty(),
            }),
    {
        let b = Block { name, cmd, prefix, last_output: String::new() };
        b
    }

    /// Record the outcome of one execution of this block's command: the
    /// cached output becomes the collapsed standard output, and the returned
    /// report line carries the exit status and, on a failure that wrote to
    /// the error stream, the trimmed standard error.
    pub fn run(&mut self, outcome: &CmdOutcome) -> (report: String)
        ensures
            final(self)@ == run_model(old(self)@, outcome@),
            report@ == run_line(old(self)@.name, outcome@),
    {
        self.last_output = collapse_str(outcome.stdout.as_str());
        let mut r = String::new();
        r.append("[");
        r.append(self.name.as_str());
        r.append("]: ");
        r.append(outcome.status.as_str());
        if !outcome.success && !outcome.stderr.as_str().is_empty() {
            r.append(", stderr: ");
            let t = trim_str(outcome.stderr.as_str());
            r.append(t.as_str());
        }
        r.append("\n");
        proof {
            assert(r@ =~= run_line(old(self)@.name, outcome@));
        }
        r
    }

    /// Set the cached output to the literal text, bypassing execution, and
    /// report having done so.
    pub fn set_output(&mut self, text: &str) -> (report: String)
        ensures
            final(self)@ == set_model(old(self)@, text@),
            report@ == set_line(old(self)@.name, text@),
    {
        self.last_output = text.to_owned();
        let mut r = String::new();
        r.append("[");
        r.append(self.name.as_str());
        r.append("]: set to '");
        r.append(text);
        r.append("'\n");
        proof {
            assert(r@ =~= set_line(old(self)@.name, text@));
        }
        r
    }

    /// The segment this block contributes to the bar, if any.
    pub fn draw(&self) -> (r: Option<String>)
        ensures
            r.deep_view() == block_draw(self@),
    {
        if self.last_output.as_str().is_empty() {
            None
        } else {
            match &self.prefix {
                Some(p) => {
                    let mut s = String::new();
                    s.append(p.as_str());
                    s.append(" ");
                    s.append(self.last_output.as_str());
                    Some(s)
                },
                None => Some(self.last_output.clone()),
            }
        }
    }
}

} // verus!
