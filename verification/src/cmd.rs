//! Helper binaries: what to run, and how a failed run is reported.

use vstd::prelude::*;
use crate::path::views;
use crate::text::{
    chars_of, from_utf8_lossy, lines, lines_of, lossy_utf8, owned, push_range, push_spaced, spaced,
    strs, trim_end,
};

verus! {

/// A command line: the program and its arguments.
pub struct Invocation {
    program: String,
    args: Vec<String>,
}

pub struct InvocationView {
    pub program: Seq<char>,
    pub args: Seq<Seq<char>>,
}

impl View for Invocation {
    type V = InvocationView;

    closed spec fn view(&self) -> InvocationView {
        InvocationView { program: self.program@, args: strs(self.args@) }
    }
}

/// How a command line reads when it is shown.
pub open spec fn line(i: InvocationView) -> Seq<char> {
    i.program + spaced(i.args)
}

impl Invocation {
    pub fn new(program: &str) -> (r: Invocation)
        ensures
            r@ == (InvocationView { program: program@, args: seq![] }),
    {
        let r = Invocation { program: owned(program), args: Vec::new() };
        assert(strs(r.args@) =~= seq![]);
        r
    }

    /// The same command with one more argument.
    pub fn arg(self, a: &str) -> (r: Invocation)
        ensures
            r@ == (InvocationView { program: self@.program, args: self@.args.push(a@) }),
    {
        let Invocation { program, mut args } = self;
        let ghost before = args@;
        args.push(owned(a));
        assert(strs(args@) =~= strs(before).push(a@));
        Invocation { program, args }
    }

    /// The same command with more arguments, in order.
    pub fn args(self, more: &Vec<String>) -> (r: Invocation)
        ensures
            r@ == (InvocationView { program: self@.program, args: self@.args + strs(more@) }),
    {
        let mut r = self;
        let mut i: usize = 0;
        while i < more.len()
            invariant
                i <= more@.len(),
                r@ == (InvocationView { program: self@.program, args: self@.args + strs(more@.take(i as int)) }),
            decreases more@.len() - i,
        {
            r = r.arg(more[i].as_str());
            assert(strs(more@.take(i + 1)) =~= strs(more@.take(i as int)).push(more@[i as int]@));
            assert(self@.args + strs(more@.take(i + 1)) =~= (self@.args + strs(more@.take(i as int))).push(more@[i as int]@));
            i = i + 1;
        }
        assert(more@.take(more@.len() as int) =~= more@);
        r
    }

    pub fn program(&self) -> (r: &String)
        ensures
            r@ == self@.program,
    {
        &self.program
    }

    pub fn arguments(&self) -> (r: &Vec<String>)
        ensures
            strs(r@) == self@.args,
    {
        &self.args
    }

    pub fn line(&self) -> (r: String)
        ensures
            r@ == line(self@),
    {
        let mut r = owned(self.program.as_str());
        push_spaced(&mut r, &self.args);
        r
    }
}

/// A finished run of a helper binary.
pub struct Output {
    pub program: String,
    /// Whether it exited successfully.
    pub succeeded: bool,
    /// How it exited, as the exit status is shown.
    pub status: String,
    /// stdout followed by stderr.
    pub text: String,
}

/// Why a helper binary did not do its job.
pub enum CmdError {
    /// The binary could not be started at all.
    Spawn { program: String },
    /// It ran and failed, taking whatever it had to say with it.
    Exit { program: String, status: String, text: String },
}

/// Each line of what the program printed, indented under the failure;
/// nothing when it printed nothing.
pub open spec fn indented(ls: Seq<Seq<char>>) -> Seq<char>
    decreases ls.len(),
{
    if ls.len() == 0 {
        seq![]
    } else {
        indented(ls.drop_last()) + "\n  "@ + ls.last()
    }
}

pub open spec fn cmd_message(e: &CmdError) -> Seq<char> {
    match e {
        CmdError::Spawn { program } => "could not run "@ + program@,
        CmdError::Exit { program, status, text } => program@ + " failed: "@ + status@ + indented(
            lines(trim_end(text@)),
        ),
    }
}

fn trim_end_of(s: &str) -> (r: Vec<char>)
    ensures
        r@ == trim_end(s@),
{
    let v = chars_of(s);
    let mut j = v.len();
    assert(v@.subrange(0, v@.len() as int) == v@);
    while j > 0 && crate::text::is_whitespace(v[j - 1])
        invariant
            j <= v@.len(),
            trim_end(v@) == trim_end(v@.subrange(0, j as int)),
        decreases j,
    {
        assert(v@.subrange(0, j as int).drop_last() == v@.subrange(0, j - 1));
        j = j - 1;
    }
    proof {
        assert(v@.subrange(0, v@.len() as int) == v@);
    }
    let mut r: Vec<char> = Vec::new();
    let mut i: usize = 0;
    while i < j
        invariant
            j <= v@.len(),
            i <= j,
            r@ == v@.subrange(0, i as int),
        decreases j - i,
    {
        r.push(v[i]);
        assert(v@.subrange(0, i + 1) == v@.subrange(0, i as int).push(v@[i as int]));
        i = i + 1;
    }
    assert(v@ == s@);
    r
}

impl CmdError {
    pub fn message(&self) -> (r: String)
        ensures
            r@ == cmd_message(self),
    {
        match self {
            CmdError::Spawn { program } => {
                let mut r = owned("could not run ");
                r.append(program.as_str());
                r
            },
            CmdError::Exit { program, status, text } => {
                let mut r = owned(program.as_str());
                r.append(" failed: ");
                r.append(status.as_str());
                let trimmed = crate::text::string_of(&trim_end_of(text.as_str()));
                let ls = lines_of(trimmed.as_str());
                let ghost start = r@;
                let mut i: usize = 0;
                assert(views(ls@).take(0) =~= Seq::<Seq<char>>::empty());
                while i < ls.len()
                    invariant
                        i <= ls@.len(),
                        r@ == start + indented(views(ls@).take(i as int)),
                    decreases ls@.len() - i,
                {
                    r.append("\n  ");
                    push_range(&mut r, &ls[i], 0, ls[i].len());
                    proof {
                        assert(ls@[i as int]@.subrange(0, ls@[i as int]@.len() as int) == ls@[i as int]@);
                        assert(views(ls@).take(i + 1).drop_last() =~= views(ls@).take(i as int));
                        assert(views(ls@).take(i + 1).last() == ls@[i as int]@);
                    }
                    i = i + 1;
                }
                assert(views(ls@).take(ls@.len() as int) =~= views(ls@));
                r
            },
        }
    }
}

impl Output {
    /// A finished run, from what it printed: stdout then stderr, each read
    /// as text the way `String::from_utf8_lossy` reads it.
    pub fn new(program: &str, succeeded: bool, status: &str, stdout: &[u8], stderr: &[u8]) -> (r: Output)
        ensures
            r.program@ == program@,
            r.succeeded == succeeded,
            r.status@ == status@,
            r.text@ == lossy_utf8(stdout@) + lossy_utf8(stderr@),
    {
        let mut text = from_utf8_lossy(stdout);
        let err = from_utf8_lossy(stderr);
        text.append(err.as_str());
        Output { program: owned(program), succeeded, status: owned(status), text }
    }

    /// Turns a non-zero exit into an error, for callers that treat one as
    /// fatal.
    pub fn success(self) -> (r: Result<(), CmdError>)
        ensures
            self.succeeded ==> r is Ok,
            !self.succeeded ==> (r matches Err(CmdError::Exit { program, status, text })
                && program == self.program && status == self.status && text == self.text),
    {
        if self.succeeded {
            Ok(())
        } else {
            Err(CmdError::Exit { program: self.program, status: self.status, text: self.text })
        }
    }
}

} // verus!
