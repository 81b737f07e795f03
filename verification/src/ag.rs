//! The command line of the search tool, `ag`. Running the tool is left to the
//! caller; what it is run with is decided here.

use vstd::prelude::*;

verus! {

/// The name of the search tool's executable.
pub const PROGRAM: &'static str = "ag";

/// Why the search tool gave no output to work on.
#[derive(Clone, Debug, PartialEq, Eq)]
pub enum AgError {
    /// The process could not be started or read from; the payload says why.
    Process(String),
    /// The process wrote something that is not UTF-8.
    Utf8,
}

impl AgError {
    /// The text that tells a user what went wrong.
    pub open spec fn spec_message(self) -> Seq<char> {
        match self {
            AgError::Process(reason) => "Ag process error: "@ + reason@,
            AgError::Utf8 => "Non-utf8 output read from ag process"@,
        }
    }

    /// The text that tells a user what went wrong.
    pub fn message(&self) -> (res: String)
        ensures
            res@ == self.spec_message(),
    {
        match self {
            AgError::Process(reason) => "Ag process error: ".to_owned().concat(reason.as_str()),
            AgError::Utf8 => "Non-utf8 output read from ag process".to_owned(),
        }
    }
}

/// What each of the strings holds.
pub open spec fn texts(strings: Seq<String>) -> Seq<Seq<char>> {
    strings.map_values(|s: String| s@)
}

/// The arguments that the search tool is run with: case-sensitive matching
/// and column numbers, then the arguments `own` of every search, then the
/// arguments `extra` of this search, then the switch to file name matching
/// where `filenames` is set, then the pattern.
pub open spec fn command_line(
    own: Seq<Seq<char>>,
    pattern: Seq<char>,
    filenames: bool,
    extra: Seq<Seq<char>>,
) -> Seq<Seq<char>> {
    seq!["-s"@, "--column"@] + own + extra + (if filenames {
        seq!["-g"@]
    } else {
        Seq::empty()
    }) + seq![pattern]
}

/// The search tool, with the arguments that every search is run with.
#[derive(Clone, Debug)]
pub struct Ag {
    extra_args: Vec<String>,
}

impl View for Ag {
    type V = Seq<Seq<char>>;

    /// The arguments that every search is run with.
    closed spec fn view(&self) -> Seq<Seq<char>> {
        texts(self.extra_args@)
    }
}

/// Appends a copy of each of `args` to `argv`.
fn push_all(argv: &mut Vec<String>, args: &[String])
    ensures
        texts(final(argv)@) == texts(old(argv)@) + texts(args@),
{
    let mut i: usize = 0;
    while i < args.len()
        invariant
            i <= args.len(),
            texts(argv@) == texts(old(argv)@) + texts(args@).take(i as int),
        decreases args.len() - i,
    {
        let ghost before = argv@;
        argv.push(args[i].clone());
        assert(texts(argv@) == texts(before).push(args@[i as int]@));
        i += 1;
    }
}

impl Ag {
    /// The search tool with `extra_args` added to every search.
    pub fn new(extra_args: Vec<String>) -> (ag: Ag)
        ensures
            ag@ == texts(extra_args@),
    {
        Ag { extra_args }
    }

    /// The search tool with nothing added to its searches.
    pub fn default() -> (ag: Ag)
        ensures
            ag@ == Seq::<Seq<char>>::empty(),
    {
        Ag { extra_args: Vec::new() }
    }

    /// The arguments to run the tool with for one search.
    pub fn command(&self, pattern: &str, filenames: bool, extra_args: &[String]) -> (argv: Vec<
        String,
    >)
        ensures
            texts(argv@) == command_line(self@, pattern@, filenames, texts(extra_args@)),
    {
        let mut argv: Vec<String> = Vec::new();
        argv.push("-s".to_owned());
        argv.push("--column".to_owned());
        assert(texts(argv@) == seq!["-s"@, "--column"@]);
        push_all(&mut argv, self.extra_args.as_slice());
        push_all(&mut argv, extra_args);
        if filenames {
            argv.push("-g".to_owned());
        }
        argv.push(pattern.to_owned());
        argv
    }
}

} // verus!
