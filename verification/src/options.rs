//! The command line: the names of the tasks to run.
use vstd::prelude::*;

verus! {

/// The error type of the argument parser, carried as it is.
#[verifier::external_type_specification]
#[verifier::external_body]
pub struct ExClapError(clap::Error);

/// The options of a run: the task names given on the command line.
#[derive(Debug, PartialEq)]
pub struct Options {
    pub tasks: Vec<String>,
}

impl Default for Options {
    fn default() -> (o: Self)
        ensures
            o.tasks@.len() == 0,
    {
        Options { tasks: Vec::new() }
    }
}

/// Why a run could not start.
#[derive(Debug)]
pub enum ProgramStartError {
    InvalidArgs,
}

/// The values of a list of strings.
pub open spec fn texts(v: Seq<String>) -> Seq<Seq<char>> {
    v.map_values(|s: String| s@)
}

/// Whether the parser accepts `args` (program name first) for a command whose one
/// required positional argument, `tasks`, takes one or more values.
pub uninterp spec fn cli_accepts(args: Seq<Seq<char>>) -> bool;

/// The values the parser gives the `tasks` argument for accepted `args`, if any.
pub uninterp spec fn cli_task_values(args: Seq<Seq<char>>) -> Option<Seq<Seq<char>>>;

/// `clap::App::get_matches_from_safe` for the command `cb2` with the argument
/// `tasks` (required, one or more values), then `ArgMatches::values_of("tasks")`,
/// each value as a `String`. The claim: whether parsing succeeds, and the values, are
/// functions of `args` alone (named above); the parser's error is handed back as it is.
#[verifier::external_body]
fn parse_task_args(args: &Vec<String>) -> (r: Result<Option<Vec<String>>, clap::Error>)
    ensures
        r is Ok <==> cli_accepts(texts(args@)),
        r matches Ok(values) ==> cli_task_values(texts(args@)) == match values {
            Some(v) => Some(texts(v@)),
            None => None,
        },
{
    let matches = clap::App::new("cb2")
        .arg(clap::Arg::with_name("tasks").required(true).min_values(1))
        .get_matches_from_safe(args.iter())?;
    Ok(matches.values_of("tasks").map(|vs| vs.map(|s| s.to_string()).collect()))
}

impl Options {
    /// The options for what the parser made of the arguments: the values of the
    /// `tasks` argument (none when it has none), or `InvalidArgs` when it rejected them.
    pub fn from_parsed(parsed: Result<Option<Vec<String>>, clap::Error>) -> (r: Result<Options, ProgramStartError>)
        ensures
            match parsed {
                Ok(Some(v)) => r matches Ok(o) && o.tasks@ == v@,
                Ok(None) => r matches Ok(o) && o.tasks@.len() == 0,
                Err(_) => r matches Err(ProgramStartError::InvalidArgs),
            },
    {
        match parsed {
            Ok(Some(tasks)) => Ok(Options { tasks }),
            Ok(None) => Ok(Options::default()),
            Err(_) => Err(ProgramStartError::InvalidArgs),
        }
    }

    /// The options given by `args` (program name first): the values of the `tasks`
    /// argument, or `InvalidArgs` when the parser rejects `args`.
    pub fn from_args(args: Vec<String>) -> (r: Result<Options, ProgramStartError>)
        ensures
            match r {
                Ok(o) => cli_accepts(texts(args@)) && texts(o.tasks@) == match cli_task_values(texts(args@)) {
                    Some(v) => v,
                    None => seq![],
                },
                Err(ProgramStartError::InvalidArgs) => !cli_accepts(texts(args@)),
            },
    {
        let parsed = parse_task_args(&args);
        let r = Options::from_parsed(parsed);
        proof {
            if r is Ok && r->Ok_0.tasks@.len() == 0 {
                assert(texts(r->Ok_0.tasks@) == Seq::<Seq<char>>::empty());
            }
        }
        r
    }
}

} // verus!
