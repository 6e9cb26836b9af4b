//! The command line as data, and the routing of one invocation: to an
//! auxiliary subcommand, to the usage text, to the accelerated pipeline or to
//! one of the three local operations.

use vstd::prelude::*;

verus! {

/// The parsed command line:
/// `<pattern> <path> [-c] [-F] [-v] [-i] [--replace <text>] [--force-cpu]`,
/// or a subcommand.
#[derive(Debug)]
pub struct Cli {
    pub command: Option<Commands>,
    /// The search pattern (regex or string).
    pub pattern: Option<String>,
    /// Path to search.
    pub path: Option<String>,
    /// Count matching lines.
    pub count: bool,
    /// Fixed string matching (no regex).
    pub fixed_strings: bool,
    /// Select non-matching lines.
    pub invert_match: bool,
    /// Case insensitive search.
    pub ignore_case: bool,
    /// Find and replace in place.
    pub replace: Option<String>,
    /// Never hand the request to the accelerated pipeline.
    pub force_cpu: bool,
}

/// The subcommands, all of them served by the external collaborator.
#[derive(Debug)]
pub enum Commands {
    Mcp,
    Classify { file_path: String },
    Run { pattern: String, path: Option<String> },
    Scan,
    Test,
    New,
    Lsp,
}

/// What an invocation asks for, before any capability probe.
#[derive(Debug)]
pub enum Invocation {
    /// A subcommand, named as the collaborator knows it, with its arguments.
    Delegate { command: String, args: Vec<String> },
    /// Pattern or path is missing: show the usage text.
    Help,
    /// A query on `path`.
    Query { pattern: String, path: String },
}

/// Where a query is carried out.
#[derive(Clone, Copy, Debug, PartialEq, Eq, Structural)]
pub enum Route {
    /// The whole request goes to the accelerated pipeline.
    Accelerated,
    /// Local in-place replacement.
    Replace,
    /// Local count.
    Count,
    /// Local ordered search.
    Search,
}

/// The texts of a vector of strings.
pub open spec fn texts(strings: Seq<String>) -> Seq<Seq<char>> {
    strings.map_values(|s: String| s@)
}

impl Commands {
    /// The name under which the collaborator serves this subcommand.
    pub open spec fn name(self) -> Seq<char> {
        match self {
            Commands::Mcp => "mcp_server"@,
            Commands::Classify { .. } => "classify"@,
            Commands::Run { .. } => "run"@,
            Commands::Scan => "scan"@,
            Commands::Test => "test"@,
            Commands::New => "new"@,
            Commands::Lsp => "lsp"@,
        }
    }

    /// The arguments handed on with it.
    pub open spec fn arguments(self) -> Seq<Seq<char>> {
        match self {
            Commands::Classify { file_path } => seq![file_path@],
            Commands::Run { pattern, path: Some(p) } => seq![pattern@, p@],
            Commands::Run { pattern, path: None } => seq![pattern@],
            _ => Seq::empty(),
        }
    }

    /// Name and arguments for the collaborator.
    pub fn delegate(&self) -> (call: (String, Vec<String>))
        ensures
            call.0@ == self.name(),
            texts(call.1@) == self.arguments(),
    {
        let mut args: Vec<String> = Vec::new();
        let command = match self {
            Commands::Mcp => "mcp_server".to_owned(),
            Commands::Classify { file_path } => {
                args.push(file_path.clone());
                "classify".to_owned()
            },
            Commands::Run { pattern, path } => {
                args.push(pattern.clone());
                match path {
                    Some(p) => {
                        args.push(p.clone());
                    },
                    None => {},
                }
                "run".to_owned()
            },
            Commands::Scan => "scan".to_owned(),
            Commands::Test => "test".to_owned(),
            Commands::New => "new".to_owned(),
            Commands::Lsp => "lsp".to_owned(),
        };
        proof {
            assert(texts(args@) =~= self.arguments());
        }
        (command, args)
    }
}

impl Cli {
    /// A subcommand wins over everything else; without one, a query needs
    /// both pattern and path, and anything less gets the usage text.
    pub fn invocation(&self) -> (asked: Invocation)
        ensures
            match asked {
                Invocation::Delegate { command, args } => {
                    &&& self.command matches Some(c)
                    &&& command@ == c.name()
                    &&& texts(args@) == c.arguments()
                },
                Invocation::Help => self.command is None && (self.pattern is None
                    || self.path is None),
                Invocation::Query { pattern, path } => {
                    &&& self.command is None
                    &&& self.pattern matches Some(p)
                    &&& p@ == pattern@
                    &&& self.path matches Some(q)
                    &&& q@ == path@
                },
            },
    {
        match &self.command {
            Some(c) => {
                let (command, args) = c.delegate();
                Invocation::Delegate { command, args }
            },
            None => match (&self.pattern, &self.path) {
                (Some(pattern), Some(path)) => Invocation::Query {
                    pattern: pattern.clone(),
                    path: path.clone(),
                },
                _ => Invocation::Help,
            },
        }
    }

    /// Whether the capability probe is consulted at all: never when the
    /// user forces the local engine, nor for a replacement, which only the
    /// local engine can carry out.
    pub fn consults_probe(&self) -> (asks: bool)
        ensures
            asks == (!self.force_cpu && self.replace is None),
    {
        !self.force_cpu && self.replace.is_none()
    }

    /// Routes a query once the probe has answered (pass `false` where it was
    /// not consulted). Replacement comes before count, count before search.
    pub fn route(&self, accelerator_available: bool) -> (route: Route)
        ensures
            route == if !self.force_cpu && self.replace is None && accelerator_available {
                Route::Accelerated
            } else if self.replace is Some {
                Route::Replace
            } else if self.count {
                Route::Count
            } else {
                Route::Search
            },
    {
        if self.consults_probe() && accelerator_available {
            Route::Accelerated
        } else if self.replace.is_some() {
            Route::Replace
        } else if self.count {
            Route::Count
        } else {
            Route::Search
        }
    }
}

/// The argument vector with which the collaborator's entry point is started:
/// the program name, the subcommand, then its arguments.
pub fn fallback_argv(command: &str, args: Vec<String>) -> (argv: Vec<String>)
    ensures
        texts(argv@) == seq!["tg"@, command@] + texts(args@),
{
    let mut argv: Vec<String> = Vec::new();
    argv.push("tg".to_owned());
    argv.push(command.to_owned());
    let mut rest = args;
    let ghost head = argv@;
    let ghost tail = rest@;
    argv.append(&mut rest);
    proof {
        assert(texts(head + tail) =~= texts(head) + texts(tail));
        assert(texts(head) =~= seq!["tg"@, command@]);
    }
    argv
}

/// The character of a decimal digit.
pub open spec fn digit_char(d: nat) -> char {
    if d == 0 {
        '0'
    } else if d == 1 {
        '1'
    } else if d == 2 {
        '2'
    } else if d == 3 {
        '3'
    } else if d == 4 {
        '4'
    } else if d == 5 {
        '5'
    } else if d == 6 {
        '6'
    } else if d == 7 {
        '7'
    } else if d == 8 {
        '8'
    } else {
        '9'
    }
}

/// A number in decimal, without sign or leading zeros.
pub open spec fn decimal_digits(n: nat) -> Seq<char>
    decreases n,
{
    if n < 10 {
        seq![digit_char(n)]
    } else {
        decimal_digits(n / 10).push(digit_char(n % 10))
    }
}

fn digit_text(d: usize) -> (text: &'static str)
    requires
        d < 10,
    ensures
        text@ == seq![digit_char(d as nat)],
{
    proof {
        reveal_strlit("0");
        reveal_strlit("1");
        reveal_strlit("2");
        reveal_strlit("3");
        reveal_strlit("4");
        reveal_strlit("5");
        reveal_strlit("6");
        reveal_strlit("7");
        reveal_strlit("8");
        reveal_strlit("9");
    }
    let text = if d == 0 {
        "0"
    } else if d == 1 {
        "1"
    } else if d == 2 {
        "2"
    } else if d == 3 {
        "3"
    } else if d == 4 {
        "4"
    } else if d == 5 {
        "5"
    } else if d == 6 {
        "6"
    } else if d == 7 {
        "7"
    } else if d == 8 {
        "8"
    } else {
        "9"
    };
    proof {
        assert(text@ =~= seq![digit_char(d as nat)]);
    }
    text
}

/// Writes a number in decimal.
pub fn decimal(n: usize) -> (text: String)
    ensures
        text@ == decimal_digits(n as nat),
    decreases n,
{
    if n < 10 {
        digit_text(n).to_owned()
    } else {
        let text = decimal(n / 10).concat(digit_text(n % 10));
        proof {
            assert(decimal_digits((n / 10) as nat) + seq![digit_char((n % 10) as nat)]
                =~= decimal_digits((n / 10) as nat).push(digit_char((n % 10) as nat)));
        }
        text
    }
}

/// The output line of one match: the line number, a colon, the line's text.
pub fn match_line(line_number: usize, text: &str) -> (line: String)
    ensures
        line@ == decimal_digits(line_number as nat) + seq![':'] + text@,
{
    proof {
        reveal_strlit(":");
        assert(":"@ =~= seq![':']);
    }
    decimal(line_number).concat(":").concat(text)
}

/// The output of a search: one line per match, in file-then-line order.
pub fn match_lines(results: &Vec<(usize, String)>) -> (lines: Vec<String>)
    ensures
        lines@.len() == results@.len(),
        forall|k: int|
            0 <= k < results@.len() ==> (#[trigger] lines@[k])@ == decimal_digits(
                results@[k].0 as nat,
            ) + seq![':'] + results@[k].1@,
{
    let mut lines: Vec<String> = Vec::new();
    let mut k: usize = 0;
    while k < results.len()
        invariant
            k <= results.len(),
            lines@.len() == k,
            forall|j: int|
                0 <= j < k ==> (#[trigger] lines@[j])@ == decimal_digits(results@[j].0 as nat)
                    + seq![':'] + results@[j].1@,
        decreases results.len() - k,
    {
        let line = match_line(results[k].0, results[k].1.as_str());
        lines.push(line);
        k = k + 1;
    }
    lines
}

/// The single line that confirms a replacement, naming the replacement text.
pub fn replace_confirmation(replacement: &str) -> (line: String)
    ensures
        line@ == "Replaced matches with '"@ + replacement@ + "'"@,
{
    "Replaced matches with '".to_owned().concat(replacement).concat("'")
}

} // verus!
