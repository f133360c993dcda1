//! The command line of the compiler: the options it is run with, read from
//! its arguments. Reading stops at `-f` so that the caller reads the named
//! file before the rest of the arguments are read.
use crate::text::str_eq;
use vstd::prelude::*;

verus! {

/// What the compiler is asked to produce
#[derive(Debug, Clone, Copy, PartialEq, Eq, Structural)]
pub enum CompilerMode {
    Lexer,
    ASTDump,
    Compiler,
    Assembly,
    Functions,
}

/// The options of a run of the compiler
#[derive(Debug, Clone, PartialEq, Eq)]
pub struct CliOptions {
    mode: CompilerMode,
    src: String,
    output: Option<String>,
    debug_path: Option<String>,
    /// Whether calls to `__syscalld` are allowed
    pub allow_syscalld: bool,
}

/// The options as text
pub struct ArgsView {
    pub mode: CompilerMode,
    pub src: Seq<char>,
    pub output: Option<Seq<char>>,
    pub debug_path: Option<Seq<char>>,
    pub allow_syscalld: bool,
}

/// What reading the arguments leads to: a run; an exit with a code and a
/// message to print; or, at `-f`, the file to read the source from before
/// reading on from the given argument
pub enum CliView {
    Run(ArgsView),
    Exit(int, Seq<char>),
    ReadFile(ArgsView, Seq<char>, int),
}

/// The text of an optional string
pub open spec fn opt_text(s: Option<String>) -> Option<Seq<char>> {
    match s {
        Some(x) => Some(x@),
        None => None,
    }
}

/// The help text
pub open spec fn usage() -> Seq<char> {
    USAGE@
}

/// The help text
pub const USAGE: &'static str = "Usage: compiler [options]\nOptions:\n\n-h, --help: Display this help message\n\nTo compile stdlib;\n  cargo run --bin compiler -- -F -f stdlib/src/math.lav -o stdlib/math.bin --allow-syscalld\n  cargo run --bin compiler -- -F -f stdlib/src/system.lav -o stdlib/system.bin --allow-syscalld\n\nOperational Modes (mutually exclusive):\n  -l, --lexer: Run the lexer\n  -c, --compiler: Run the compiler\n  -a, --asm: Run the assembly transcoder\n  -A, --ast-dump: Run the AST dumper\n  -F, --functions: Compile and dump functions\n\nInput/Output Options:\n  -f, --file <filename>: Read input from file\n  -i, --input <input>: Read input from command line\n  -o, --output <output>: Set output filename\n  -d, --debug <path>: Set debug symbol output path\n  -D, --debug-functions: Enable debug symbols, but don't output them (warning; only useful with -F)\n\nFlags:\n  --allow-syscalld: Enables calls to __syscalld() in the compiler";

/// The options before any argument is read
pub open spec fn default_args() -> ArgsView {
    ArgsView {
        mode: CompilerMode::Compiler,
        src: Seq::empty(),
        output: None,
        debug_path: None,
        allow_syscalld: false,
    }
}

/// The argument is one of the two spellings of a flag
pub open spec fn is_flag(arg: Seq<char>, short: Seq<char>, long: Seq<char>) -> bool {
    arg == short || arg == long
}

/// Reading the arguments from `i` on, with the options read so far
pub open spec fn parse_from(args: Seq<Seq<char>>, i: int, st: ArgsView) -> CliView
    decreases args.len() - i,
{
    if i >= args.len() || i < 0 {
        CliView::Run(st)
    } else {
        let arg = args[i];
        let has_next = i + 1 < args.len();
        if is_flag(arg, "-l"@, "--lexer"@) {
            parse_from(args, i + 1, ArgsView { mode: CompilerMode::Lexer, ..st })
        } else if is_flag(arg, "-c"@, "--compiler"@) {
            parse_from(args, i + 1, ArgsView { mode: CompilerMode::Compiler, ..st })
        } else if is_flag(arg, "-a"@, "--asm"@) {
            parse_from(args, i + 1, ArgsView { mode: CompilerMode::Assembly, ..st })
        } else if is_flag(arg, "-A"@, "--ast-dump"@) {
            parse_from(args, i + 1, ArgsView { mode: CompilerMode::ASTDump, ..st })
        } else if is_flag(arg, "-F"@, "--functions"@) {
            parse_from(args, i + 1, ArgsView { mode: CompilerMode::Functions, ..st })
        } else if is_flag(arg, "-f"@, "--file"@) {
            if has_next {
                CliView::ReadFile(st, args[i + 1], i + 2)
            } else {
                CliView::Exit(1, "Expected filename following -f/--file"@)
            }
        } else if is_flag(arg, "-i"@, "--input"@) {
            if has_next {
                parse_from(args, i + 2, ArgsView { src: args[i + 1], ..st })
            } else {
                CliView::Exit(1, "Expected input following -i/--input"@)
            }
        } else if is_flag(arg, "-o"@, "--output"@) {
            if has_next {
                parse_from(args, i + 2, ArgsView { output: Some(args[i + 1]), ..st })
            } else {
                CliView::Exit(1, "Expected output filename following -o/--output"@)
            }
        } else if is_flag(arg, "-d"@, "--debug"@) {
            if has_next {
                parse_from(args, i + 2, ArgsView { debug_path: Some(args[i + 1]), ..st })
            } else {
                CliView::Exit(1, "Expected debug path following -d/--debug"@)
            }
        } else if is_flag(arg, "-D"@, "--debug-functions"@) {
            parse_from(args, i + 1, ArgsView { debug_path: Some(Seq::empty()), ..st })
        } else if arg == "--allow-syscalld"@ {
            parse_from(args, i + 1, ArgsView { allow_syscalld: true, ..st })
        } else if is_flag(arg, "-h"@, "--help"@) {
            CliView::Exit(0, usage())
        } else {
            CliView::Exit(1, "Unknown option: "@ + arg)
        }
    }
}

/// What a run of the compiler with these arguments is asked to do
pub enum CliRequest {
    /// Run with the options
    Run(CliOptions),
    /// Read the named file: its text is the source, and the arguments are read
    /// on from the given position with the options
    ReadFile(CliOptions, String, usize),
    /// Print the message and exit with the code
    Exit(i32, String),
}

/// The request answers what reading the arguments leads to
pub open spec fn answers(r: CliRequest, v: CliView) -> bool {
    match v {
        CliView::Run(st) => r matches CliRequest::Run(o) && o.view_args() == st,
        CliView::Exit(code, msg) => r matches CliRequest::Exit(c, m) && c == code && m@ == msg,
        CliView::ReadFile(st, file, at) => r matches CliRequest::ReadFile(o, f, i) && o.view_args()
            == st && f@ == file && i == at,
    }
}

fn flag(arg: &str, short: &str, long: &str) -> (b: bool)
    ensures
        b == is_flag(arg@, short@, long@),
{
    str_eq(arg, short) || str_eq(arg, long)
}

fn clone_string(s: &String) -> (r: String)
    ensures
        r@ == s@,
{
    s.clone()
}

impl CliOptions {
    /// The options as text
    pub closed spec fn view_args(&self) -> ArgsView {
        ArgsView {
            mode: self.mode,
            src: self.src@,
            output: opt_text(self.output),
            debug_path: opt_text(self.debug_path),
            allow_syscalld: self.allow_syscalld,
        }
    }

    /// The requested mode
    pub fn mode(&self) -> (m: CompilerMode)
        ensures
            m == self.view_args().mode,
    {
        self.mode
    }

    /// The source text
    pub fn src(&self) -> (s: &str)
        ensures
            s@ == self.view_args().src,
    {
        self.src.as_str()
    }

    /// Where to write debug symbols, if anywhere
    pub fn debug_path(&self) -> (p: Option<&str>)
        ensures
            match p {
                Some(s) => self.view_args().debug_path == Some(s@),
                None => self.view_args().debug_path is None,
            },
    {
        match &self.debug_path {
            Some(d) => Some(d.as_str()),
            None => None,
        }
    }

    /// Where to write the output, if anywhere
    pub fn output(&self) -> (p: Option<&str>)
        ensures
            match p {
                Some(s) => self.view_args().output == Some(s@),
                None => self.view_args().output is None,
            },
    {
        match &self.output {
            Some(d) => Some(d.as_str()),
            None => None,
        }
    }

    /// Whether the `syscalld` function may be compiled
    pub fn allow_syscalld(&self) -> (b: bool)
        ensures
            b == self.view_args().allow_syscalld,
    {
        self.allow_syscalld
    }

    /// The options with the source text replaced
    pub fn with_src(self, src: String) -> (o: Self)
        ensures
            o.view_args() == (ArgsView { src: src@, ..self.view_args() }),
    {
        CliOptions { src, ..self }
    }

    /// Read the options from the arguments of the command line
    pub fn parse(args: &Vec<String>) -> (r: CliRequest)
        ensures
            answers(r, parse_from(args@.map_values(|a: String| a@), 0, default_args())),
    {
        let o = CliOptions {
            mode: CompilerMode::Compiler,
            src: String::new(),
            output: None,
            debug_path: None,
            allow_syscalld: false,
        };
        o.resume(args, 0)
    }

    /// Read on from argument `at` with these options
    pub fn resume(self, args: &Vec<String>, at: usize) -> (r: CliRequest)
        ensures
            answers(r, parse_from(args@.map_values(|a: String| a@), at as int, self.view_args())),
    {
        let ghost all = args@.map_values(|a: String| a@);
        let mut o = self;
        let mut i: usize = at;
        if i > args.len() {
            return CliRequest::Run(o);
        }
        while i < args.len()
            invariant
                at <= i <= args@.len(),
                all == args@.map_values(|a: String| a@),
                parse_from(all, i as int, o.view_args()) == parse_from(all, at as int, self.view_args()),
            decreases args@.len() - i,
        {
            let ghost st = o.view_args();
            let arg = args[i].as_str();
            let has_next = i + 1 < args.len();
            assert(all[i as int] == arg@);
            assert(has_next ==> all[i + 1] == args@[i + 1]@);
            if flag(arg, "-l", "--lexer") {
                o.mode = CompilerMode::Lexer;
                i = i + 1;
            } else if flag(arg, "-c", "--compiler") {
                o.mode = CompilerMode::Compiler;
                i = i + 1;
            } else if flag(arg, "-a", "--asm") {
                o.mode = CompilerMode::Assembly;
                i = i + 1;
            } else if flag(arg, "-A", "--ast-dump") {
                o.mode = CompilerMode::ASTDump;
                i = i + 1;
            } else if flag(arg, "-F", "--functions") {
                o.mode = CompilerMode::Functions;
                i = i + 1;
            } else if flag(arg, "-f", "--file") {
                if !has_next {
                    return CliRequest::Exit(1, String::from_str("Expected filename following -f/--file"));
                }
                let file = clone_string(&args[i + 1]);
                return CliRequest::ReadFile(o, file, i + 2);
            } else if flag(arg, "-i", "--input") {
                if !has_next {
                    return CliRequest::Exit(1, String::from_str("Expected input following -i/--input"));
                }
                o.src = clone_string(&args[i + 1]);
                i = i + 2;
            } else if flag(arg, "-o", "--output") {
                if !has_next {
                    return CliRequest::Exit(1, String::from_str("Expected output filename following -o/--output"));
                }
                o.output = Some(clone_string(&args[i + 1]));
                i = i + 2;
            } else if flag(arg, "-d", "--debug") {
                if !has_next {
                    return CliRequest::Exit(1, String::from_str("Expected debug path following -d/--debug"));
                }
                o.debug_path = Some(clone_string(&args[i + 1]));
                i = i + 2;
            } else if flag(arg, "-D", "--debug-functions") {
                o.debug_path = Some(String::new());
                i = i + 1;
            } else if str_eq(arg, "--allow-syscalld") {
                o.allow_syscalld = true;
                i = i + 1;
            } else if flag(arg, "-h", "--help") {
                return CliRequest::Exit(0, String::from_str(USAGE));
            } else {
                let mut m = String::from_str("Unknown option: ");
                m.append(arg);
                return CliRequest::Exit(1, m);
            }
        }
        CliRequest::Run(o)
    }
}

} // verus!
