//! Settings of the command-line shell around the library: where the
//! database lives, which I/O backend serves it, and how results are shown.
use vstd::prelude::*;

verus! {

/// Where the database lives.
#[derive(Debug, Clone, Copy, PartialEq, Eq, Structural)]
pub enum DbLocation {
    Memory,
    Path,
}

/// The I/O backend.
#[derive(Debug, Clone, PartialEq, Eq)]
pub enum Io {
    Syscall,
    External(String),
    Memory,
}

/// What an `Io` names.
pub enum IoModel {
    Syscall,
    External(Seq<char>),
    Memory,
}

impl View for Io {
    type V = IoModel;

    open spec fn view(&self) -> IoModel {
        match self {
            Io::Syscall => IoModel::Syscall,
            Io::External(s) => IoModel::External(s@),
            Io::Memory => IoModel::Memory,
        }
    }
}

impl Default for Io {
    fn default() -> (r: Self)
        ensures
            r == Io::Syscall,
    {
        Io::Syscall
    }
}

impl Io {
    /// The name of the backend, as the shell shows it.
    pub fn name(&self) -> (r: String)
        ensures
            r@ == match self@ {
                IoModel::Memory => "memory"@,
                IoModel::Syscall => "syscall"@,
                IoModel::External(s) => s,
            },
    {
        match self {
            Io::Memory => "memory".to_owned(),
            Io::Syscall => "syscall".to_owned(),
            Io::External(s) => s.clone(),
        }
    }
}

/// How query results are shown.
#[derive(Debug, Clone, Copy, PartialEq, Eq, Structural)]
pub enum OutputMode {
    List,
    Pretty,
}

impl OutputMode {
    /// The name of the mode, as given on the command line.
    pub fn name(&self) -> (r: String)
        ensures
            r@ == match self {
                OutputMode::List => "list"@,
                OutputMode::Pretty => "pretty"@,
            },
    {
        match self {
            OutputMode::List => "list".to_owned(),
            OutputMode::Pretty => "pretty".to_owned(),
        }
    }
}

/// The command-line options of the shell.
#[derive(Debug, Clone)]
pub struct Opts {
    /// The database file; `:memory:` for an in-memory database.
    pub database: Option<String>,
    /// A statement to run.
    pub sql: Option<String>,
    pub output_mode: OutputMode,
    /// The output file; empty for standard output.
    pub output: String,
    /// Whether to skip the banner on start.
    pub quiet: bool,
    /// Whether to print commands before running them.
    pub echo: bool,
    /// The I/O backend: `memory`, `syscall`, or another name.
    pub vfs: Option<String>,
    pub experimental_mvcc: bool,
}

/// The settings of a shell session.
#[derive(Debug, Clone)]
pub struct Settings {
    pub output_filename: String,
    pub db_file: String,
    pub null_value: String,
    pub output_mode: OutputMode,
    pub echo: bool,
    pub is_stdout: bool,
    pub io: Io,
}

/// The backend a `vfs` option names; an empty one names the default.
pub open spec fn io_for_vfs(vfs: Seq<char>) -> IoModel {
    if vfs == "memory"@ {
        IoModel::Memory
    } else if vfs == "syscall"@ {
        IoModel::Syscall
    } else if vfs.len() == 0 {
        IoModel::Syscall
    } else {
        IoModel::External(vfs)
    }
}

/// Whether `s` holds the text `lit`.
fn text_is(s: &String, lit: &str) -> (r: bool)
    ensures
        r == (s@ == lit@),
{
    let l = lit.to_owned();
    s.eq(&l)
}

impl Settings {
    /// The settings that the command-line options give: no null text, no
    /// echo, output to standard output where no file is named, and the
    /// in-memory database where none is named.
    pub fn from(opts: &Opts) -> (r: Settings)
        ensures
            r.null_value@ == Seq::<char>::empty(),
            r.output_mode == opts.output_mode,
            !r.echo,
            r.is_stdout == (opts.output@.len() == 0),
            r.output_filename@ == opts.output@,
            r.db_file@ == match opts.database {
                Some(p) => p@,
                None => ":memory:"@,
            },
            r.io@ == io_for_vfs(
                match opts.vfs {
                    Some(v) => v@,
                    None => Seq::<char>::empty(),
                },
            ),
    {
        let db_file = match &opts.database {
            Some(p) => p.clone(),
            None => ":memory:".to_owned(),
        };
        let io = match &opts.vfs {
            None => {
                proof {
                    reveal_strlit("memory");
                    reveal_strlit("syscall");
                }
                Io::default()
            },
            Some(v) => {
                if text_is(v, "memory") {
                    Io::Memory
                } else if text_is(v, "syscall") {
                    Io::Syscall
                } else if v.as_str().is_empty() {
                    Io::default()
                } else {
                    Io::External(v.clone())
                }
            },
        };
        Settings {
            null_value: String::new(),
            output_mode: opts.output_mode,
            echo: false,
            is_stdout: opts.output.as_str().is_empty(),
            output_filename: opts.output.clone(),
            db_file,
            io,
        }
    }
}

} // verus!
