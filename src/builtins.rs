use vstd::prelude::*;

use crate::number::{i32_of, parse_i32};
use crate::system::{find_executable, home_directory, path_exists, path_is_dir};
use crate::text::{concat3, is_named, texts};

verus! {

/// The names that the shell handles itself.
pub open spec fn is_builtin_name(s: Seq<char>) -> bool {
    s == "exit"@ || s == "echo"@ || s == "type"@ || s == "pwd"@ || s == "cd"@
}

/// Whether `name` is one of the shell's builtins.
pub fn is_builtin(name: &String) -> (r: bool)
    ensures
        r == is_builtin_name(name@),
{
    is_named(name, "exit") || is_named(name, "echo") || is_named(name, "type") || is_named(
        name,
        "pwd",
    ) || is_named(name, "cd")
}

/// The characters of a string, if there is one.
pub open spec fn opt_view(o: Option<String>) -> Option<Seq<char>> {
    match o {
        Some(s) => Some(s@),
        None => None,
    }
}

/// `exit`: takes no argument, or one exit code.
pub struct ExitComand {
    pub args: Vec<String>,
}

/// What `exit` asks of the shell.
pub enum ExitAction {
    /// End the process with this code.
    Terminate(i32),
    /// Print this line and go on.
    Refuse(String),
}

impl ExitComand {
    /// Ends the process with the code given, or 0 where none or no valid one
    /// is given; refuses more than one argument.
    pub fn execute(&self) -> (r: ExitAction)
        ensures
            self.args.len() > 1 ==> (r matches ExitAction::Refuse(m) && m@
                == "exit: too many arguments"@),
            self.args.len() == 0 ==> r == ExitAction::Terminate(0),
            self.args.len() == 1 ==> r == ExitAction::Terminate(
                match i32_of(self.args@[0]@) {
                    Some(v) => v,
                    None => 0,
                },
            ),
    {
        if self.args.len() > 1 {
            ExitAction::Refuse(String::from_str("exit: too many arguments"))
        } else if self.args.len() == 0 {
            ExitAction::Terminate(0)
        } else {
            match parse_i32(self.args[0].as_str()) {
                Some(v) => ExitAction::Terminate(v),
                None => ExitAction::Terminate(0),
            }
        }
    }
}

/// `echo`: its words, joined by single spaces.
pub struct EchoComand {
    pub text: String,
}

impl EchoComand {
    /// The line that `echo` prints.
    pub fn execute(&self) -> (r: String)
        ensures
            r@ == self.text@,
    {
        self.text.clone()
    }
}

/// The line that `type` prints for `name`, given what a search of the path
/// found for it.
pub open spec fn type_line(name: Seq<char>, found: Option<Seq<char>>) -> Seq<char> {
    if is_builtin_name(name) {
        name + " is a shell builtin"@
    } else {
        match found {
            Some(p) => name + " is "@ + p,
            None => name + ": not found"@,
        }
    }
}

/// `line` is what `type` prints for `name` after some search of the path.
pub open spec fn reports(name: Seq<char>, line: Seq<char>) -> bool {
    exists|f: Option<Seq<char>>| line == type_line(name, f)
}

/// A builtin's name is reported as a builtin, whatever a search of the path
/// would find for it.
pub proof fn lemma_builtin_precedence(name: Seq<char>, found: Option<Seq<char>>, line: Seq<char>)
    requires
        is_builtin_name(name),
    ensures
        type_line(name, found) == name + " is a shell builtin"@,
        reports(name, line) ==> line == name + " is a shell builtin"@,
{
}

/// `type`: tells for each name what it stands for.
pub struct TypeComand {
    pub args: Vec<String>,
}

impl TypeComand {
    /// The line for `name`, given the result of a search of the path.
    pub fn describe(name: &String, found: Option<String>) -> (r: String)
        ensures
            r@ == type_line(name@, opt_view(found)),
    {
        proof {
            reveal_strlit("");
        }
        if is_builtin(name) {
            concat3(name.as_str(), " is a shell builtin", "")
        } else {
            match found {
                Some(p) => concat3(name.as_str(), " is ", p.as_str()),
                None => concat3(name.as_str(), ": not found", ""),
            }
        }
    }

    /// One line for each argument, in order; the path is searched only for
    /// names that are not builtins.
    pub fn execute(&self) -> (r: Vec<String>)
        ensures
            r.len() == self.args.len(),
            forall|k: int| 0 <= k < r.len() ==> #[trigger] reports(self.args@[k]@, r@[k]@),
    {
        let mut lines: Vec<String> = Vec::new();
        let mut k: usize = 0;
        while k < self.args.len()
            invariant
                k <= self.args.len(),
                lines.len() == k,
                forall|j: int| 0 <= j < k ==> #[trigger] reports(self.args@[j]@, lines@[j]@),
            decreases self.args.len() - k,
        {
            let name = &self.args[k];
            let found = if is_builtin(name) {
                None
            } else {
                find_executable(name.as_str())
            };
            let ghost f = opt_view(found);
            let line = TypeComand::describe(name, found);
            let ghost before = lines@;
            lines.push(line);
            assert(lines@[k as int]@ == type_line(self.args@[k as int]@, f));
            assert forall|j: int| 0 <= j < k + 1 implies #[trigger] reports(
                self.args@[j]@,
                lines@[j]@,
            ) by {
                if j < k {
                    assert(lines@[j] == before[j]);
                }
            }
            k = k + 1;
        }
        lines
    }
}

/// `pwd`: prints the working directory.
pub struct PwdComand;

/// What `cd` comes to.
pub enum CdOutcome {
    TooManyArguments,
    HomeNotSet,
    /// The named path does not exist.
    NoSuchFile(String),
    /// The named path is not a directory.
    NotADirectory(String),
    /// Make this path the working directory.
    ChangeTo(String),
}

/// The path that `cd` with one argument probes: the home directory for `~`,
/// else the argument itself. With any other number of arguments, none.
pub open spec fn cd_target(args: Seq<Seq<char>>, home: Option<Seq<char>>) -> Option<Seq<char>> {
    if args.len() != 1 {
        None
    } else if args[0] == "~"@ {
        home
    } else {
        Some(args[0])
    }
}

/// `r` is what `cd` with `args` comes to, where `home` is the home
/// directory, if known, and `exists`, `is_dir` tell what is at the path that
/// the one argument names.
pub open spec fn cd_outcome(
    args: Seq<Seq<char>>,
    home: Option<Seq<char>>,
    exists: bool,
    is_dir: bool,
    r: CdOutcome,
) -> bool {
    if args.len() > 1 {
        r is TooManyArguments
    } else if args.len() == 0 {
        match home {
            None => r is HomeNotSet,
            Some(h) => r matches CdOutcome::ChangeTo(p) && p@ == h,
        }
    } else {
        let a = args[0];
        match cd_target(args, home) {
            None => r is HomeNotSet,
            Some(t) => if !exists {
                r matches CdOutcome::NoSuchFile(s) && s@ == a
            } else if !is_dir {
                r matches CdOutcome::NotADirectory(s) && s@ == a
            } else {
                r matches CdOutcome::ChangeTo(p) && p@ == t
            },
        }
    }
}

/// `cd`: takes no argument, `~`, or one path.
pub struct ChangeDirCommand {
    pub args: Vec<String>,
}

impl ChangeDirCommand {
    /// Whether the arguments name the home directory.
    pub fn needs_home(&self) -> (r: bool)
        ensures
            r == (self.args.len() == 0 || (self.args.len() == 1 && self.args@[0]@ == "~"@)),
    {
        self.args.len() == 0 || (self.args.len() == 1 && is_named(&self.args[0], "~"))
    }

    /// The path to probe, given the home directory, if known.
    pub fn target(&self, home: &Option<String>) -> (r: Option<String>)
        ensures
            opt_view(r) == cd_target(texts(self.args@), opt_view(*home)),
    {
        if self.args.len() != 1 {
            None
        } else if is_named(&self.args[0], "~") {
            home.clone()
        } else {
            Some(self.args[0].clone())
        }
    }

    /// The outcome, given the home directory and what is at the target path.
    pub fn decide(&self, home: Option<String>, exists: bool, is_dir: bool) -> (r: CdOutcome)
        ensures
            cd_outcome(texts(self.args@), opt_view(home), exists, is_dir, r),
    {
        if self.args.len() > 1 {
            return CdOutcome::TooManyArguments;
        }
        if self.args.len() == 0 {
            return match home {
                None => CdOutcome::HomeNotSet,
                Some(h) => CdOutcome::ChangeTo(h),
            };
        }
        let arg = &self.args[0];
        match self.target(&home) {
            None => CdOutcome::HomeNotSet,
            Some(t) => if !exists {
                CdOutcome::NoSuchFile(arg.clone())
            } else if !is_dir {
                CdOutcome::NotADirectory(arg.clone())
            } else {
                CdOutcome::ChangeTo(t)
            },
        }
    }

    /// Looks up the home directory where the arguments name it, probes the
    /// path that `target` gives, and decides.
    pub fn execute(&self) -> (r: CdOutcome)
        ensures
            exists|h: Option<Seq<char>>, e: bool, d: bool| cd_outcome(texts(self.args@), h, e, d, r),
    {
        let home = if self.needs_home() {
            home_directory()
        } else {
            None
        };
        let mut exists = true;
        let mut is_dir = true;
        if let Some(t) = self.target(&home) {
            exists = path_exists(t.as_str());
            is_dir = exists && path_is_dir(t.as_str());
        }
        let r = self.decide(home, exists, is_dir);
        r
    }
}

impl CdOutcome {
    /// The line to report, for every outcome but a change of directory.
    pub fn message(&self) -> (r: Option<String>)
        ensures
            match self {
                CdOutcome::TooManyArguments => r matches Some(m) && m@ == "too many arguments"@,
                CdOutcome::HomeNotSet => r matches Some(m) && m@ == "cd: HOME not set"@,
                CdOutcome::NoSuchFile(t) => r matches Some(m) && m@ == "cd: "@ + t@
                    + ": No such file or directory"@,
                CdOutcome::NotADirectory(t) => r matches Some(m) && m@ == "cd: "@ + t@
                    + ": not a directory"@,
                CdOutcome::ChangeTo(_) => r is None,
            },
    {
        match self {
            CdOutcome::TooManyArguments => Some(String::from_str("too many arguments")),
            CdOutcome::HomeNotSet => Some(String::from_str("cd: HOME not set")),
            CdOutcome::NoSuchFile(t) => Some(
                concat3("cd: ", t.as_str(), ": No such file or directory"),
            ),
            CdOutcome::NotADirectory(t) => Some(concat3("cd: ", t.as_str(), ": not a directory")),
            CdOutcome::ChangeTo(_) => None,
        }
    }
}

} // verus!
