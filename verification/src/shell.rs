//! The pure bookkeeping of a shell session: the error taxonomy, the
//! working-directory state with `cd`-style navigation, builtin lookup, and
//! the classification of a tokenized command line.

use vstd::prelude::*;

use crate::text_ext::decimal_seq;
use crate::text_ext::decimal_string;
use crate::text_ext::parse_i32;
use crate::text_ext::parse_i32_spec;
use crate::words::join_with_char;
use crate::words::join_words;
use crate::words::lemma_word_views_push;
use crate::words::split_on;
use crate::words::split_on_char;
use crate::words::str_eq_str;
use crate::words::word_views;

verus! {

/// Everything that can go wrong while handling one command line. The
/// variants that carry outside failures (`Io`, `ParseIntError`) hold the
/// reported message as plain text.
#[derive(Debug, PartialEq, Eq)]
pub enum Error {
    CommandNotFound(String),
    TypeNotFound(String),
    ExecuteProblem(String),
    CdProblem(String),
    InvalidArgumentsCount { command: String, expected: usize, actual: usize },
    ConfigMissingEnv(String),
    ConfigWrongFormat(String),
    UnterminatedQuote(char),
    Io(String),
    ParseIntError(String),
}

impl Error {
    /// The one-line diagnostic for this error.
    pub fn message(&self) -> (r: String)
        ensures
            self matches Error::CommandNotFound(c) ==> r@ == c@ + ": command not found"@,
            self matches Error::TypeNotFound(v) ==> r@ == v@ + ": not found"@,
            self matches Error::ExecuteProblem(m) ==> r@ == m@ + ": execute problem"@,
            self matches Error::CdProblem(p) ==> r@ == "cd: "@ + p@
                + ": No such file or directory"@,
            self matches Error::InvalidArgumentsCount { command, expected, actual } ==> r@
                == command@ + ": invalid number of arguments: expected "@ + decimal_seq(
                expected as nat,
            ) + ", got "@ + decimal_seq(actual as nat),
            self matches Error::ConfigMissingEnv(n) ==> r@ == n@
                + ": missing environment variable"@,
            self matches Error::ConfigWrongFormat(n) ==> r@ == n@
                + ": wrong format of environment variable"@,
            self matches Error::UnterminatedQuote(q) ==> r@ == "syntax error: unterminated "@
                + seq![*q] + " quote"@,
            self matches Error::Io(m) ==> r@ == m@,
            self matches Error::ParseIntError(m) ==> r@ == m@,
    {
        match self {
            Error::CommandNotFound(c) => String::from_str(c.as_str()).concat(
                ": command not found",
            ),
            Error::TypeNotFound(v) => String::from_str(v.as_str()).concat(": not found"),
            Error::ExecuteProblem(m) => String::from_str(m.as_str()).concat(": execute problem"),
            Error::CdProblem(p) => String::from_str("cd: ").concat(p.as_str()).concat(
                ": No such file or directory",
            ),
            Error::InvalidArgumentsCount { command, expected, actual } => String::from_str(
                command.as_str(),
            ).concat(": invalid number of arguments: expected ").concat(
                decimal_string(*expected).as_str(),
            ).concat(", got ").concat(decimal_string(*actual).as_str()),
            Error::ConfigMissingEnv(n) => String::from_str(n.as_str()).concat(
                ": missing environment variable",
            ),
            Error::ConfigWrongFormat(n) => String::from_str(n.as_str()).concat(
                ": wrong format of environment variable",
            ),
            Error::UnterminatedQuote(q) => {
                let mut m = String::from_str("syntax error: unterminated ");
                m.push(*q);
                proof {
                    assert(m@ =~= "syntax error: unterminated "@ + seq![*q]);
                }
                m.concat(" quote")
            },
            Error::Io(m) => String::from_str(m.as_str()),
            Error::ParseIntError(m) => String::from_str(m.as_str()),
        }
    }
}

/// The segments of a `/`-separated path; empty segments are kept, so an
/// absolute path starts with an empty segment.
pub fn split_path(path: &str) -> (r: Vec<String>)
    ensures
        word_views(r@) == split_on(path@, '/'),
{
    split_on_char(path, '/')
}

/// The shell's session state: the working directory, held as its
/// `/`-separated segments.
pub struct Shell {
    path_parts: Vec<String>,
}

impl View for Shell {
    type V = Seq<Seq<char>>;

    closed spec fn view(&self) -> Seq<Seq<char>> {
        word_views(self.path_parts@)
    }
}

/// One segment of a relative `cd` path, by what it asks of the shell.
#[derive(Clone, Copy, Debug, PartialEq, Eq, Structural)]
pub enum NavKind {
    Parent,
    Here,
    Home,
    Empty,
    Name,
}

pub open spec fn nav_kind_spec(p: Seq<char>) -> NavKind {
    if p == ".."@ {
        NavKind::Parent
    } else if p == "."@ {
        NavKind::Here
    } else if p == "~"@ {
        NavKind::Home
    } else if p.len() == 0 {
        NavKind::Empty
    } else {
        NavKind::Name
    }
}

fn nav_kind(p: &String) -> (k: NavKind)
    ensures
        k == nav_kind_spec(p@),
{
    if str_eq_str(p.as_str(), "..") {
        NavKind::Parent
    } else if str_eq_str(p.as_str(), ".") {
        NavKind::Here
    } else if str_eq_str(p.as_str(), "~") {
        NavKind::Home
    } else if p.as_str().unicode_len() == 0 {
        NavKind::Empty
    } else {
        NavKind::Name
    }
}

/// The view of the optional home directory handed to `cd`.
pub open spec fn home_view(home: Option<&String>) -> Option<Seq<char>> {
    match home {
        Option::Some(h) => Option::Some(h@),
        Option::None => Option::None,
    }
}

/// Walks the segments of a relative `cd` path over the working-directory
/// segments: `..` drops the last segment (of a root already, nothing), `.`
/// and empty segments change nothing, `~` restarts at the home directory —
/// an error when none is known — and any other segment is entered.
pub open spec fn apply_nav(
    parts: Seq<Seq<char>>,
    nav: Seq<Seq<char>>,
    home: Option<Seq<char>>,
) -> Result<Seq<Seq<char>>, ()>
    decreases nav.len(),
{
    if nav.len() == 0 {
        Ok(parts)
    } else {
        match nav_kind_spec(nav[0]) {
            NavKind::Parent => apply_nav(
                if parts.len() > 0 {
                    parts.drop_last()
                } else {
                    parts
                },
                nav.skip(1),
                home,
            ),
            NavKind::Here => apply_nav(parts, nav.skip(1), home),
            NavKind::Empty => apply_nav(parts, nav.skip(1), home),
            NavKind::Home => match home {
                Option::Some(h) => apply_nav(split_on(h, '/'), nav.skip(1), home),
                Option::None => Err(()),
            },
            NavKind::Name => apply_nav(parts.push(nav[0]), nav.skip(1), home),
        }
    }
}

fn clone_words(v: &Vec<String>) -> (r: Vec<String>)
    ensures
        r@ == v@,
{
    let mut r: Vec<String> = Vec::new();
    let mut i: usize = 0;
    while i < v.len()
        invariant
            i <= v@.len(),
            r@ == v@.take(i as int),
        decreases v@.len() - i,
    {
        r.push(v[i].clone());
        proof {
            assert(v@.take(i as int).push(v@[i as int]) =~= v@.take(i as int + 1));
        }
        i = i + 1;
    }
    proof {
        assert(v@.take(v@.len() as int) =~= v@);
    }
    r
}

/// Whether `name` is handled by the shell itself rather than searched on
/// the PATH.
pub open spec fn is_builtin_spec(s: Seq<char>) -> bool {
    s == "echo"@ || s == "cd"@ || s == "type"@ || s == "exit"@ || s == "pwd"@
}

pub fn is_builtin(name: &str) -> (b: bool)
    ensures
        b == is_builtin_spec(name@),
{
    str_eq_str(name, "echo") || str_eq_str(name, "cd") || str_eq_str(name, "type") || str_eq_str(
        name,
        "exit",
    ) || str_eq_str(name, "pwd")
}

/// What the first word of a tokenized line selects.
#[derive(Clone, Copy, Debug, PartialEq, Eq, Structural)]
pub enum Action {
    Empty,
    Exit,
    Type,
    Echo,
    Cd,
    Pwd,
    Execute,
}

pub open spec fn classify_spec(ws: Seq<Seq<char>>) -> Action {
    if ws.len() == 0 {
        Action::Empty
    } else if ws[0] == "exit"@ {
        Action::Exit
    } else if ws[0] == "type"@ {
        Action::Type
    } else if ws[0] == "echo"@ {
        Action::Echo
    } else if ws[0] == "cd"@ {
        Action::Cd
    } else if ws[0] == "pwd"@ {
        Action::Pwd
    } else {
        Action::Execute
    }
}

/// Chooses the builtin or external action that a tokenized line asks for:
/// its first word decides, and a line without words asks for nothing.
pub fn classify(words: &Vec<String>) -> (a: Action)
    ensures
        a == classify_spec(word_views(words@)),
{
    if words.len() == 0 {
        return Action::Empty;
    }
    proof {
        assert(word_views(words@)[0] == words@[0]@);
    }
    let w = &words[0];
    if str_eq_str(w.as_str(), "exit") {
        Action::Exit
    } else if str_eq_str(w.as_str(), "type") {
        Action::Type
    } else if str_eq_str(w.as_str(), "echo") {
        Action::Echo
    } else if str_eq_str(w.as_str(), "cd") {
        Action::Cd
    } else if str_eq_str(w.as_str(), "pwd") {
        Action::Pwd
    } else {
        Action::Execute
    }
}

/// The file path of `name` inside the directory `dir`.
pub fn candidate_path(dir: &str, name: &str) -> (r: String)
    ensures
        r@ == dir@ + "/"@ + name@,
{
    String::from_str(dir).concat("/").concat(name)
}

/// The process exit code that `exit` chooses: the first argument read as
/// a decimal integer, or 0 when it is missing or malformed.
pub open spec fn exit_code_spec(ws: Seq<Seq<char>>) -> i32 {
    if ws.len() == 0 {
        0
    } else {
        match parse_i32_spec(ws[0]) {
            Option::Some(v) => v,
            Option::None => 0,
        }
    }
}

pub fn exit_code(args: &Vec<String>) -> (r: i32)
    ensures
        r == exit_code_spec(word_views(args@)),
{
    if args.len() == 0 {
        return 0;
    }
    proof {
        assert(word_views(args@)[0] == args@[0]@);
    }
    match parse_i32(args[0].as_str()) {
        Option::Some(v) => v,
        Option::None => 0,
    }
}

/// The message `echo` prints: its arguments joined by single spaces.
pub fn echo_message(args: &Vec<String>) -> (r: String)
    ensures
        r@ == join_words(word_views(args@), ' '),
{
    join_with_char(args, ' ')
}

impl Shell {
    /// A shell positioned at the given working directory.
    pub fn from_dir(dir: &str) -> (s: Shell)
        ensures
            s@ == split_on(dir@, '/'),
    {
        Shell { path_parts: split_path(dir) }
    }

    /// The working directory as a `/`-joined path.
    pub fn current_dir(&self) -> (r: String)
        ensures
            r@ == join_words(self@, '/'),
    {
        join_with_char(&self.path_parts, '/')
    }

    /// Changes the working directory. An absolute path replaces it
    /// outright; a relative path is walked segment by segment as
    /// `apply_nav` describes. Returns the path the caller must make the
    /// process's working directory, or `None` when no argument was given.
    /// On an error the working directory is unchanged.
    pub fn cd(&mut self, args: &Vec<String>, home: Option<&String>) -> (r: Result<
        Option<String>,
        Error,
    >)
        ensures
            args@.len() == 0 ==> (r matches Ok(o) && o is None && final(self)@ == old(self)@),
            args@.len() > 0 ==> {
                let path = args@[0]@;
                if path.len() > 0 && path[0] == '/' {
                    &&& final(self)@ == split_on(path, '/')
                    &&& r matches Ok(Some(t)) && t@ == path
                } else {
                    match apply_nav(old(self)@, split_on(path, '/'), home_view(home)) {
                        Ok(parts) => {
                            &&& final(self)@ == parts
                            &&& r matches Ok(Some(t)) && t@ == join_words(parts, '/')
                        },
                        Err(()) => {
                            &&& final(self)@ == old(self)@
                            &&& r matches Err(e) && e matches Error::ConfigMissingEnv(n) && n@
                                == "HOME"@
                        },
                    }
                }
            },
    {
        if args.len() == 0 {
            return Ok(None);
        }
        let path = &args[0];
        let n = path.as_str().unicode_len();
        if n > 0 && path.as_str().get_char(0) == '/' {
            self.path_parts = split_on_char(path.as_str(), '/');
            return Ok(Some(path.clone()));
        }
        let nav = split_on_char(path.as_str(), '/');
        let mut parts = clone_words(&self.path_parts);
        let mut i: usize = 0;
        proof {
            assert(word_views(nav@).skip(0) =~= word_views(nav@));
        }
        while i < nav.len()
            invariant
                i <= nav@.len(),
                args@.len() > 0,
                word_views(nav@) == split_on(args@[0]@, '/'),
                !(args@[0]@.len() > 0 && args@[0]@[0] == '/'),
                apply_nav(word_views(parts@), word_views(nav@).skip(i as int), home_view(home))
                    == apply_nav(old(self)@, word_views(nav@), home_view(home)),
                word_views(self.path_parts@) == old(self)@,
            decreases nav@.len() - i,
        {
            let ghost navv = word_views(nav@);
            proof {
                assert(navv.skip(i as int)[0] == navv[i as int]);
                assert(navv[i as int] == nav@[i as int]@);
                assert(navv.skip(i as int).skip(1) =~= navv.skip(i as int + 1));
            }
            match nav_kind(&nav[i]) {
                NavKind::Parent => {
                    let ghost pv = word_views(parts@);
                    let _ = parts.pop();
                    proof {
                        if pv.len() > 0 {
                            assert(word_views(parts@) =~= pv.drop_last());
                        }
                    }
                },
                NavKind::Here => {},
                NavKind::Empty => {},
                NavKind::Home => {
                    match home {
                        Option::Some(h) => {
                            parts = split_on_char(h.as_str(), '/');
                        },
                        Option::None => {
                            return Err(Error::ConfigMissingEnv(String::from_str("HOME")));
                        },
                    }
                },
                NavKind::Name => {
                    let ghost pv = parts@;
                    parts.push(nav[i].clone());
                    proof {
                        lemma_word_views_push(pv, nav@[i as int]);
                        assert(word_views(parts@) == word_views(pv).push(nav@[i as int]@));
                    }
                },
            }
            i = i + 1;
        }
        proof {
            assert(word_views(nav@).skip(nav@.len() as int) =~= Seq::<Seq<char>>::empty());
        }
        self.path_parts = parts;
        let target = join_with_char(&self.path_parts, '/');
        Ok(Some(target))
    }

    /// Decides `type NAME`: the builtin message, `None` when the name must
    /// be searched on the PATH, or the arity error when no name was given.
    pub fn type_info(args: &Vec<String>) -> (r: Result<Option<String>, Error>)
        ensures
            args@.len() == 0 ==> (r matches Err(e) && e matches Error::InvalidArgumentsCount {
                command,
                expected,
                actual,
            } && command@ == "type"@ && expected == 1 && actual == 0),
            args@.len() > 0 && is_builtin_spec(args@[0]@) ==> (r matches Ok(Some(m)) && m@
                == args@[0]@ + " is a shell builtin"@),
            args@.len() > 0 && !is_builtin_spec(args@[0]@) ==> (r matches Ok(o) && o is None),
    {
        if args.len() == 0 {
            return Err(
                Error::InvalidArgumentsCount {
                    command: String::from_str("type"),
                    expected: 1,
                    actual: 0,
                },
            );
        }
        let value = &args[0];
        if is_builtin(value.as_str()) {
            Ok(Some(String::from_str(value.as_str()).concat(" is a shell builtin")))
        } else {
            Ok(None)
        }
    }
}

} // verus!
