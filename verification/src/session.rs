//! The shell session: reading a command line, the builtins it names, and
//! the bookkeeping of jobs as processes start, stop and end.

use vstd::prelude::*;

use crate::cmd::fg::stopped_line;
use crate::job::{
    find_by_pid, id_used, ids_distinct, lemma_remove_keeps_distinct, index_of_pid, is_least_free, next_free_id, Job,
    JobStatus,
};
use crate::num::{decimal, push_decimal, push_signed_decimal, signed_decimal};
use crate::text::{
    chars_of, chars_equal, is_word, is_white, lemma_split_white_words, char_views, join_words, push_char, push_padded, push_str, slice_chars, split_white,
    split_white_chars, string_of, texts, trim_quote_chars, trim_quotes, trim_white,
    trim_white_chars,
};

verus! {

/// A command line read from the user: the line without surrounding white
/// space, its words (with a trailing `&` taken off), the command name (the
/// first word without surrounding `"`), the arguments (the other words), and
/// whether it runs in the background.
pub struct CommandLine {
    pub line: String,
    pub words: Vec<String>,
    pub name: String,
    pub args: Vec<String>,
    pub background: bool,
}

/// The words without a trailing `&`, and whether there was one: a last word
/// `&` is dropped, a last word ending in `&` loses that character.
pub open spec fn strip_background(words: Seq<Seq<char>>) -> (Seq<Seq<char>>, bool) {
    if words.len() == 0 {
        (words, false)
    } else if words.last() == seq!['&'] {
        (words.drop_last(), true)
    } else if words.last().len() > 0 && words.last().last() == '&' {
        (words.update(words.len() - 1, words.last().drop_last()), true)
    } else {
        (words, false)
    }
}

/// The reading of an input line: `None` for a line with no command (blank,
/// or a lone `&`), else the trimmed line, its words and the background flag.
pub open spec fn read_command(input: Seq<char>) -> Option<(Seq<char>, Seq<Seq<char>>, bool)> {
    let line = trim_white(input);
    let (words, background) = strip_background(split_white(line));
    if line.len() == 0 || words.len() == 0 {
        None
    } else {
        Some((line, words, background))
    }
}

/// Every word of a command line is non-empty and free of white space, and
/// the line itself is non-empty.
pub proof fn lemma_read_command_words(input: Seq<char>)
    ensures
        read_command(input) matches Some((line, words, bg)) ==> line.len() > 0 && words.len() > 0
            && forall|k: int| 0 <= k < words.len() ==> is_word(#[trigger] words[k]),
{
    let split = split_white(trim_white(input));
    lemma_split_white_words(trim_white(input));
    if let Some((line, words, bg)) = read_command(input) {
        if split.len() > 0 && split.last() != seq!['&'] && split.last().len() > 0 && split.last().last() == '&' {
            let last = split.last();
            assert(last.len() >= 2) by {
                if last.len() == 1 {
                    assert(last =~= seq!['&']);
                }
            }
            assert forall|k: int| 0 <= k < words.len() implies is_word(#[trigger] words[k]) by {
                if k == words.len() - 1 {
                    assert(words[k] == last.drop_last());
                    assert forall|i: int| 0 <= i < words[k].len() implies !is_white(#[trigger] words[k][i]) by {
                        assert(words[k][i] == last[i]);
                    }
                } else {
                    assert(words[k] == split[k]);
                }
            }
        } else if split.len() > 0 && split.last() == seq!['&'] {
            assert forall|k: int| 0 <= k < words.len() implies is_word(#[trigger] words[k]) by {
                assert(words[k] == split[k]);
            }
        }
    }
}

/// The strings of the characters in `v`.
fn strings_of(v: &Vec<Vec<char>>, from: usize) -> (r: Vec<String>)
    requires
        from <= v.len(),
    ensures
        texts(r@) == char_views(v@).skip(from as int),
{
    let mut r: Vec<String> = Vec::new();
    let mut i = from;
    while i < v.len()
        invariant
            from <= i <= v.len(),
            texts(r@) == char_views(v@).subrange(from as int, i as int),
        decreases v.len() - i,
    {
        let ghost before = r@;
        r.push(string_of(&v[i]));
        assert(texts(r@) =~= texts(before).push(v@[i as int]@));
        i += 1;
        assert(texts(r@) =~= char_views(v@).subrange(from as int, i as int));
    }
    assert(char_views(v@).subrange(from as int, v.len() as int) =~= char_views(v@).skip(from as int));
    r
}

/// Reads a command line as the shell does.
pub fn read_command_line(input: &str) -> (r: Option<CommandLine>)
    ensures
        match read_command(input@) {
            None => r is None,
            Some((line, words, background)) => r matches Some(c) && c.line@ == line
                && texts(c.words@) == words && c.background == background
                && c.name@ == trim_quotes(words[0], false)
                && texts(c.args@) == words.drop_first(),
        },
{
    let cs = chars_of(input);
    let t = trim_white_chars(&cs);
    if t.len() == 0 {
        return None;
    }
    let mut words = split_white_chars(&t);
    let ghost split = char_views(words@);
    let mut background = false;
    let n = words.len();
    if n > 0 {
        let last_len = words[n - 1].len();
        if last_len == 1 && words[n - 1][0] == '&' {
            assert(words@[n - 1]@ =~= seq!['&']);
            words.pop();
            assert(char_views(words@) =~= split.drop_last());
            background = true;
        } else if last_len > 0 && words[n - 1][last_len - 1] == '&' {
            let shorter = slice_chars(&words[n - 1], 0, last_len - 1);
            proof {
                if last_len == 1 {
                    assert(words@[n - 1]@ =~= seq!['&']);
                }
                assert(split.last() != seq!['&']) by {
                    if split.last() == seq!['&'] {
                        assert(split.last().len() == 1);
                    }
                };
            }
            assert(shorter@ =~= split.last().drop_last());
            words.set(n - 1, shorter);
            assert(char_views(words@) =~= split.update(n - 1, split.last().drop_last()));
            background = true;
        } else {
            proof {
                if split.last() == seq!['&'] {
                    assert(split.last()[0] == '&');
                }
            }
        }
    }
    if words.len() == 0 {
        return None;
    }
    let name = string_of(&trim_quote_chars(&words[0], false));
    let args = strings_of(&words, 1);
    let all = strings_of(&words, 0);
    assert(char_views(words@).skip(0) =~= char_views(words@));
    assert(char_views(words@).skip(1) =~= char_views(words@).drop_first());
    Some(CommandLine { line: string_of(&t), words: all, name, args, background })
}

/// What `echo` prints: its arguments without surrounding `"` and `'`,
/// joined with single spaces.
pub open spec fn echo_text(args: Seq<Seq<char>>) -> Seq<char> {
    join_words(Seq::new(args.len(), |i: int| trim_quotes(args[i], true)))
}

/// The line `echo` prints.
pub fn echo_line(args: &Vec<String>) -> (r: String)
    ensures
        r@ == echo_text(texts(args@)),
{
    let ghost a = texts(args@);
    let ghost ts = Seq::new(a.len(), |i: int| trim_quotes(a[i], true));
    let mut out = String::new();
    let mut i: usize = 0;
    while i < args.len()
        invariant
            i <= args.len(),
            a == texts(args@),
            ts == Seq::new(a.len(), |i: int| trim_quotes(a[i], true)),
            out@ == join_words(ts.take(i as int)),
        decreases args.len() - i,
    {
        let w = trim_quote_chars(&chars_of(args[i].as_str()), true);
        assert(w@ == ts[i as int]);
        if i > 0 {
            push_char(&mut out, ' ');
        }
        let ws = string_of(&w);
        push_str(&mut out, ws.as_str());
        assert(ts.take(i + 1).drop_last() =~= ts.take(i as int));
        i += 1;
    }
    assert(ts.take(args.len() as int) =~= ts);
    out
}

/// Where `cd` goes: home without argument, the one argument given, or
/// nowhere (with a complaint) for more than one.
pub enum CdTarget {
    Home,
    TooMany,
    Path(String),
}

/// The directory `cd` goes to.
pub fn cd_target(args: &Vec<String>) -> (r: CdTarget)
    ensures
        args.len() == 0 ==> r is Home,
        args.len() > 1 ==> r is TooMany,
        args.len() == 1 ==> (r matches CdTarget::Path(p) && p@ == args@[0]@),
{
    if args.len() == 0 {
        CdTarget::Home
    } else if args.len() != 1 {
        CdTarget::TooMany
    } else {
        CdTarget::Path(args[0].clone())
    }
}

/// The commands the shell knows by name; every other name runs a program.
#[derive(Clone, Copy, Debug, PartialEq, Eq, Structural)]
pub enum Builtin {
    Exit,
    Echo,
    Pwd,
    Cat,
    Ls,
    Mv,
    Kill,
    Bg,
    Cp,
    Rm,
    Mkdir,
    Cd,
    Clear,
    Help,
    Jobs,
    Fg,
    External,
}

/// The builtin a command name names.
pub open spec fn builtin_named(name: Seq<char>) -> Builtin {
    if name == "exit"@ {
        Builtin::Exit
    } else if name == "echo"@ {
        Builtin::Echo
    } else if name == "pwd"@ {
        Builtin::Pwd
    } else if name == "cat"@ {
        Builtin::Cat
    } else if name == "ls"@ {
        Builtin::Ls
    } else if name == "mv"@ {
        Builtin::Mv
    } else if name == "kill"@ {
        Builtin::Kill
    } else if name == "bg"@ {
        Builtin::Bg
    } else if name == "cp"@ {
        Builtin::Cp
    } else if name == "rm"@ {
        Builtin::Rm
    } else if name == "mkdir"@ {
        Builtin::Mkdir
    } else if name == "cd"@ {
        Builtin::Cd
    } else if name == "clear"@ {
        Builtin::Clear
    } else if name == "help"@ {
        Builtin::Help
    } else if name == "jobs"@ {
        Builtin::Jobs
    } else if name == "fg"@ {
        Builtin::Fg
    } else {
        Builtin::External
    }
}

/// A command name names a builtin exactly when it is, character for
/// character, that builtin's word; every other name (one that only starts
/// with a builtin's word among them) runs a program.
pub proof fn lemma_builtin_words(name: Seq<char>)
    ensures
        (builtin_named(name) == Builtin::Exit) == (name == "exit"@),
        (builtin_named(name) == Builtin::Echo) == (name == "echo"@),
        (builtin_named(name) == Builtin::Pwd) == (name == "pwd"@),
        (builtin_named(name) == Builtin::Cat) == (name == "cat"@),
        (builtin_named(name) == Builtin::Ls) == (name == "ls"@),
        (builtin_named(name) == Builtin::Mv) == (name == "mv"@),
        (builtin_named(name) == Builtin::Kill) == (name == "kill"@),
        (builtin_named(name) == Builtin::Bg) == (name == "bg"@),
        (builtin_named(name) == Builtin::Cp) == (name == "cp"@),
        (builtin_named(name) == Builtin::Rm) == (name == "rm"@),
        (builtin_named(name) == Builtin::Mkdir) == (name == "mkdir"@),
        (builtin_named(name) == Builtin::Cd) == (name == "cd"@),
        (builtin_named(name) == Builtin::Clear) == (name == "clear"@),
        (builtin_named(name) == Builtin::Help) == (name == "help"@),
        (builtin_named(name) == Builtin::Jobs) == (name == "jobs"@),
        (builtin_named(name) == Builtin::Fg) == (name == "fg"@),
        (builtin_named(name) == Builtin::External) == (name != "exit"@ && name != "echo"@ && name
            != "pwd"@ && name != "cat"@ && name != "ls"@ && name != "mv"@ && name != "kill"@ && name
            != "bg"@ && name != "cp"@ && name != "rm"@ && name != "mkdir"@ && name != "cd"@ && name
            != "clear"@ && name != "help"@ && name != "jobs"@ && name != "fg"@),
{
    reveal_strlit("exit");
    assert("exit"@.len() == 4);
    reveal_strlit("echo");
    assert("echo"@.len() == 4);
    reveal_strlit("pwd");
    assert("pwd"@.len() == 3);
    reveal_strlit("cat");
    assert("cat"@.len() == 3);
    reveal_strlit("ls");
    assert("ls"@.len() == 2);
    reveal_strlit("mv");
    assert("mv"@.len() == 2);
    reveal_strlit("kill");
    assert("kill"@.len() == 4);
    reveal_strlit("bg");
    assert("bg"@.len() == 2);
    reveal_strlit("cp");
    assert("cp"@.len() == 2);
    reveal_strlit("rm");
    assert("rm"@.len() == 2);
    reveal_strlit("mkdir");
    assert("mkdir"@.len() == 5);
    reveal_strlit("cd");
    assert("cd"@.len() == 2);
    reveal_strlit("clear");
    assert("clear"@.len() == 5);
    reveal_strlit("help");
    assert("help"@.len() == 4);
    reveal_strlit("jobs");
    assert("jobs"@.len() == 4);
    reveal_strlit("fg");
    assert("fg"@.len() == 2);
    assert("exit"@[1] != "echo"@[1]);
    assert("exit"@[0] != "kill"@[0]);
    assert("exit"@[0] != "help"@[0]);
    assert("exit"@[0] != "jobs"@[0]);
    assert("echo"@[0] != "kill"@[0]);
    assert("echo"@[0] != "help"@[0]);
    assert("echo"@[0] != "jobs"@[0]);
    assert("pwd"@[0] != "cat"@[0]);
    assert("ls"@[0] != "mv"@[0]);
    assert("ls"@[0] != "bg"@[0]);
    assert("ls"@[0] != "cp"@[0]);
    assert("ls"@[0] != "rm"@[0]);
    assert("ls"@[0] != "cd"@[0]);
    assert("ls"@[0] != "fg"@[0]);
    assert("mv"@[0] != "bg"@[0]);
    assert("mv"@[0] != "cp"@[0]);
    assert("mv"@[0] != "rm"@[0]);
    assert("mv"@[0] != "cd"@[0]);
    assert("mv"@[0] != "fg"@[0]);
    assert("kill"@[0] != "help"@[0]);
    assert("kill"@[0] != "jobs"@[0]);
    assert("bg"@[0] != "cp"@[0]);
    assert("bg"@[0] != "rm"@[0]);
    assert("bg"@[0] != "cd"@[0]);
    assert("bg"@[0] != "fg"@[0]);
    assert("cp"@[0] != "rm"@[0]);
    assert("cp"@[1] != "cd"@[1]);
    assert("cp"@[0] != "fg"@[0]);
    assert("rm"@[0] != "cd"@[0]);
    assert("rm"@[0] != "fg"@[0]);
    assert("mkdir"@[0] != "clear"@[0]);
    assert("cd"@[0] != "fg"@[0]);
    assert("help"@[0] != "jobs"@[0]);
}

/// The builtin a command name names.
pub fn builtin_of(name: &str) -> (r: Builtin)
    ensures
        r == builtin_named(name@),
{
    let cs = chars_of(name);
    if chars_equal(&cs, "exit") {
        Builtin::Exit
    } else if chars_equal(&cs, "echo") {
        Builtin::Echo
    } else if chars_equal(&cs, "pwd") {
        Builtin::Pwd
    } else if chars_equal(&cs, "cat") {
        Builtin::Cat
    } else if chars_equal(&cs, "ls") {
        Builtin::Ls
    } else if chars_equal(&cs, "mv") {
        Builtin::Mv
    } else if chars_equal(&cs, "kill") {
        Builtin::Kill
    } else if chars_equal(&cs, "bg") {
        Builtin::Bg
    } else if chars_equal(&cs, "cp") {
        Builtin::Cp
    } else if chars_equal(&cs, "rm") {
        Builtin::Rm
    } else if chars_equal(&cs, "mkdir") {
        Builtin::Mkdir
    } else if chars_equal(&cs, "cd") {
        Builtin::Cd
    } else if chars_equal(&cs, "clear") {
        Builtin::Clear
    } else if chars_equal(&cs, "help") {
        Builtin::Help
    } else if chars_equal(&cs, "jobs") {
        Builtin::Jobs
    } else if chars_equal(&cs, "fg") {
        Builtin::Fg
    } else {
        Builtin::External
    }
}

/// The job table of a session and the job number kept for the next job that
/// stops in the foreground.
pub struct Session {
    pub jobs: Vec<Job>,
    pub next_id: usize,
}

/// The line printed for a job started in the background.
pub open spec fn started_line(id: usize, pid: i32) -> Seq<char> {
    seq!['['] + decimal(id as nat) + seq![']', ' '] + signed_decimal(pid as int)
}

impl Session {
    /// A session with no jobs; the first job is numbered 1.
    pub fn new() -> (r: Session)
        ensures
            r.jobs@ == Seq::<Job>::empty(),
            r.next_id == 1,
    {
        Session { jobs: Vec::new(), next_id: 1 }
    }

    /// Records a process started in the background: it becomes a running
    /// job with the least free job number, and the next number is chosen
    /// afresh.
    pub fn start_background(&mut self, pid: i32, command: String) -> (line: String)
        requires
            old(self).jobs.len() + 1 < usize::MAX,
        ensures
            ({
                let id = final(self).jobs@.last().id;
                &&& is_least_free(old(self).jobs@, id as int)
                &&& final(self).jobs@ == old(self).jobs@.push(
                    Job { id, pid, command, status: JobStatus::Running },
                )
                &&& is_least_free(final(self).jobs@, final(self).next_id as int)
                &&& line@ == started_line(id, pid)
                &&& ids_distinct(old(self).jobs@) ==> ids_distinct(final(self).jobs@)
            }),
    {
        let id = next_free_id(&self.jobs);
        let mut line = String::new();
        push_char(&mut line, '[');
        push_decimal(&mut line, id as u64);
        push_char(&mut line, ']');
        push_char(&mut line, ' ');
        push_signed_decimal(&mut line, pid);
        let ghost before = self.jobs@;
        self.jobs.push(Job { id, pid, command, status: JobStatus::Running });
        proof {
            assert forall|i: int, j: int|
                ids_distinct(before) && 0 <= i < self.jobs@.len() && 0 <= j < self.jobs@.len()
                    && i != j implies self.jobs@[i].id != self.jobs@[j].id by {
                if i < before.len() && j < before.len() {
                    assert(self.jobs@[i] == before[i]);
                    assert(self.jobs@[j] == before[j]);
                } else if i < before.len() {
                    assert(self.jobs@[i] == before[i]);
                } else {
                    assert(self.jobs@[j] == before[j]);
                }
            }
        }
        self.next_id = next_free_id(&self.jobs);
        line
    }

    /// Records a foreground process that stopped: it becomes a stopped job
    /// with the number kept for it, and the number kept for the next one is
    /// the least free number of the table before this job joins it.
    pub fn record_stopped(&mut self, pid: i32, command: String) -> (line: String)
        requires
            old(self).jobs.len() + 1 < usize::MAX,
        ensures
            final(self).jobs@ == old(self).jobs@.push(
                Job { id: old(self).next_id, pid, command, status: JobStatus::Stopped },
            ),
            is_least_free(old(self).jobs@, final(self).next_id as int),
            line@ == stopped_line(final(self).jobs@.last()),
            ids_distinct(old(self).jobs@) && !id_used(old(self).jobs@, old(self).next_id as int)
                ==> ids_distinct(final(self).jobs@),
    {
        let id = self.next_id;
        let job = Job { id, pid, command, status: JobStatus::Stopped };
        let mut line = String::new();
        push_char(&mut line, '\n');
        push_char(&mut line, '[');
        push_decimal(&mut line, id as u64);
        push_str(&mut line, "]+  ");
        push_padded(&mut line, "Stopped", 25);
        push_str(&mut line, job.command.as_str());
        self.next_id = next_free_id(&self.jobs);
        let ghost before = self.jobs@;
        self.jobs.push(job);
        proof {
            assert forall|i: int, j: int|
                ids_distinct(before) && !id_used(before, id as int) && 0 <= i < self.jobs@.len() && 0
                    <= j < self.jobs@.len() && i != j implies self.jobs@[i].id != self.jobs@[j].id by {
                if i < before.len() && j < before.len() {
                    assert(self.jobs@[i] == before[i]);
                    assert(self.jobs@[j] == before[j]);
                } else if i < before.len() {
                    assert(self.jobs@[i] == before[i]);
                } else {
                    assert(self.jobs@[j] == before[j]);
                }
            }
        }
        line
    }

    /// Forgets the first job of a process that has ended; the other jobs
    /// keep their order and numbers.
    pub fn reap(&mut self, pid: i32)
        ensures
            final(self).next_id == old(self).next_id,
            ids_distinct(old(self).jobs@) ==> ids_distinct(final(self).jobs@),
            match index_of_pid(old(self).jobs@, pid) {
                Some(p) => final(self).jobs@ == old(self).jobs@.remove(p as int),
                None => final(self).jobs@ == old(self).jobs@,
            },
    {
        if let Some(p) = find_by_pid(&self.jobs, pid) {
            proof {
                if ids_distinct(self.jobs@) {
                    lemma_remove_keeps_distinct(self.jobs@, p as int);
                }
            }
            self.jobs.remove(p);
        }
    }
}

} // verus!
