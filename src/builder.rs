//! The build stage's decisions: which command lists run in which
//! directories, the environment each command gets, the lane message shown
//! for it, and what its exit status means. Spawning the shells is left to
//! the caller.
use vstd::prelude::*;

use crate::archive::ArchiveError;
use crate::config::Config;
use crate::network::index_of;
use crate::package::{pairs_view, BuildFile};
use crate::text::{
    chars_of, copy_str, decimal, option_code_text, push_char, push_decimal, push_option_code,
    push_str,
};

verus! {

/// Why building a recipe failed.
#[derive(Debug)]
pub enum BuildError {
    Archive(ArchiveError),
    RemoveDir(String, String),
    CreateDir(String, String),
    LogFile(String, String),
    Canonicalize(String, String),
    /// The shell could not be started: the command and the cause.
    Spawn(String, String),
    Wait(String, String),
    Stdin(String),
    WriteChild(String, String),
    /// A command exited unsuccessfully: the recipe, the command and its
    /// exit code (none when a signal ended it).
    Command(String, String, Option<i32>),
}

/// One phase of a build: the commands to run, in order, and where.
#[derive(Debug)]
pub struct Step {
    pub dir: String,
    pub commands: Vec<String>,
}

/// The commands of a phase the recipe may leave out: none when it does.
pub open spec fn commands_of(step: Option<Vec<String>>) -> Seq<String> {
    match step {
        Some(v) => v@,
        None => Seq::empty(),
    }
}

/// The first line of a command: the text before the first newline, without
/// the carriage return of a `\r\n` ending.
pub open spec fn first_line(s: Seq<char>) -> Seq<char> {
    let n = index_of(s, '\n');
    if n < 0 {
        s
    } else if n > 0 && s[n - 1] == '\r' {
        s.take(n - 1)
    } else {
        s.take(n)
    }
}

/// The room a lane leaves for a command: the terminal width less the
/// recipe name and six columns of decoration, or none.
pub open spec fn message_room(width: nat, name_len: nat) -> nat {
    if width >= name_len + 6 {
        (width - name_len - 6) as nat
    } else {
        0
    }
}

pub open spec fn min_nat(a: nat, b: nat) -> nat {
    if a <= b { a } else { b }
}

/// Builds recipes.
pub struct Builder {}

impl Builder {
    pub fn new() -> (r: Builder) {
        Builder {}
    }

    /// The three phases in order: `prepare` in the source directory, then
    /// `build` and `install` in the build directory.
    pub fn steps(&self, config: &Config, pkg: &BuildFile) -> (r: Vec<Step>)
        ensures
            r@.len() == 3,
            r@[0].dir@ == pkg.package.spec_download_dir(config.build_dir@),
            r@[1].dir@ == pkg.package.spec_build_dir(config.build_dir@),
            r@[2].dir@ == pkg.package.spec_build_dir(config.build_dir@),
            r@[0].commands@ == commands_of(pkg.package.prepare),
            r@[1].commands@ == commands_of(pkg.package.build),
            r@[2].commands@ == commands_of(pkg.package.install),
    {
        let prepare = match pkg.prepare() {
            Some(v) => v.clone(),
            None => Vec::new(),
        };
        let build = match pkg.build() {
            Some(v) => v.clone(),
            None => Vec::new(),
        };
        let install = match pkg.install() {
            Some(v) => v.clone(),
            None => Vec::new(),
        };
        let mut steps: Vec<Step> = Vec::new();
        steps.push(Step { dir: pkg.download_dir(config), commands: prepare });
        steps.push(Step { dir: pkg.archive_out_dir(config), commands: build });
        steps.push(Step { dir: pkg.archive_out_dir(config), commands: install });
        steps
    }

    /// The variables a build command gets on top of the inherited ones:
    /// `MAKEFLAGS=-j<cpus>`, then the recipe's variables, then `pkgdir`,
    /// `builddir` and `srcdir` with the given canonical paths. A later
    /// binding of a name overrides an earlier one.
    pub fn command_env(
        &self,
        pkg: &BuildFile,
        cpus: usize,
        pkgdir: &str,
        builddir: &str,
        srcdir: &str,
    ) -> (r: Vec<(String, String)>)
        ensures
            pairs_view(r@) == seq![("MAKEFLAGS"@, "-j"@ + decimal(cpus as nat))] + pairs_view(
                pkg.env@,
            ) + seq![("pkgdir"@, pkgdir@), ("builddir"@, builddir@), ("srcdir"@, srcdir@)],
    {
        let mut out: Vec<(String, String)> = Vec::new();
        let mut flags = copy_str("-j");
        push_decimal(&mut flags, cpus as u64);
        out.push((copy_str("MAKEFLAGS"), flags));
        let mut i: usize = 0;
        while i < pkg.env.len()
            invariant
                i <= pkg.env@.len(),
                pairs_view(out@) == seq![("MAKEFLAGS"@, "-j"@ + decimal(cpus as nat))] + pairs_view(
                    pkg.env@,
                ).take(i as int),
            decreases pkg.env@.len() - i,
        {
            let ghost prev = pairs_view(out@);
            out.push((pkg.env[i].0.clone(), pkg.env[i].1.clone()));
            assert(pairs_view(out@) =~= prev.push((pkg.env@[i as int].0@, pkg.env@[i as int].1@)));
            i = i + 1;
            assert(pairs_view(pkg.env@).take(i as int) =~= pairs_view(pkg.env@).take(i - 1).push(
                (pkg.env@[i - 1].0@, pkg.env@[i - 1].1@),
            ));
        }
        assert(pairs_view(pkg.env@).take(i as int) =~= pairs_view(pkg.env@));
        let ghost mid = pairs_view(out@);
        out.push((copy_str("pkgdir"), copy_str(pkgdir)));
        out.push((copy_str("builddir"), copy_str(builddir)));
        out.push((copy_str("srcdir"), copy_str(srcdir)));
        assert(pairs_view(out@) =~= mid + seq![
            ("pkgdir"@, pkgdir@),
            ("builddir"@, builddir@),
            ("srcdir"@, srcdir@),
        ]);
        out
    }

    /// The lane message for a command: its first line, cut to the room
    /// that a terminal `width` columns wide leaves beside the recipe name.
    pub fn command_message(cmd: &str, name: &str, width: usize) -> (r: String)
        ensures
            r@ == first_line(cmd@).take(
                min_nat(message_room(width as nat, name@.len()), first_line(cmd@).len()) as int,
            ),
    {
        let cs = chars_of(cmd);
        let nl = chars_of(name).len();
        let mut end: usize = 0;
        while end < cs.len() && cs[end] != '\n'
            invariant
                end <= cs@.len(),
                forall|j: int| 0 <= j < end ==> cs@[j] != '\n',
            decreases cs@.len() - end,
        {
            end = end + 1;
        }
        proof {
            crate::network::lemma_index_of_first(cs@, '\n', end as int);
        }
        if end < cs.len() && end > 0 && cs[end - 1] == '\r' {
            end = end - 1;
        }
        let room: usize = if width >= nl && width - nl >= 6 {
            width - nl - 6
        } else {
            0
        };
        let take = if room < end { room } else { end };
        let mut out = String::new();
        let mut i: usize = 0;
        while i < take
            invariant
                take <= end <= cs@.len(),
                i <= take,
                out@ == cs@.take(i as int),
            decreases take - i,
        {
            push_char(&mut out, cs[i]);
            i = i + 1;
            assert(cs@.take(i as int) =~= cs@.take(i - 1).push(cs@[i - 1]));
        }
        assert(first_line(cmd@).len() == end);
        assert(first_line(cmd@).take(take as int) =~= cs@.take(take as int));
        out
    }

    /// What a command's exit means: success goes on; anything else fails
    /// the recipe with its name, the command and the exit code.
    pub fn command_result(name: &str, cmd: &str, success: bool, code: Option<i32>) -> (r: Result<
        (),
        BuildError,
    >)
        ensures
            success ==> r is Ok,
            !success ==> (r matches Err(BuildError::Command(n, c, k)) && n@ == name@ && c@ == cmd@
                && k == code),
    {
        if success {
            Ok(())
        } else {
            Err(BuildError::Command(copy_str(name), copy_str(cmd), code))
        }
    }
}

impl BuildError {
    /// The explanation shown to the user.
    pub open spec fn text(&self) -> Seq<char> {
        match self {
            BuildError::Archive(a) => a.text(),
            BuildError::RemoveDir(a, b) => "could not remove directory '"@ + a@ + "': "@ + b@,
            BuildError::CreateDir(a, b) => "could not create directory '"@ + a@ + "': "@ + b@,
            BuildError::LogFile(a, b) => "could not create log file '"@ + a@ + "': "@ + b@,
            BuildError::Canonicalize(a, b) => "could not find real path for '"@ + a@ + "': "@ + b@,
            BuildError::Spawn(a, b) => "could not execute command '"@ + a@ + "': "@ + b@,
            BuildError::Wait(a, b) => "issue waiting for command '"@ + a@ + "' to exit: "@ + b@,
            BuildError::Stdin(a) => "could not open stdin for '"@ + a@ + "'"@,
            BuildError::WriteChild(a, b) => "could not write to stdin for '"@ + a@ + "': "@ + b@,
            BuildError::Command(a, b, c) => "package '"@ + a@ + "' failed on command '"@ + b@ + "' with "@ + option_code_text(*c),
        }
    }

    /// The explanation shown to the user, as `text` states.
    pub fn message(&self) -> (r: String)
        ensures
            r@ == self.text(),
    {
        let mut s = String::new();
        match self {
            BuildError::Archive(a) => {
                push_str(&mut s, a.message().as_str());
                assert(s@ =~= self.text());
            },
            BuildError::RemoveDir(a, b) => {
                push_str(&mut s, "could not remove directory '");
                push_str(&mut s, a.as_str());
                push_str(&mut s, "': ");
                push_str(&mut s, b.as_str());
                assert(s@ =~= self.text());
            },
            BuildError::CreateDir(a, b) => {
                push_str(&mut s, "could not create directory '");
                push_str(&mut s, a.as_str());
                push_str(&mut s, "': ");
                push_str(&mut s, b.as_str());
                assert(s@ =~= self.text());
            },
            BuildError::LogFile(a, b) => {
                push_str(&mut s, "could not create log file '");
                push_str(&mut s, a.as_str());
                push_str(&mut s, "': ");
                push_str(&mut s, b.as_str());
                assert(s@ =~= self.text());
            },
            BuildError::Canonicalize(a, b) => {
                push_str(&mut s, "could not find real path for '");
                push_str(&mut s, a.as_str());
                push_str(&mut s, "': ");
                push_str(&mut s, b.as_str());
                assert(s@ =~= self.text());
            },
            BuildError::Spawn(a, b) => {
                push_str(&mut s, "could not execute command '");
                push_str(&mut s, a.as_str());
                push_str(&mut s, "': ");
                push_str(&mut s, b.as_str());
                assert(s@ =~= self.text());
            },
            BuildError::Wait(a, b) => {
                push_str(&mut s, "issue waiting for command '");
                push_str(&mut s, a.as_str());
                push_str(&mut s, "' to exit: ");
                push_str(&mut s, b.as_str());
                assert(s@ =~= self.text());
            },
            BuildError::Stdin(a) => {
                push_str(&mut s, "could not open stdin for '");
                push_str(&mut s, a.as_str());
                push_str(&mut s, "'");
                assert(s@ =~= self.text());
            },
            BuildError::WriteChild(a, b) => {
                push_str(&mut s, "could not write to stdin for '");
                push_str(&mut s, a.as_str());
                push_str(&mut s, "': ");
                push_str(&mut s, b.as_str());
                assert(s@ =~= self.text());
            },
            BuildError::Command(a, b, c) => {
                push_str(&mut s, "package '");
                push_str(&mut s, a.as_str());
                push_str(&mut s, "' failed on command '");
                push_str(&mut s, b.as_str());
                push_str(&mut s, "' with ");
                push_option_code(&mut s, *c);
                assert(s@ =~= self.text());
            },
        }
        s
    }
}

} // verus!
