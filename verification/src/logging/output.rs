//! Where messages about the process itself go.
use crate::text;
use vstd::prelude::*;

verus! {

/// How important a message is; what is more important comes first.
#[derive(Clone, Copy, Debug, PartialEq, Eq, Structural)]
pub enum Level {
    Off,
    Error,
    Warn,
    Info,
    Debug,
    Trace,
}

impl Level {
    pub open spec fn spec_rank(self) -> int {
        match self {
            Level::Off => 0,
            Level::Error => 1,
            Level::Warn => 2,
            Level::Info => 3,
            Level::Debug => 4,
            Level::Trace => 5,
        }
    }

    pub fn rank(&self) -> (r: u8)
        ensures
            r == self.spec_rank(),
    {
        match self {
            Level::Off => 0,
            Level::Error => 1,
            Level::Warn => 2,
            Level::Info => 3,
            Level::Debug => 4,
            Level::Trace => 5,
        }
    }

    /// The level of a name, in whatever case.
    pub open spec fn named(s: Seq<char>) -> Option<Level> {
        let n = text::lowercase(s);
        if n == "off"@ {
            Some(Level::Off)
        } else if n == "error"@ {
            Some(Level::Error)
        } else if n == "warn"@ {
            Some(Level::Warn)
        } else if n == "info"@ {
            Some(Level::Info)
        } else if n == "debug"@ {
            Some(Level::Debug)
        } else if n == "trace"@ {
            Some(Level::Trace)
        } else {
            None
        }
    }

    /// The level of a name, in whatever case.
    pub fn parse(s: &str) -> (r: Option<Level>)
        ensures
            r == Level::named(s@),
    {
        let lower = text::to_lowercase(s);
        let n = lower.as_str();
        if text::same(n, "off") {
            Some(Level::Off)
        } else if text::same(n, "error") {
            Some(Level::Error)
        } else if text::same(n, "warn") {
            Some(Level::Warn)
        } else if text::same(n, "info") {
            Some(Level::Info)
        } else if text::same(n, "debug") {
            Some(Level::Debug)
        } else if text::same(n, "trace") {
            Some(Level::Trace)
        } else {
            None
        }
    }
}

/// A file that messages go to.
#[derive(Debug)]
pub struct ErrorOutput {
    pub level: Level,
    pub path: String,
}

/// The file that a path of the configuration stands for.
pub open spec fn output_path(path: Seq<char>) -> Seq<char> {
    if path == "stderr"@ {
        "/dev/stderr"@
    } else {
        path
    }
}

impl ErrorOutput {
    /// The file that messages of a level go to; nothing where the level is unknown.
    pub fn open(path: &str, level: &str) -> (r: Option<ErrorOutput>)
        ensures
            match r {
                Some(o) => Level::named(level@) == Some(o.level) && o.path@ == output_path(path@),
                None => Level::named(level@) is None,
            },
    {
        match Level::parse(level) {
            None => None,
            Some(level) => {
                let path = if text::same(path, "stderr") {
                    "/dev/stderr"
                } else {
                    path
                };
                Some(ErrorOutput { level, path: path.to_owned() })
            },
        }
    }
}

/// What takes messages: a file where one is configured, or what the process starts with.
#[derive(Debug)]
pub struct Switch {
    pub output: Option<ErrorOutput>,
    /// Whether files are written at all.
    pub files: bool,
}

/// Where a message goes.
#[derive(Clone, Copy, Debug, PartialEq, Eq, Structural)]
pub enum Destination {
    File,
    Default,
    Nowhere,
}

impl Switch {
    pub open spec fn destination_of(&self, level: Level) -> Destination {
        match self.output {
            Some(o) => if self.files {
                if level.spec_rank() <= o.level.spec_rank() {
                    Destination::File
                } else {
                    Destination::Nowhere
                }
            } else {
                Destination::Default
            },
            None => Destination::Default,
        }
    }

    /// Where a message of a level goes.
    pub fn destination(&self, level: Level) -> (r: Destination)
        ensures
            r == self.destination_of(level),
    {
        match &self.output {
            Some(o) => if self.files {
                if level.rank() <= o.level.rank() {
                    Destination::File
                } else {
                    Destination::Nowhere
                }
            } else {
                Destination::Default
            },
            None => Destination::Default,
        }
    }

    /// Whether a message of a level is wanted; `usual` says whether what the process starts with wants it.
    pub fn enabled(&self, level: Level, usual: bool) -> (r: bool)
        ensures
            r == match self.output {
                Some(o) => level.spec_rank() <= o.level.spec_rank(),
                None => usual,
            },
    {
        match &self.output {
            Some(o) => level.rank() <= o.level.rank(),
            None => usual,
        }
    }
}

/// Puts another file, or none, in the place of the one that messages go to.
pub fn configure(switch: &mut Switch, output: Option<ErrorOutput>)
    ensures
        final(switch).output == output,
        final(switch).files == old(switch).files,
{
    switch.output = output;
}

/// How long an error of the log files keeps the next one quiet, in milliseconds.
pub const QUIET: u64 = 5000;

/// Whether an error of the log files is told, by how long ago the last one was.
pub fn told(elapsed: Option<u64>) -> (r: bool)
    ensures
        r == (elapsed is None || elapsed->0 >= QUIET),
{
    match elapsed {
        None => true,
        Some(t) => t >= QUIET,
    }
}

/// The most files that are open at once.
pub const MAX_FILES: usize = 128;

/// Whether all files are closed before another is opened.
pub fn closes_all(open: usize) -> (r: bool)
    ensures
        r == (open >= MAX_FILES),
{
    open >= MAX_FILES
}

/// The levels have their names, in any case, and each takes in those before it.
pub proof fn law_levels_are_named(s: Seq<char>)
    ensures
        text::lowercase(s) == "off"@ ==> Level::named(s) == Some(Level::Off),
        text::lowercase(s) == "error"@ ==> Level::named(s) == Some(Level::Error),
        text::lowercase(s) == "warn"@ ==> Level::named(s) == Some(Level::Warn),
        text::lowercase(s) == "info"@ ==> Level::named(s) == Some(Level::Info),
        text::lowercase(s) == "debug"@ ==> Level::named(s) == Some(Level::Debug),
        text::lowercase(s) == "trace"@ ==> Level::named(s) == Some(Level::Trace),
        s.len() == 0 ==> Level::named(s) is None,
        Level::Error.spec_rank() < Level::Warn.spec_rank() < Level::Info.spec_rank() < Level::Debug.spec_rank()
            < Level::Trace.spec_rank(),
        Level::Off.spec_rank() < Level::Error.spec_rank(),
{
    reveal_strlit("off");
    reveal_strlit("error");
    assert("off"@.len() != "error"@.len());
    reveal_strlit("warn");
    assert("off"@.len() != "warn"@.len());
    reveal_strlit("info");
    assert("off"@.len() != "info"@.len());
    reveal_strlit("debug");
    assert("off"@.len() != "debug"@.len());
    reveal_strlit("trace");
    assert("off"@.len() != "trace"@.len());
    reveal_strlit("error");
    reveal_strlit("warn");
    assert("error"@.len() != "warn"@.len());
    reveal_strlit("info");
    assert("error"@.len() != "info"@.len());
    reveal_strlit("debug");
    assert("error"@[0] != "debug"@[0]);
    reveal_strlit("trace");
    assert("error"@[0] != "trace"@[0]);
    reveal_strlit("warn");
    reveal_strlit("info");
    assert("warn"@[0] != "info"@[0]);
    reveal_strlit("debug");
    assert("warn"@.len() != "debug"@.len());
    reveal_strlit("trace");
    assert("warn"@.len() != "trace"@.len());
    reveal_strlit("info");
    reveal_strlit("debug");
    assert("info"@.len() != "debug"@.len());
    reveal_strlit("trace");
    assert("info"@.len() != "trace"@.len());
    reveal_strlit("debug");
    reveal_strlit("trace");
    assert("debug"@[0] != "trace"@[0]);
}

/// What is grave enough goes to the file, what is not goes nowhere, and without a file all goes where it usually
/// goes.
pub proof fn law_grave_messages_are_written(s: Switch, o: ErrorOutput, level: Level)
    ensures
        s.output is None ==> s.destination_of(level) == Destination::Default,
        s.output == Some(o) && !s.files ==> s.destination_of(level) == Destination::Default,
        s.output == Some(o) && s.files && level.spec_rank() <= o.level.spec_rank() ==> s.destination_of(level)
            == Destination::File,
        s.output == Some(o) && s.files && level.spec_rank() > o.level.spec_rank() ==> s.destination_of(level)
            == Destination::Nowhere,
{
}

/// `stderr` is the standard error output, and any other path is itself.
pub proof fn law_outputs_are_paths(path: Seq<char>)
    ensures
        output_path("stderr"@) == "/dev/stderr"@,
        path != "stderr"@ ==> output_path(path) == path,
{
}

} // verus!
