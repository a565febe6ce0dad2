//! Log levels, the format of a log line, the level filter, log rotation and
//! what `mplug log` prints of the log file.

use vstd::prelude::*;
use crate::text::{
    ascii_lower_str, chars_of, push_char, str_eq, to_ascii_lower, trim_end, trimmed_end,
};

verus! {

broadcast use vstd::string::group_string_axioms;

/// The size above which the daemon moves the log aside when it starts.
pub const MAX_LOG_BYTES: u64 = 5 * 1024 * 1024;

/// How severe a message is, from most to least severe.
#[derive(Clone, Copy, Debug, PartialEq, Eq, Structural, PartialOrd, Ord)]
pub enum Level {
    Error,
    Warn,
    Info,
    Debug,
}

impl Level {
    /// The position of the level in the order `Error < Warn < Info < Debug`.
    pub open spec fn rank(self) -> nat {
        match self {
            Level::Error => 0,
            Level::Warn => 1,
            Level::Info => 2,
            Level::Debug => 3,
        }
    }

    /// The name written in a log line.
    pub open spec fn name(self) -> Seq<char> {
        match self {
            Level::Error => "ERROR"@,
            Level::Warn => "WARN"@,
            Level::Info => "INFO"@,
            Level::Debug => "DEBUG"@,
        }
    }

    /// The level a lower-case setting names.
    pub open spec fn named(t: Seq<char>) -> Option<Level> {
        if t == "error"@ {
            Some(Level::Error)
        } else if t == "warn"@ {
            Some(Level::Warn)
        } else if t == "info"@ {
            Some(Level::Info)
        } else if t == "debug"@ {
            Some(Level::Debug)
        } else {
            None
        }
    }

    /// The level a setting names, ignoring ASCII case.
    pub fn parse(s: &str) -> (r: Option<Level>)
        ensures
            r == Level::named(ascii_lower_str(s@)),
    {
        let lower = to_ascii_lower(s);
        if str_eq(lower.as_str(), "error") {
            Some(Level::Error)
        } else if str_eq(lower.as_str(), "warn") {
            Some(Level::Warn)
        } else if str_eq(lower.as_str(), "info") {
            Some(Level::Info)
        } else if str_eq(lower.as_str(), "debug") {
            Some(Level::Debug)
        } else {
            None
        }
    }

    /// The name written in a log line.
    pub fn as_str(self) -> (r: &'static str)
        ensures
            r@ == self.name(),
    {
        match self {
            Level::Error => "ERROR",
            Level::Warn => "WARN",
            Level::Info => "INFO",
            Level::Debug => "DEBUG",
        }
    }

    /// The position of the level in the order `Error < Warn < Info < Debug`.
    pub fn severity(self) -> (r: u8)
        ensures
            r == self.rank(),
    {
        match self {
            Level::Error => 0,
            Level::Warn => 1,
            Level::Info => 2,
            Level::Debug => 3,
        }
    }
}

/// `{timestamp} [{LEVEL}] [{component}] {msg}`.
pub open spec fn log_line(timestamp: Seq<char>, level: Level, component: Seq<char>, msg: Seq<char>) -> Seq<char> {
    timestamp + " ["@ + level.name() + "] ["@ + component + "] "@ + msg
}

/// One line of the log.
pub fn format_line(timestamp: &str, level: Level, component: &str, msg: &str) -> (r: String)
    ensures
        r@ == log_line(timestamp@, level, component@, msg@),
{
    let mut r = String::from_str(timestamp);
    r.append(" [");
    r.append(level.as_str());
    r.append("] [");
    r.append(component);
    r.append("] ");
    r.append(msg);
    r
}

/// The most verbose level that is written: the configured one, or `Info`
/// when logging was never configured.
pub open spec fn effective_max(configured: Option<Level>) -> Level {
    match configured {
        Some(l) => l,
        None => Level::Info,
    }
}

/// A message is written when its level is at most as verbose as the
/// configured maximum.
pub fn should_log(level: Level, configured: Option<Level>) -> (r: bool)
    ensures
        r == (level.rank() <= effective_max(configured).rank()),
{
    let max = match configured {
        Some(l) => l,
        None => Level::Info,
    };
    level.severity() <= max.severity()
}

/// Whether debug messages are written under the configured maximum; false
/// when logging was never configured.
pub fn debug_enabled(configured: Option<Level>) -> (r: bool)
    ensures
        r == (configured == Some(Level::Debug)),
{
    match configured {
        Some(l) => l.severity() >= Level::Debug.severity(),
        None => false,
    }
}

/// The maximum level taken from the `MPLUG_LOG` setting: the level it names,
/// or `Info` when it is unset or names none.
pub fn max_level_from(setting: Option<&str>) -> (r: Level)
    ensures
        r == match setting {
            Some(v) => match Level::named(ascii_lower_str(v@)) {
                Some(l) => l,
                None => Level::Info,
            },
            None => Level::Info,
        },
{
    match setting {
        Some(v) => match Level::parse(v) {
            Some(l) => l,
            None => Level::Info,
        },
        None => Level::Info,
    }
}

/// Whether a log file of `size` bytes (`None`: there is no file) is moved
/// aside before the daemon opens it.
pub fn needs_rotation(size: Option<u64>, max_bytes: u64) -> (r: bool)
    ensures
        r == match size {
            Some(n) => n > max_bytes,
            None => false,
        },
{
    match size {
        Some(n) => n > max_bytes,
        None => false,
    }
}

/// The lines of `s` as reading it line by line gives them: each ends with
/// its `'\n'`, and the last one may have none. Defined by how the lines grow
/// as one character is appended to `s`.
pub open spec fn lines_of(s: Seq<char>) -> Seq<Seq<char>>
    decreases s.len(),
{
    if s.len() == 0 {
        seq![]
    } else {
        let p = s.drop_last();
        let c = s.last();
        let w = lines_of(p);
        if p.len() > 0 && p.last() != '\n' && w.len() > 0 {
            w.update(w.len() - 1, w.last().push(c))
        } else {
            w.push(seq![c])
        }
    }
}

/// The last `count` of `lines`, or all of them when there are fewer; none
/// when `count` is zero.
pub open spec fn keep_last(lines: Seq<Seq<char>>, count: nat) -> Seq<Seq<char>> {
    if lines.len() <= count {
        lines
    } else {
        lines.skip(lines.len() - count)
    }
}

/// What `mplug log` prints of a log file's contents: its last `count` lines,
/// each with trailing whitespace removed.
pub open spec fn log_tail_spec(content: Seq<char>, count: nat) -> Seq<Seq<char>> {
    keep_last(lines_of(content), count).map_values(|l: Seq<char>| trim_end(l))
}

proof fn lemma_lines_nonempty(s: Seq<char>)
    requires
        s.len() > 0,
    ensures
        lines_of(s).len() > 0,
{
}

/// The lines of `content`, each with its line break.
pub fn split_lines(content: &str) -> (r: Vec<String>)
    ensures
        r.deep_view() == lines_of(content@),
{
    let v = chars_of(content);
    let n = v.len();
    let mut done: Vec<String> = Vec::new();
    let mut cur = String::new();
    let mut i: usize = 0;
    while i < n
        invariant
            i <= n == v.len(),
            v@ == content@,
            cur@.len() > 0 <==> (i > 0 && v@[i - 1] != '\n'),
            cur@.len() == 0 ==> done.deep_view() == lines_of(v@.take(i as int)),
            cur@.len() > 0 ==> done.deep_view().push(cur@) == lines_of(v@.take(i as int)),
        decreases n - i,
    {
        let c = v[i];
        let ghost pre = v@.take(i as int);
        let ghost old_cur = cur@;
        assert(v@.take(i + 1).drop_last() =~= pre);
        if !cur.as_str().is_empty() {
            proof {
                lemma_lines_nonempty(pre);
            }
        }
        push_char(&mut cur, c);
        proof {
            let w = lines_of(pre);
            if old_cur.len() > 0 {
                assert(pre.last() == v@[i - 1]);
                assert(w.update(w.len() - 1, w.last().push(c)) =~= done.deep_view().push(cur@));
            } else {
                assert(cur@ =~= seq![c]);
                assert(w.push(seq![c]) =~= done.deep_view().push(cur@));
            }
        }
        if c == '\n' {
            let line = cur;
            cur = String::new();
            done.push(line);
        }
        i = i + 1;
        proof {
            let t = v@.take(i as int);
            assert(t.last() == c);
        }
    }
    if !cur.as_str().is_empty() {
        done.push(cur);
    }
    assert(v@.take(n as int) =~= v@);
    done
}

/// The last `count` lines of a log file's contents (all of them when it has
/// fewer), each with trailing whitespace removed.
pub fn log_tail(content: &str, count: usize) -> (r: Vec<String>)
    ensures
        r.deep_view() == log_tail_spec(content@, count as nat),
{
    let lines = split_lines(content);
    let n = lines.len();
    let start: usize = if n <= count {
        0
    } else {
        n - count
    };
    let ghost kept = keep_last(lines.deep_view(), count as nat);
    assert(kept =~= lines.deep_view().skip(start as int));
    let mut r: Vec<String> = Vec::new();
    let mut i = start;
    while i < n
        invariant
            start <= i <= n == lines.len(),
            kept == lines.deep_view().skip(start as int),
            r.deep_view() == kept.take(i - start).map_values(|l: Seq<char>| trim_end(l)),
        decreases n - i,
    {
        let t = trimmed_end(lines[i].as_str());
        let ghost before = r.deep_view();
        r.push(t);
        proof {
            assert(kept[i - start] == lines.deep_view()[i as int]);
            assert(r.deep_view() =~= before.push(trim_end(kept[i - start])));
            assert(kept.take(i + 1 - start) =~= kept.take(i - start).push(kept[i - start]));
        }
        i = i + 1;
        assert(r.deep_view() =~= kept.take(i - start).map_values(|l: Seq<char>| trim_end(l)));
    }
    assert(kept.take(n - start) =~= kept);
    r
}

/// One step of following the log: where to read from, if anywhere, and the
/// position to remember.
#[derive(Clone, Copy, Debug, PartialEq, Eq, Structural)]
pub struct FollowStep {
    pub read_from: Option<u64>,
    pub next_pos: u64,
}

/// Following the log, with `pos` bytes already shown and the file now `len`
/// bytes long: a file that shrank was rotated or truncated and is shown
/// again from its start; new bytes are read from where the last read ended.
pub fn follow_step(pos: u64, len: u64) -> (r: FollowStep)
    ensures
        r.read_from == (if len < pos {
            if len > 0 {
                Some(0u64)
            } else {
                None
            }
        } else if len > pos {
            Some(pos)
        } else {
            None
        }),
        r.next_pos == (if len < pos && len == 0 {
            0
        } else if len < pos || len > pos {
            len
        } else {
            pos
        }),
{
    let start = if len < pos {
        0
    } else {
        pos
    };
    if len > start {
        FollowStep { read_from: Some(start), next_pos: len }
    } else {
        FollowStep { read_from: None, next_pos: start }
    }
}

} // verus!
