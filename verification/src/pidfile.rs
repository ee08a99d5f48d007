//! The pid file of a run in flight: what it records, and what it proves.
//!
//! The file holds `<pid>` or `<pid>:<starttime>`. The start time tells the
//! recorded process from a later one that was given the same number.

use vstd::prelude::*;
use crate::text;
use crate::host::HostOs;
use crate::number;
use crate::number::{decimal_text, parse_u32, parse_unsigned};
use crate::state::State;
use crate::text::{chars_of, split_words, text_of, trim_text};

verus! {

/// What the system says of the recorded process number.
#[derive(Clone, Copy, Debug, PartialEq, Eq, Structural)]
pub struct ProcProbe {
    /// Some process has this number.
    pub alive: bool,
    /// When that process started, where the system tells.
    pub starttime: Option<u128>,
}

/// The part of a pid file before the first colon.
pub open spec fn pid_part(content: Seq<char>) -> Seq<char> {
    let t = text::trim(content);
    t.take(text::index_from(t, ':', 0))
}

/// The part of a pid file after the first colon, if it has one.
pub open spec fn start_part(content: Seq<char>) -> Option<Seq<char>> {
    let t = text::trim(content);
    let k = text::index_from(t, ':', 0);
    if k < t.len() {
        Some(t.skip(k + 1))
    } else {
        None
    }
}

/// The process number that a pid file records, if that part is well formed.
pub open spec fn recorded(content: Seq<char>) -> Option<nat> {
    number::unsigned(pid_part(content), u32::MAX as nat)
}

/// The start time that a pid file records, if it is there and well formed.
pub open spec fn recorded_start(content: Seq<char>) -> Option<nat> {
    match start_part(content) {
        Some(s) => number::unsigned(s, u128::MAX as nat),
        None => None,
    }
}

/// A well-formed pid file: a process number, and a start time where there is a
/// colon.
pub open spec fn well_formed(content: Seq<char>) -> bool {
    recorded(content) is Some && (start_part(content) is Some ==> recorded_start(content) is Some)
}

/// The start time of a process, as a number.
pub open spec fn start_of(probe: ProcProbe) -> Option<nat> {
    match probe.starttime {
        Some(t) => Some(t as nat),
        None => None,
    }
}

/// The recorded process is the one that runs under its number now.
pub open spec fn is_live(content: Seq<char>, probe: ProcProbe) -> bool {
    &&& well_formed(content)
    &&& probe.alive
    &&& recorded_start(content) is Some ==> start_of(probe) == recorded_start(content)
}

/// The recorded process is known to be gone: no process has its number, or the
/// one that has it started at another time. Only a well-formed pid file proves
/// this.
pub open spec fn is_stale(content: Seq<char>, probe: ProcProbe) -> bool {
    &&& well_formed(content)
    &&& !probe.alive || (recorded_start(content) is Some && start_of(probe) != recorded_start(
        content,
    ))
}

/// What is written into a pid file.
pub open spec fn body(pid: nat, start: Option<nat>) -> Seq<char> {
    match start {
        Some(s) => number::decimal(pid) + seq![':'] + number::decimal(s),
        None => number::decimal(pid),
    }
}

/// Whether a content stands for a live run, where there may be none.
pub open spec fn live_pid(content: Option<Seq<char>>, probe: ProcProbe) -> Option<nat> {
    match content {
        Some(c) => if is_live(c, probe) {
            recorded(c)
        } else {
            None
        },
        None => None,
    }
}

/// The view of an optional process number.
pub open spec fn opt_nat(o: Option<u32>) -> Option<nat> {
    match o {
        Some(n) => Some(n as nat),
        None => None,
    }
}

struct Parts {
    pid: String,
    start: Option<String>,
}

fn cut(content: &str) -> (r: Parts)
    ensures
        r.pid@ == pid_part(content@),
        crate::text::opt_text(r.start) == start_part(content@),
{
    let t = trim_text(content);
    let x = chars_of(t.as_str());
    let mut i: usize = 0;
    while i < x.len() && x[i] != ':'
        invariant
            i <= x@.len(),
            x@ == t@,
            text::index_from(t@, ':', 0) == text::index_from(t@, ':', i as int),
        decreases x@.len() - i,
    {
        i = i + 1;
    }
    assert(text::index_from(t@, ':', 0) == i);
    let pid = text_of(&x, 0, i);
    assert(pid@ =~= t@.take(i as int));
    let start = if i < x.len() {
        let s = text_of(&x, i + 1, x.len());
        assert(s@ =~= t@.skip(i + 1));
        Some(s)
    } else {
        None
    };
    Parts { pid, start }
}

/// The process number that a pid file records: the one to ask the system
/// about.
pub fn recorded_pid(content: &str) -> (r: Option<u32>)
    ensures
        opt_nat(r) == recorded(content@),
{
    let p = cut(content);
    parse_u32(p.pid.as_str())
}

/// What to write into the pid file of the process `pid`.
pub fn pidfile_body(pid: u32, start: Option<u128>) -> (r: String)
    ensures
        r@ == body(
            pid as nat,
            match start {
                Some(s) => Some(s as nat),
                None => None,
            },
        ),
        start matches Some(s) ==> r@ == number::decimal(pid as nat) + seq![':'] + number::decimal(
            s as nat,
        ),
        start is None ==> r@ == number::decimal(pid as nat),
{
    let mut r = decimal_text(pid as u128);
    match start {
        Some(s) => {
            r.push(':');
            let t = decimal_text(s);
            r.append(t.as_str());
            assert(r@ =~= number::decimal(pid as nat) + seq![':'] + number::decimal(s as nat));
        },
        None => {},
    }
    r
}

impl State {
    /// The process that runs in a worktree: the one its pid file records, if
    /// it is alive and, where the file records a start time, still the same
    /// process. A number that another process was given since is not reported,
    /// so nobody else's process is ever stopped for it.
    pub fn running_pid(content: Option<String>, probe: ProcProbe) -> (r: Option<u32>)
        ensures
            opt_nat(r) == live_pid(crate::text::opt_text(content), probe),
    {
        match content {
            None => None,
            Some(c) => {
                let p = cut(c.as_str());
                match parse_u32(p.pid.as_str()) {
                    None => None,
                    Some(pid) => match p.start {
                        None => {
                            if probe.alive {
                                Some(pid)
                            } else {
                                None
                            }
                        },
                        Some(s) => match parse_unsigned(s.as_str(), u128::MAX) {
                            None => None,
                            Some(expected) => match probe.starttime {
                                Some(t) => if probe.alive && t == expected {
                                    Some(pid)
                                } else {
                                    None
                                },
                                None => None,
                            },
                        },
                    },
                }
            },
        }
    }

    /// A run left its pid file behind and its process is gone. This is what
    /// makes it safe to take down a mount at the target: it can only be the
    /// leftover of that run. A file that is not well formed proves nothing.
    pub fn stale_run(content: Option<String>, probe: ProcProbe) -> (r: bool)
        ensures
            r == (content matches Some(c) && is_stale(c@, probe)),
    {
        match content {
            None => false,
            Some(c) => {
                let p = cut(c.as_str());
                match parse_u32(p.pid.as_str()) {
                    None => false,
                    Some(_) => match p.start {
                        None => !probe.alive,
                        Some(s) => match parse_unsigned(s.as_str(), u128::MAX) {
                            None => false,
                            Some(expected) => match probe.starttime {
                                Some(t) => !probe.alive || t != expected,
                                None => true,
                            },
                        },
                    },
                }
            },
        }
    }

    /// The pid file may be removed by the run of `expected_pid`: it still
    /// records that process, and not one that took its place.
    pub fn clear_running_if_owned(content: Option<String>, expected_pid: u32) -> (r: bool)
        ensures
            r == (content matches Some(c) && recorded(c@) == Some(expected_pid as nat)),
    {
        match content {
            None => false,
            Some(c) => match recorded_pid(c.as_str()) {
                Some(p) => p == expected_pid,
                None => false,
            },
        }
    }

    /// The pid file of the worktree in `dir`, which is removed when its run is
    /// over.
    pub fn clear_running(os: HostOs, dir: &str) -> (r: String)
        ensures
            r@ == crate::path::joined(os, dir@, "run.pid"@),
    {
        crate::path::join_path(os, dir, "run.pid")
    }
}

proof fn lemma_digits_plain(s: Seq<char>)
    requires
        crate::number::all_digits(s),
    ensures
        forall|i: int| 0 <= i < s.len() ==> #[trigger] s[i] != ':' && !text::white_space(s[i]),
{
    assert forall|i: int| 0 <= i < s.len() implies #[trigger] s[i] != ':' && !text::white_space(s[i]) by {
        assert(number::digit(s[i]));
    }
}

/// Reading a pid file gives back what was written into it.
pub proof fn law_pidfile_reads_back(pid: nat, start: Option<nat>)
    requires
        pid <= u32::MAX,
        start matches Some(s) ==> s <= u128::MAX,
    ensures
        well_formed(body(pid, start)),
        recorded(body(pid, start)) == Some(pid),
        recorded_start(body(pid, start)) == start,
{
    let a = number::decimal(pid);
    number::lemma_decimal(pid);
    lemma_digits_plain(a);
    number::law_decimal_reads_back(pid, u32::MAX as nat);
    match start {
        Some(s) => {
            let b = number::decimal(s);
            number::lemma_decimal(s);
            lemma_digits_plain(b);
            number::law_decimal_reads_back(s, u128::MAX as nat);
            let t = a + seq![':'] + b;
            assert(t.first() == a[0] && t.last() == b.last());
            text::lemma_trim_same(t);
            text::lemma_index_of(a, b, ':', 0);
            assert(t.take(a.len() as int) =~= a);
            assert(t.skip(a.len() as int + 1) =~= b);
        },
        None => {
            text::lemma_trim_same(a);
            text::lemma_index_of(a, a, ':', 0);
            assert(a.take(a.len() as int) =~= a);
        },
    }
}

/// A pid file is read as it is written, whatever white space stands around it: a
/// process number, or one and a start time behind the first colon. Only a file whose
/// parts are numbers is well formed.
pub proof fn law_pidfile_is_read(content: Seq<char>, a: Seq<char>, b: Seq<char>)
    requires
        !a.contains(':'),
    ensures
        text::trim(content) == a ==> recorded(content) == number::unsigned(a, 0xffff_ffff)
            && recorded_start(content) is None && (well_formed(content) <==> number::unsigned(
            a,
            0xffff_ffff,
        ) is Some),
        text::trim(content) == a + seq![':'] + b ==> recorded(content) == number::unsigned(
            a,
            0xffff_ffff,
        ) && recorded_start(content) == number::unsigned(b, u128::MAX as nat) && (well_formed(
            content,
        ) <==> number::unsigned(a, 0xffff_ffff) is Some && number::unsigned(b, u128::MAX as nat)
            is Some),
{
    assert forall|j: int| 0 <= j < a.len() implies a[j] != ':' by {
        if a[j] == ':' {
            assert(a.contains(':'));
        }
    }
    text::lemma_index_of(a, b, ':', 0);
    let t = a + seq![':'] + b;
    assert(t.take(a.len() as int) =~= a);
    assert(t.skip(a.len() as int + 1) =~= b);
    assert(a.take(a.len() as int) =~= a);
}

/// A run is reported if and only if its pid file is well formed, some process has
/// the recorded number, and, where a start time is recorded, that process started
/// then; the number that is reported is the recorded one. It is known to be gone if
/// and only if the file is well formed and one of the other two fails.
pub proof fn law_run_is_told(content: Seq<char>, probe: ProcProbe)
    ensures
        live_pid(None, probe) is None,
        live_pid(Some(content), probe) is Some <==> well_formed(content) && probe.alive && (
        recorded_start(content) matches Some(s) ==> (probe.starttime matches Some(t) && t == s)),
        live_pid(Some(content), probe) is Some ==> live_pid(Some(content), probe) == recorded(
            content,
        ),
        is_stale(content, probe) <==> well_formed(content) && (!probe.alive || (recorded_start(
            content,
        ) matches Some(s) && !(probe.starttime matches Some(t) && t == s))),
{
}

/// A run is reported while its process lives, and is known to be gone once
/// that process has ended, even when its number was given to another process
/// that started at another time.
pub proof fn law_run_is_tracked(pid: nat, start: Option<nat>, probe: ProcProbe)
    requires
        pid <= u32::MAX,
        start matches Some(s) ==> s <= u128::MAX,
    ensures
        probe.alive && (start is Some ==> start_of(probe) == start) ==> live_pid(
            Some(body(pid, start)),
            probe,
        ) == Some(pid),
        !probe.alive || (start is Some && start_of(probe) != start) ==> is_stale(
            body(pid, start),
            probe,
        ),
{
    law_pidfile_reads_back(pid, start);
}

/// No pid file is both live and stale. A well-formed one is one of the two, and
/// one that is not well formed is neither.
pub proof fn law_live_or_stale(content: Seq<char>, probe: ProcProbe)
    ensures
        !(is_live(content, probe) && is_stale(content, probe)),
        well_formed(content) ==> is_live(content, probe) || is_stale(content, probe),
        !well_formed(content) ==> !is_live(content, probe) && !is_stale(content, probe),
{
}

/// What the writer of a pid file does next.
#[derive(Clone, Copy, Debug, PartialEq, Eq, Structural)]
pub enum PidfileAsk {
    /// Create the file, failing if it exists, and write the body.
    CreateNew,
    /// Read the file that is there, and ask about the process it records.
    Inspect,
    /// Remove the file that is there.
    Remove,
    /// The file is written.
    Finished,
    /// Another run is in progress, under this process number.
    Busy(u32),
    /// The system refused; its error is the result.
    Refused,
}

/// What came of it.
#[derive(Debug)]
pub enum PidfileAnswer {
    Done,
    Exists,
    Missing,
    Failed,
    Content(Option<String>, ProcProbe),
}

/// The answers that fit a question.
pub open spec fn pidfile_fits(ask: PidfileAsk, answer: PidfileAnswer) -> bool {
    match ask {
        PidfileAsk::CreateNew => answer is Done || answer is Exists || answer is Failed,
        PidfileAsk::Inspect => answer is Content,
        PidfileAsk::Remove => answer is Done || answer is Missing || answer is Failed,
        _ => false,
    }
}

/// Writes a pid file, one step at a time. The file is created exclusively, so
/// that of two runs only one can write it. One that is there is replaced only
/// if it does not stand for a live run; it is then removed, and creating it
/// starts over.
pub fn write_pidfile(ask: PidfileAsk, answer: PidfileAnswer) -> (r: PidfileAsk)
    requires
        pidfile_fits(ask, answer),
    ensures
        answer is Failed ==> r == PidfileAsk::Refused,
        ask == PidfileAsk::CreateNew && answer is Done ==> r == PidfileAsk::Finished,
        ask == PidfileAsk::CreateNew && answer is Exists ==> r == PidfileAsk::Inspect,
        answer matches PidfileAnswer::Content(c, p) ==> match live_pid(
            crate::text::opt_text(c),
            p,
        ) {
            Some(pid) => r matches PidfileAsk::Busy(q) && q as nat == pid,
            None => r == PidfileAsk::Remove,
        },
        ask == PidfileAsk::Remove && !(answer is Failed) ==> r == PidfileAsk::CreateNew,
{
    match answer {
        PidfileAnswer::Failed => PidfileAsk::Refused,
        PidfileAnswer::Done => match ask {
            PidfileAsk::CreateNew => PidfileAsk::Finished,
            _ => PidfileAsk::CreateNew,
        },
        PidfileAnswer::Missing => PidfileAsk::CreateNew,
        PidfileAnswer::Exists => PidfileAsk::Inspect,
        PidfileAnswer::Content(c, p) => match State::running_pid(c, p) {
            Some(pid) => PidfileAsk::Busy(pid),
            None => PidfileAsk::Remove,
        },
    }
}

/// The last position that holds `c`, if one does.
pub open spec fn last_index(s: Seq<char>, c: char) -> Option<int>
    decreases s.len(),
{
    if s.len() == 0 {
        None
    } else if s.last() == c {
        Some(s.len() - 1)
    } else {
        last_index(s.drop_last(), c)
    }
}

/// The fields of a process's `stat` line behind its name, which stands in
/// brackets and may itself hold anything.
pub open spec fn stat_fields(stat: Seq<char>) -> Option<Seq<Seq<char>>> {
    match last_index(stat, ')') {
        Some(k) => Some(text::words(stat.skip(k + 1))),
        None => None,
    }
}

/// The fields of a `stat` line are the words behind its last closing bracket,
/// whatever stands before that; a line without one has none.
pub proof fn law_stat_fields(a: Seq<char>, b: Seq<char>)
    requires
        !b.contains(')'),
    ensures
        stat_fields(a + seq![')'] + b) == Some(text::words(b)),
        stat_fields(b) is None,
{
    lemma_last_index(a, b);
    let s = a + seq![')'] + b;
    assert(s.skip(a.len() as int + 1) =~= b);
}

proof fn lemma_last_index(a: Seq<char>, b: Seq<char>)
    requires
        !b.contains(')'),
    ensures
        last_index(a + seq![')'] + b, ')') == Some(a.len() as int),
        last_index(b, ')') is None,
    decreases b.len(),
{
    let s = a + seq![')'] + b;
    if b.len() > 0 {
        let b0 = b.drop_last();
        assert(b[b.len() - 1] == b.last());
        assert(!b0.contains(')')) by {
            if b0.contains(')') {
                let k = choose|k: int| 0 <= k < b0.len() && b0[k] == ')';
                assert(b[k] == ')');
            }
        }
        lemma_last_index(a, b0);
        assert(s.last() == b.last());
        assert(s.drop_last() =~= a + seq![')'] + b0);
    } else {
        assert(s.last() == ')');
    }
}

fn fields_of(stat: &str) -> (r: Option<Vec<String>>)
    ensures
        match r {
            Some(v) => stat_fields(stat@) == Some(text::texts(v@)),
            None => stat_fields(stat@) is None,
        },
{
    let x = chars_of(stat);
    let mut i: usize = x.len();
    assert(stat@.take(i as int) =~= stat@);
    while i > 0 && x[i - 1] != ')'
        invariant
            i <= x@.len(),
            x@ == stat@,
            last_index(stat@, ')') == last_index(stat@.take(i as int), ')'),
        decreases i,
    {
        assert(stat@.take(i as int).drop_last() =~= stat@.take(i - 1));
        i = i - 1;
    }
    if i == 0 {
        return None;
    }
    assert(last_index(stat@, ')') == Some(i - 1));
    let rest = text_of(&x, i, x.len());
    assert(rest@ =~= stat@.skip(i as int));
    Some(split_words(rest.as_str()))
}

/// When a process started, from its `/proc/<pid>/stat`: the twentieth field
/// behind its name.
pub fn stat_starttime(stat: &str) -> (r: Option<u128>)
    ensures
        ({
            let field = stat_fields(stat@);
            let t = if field is Some && field->0.len() > 19 {
                number::unsigned(field->0[19], u128::MAX as nat)
            } else {
                None
            };
            match r {
                Some(n) => t == Some(n as nat),
                None => t is None,
            }
        }),
{
    match fields_of(stat) {
        None => None,
        Some(v) => {
            if v.len() > 19 {
                assert(text::texts(v@)[19] == v@[19]@);
                parse_unsigned(v[19].as_str(), u128::MAX)
            } else {
                None
            }
        },
    }
}

/// The process is a zombie, by its `/proc/<pid>/stat`: it no longer runs and
/// holds nothing.
pub fn is_zombie(stat: Option<String>) -> (r: bool)
    ensures
        r == (stat matches Some(s) && stat_fields(s@) matches Some(f) && f.len() > 0 && f[0]
            == "Z"@),
{
    match stat {
        None => false,
        Some(s) => match fields_of(s.as_str()) {
            None => false,
            Some(v) => {
                if v.len() > 0 {
                    assert(text::texts(v@)[0] == v@[0]@);
                    crate::text::same(v[0].as_str(), "Z")
                } else {
                    false
                }
            },
        },
    }
}

/// When a process started, from seconds and microseconds: in microseconds.
pub fn micros_starttime(seconds: u64, micros: u64) -> (r: u128)
    ensures
        r == seconds * 1_000_000 + micros,
{
    assert(seconds * 1_000_000 + micros <= u128::MAX) by (nonlinear_arith)
        requires
            seconds <= u64::MAX,
            micros <= u64::MAX,
    ;
    (seconds as u128) * 1_000_000 + micros as u128
}

/// When a process started, from the two halves of its creation time.
pub fn filetime_starttime(high: u32, low: u32) -> (r: u128)
    ensures
        r == high * 0x1_0000_0000 + low,
{
    (high as u128) * 0x1_0000_0000 + low as u128
}

/// What asking the system for a process gave.
#[derive(Clone, Copy, Debug, PartialEq, Eq, Structural)]
pub enum ProcessAnswer {
    /// It can be reached.
    Reached,
    /// There is none of that number.
    NoSuchProcess,
    /// It cannot be reached for another reason.
    Refused,
}

/// The process lives. On Windows one that refuses to be opened is there; on
/// other systems the probe does not tell, and only one that can be reached
/// counts.
pub fn pid_alive(windows: bool, answer: ProcessAnswer) -> (r: bool)
    ensures
        r == (answer is Reached || (windows && answer is Refused)),
{
    match answer {
        ProcessAnswer::Reached => true,
        ProcessAnswer::NoSuchProcess => false,
        ProcessAnswer::Refused => windows,
    }
}

/// The length of what macOS tells of a process in brief.
pub const PROC_SHORTBSDINFO_SIZE: usize = 104;

/// Where the seconds of the start time stand in it: behind twelve numbers of
/// four bytes, a name of sixteen bytes, and six more such numbers.
pub const START_TVSEC_OFFSET: usize = 88;

/// Where the microseconds of the start time stand in it.
pub const START_TVUSEC_OFFSET: usize = 96;

/// The start time in what macOS tells of a process in brief: microseconds.
/// `filled` is how many bytes the system gave; there is none unless it gave all.
pub fn bsd_starttime(info: &Vec<u8>, filled: i32) -> (r: Option<u128>)
    ensures
        r == if filled == 104 && info@.len() >= 104 {
            Some(
                (vstd::bytes::spec_u64_from_le_bytes(info@.subrange(88, 96)) * 1_000_000
                    + vstd::bytes::spec_u64_from_le_bytes(info@.subrange(96, 104))) as u128,
            )
        } else {
            None
        },
{
    if filled != 104 || info.len() < PROC_SHORTBSDINFO_SIZE {
        return None;
    }
    let secs: u64 = vstd::bytes::u64_from_le_bytes(
        vstd::slice::slice_subrange(info.as_slice(), START_TVSEC_OFFSET, START_TVUSEC_OFFSET),
    );
    let micros: u64 = vstd::bytes::u64_from_le_bytes(
        vstd::slice::slice_subrange(info.as_slice(), START_TVUSEC_OFFSET, PROC_SHORTBSDINFO_SIZE),
    );
    Some(micros_starttime(secs, micros))
}

} // verus!
