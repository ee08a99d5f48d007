//! What crashed processes leave behind: temporary files of interrupted writes
//! and staging directories of interrupted merges. Each carries the number of
//! the process that made it, and is only ever removed once that process is
//! gone.

use vstd::prelude::*;
use crate::number;
use crate::number::{decimal_text, parse_u32};
use crate::pidfile;
use crate::text;
use crate::text::{before_char, cat5, chars_of, find_text, strip_prefix, text_of};

verus! {

/// The process number at the start of `<pid>-<nanos>`.
pub open spec fn maker(s: Seq<char>) -> Option<nat> {
    number::unsigned(text::before_first(s, '-'), u32::MAX as nat)
}

/// The name of the temporary file by which `<stem>.json` is replaced.
pub open spec fn tmp_text(stem: Seq<char>, pid: nat, nanos: nat) -> Seq<char> {
    stem + ".json.tmp-"@ + number::decimal(pid) + "-"@ + number::decimal(nanos)
}

/// The process that wrote a temporary file, read off the file's name.
pub open spec fn tmp_writer_of(name: Seq<char>) -> Option<nat> {
    match text::find_from(name, "json.tmp-"@, 0) {
        Some(i) => maker(name.skip(i + "json.tmp-"@.len())),
        None => None,
    }
}

/// The process that staged a merge, read off the name of its staging directory.
pub open spec fn staging_owner_of(name: Seq<char>) -> Option<nat> {
    match text::after_prefix(name, ".cowt-apply-"@) {
        Some(rest) => maker(rest),
        None => None,
    }
}

/// The name of the temporary file by which `<stem>.json` is replaced.
pub fn tmp_name(stem: &str, pid: u32, nanos: u128) -> (r: String)
    ensures
        r@ == tmp_text(stem@, pid as nat, nanos as nat),
        r@ == stem@ + ".json.tmp-"@ + number::decimal(pid as nat) + "-"@ + number::decimal(
            nanos as nat,
        ),
{
    let p = decimal_text(pid as u128);
    let n = decimal_text(nanos);
    cat5(stem, ".json.tmp-", p.as_str(), "-", n.as_str())
}

/// The process that wrote a temporary file: the one to ask the system about.
pub fn tmp_writer(name: &str) -> (r: Option<u32>)
    ensures
        pidfile::opt_nat(r) == tmp_writer_of(name@),
{
    match find_text(name, "json.tmp-") {
        Some(i) => {
            let x = chars_of(name);
            proof {
                text::lemma_find_from(name@, "json.tmp-"@, 0);
                reveal_strlit("json.tmp-");
            }
            let n: usize = x.len();
            assert(i + 9 <= n);
            let rest = text_of(&x, i + 9, n);
            assert(rest@ =~= name@.skip(i + 9));
            let pid = before_char(rest.as_str(), '-');
            parse_u32(pid.as_str())
        },
        None => None,
    }
}

/// The process that staged a merge: the one to ask the system about.
pub fn staging_owner(name: &str) -> (r: Option<u32>)
    ensures
        pidfile::opt_nat(r) == staging_owner_of(name@),
{
    match strip_prefix(name, ".cowt-apply-") {
        Some(rest) => {
            let pid = before_char(rest.as_str(), '-');
            parse_u32(pid.as_str())
        },
        None => None,
    }
}

/// A directory entry that may be such a leftover.
#[derive(Debug)]
pub struct SweepEntry {
    pub name: String,
    pub is_dir: bool,
    /// The process that the name gives lives.
    pub alive: bool,
}

/// The entry is a temporary file to remove: another process wrote it, and that
/// process is gone.
pub open spec fn sweeps_tmp(e: SweepEntry, own_pid: u32) -> bool {
    tmp_writer_of(e.name@) matches Some(p) && p != own_pid && !e.alive
}

/// The entry is a staging directory to remove: the process that made it is
/// gone.
pub open spec fn sweeps_staging(e: SweepEntry) -> bool {
    staging_owner_of(e.name@) is Some && !e.alive && e.is_dir
}

/// The names of the entries that satisfy `keep`, in their order.
pub open spec fn names_of(entries: Seq<SweepEntry>, keep: spec_fn(SweepEntry) -> bool) -> Seq<
    Seq<char>,
>
    decreases entries.len(),
{
    if entries.len() == 0 {
        Seq::empty()
    } else {
        let rest = names_of(entries.drop_last(), keep);
        if keep(entries.last()) {
            rest.push(entries.last().name@)
        } else {
            rest
        }
    }
}

proof fn lemma_names_of(entries: Seq<SweepEntry>, keep: spec_fn(SweepEntry) -> bool)
    ensures
        forall|i: int|
            0 <= i < entries.len() && keep(#[trigger] entries[i]) ==> names_of(
                entries,
                keep,
            ).contains(entries[i].name@),
        forall|n: Seq<char>| #[trigger]
            names_of(entries, keep).contains(n) ==> exists|i: int|
                0 <= i < entries.len() && (#[trigger] entries[i]).name@ == n && keep(entries[i]),
    decreases entries.len(),
{
    if entries.len() > 0 {
        let front = entries.drop_last();
        lemma_names_of(front, keep);
        let (a, b) = (names_of(front, keep), names_of(entries, keep));
        let last = entries.len() - 1;
        assert forall|i: int|
            0 <= i < entries.len() && keep(#[trigger] entries[i]) implies b.contains(
            entries[i].name@,
        ) by {
            if i < last {
                assert(front[i] == entries[i]);
                let k = choose|k: int| 0 <= k < a.len() && a[k] == entries[i].name@;
                assert(b[k] == entries[i].name@);
            } else {
                assert(b[b.len() - 1] == entries[i].name@);
            }
        }
        assert forall|n: Seq<char>| #[trigger] b.contains(n) implies exists|i: int|
            0 <= i < entries.len() && (#[trigger] entries[i]).name@ == n && keep(entries[i]) by {
            let k = choose|k: int| 0 <= k < b.len() && b[k] == n;
            if k < a.len() {
                assert(a[k] == n);
                assert(a.contains(n));
                let i = choose|i: int|
                    0 <= i < front.len() && (#[trigger] front[i]).name@ == n && keep(front[i]);
                assert(entries[i] == front[i]);
            } else {
                assert(entries[last].name@ == n);
            }
        }
    }
}

/// The temporary files to remove before a new one is written: never one of
/// this process, nor one of a process that lives.
pub fn sweep_stale_tmp(entries: &Vec<SweepEntry>, own_pid: u32) -> (r: Vec<String>)
    ensures
        text::texts(r@) == names_of(entries@, |e: SweepEntry| sweeps_tmp(e, own_pid)),
        forall|i: int|
            0 <= i < entries@.len() && !(#[trigger] entries@[i]).alive && (tmp_writer_of(
                entries@[i].name@,
            ) matches Some(p) && p != own_pid) ==> text::texts(r@).contains(entries@[i].name@),
        forall|n: Seq<char>| #[trigger]
            text::texts(r@).contains(n) ==> exists|i: int|
                0 <= i < entries@.len() && (#[trigger] entries@[i]).name@ == n && !entries@[i].alive
                    && (tmp_writer_of(n) matches Some(p) && p != own_pid),
{
    let ghost keep = |e: SweepEntry| sweeps_tmp(e, own_pid);
    let mut out: Vec<String> = Vec::new();
    let mut i: usize = 0;
    assert(text::texts(out@) =~= names_of(entries@.take(0), keep));
    while i < entries.len()
        invariant
            i <= entries@.len(),
            keep == (|e: SweepEntry| sweeps_tmp(e, own_pid)),
            text::texts(out@) == names_of(entries@.take(i as int), keep),
        decreases entries@.len() - i,
    {
        let ghost o = out@;
        proof {
            assert(entries@.take(i + 1).drop_last() =~= entries@.take(i as int));
        }
        if let Some(pid) = tmp_writer(entries[i].name.as_str()) {
            if pid != own_pid && !entries[i].alive {
                out.push(entries[i].name.clone());
                assert(text::texts(out@) =~= text::texts(o).push(entries@[i as int].name@));
            }
        }
        i = i + 1;
    }
    assert(entries@.take(entries@.len() as int) =~= entries@);
    proof {
        lemma_names_of(entries@, keep);
    }
    out
}

/// The staging directories to remove before a merge is staged: never one whose
/// process lives.
pub fn sweep_stale_staging(entries: &Vec<SweepEntry>) -> (r: Vec<String>)
    ensures
        text::texts(r@) == names_of(entries@, |e: SweepEntry| sweeps_staging(e)),
        forall|i: int|
            0 <= i < entries@.len() && !(#[trigger] entries@[i]).alive && entries@[i].is_dir
                && staging_owner_of(entries@[i].name@) is Some ==> text::texts(r@).contains(
                entries@[i].name@,
            ),
        forall|n: Seq<char>| #[trigger]
            text::texts(r@).contains(n) ==> exists|i: int|
                0 <= i < entries@.len() && (#[trigger] entries@[i]).name@ == n && !entries@[i].alive
                    && entries@[i].is_dir && staging_owner_of(n) is Some,
{
    let ghost keep = |e: SweepEntry| sweeps_staging(e);
    let mut out: Vec<String> = Vec::new();
    let mut i: usize = 0;
    assert(text::texts(out@) =~= names_of(entries@.take(0), keep));
    while i < entries.len()
        invariant
            i <= entries@.len(),
            keep == (|e: SweepEntry| sweeps_staging(e)),
            text::texts(out@) == names_of(entries@.take(i as int), keep),
        decreases entries@.len() - i,
    {
        let ghost o = out@;
        proof {
            assert(entries@.take(i + 1).drop_last() =~= entries@.take(i as int));
        }
        if let Some(_) = staging_owner(entries[i].name.as_str()) {
            if !entries[i].alive && entries[i].is_dir {
                out.push(entries[i].name.clone());
                assert(text::texts(out@) =~= text::texts(o).push(entries@[i as int].name@));
            }
        }
        i = i + 1;
    }
    assert(entries@.take(entries@.len() as int) =~= entries@);
    proof {
        lemma_names_of(entries@, keep);
    }
    out
}

proof fn lemma_maker(pid: nat, tail: Seq<char>)
    requires
        pid <= u32::MAX,
    ensures
        maker(number::decimal(pid) + "-"@ + tail) == Some(pid),
{
    reveal_strlit("-");
    let a = number::decimal(pid);
    number::lemma_decimal(pid);
    assert forall|j: int| 0 <= j < a.len() implies a[j] != '-' by {
        assert(number::digit(a[j]));
    }
    text::lemma_index_of(a, tail, '-', 0);
    assert(a + "-"@ + tail =~= a + seq!['-'] + tail);
    assert((a + "-"@ + tail).take(a.len() as int) =~= a);
    number::law_decimal_reads_back(pid, u32::MAX as nat);
}

proof fn lemma_find_skips(s: Seq<char>, p: Seq<char>, i: int, k: int)
    requires
        0 <= i <= k,
        text::stands_at(s, p, k),
        forall|j: int| i <= j < k ==> !text::stands_at(s, p, j),
    ensures
        text::find_from(s, p, i) == Some(k),
    decreases k - i,
{
    if i < k {
        lemma_find_skips(s, p, i + 1, k);
    }
}

/// The writer of a temporary file can be read off its name. The two files that
/// are written this way have names without a `j` before their extension.
pub proof fn law_tmp_names_writer(stem: Seq<char>, pid: nat, nanos: nat)
    requires
        !stem.contains('j'),
        pid <= u32::MAX,
    ensures
        tmp_writer_of(tmp_text(stem, pid, nanos)) == Some(pid),
{
    reveal_strlit("json.tmp-");
    reveal_strlit(".json.tmp-");
    let name = tmp_text(stem, pid, nanos);
    let k = stem.len() as int + 1;
    let tail = number::decimal(pid) + "-"@ + number::decimal(nanos);
    assert(name =~= stem + ".json.tmp-"@ + tail);
    assert(name.subrange(k, k + 9) =~= "json.tmp-"@);
    assert forall|j: int| 0 <= j < k implies !text::stands_at(name, "json.tmp-"@, j) by {
        if text::stands_at(name, "json.tmp-"@, j) {
            assert(name.subrange(j, j + 9)[0] == 'j');
            assert(name[j] == 'j');
            if j < stem.len() {
                assert(stem[j] == 'j');
                assert(stem.contains('j'));
            } else {
                assert(name[j] == '.');
            }
        }
    }
    lemma_find_skips(name, "json.tmp-"@, 0, k);
    assert(name.skip(k + 9) =~= tail);
    lemma_maker(pid, number::decimal(nanos));
}

/// The process that staged a merge can be read off the name of its staging
/// directory.
pub proof fn law_staging_names_owner(pid: nat, nanos: nat)
    requires
        pid <= u32::MAX,
    ensures
        staging_owner_of(".cowt-apply-"@ + number::decimal(pid) + "-"@ + number::decimal(nanos))
            == Some(pid),
{
    let tail = number::decimal(pid) + "-"@ + number::decimal(nanos);
    let name = ".cowt-apply-"@ + number::decimal(pid) + "-"@ + number::decimal(nanos);
    assert(name =~= ".cowt-apply-"@ + tail);
    assert(".cowt-apply-"@.is_prefix_of(name));
    assert(name.skip(".cowt-apply-"@.len() as int) =~= tail);
    lemma_maker(pid, number::decimal(nanos));
}

/// A leftover is removed if and only if its process is gone: a temporary file also
/// only where another process wrote it, and a staging directory only where it is
/// one.
pub proof fn law_only_leftovers_are_swept(
    e: SweepEntry,
    stem: Seq<char>,
    pid: nat,
    nanos: nat,
    own_pid: u32,
)
    requires
        !stem.contains('j'),
        pid <= u32::MAX,
    ensures
        e.name@ == stem + ".json.tmp-"@ + number::decimal(pid) + "-"@ + number::decimal(nanos) ==> (
        sweeps_tmp(e, own_pid) <==> pid != own_pid && !e.alive),
        e.name@ == ".cowt-apply-"@ + number::decimal(pid) + "-"@ + number::decimal(nanos) ==> (
        sweeps_staging(e) <==> e.is_dir && !e.alive),
{
    law_tmp_names_writer(stem, pid, nanos);
    law_staging_names_owner(pid, nanos);
}

/// What an atomic replacement of a file asks for next.
#[derive(Clone, Copy, Debug, PartialEq, Eq, Structural)]
pub enum ReplaceAsk {
    /// Remove the leftovers of crashed writers, as far as that works.
    Sweep,
    /// Write the new content to the temporary file.
    WriteTmp,
    /// Rename the temporary file over the file.
    Rename,
    /// The file has the new content.
    Done,
    /// The file is as it was; the system's error is the result.
    Failed,
}

/// The next step of a replacement, after a step that worked or did not.
pub open spec fn replace_next(ask: ReplaceAsk, ok: bool) -> ReplaceAsk {
    match ask {
        ReplaceAsk::Sweep => ReplaceAsk::WriteTmp,
        ReplaceAsk::WriteTmp => if ok {
            ReplaceAsk::Rename
        } else {
            ReplaceAsk::Failed
        },
        ReplaceAsk::Rename => if ok {
            ReplaceAsk::Done
        } else {
            ReplaceAsk::Failed
        },
        ReplaceAsk::Done => ReplaceAsk::Done,
        ReplaceAsk::Failed => ReplaceAsk::Failed,
    }
}

/// Replaces a file, one step at a time: the new content is complete before it
/// takes the file's place, so that a crash leaves the old content.
pub fn atomic_write(ask: ReplaceAsk, ok: bool) -> (r: ReplaceAsk)
    ensures
        r == replace_next(ask, ok),
{
    match ask {
        ReplaceAsk::Sweep => ReplaceAsk::WriteTmp,
        ReplaceAsk::WriteTmp => if ok {
            ReplaceAsk::Rename
        } else {
            ReplaceAsk::Failed
        },
        ReplaceAsk::Rename => if ok {
            ReplaceAsk::Done
        } else {
            ReplaceAsk::Failed
        },
        ReplaceAsk::Done => ReplaceAsk::Done,
        ReplaceAsk::Failed => ReplaceAsk::Failed,
    }
}

/// The steps of a replacement with what came of each.
pub open spec fn replace_trace(t: Seq<(ReplaceAsk, bool)>) -> bool {
    &&& t.len() > 0 ==> t[0].0 == ReplaceAsk::Sweep
    &&& forall|i: int| 0 <= i && i + 1 < t.len() ==> #[trigger] t[i + 1].0 == replace_next(t[i].0, t[i].1)
}

/// A file is only replaced by content that was written in full just before, and
/// a replacement that reports success has replaced it.
pub proof fn law_replacement_is_complete(t: Seq<(ReplaceAsk, bool)>, i: int)
    requires
        replace_trace(t),
        0 <= i < t.len(),
    ensures
        t[i].0 is Rename ==> i >= 2 && t[i - 1] == (ReplaceAsk::WriteTmp, true),
        t[i].0 is Done ==> exists|j: int| 0 <= j < i && t[j] == (ReplaceAsk::Rename, true),
        i == 1 ==> t[1].0 is WriteTmp,
        i == 2 ==> t[2].0 == if t[1].1 {
            ReplaceAsk::Rename
        } else {
            ReplaceAsk::Failed
        },
        i >= 3 ==> t[i].0 == if t[1].1 && t[2].1 {
            ReplaceAsk::Done
        } else {
            ReplaceAsk::Failed
        },
    decreases i,
{
    if i > 0 {
        law_replacement_is_complete(t, i - 1);
        assert(t[i - 1 + 1].0 == replace_next(t[i - 1].0, t[i - 1].1));
        if t[i].0 is Rename {
            assert(i >= 2);
        }
        if t[i].0 is Done && t[i - 1].0 is Rename {
            assert(t[i - 1] == (ReplaceAsk::Rename, true));
        }
    }
}

} // verus!
