//! The worktrees of a state root: listing them, looking one up, creating one.

use vstd::prelude::*;
use crate::text;
use crate::state;
use crate::path;
use crate::order;
use crate::order::text_before;
use crate::host::HostOs;
use crate::path::is_single_component;
use crate::state::{valid_id_or_name, MetaView, State, WorktreeMeta};
use crate::text::{cat3, cat4, cat5, join_text, same, starts_with};

verus! {

/// What is found of one entry of the state root.
#[derive(Debug)]
pub struct EntryProbe {
    pub name: String,
    pub is_dir: bool,
    pub has_meta: bool,
    pub has_manifest: bool,
    pub has_upper: bool,
    /// The metadata, where `meta.json` is there and can be read.
    pub meta: Option<WorktreeMeta>,
}

/// Why an entry that looks like a worktree is not listed.
#[derive(Clone, Copy, Debug, PartialEq, Eq, Structural)]
pub enum ListWarning {
    /// It has no `meta.json`: an interrupted fork, or a missing file.
    NoMeta,
    /// Its `meta.json` cannot be read.
    Unreadable,
    /// Its `meta.json` gives an id that is not one path component.
    ForgedId,
}

/// The entry is what a dropped worktree left behind.
pub open spec fn is_trash(e: EntryProbe) -> bool {
    ".trash-"@.is_prefix_of(e.name@)
}

/// The metadata by which an entry is listed. An id that is not one path
/// component would lead out of the state root, so it is never listed.
pub open spec fn listed_meta(os: HostOs, e: EntryProbe) -> Option<WorktreeMeta> {
    if !is_trash(e) && e.is_dir && e.has_meta && e.meta is Some && path::single_component(
        os,
        e.meta->0.id@,
    ) {
        e.meta
    } else {
        None
    }
}

/// What is to be said of an entry that is not listed.
pub open spec fn list_warning(os: HostOs, e: EntryProbe) -> Option<ListWarning> {
    if is_trash(e) || !e.is_dir {
        None
    } else if !e.has_meta {
        if e.has_manifest || e.has_upper {
            Some(ListWarning::NoMeta)
        } else {
            None
        }
    } else {
        match e.meta {
            None => Some(ListWarning::Unreadable),
            Some(m) => if path::single_component(os, m.id@) {
                None
            } else {
                Some(ListWarning::ForgedId)
            },
        }
    }
}

/// The metadata of the entries that are listed, in the order found.
pub open spec fn listed(os: HostOs, entries: Seq<EntryProbe>) -> Seq<WorktreeMeta>
    decreases entries.len(),
{
    if entries.len() == 0 {
        Seq::empty()
    } else {
        let rest = listed(os, entries.drop_last());
        match listed_meta(os, entries.last()) {
            Some(m) => rest.push(m),
            None => rest,
        }
    }
}

/// The warnings for the entries, in the order found, each with its name.
pub open spec fn list_warnings(os: HostOs, entries: Seq<EntryProbe>) -> Seq<
    (Seq<char>, ListWarning),
>
    decreases entries.len(),
{
    if entries.len() == 0 {
        Seq::empty()
    } else {
        let rest = list_warnings(os, entries.drop_last());
        match list_warning(os, entries.last()) {
            Some(w) => rest.push((entries.last().name@, w)),
            None => rest,
        }
    }
}

/// A list of worktrees, and what is to be said of the entries left out.
#[derive(Debug)]
pub struct Listing {
    pub metas: Vec<WorktreeMeta>,
    pub warnings: Vec<(String, ListWarning)>,
}

/// The warnings of a listing.
pub open spec fn warnings_view(v: Seq<(String, ListWarning)>) -> Seq<(Seq<char>, ListWarning)> {
    v.map_values(|w: (String, ListWarning)| (w.0@, w.1))
}

/// `a` is listed strictly before `b`: it was created earlier, or at the same
/// second and its id comes first.
pub open spec fn older(a: WorktreeMeta, b: WorktreeMeta) -> bool {
    a.created_epoch < b.created_epoch || (a.created_epoch == b.created_epoch && order::before(
        a.id@,
        b.id@,
    ))
}

/// No entry is older than one before it.
pub open spec fn by_age(s: Seq<WorktreeMeta>) -> bool {
    forall|i: int, j: int| 0 <= i < j < s.len() ==> !older(#[trigger] s[j], #[trigger] s[i])
}

/// Two entries that age does not tell apart.
pub open spec fn same_age(a: WorktreeMeta, b: WorktreeMeta) -> bool {
    a.created_epoch == b.created_epoch && a.id@ == b.id@
}

proof fn lemma_older(a: WorktreeMeta, b: WorktreeMeta, c: WorktreeMeta)
    ensures
        !older(b, a) && !older(c, b) ==> !older(c, a),
        older(a, b) ==> !older(b, a) && !same_age(a, b),
        same_age(a, b) ==> !older(a, b) && !older(b, a),
{
    order::lemma_before_total(a.id@, b.id@);
    order::lemma_before_total(b.id@, c.id@);
    order::lemma_before_total(a.id@, c.id@);
    if !older(b, a) && !older(c, b) && older(c, a) {
        order::lemma_not_after_transitive(a.id@, b.id@, c.id@);
    }
}

fn is_older(a: &WorktreeMeta, b: &WorktreeMeta) -> (r: bool)
    ensures
        r == older(*a, *b),
{
    if a.created_epoch < b.created_epoch {
        true
    } else if a.created_epoch == b.created_epoch {
        text_before(a.id.as_str(), b.id.as_str())
    } else {
        false
    }
}

/// A copy of a worktree's metadata.
pub fn copy_meta(m: &WorktreeMeta) -> (r: WorktreeMeta)
    ensures
        r == *m,
{
    let name = match &m.name {
        Some(n) => Some(n.clone()),
        None => None,
    };
    WorktreeMeta {
        id: m.id.clone(),
        name,
        target: m.target.clone(),
        created_epoch: m.created_epoch,
        status: m.status,
        backend: m.backend.clone(),
    }
}

/// The entries of the same age as `k`, in their order.
pub open spec fn of_age(s: Seq<WorktreeMeta>, k: WorktreeMeta) -> Seq<WorktreeMeta> {
    s.filter(|m: WorktreeMeta| same_age(m, k))
}

/// The same entries, with those of each age in the same order.
pub open spec fn same_entries(a: Seq<WorktreeMeta>, b: Seq<WorktreeMeta>) -> bool {
    forall|k: WorktreeMeta| #[trigger] of_age(a, k) == of_age(b, k)
}

proof fn lemma_filter_none<A>(s: Seq<A>, pred: spec_fn(A) -> bool)
    requires
        forall|i: int| 0 <= i < s.len() ==> !pred(#[trigger] s[i]),
    ensures
        s.filter(pred) == Seq::<A>::empty(),
    decreases s.len(),
{
    reveal(Seq::filter);
    if s.len() > 0 {
        lemma_filter_none(s.drop_last(), pred);
        assert(!pred(s[s.len() - 1]));
    }
}

proof fn lemma_filter_push<A>(s: Seq<A>, x: A, pred: spec_fn(A) -> bool)
    ensures
        s.push(x).filter(pred) == if pred(x) {
            s.filter(pred).push(x)
        } else {
            s.filter(pred)
        },
{
    reveal(Seq::filter);
    assert(s.push(x).drop_last() =~= s);
}

proof fn lemma_insert_filter(s: Seq<WorktreeMeta>, p: int, x: WorktreeMeta, k: WorktreeMeta)
    requires
        0 <= p <= s.len(),
        forall|i: int| p <= i < s.len() ==> older(x, #[trigger] s[i]),
    ensures
        of_age(s.insert(p, x), k) == of_age(s.push(x), k),
{
    let pred = |m: WorktreeMeta| same_age(m, k);
    let a = s.take(p);
    let b = s.skip(p);
    assert(s.insert(p, x) =~= a.push(x) + b);
    assert(s =~= a + b);
    Seq::filter_distributes_over_add(a.push(x), b, pred);
    Seq::filter_distributes_over_add(a, b, pred);
    lemma_filter_push(a, x, pred);
    lemma_filter_push(s, x, pred);
    if pred(x) {
        assert forall|i: int| 0 <= i < b.len() implies !pred(#[trigger] b[i]) by {
            assert(older(x, s[p + i]));
            lemma_older(x, b[i], b[i]);
        }
        lemma_filter_none(b, pred);
        assert(a.filter(pred).push(x) + b.filter(pred) =~= a.filter(pred).push(x));
        assert(a.filter(pred) + b.filter(pred) =~= a.filter(pred));
    }
}

fn sort_metas(v: Vec<WorktreeMeta>) -> (r: Vec<WorktreeMeta>)
    ensures
        by_age(r@),
        same_entries(r@, v@),
        r@.to_multiset() == v@.to_multiset(),
{
    let mut out: Vec<WorktreeMeta> = Vec::new();
    let mut k: usize = 0;
    assert(v@.take(0) =~= out@);
    while k < v.len()
        invariant
            k <= v@.len(),
            by_age(out@),
            same_entries(out@, v@.take(k as int)),
            out@.to_multiset() == v@.take(k as int).to_multiset(),
            out@.len() == k,
        decreases v@.len() - k,
    {
        let ghost o = out@;
        let ghost x = v@[k as int];
        let mut p: usize = 0;
        while p < out.len() && !is_older(&v[k], &out[p])
            invariant
                p <= out@.len(),
                k < v@.len(),
                x == v@[k as int],
                o == out@,
                forall|i: int| 0 <= i < p ==> !older(x, #[trigger] o[i]),
            decreases out@.len() - p,
        {
            p = p + 1;
        }
        out.insert(p, copy_meta(&v[k]));
        proof {
            let n = o.insert(p as int, x);
            assert(out@ =~= n);
            assert forall|i: int| p <= i < o.len() implies older(x, #[trigger] o[i]) by {
                assert(older(x, o[p as int]));
                if i > p {
                    assert(!older(o[i], o[p as int]));
                    order::lemma_before_total(x.id@, o[p as int].id@);
                    order::lemma_before_total(o[p as int].id@, o[i].id@);
                    if x.created_epoch == o[i].created_epoch && o[p as int].id@ != o[i].id@ {
                        crate::order::lemma_before_transitive(x.id@, o[p as int].id@, o[i].id@);
                    }
                }
            }
            assert forall|i: int, j: int| 0 <= i < j < n.len() implies !older(
                #[trigger] n[j],
                #[trigger] n[i],
            ) by {
                let a = if i < p {
                    i
                } else {
                    i - 1
                };
                let b = if j < p {
                    j
                } else {
                    j - 1
                };
                if i == p {
                    lemma_older(x, o[b], o[b]);
                } else if j == p {
                    assert(!older(x, o[a]));
                } else {
                    assert(n[i] == o[a] && n[j] == o[b]);
                }
            }
            assert(v@.take(k + 1) =~= v@.take(k as int).push(x));
            assert forall|key: WorktreeMeta| #[trigger]
                of_age(n, key) == of_age(v@.take(k + 1), key) by {
                let pred = |m: WorktreeMeta| same_age(m, key);
                lemma_insert_filter(o, p as int, x, key);
                lemma_filter_push(o, x, pred);
                lemma_filter_push(v@.take(k as int), x, pred);
                assert(of_age(o, key) == of_age(v@.take(k as int), key));
            }
            vstd::seq_lib::to_multiset_insert(o, p as int, x);
            vstd::seq_lib::to_multiset_build(v@.take(k as int), x);
        }
        k = k + 1;
    }
    assert(v@.take(v@.len() as int) =~= v@);
    out
}

/// What is found of the directory that an id would have.
#[derive(Clone, Copy, Debug, PartialEq, Eq, Structural)]
pub struct DirProbe {
    pub has_meta: bool,
    pub is_dir: bool,
    pub manifest_is_file: bool,
    pub upper_is_dir: bool,
    pub work_is_dir: bool,
}

impl DirProbe {
    /// The directory has the shape of a worktree. One whose metadata is
    /// missing or damaged, and one whose fork was interrupted early, still
    /// counts, so that it can be discarded.
    pub open spec fn shaped(self) -> bool {
        self.has_meta || (self.is_dir && (self.manifest_is_file || self.upper_is_dir
            || self.work_is_dir))
    }

    /// The directory has the shape of a worktree.
    pub fn is_worktree(&self) -> (r: bool)
        ensures
            r == self.shaped(),
            r <==> self.has_meta || (self.is_dir && (self.manifest_is_file || self.upper_is_dir
                || self.work_is_dir)),
    {
        self.has_meta || (self.is_dir && (self.manifest_is_file || self.upper_is_dir
            || self.work_is_dir))
    }
}

/// Why an id or name does not lead to a worktree.
#[derive(Debug)]
pub enum ResolveError {
    /// It cannot be an id or a name.
    Invalid,
    /// No worktree has it.
    NotFound,
    /// More than one worktree has this name: those with these ids.
    Ambiguous(Vec<String>),
}

/// The ids of the worktrees that have this name.
pub open spec fn named(os: HostOs, metas: Seq<MetaView>, name: Seq<char>) -> Seq<Seq<char>>
    decreases metas.len(),
{
    if metas.len() == 0 {
        Seq::empty()
    } else {
        let m = metas.last();
        let rest = named(os, metas.drop_last(), name);
        if m.name == Some(name) && path::single_component(os, m.id) {
            rest.push(m.id)
        } else {
            rest
        }
    }
}

/// The result of looking a worktree up.
pub enum Resolved {
    Dir(Seq<char>),
    Invalid,
    NotFound,
    Ambiguous(Seq<Seq<char>>),
}

/// Looking `s` up: as an id if there is such a worktree, else as a name.
pub open spec fn resolved(
    os: HostOs,
    root: Seq<char>,
    s: Seq<char>,
    probe: DirProbe,
    metas: Seq<MetaView>,
) -> Resolved {
    let hits = named(os, metas, s);
    if !state::valid_name(os, s) {
        Resolved::Invalid
    } else if probe.shaped() {
        Resolved::Dir(path::joined(os, root, s))
    } else if hits.len() == 0 {
        Resolved::NotFound
    } else if hits.len() == 1 {
        Resolved::Dir(path::joined(os, root, hits[0]))
    } else {
        Resolved::Ambiguous(hits)
    }
}

/// The view of the result of looking a worktree up.
pub open spec fn resolved_view(r: Result<String, ResolveError>) -> Resolved {
    match r {
        Ok(d) => Resolved::Dir(d@),
        Err(ResolveError::Invalid) => Resolved::Invalid,
        Err(ResolveError::NotFound) => Resolved::NotFound,
        Err(ResolveError::Ambiguous(v)) => Resolved::Ambiguous(text::texts(v@)),
    }
}

/// `p` is the directory of a worktree of the root: directly in it.
pub open spec fn inside_root(os: HostOs, p: Seq<char>, root: Seq<char>) -> bool {
    exists|id: Seq<char>|
        #[trigger] path::single_component(os, id) && path::comps(os, p) == path::comps(
            os,
            root,
        ).push(path::Part::Name(id))
}

proof fn lemma_named_single(os: HostOs, metas: Seq<MetaView>, name: Seq<char>)
    ensures
        forall|i: int|
            0 <= i < named(os, metas, name).len() ==> path::single_component(
                os,
                #[trigger] named(os, metas, name)[i],
            ),
    decreases metas.len(),
{
    if metas.len() > 0 {
        let all = named(os, metas, name);
        let rest = named(os, metas.drop_last(), name);
        lemma_named_single(os, metas.drop_last(), name);
        assert forall|i: int| 0 <= i < all.len() implies path::single_component(
            os,
            #[trigger] all[i],
        ) by {
            if i < rest.len() {
                assert(all[i] == rest[i]);
            }
        }
    }
}

/// Whatever is looked up, and whatever the metadata files say, the result lies
/// inside the state root.
pub proof fn law_resolve_stays_inside(
    os: HostOs,
    root: Seq<char>,
    s: Seq<char>,
    probe: DirProbe,
    metas: Seq<MetaView>,
)
    requires
        path::whole(os, root),
    ensures
        resolved(os, root, s, probe, metas) matches Resolved::Dir(d) ==> inside_root(os, d, root)
            && path::within(os, d, root),
{
    lemma_named_single(os, metas, s);
    if let Resolved::Dir(d) = resolved(os, root, s, probe, metas) {
        let id = if probe.shaped() {
            s
        } else {
            named(os, metas, s)[0]
        };
        state::law_dir_inside_root(os, root, id);
        assert(path::single_component(os, id));
    }
}

/// What the making of a worktree's directory asks for next.
#[derive(Debug)]
pub enum CreateAsk {
    /// Create the worktree's directory, failing if it exists.
    MakeDir,
    /// List the worktrees.
    ListBefore,
    /// Create the layers and write the manifest and the metadata.
    Populate,
    /// List the worktrees again: another fork may have taken the name
    /// meanwhile.
    ListAfter,
    /// Remove the directory, which is still empty, then stop.
    RemoveEmpty(CreateError),
    /// Remove the directory with everything in it, then stop.
    RemoveAll(CreateError),
    /// The worktree is there, in this directory.
    Finished(String),
    /// No worktree was made.
    Stop(CreateError),
}

/// Why a worktree is not created.
#[derive(Debug)]
pub enum CreateError {
    /// There is one with this id.
    IdExists,
    /// The name cannot be one.
    InvalidName,
    /// The name is that of another worktree, or its id.
    NameTaken,
    /// Worktrees with these ids took the name meanwhile.
    NameTakenBy(Vec<String>),
    /// The system refused; its error is the result.
    Refused,
}

/// What came of it.
#[derive(Debug)]
pub enum CreateAnswer {
    Done,
    Exists,
    Failed,
    Listed(Vec<WorktreeMeta>),
}

/// The answers that fit a question.
pub open spec fn create_fits(ask: CreateAsk, answer: CreateAnswer) -> bool {
    match ask {
        CreateAsk::MakeDir => answer is Done || answer is Exists || answer is Failed,
        CreateAsk::ListBefore => answer is Listed || answer is Failed,
        CreateAsk::Populate => answer is Done || answer is Failed,
        CreateAsk::ListAfter => answer is Listed || answer is Failed,
        CreateAsk::RemoveEmpty(_) => answer is Done || answer is Failed,
        CreateAsk::RemoveAll(_) => answer is Done || answer is Failed,
        _ => false,
    }
}

/// A worktree has this name, or this id.
pub open spec fn taken(metas: Seq<MetaView>, name: Seq<char>) -> bool {
    exists|i: int|
        0 <= i < metas.len() && ((#[trigger] metas[i]).name == Some(name) || metas[i].id == name)
}

/// The ids of the other worktrees that have this name.
pub open spec fn rivals(metas: Seq<MetaView>, own: Seq<char>, name: Seq<char>) -> Seq<Seq<char>>
    decreases metas.len(),
{
    if metas.len() == 0 {
        Seq::empty()
    } else {
        let m = metas.last();
        let rest = rivals(metas.drop_last(), own, name);
        if m.id != own && m.name == Some(name) {
            rest.push(m.id)
        } else {
            rest
        }
    }
}

/// The worktree is there: in the directory that has its id, below the state root.
pub open spec fn finished(os: HostOs, root: Seq<char>, id: Seq<char>, next: CreateAsk) -> bool {
    next matches CreateAsk::Finished(d) && d@ == path::joined(os, root, id)
}

/// What follows a step of a creation.
pub open spec fn create_step(
    os: HostOs,
    root: Seq<char>,
    meta: MetaView,
    ask: CreateAsk,
    answer: CreateAnswer,
    next: CreateAsk,
) -> bool {
    match ask {
        CreateAsk::MakeDir => if answer is Exists {
            next == CreateAsk::Stop(CreateError::IdExists)
        } else if answer is Failed {
            next == CreateAsk::Stop(CreateError::Refused)
        } else if meta.name is None {
            next is Populate
        } else if state::valid_name(os, meta.name->0) {
            next is ListBefore
        } else {
            next == CreateAsk::RemoveEmpty(CreateError::InvalidName)
        },
        CreateAsk::ListBefore => match answer {
            CreateAnswer::Listed(metas) => if meta.name is Some && taken(
                state::metas_view(metas@),
                meta.name->0,
            ) {
                next == CreateAsk::RemoveEmpty(CreateError::NameTaken)
            } else {
                next is Populate
            },
            _ => next == CreateAsk::Stop(CreateError::Refused),
        },
        CreateAsk::Populate => if answer is Failed {
            next == CreateAsk::RemoveAll(CreateError::Refused)
        } else if meta.name is Some {
            next is ListAfter
        } else {
            finished(os, root, meta.id, next)
        },
        CreateAsk::ListAfter => match answer {
            CreateAnswer::Listed(metas) => {
                let other = rivals(state::metas_view(metas@), meta.id, meta.name->0);
                if meta.name is None || other.len() == 0 {
                    finished(os, root, meta.id, next)
                } else {
                    next matches CreateAsk::RemoveAll(CreateError::NameTakenBy(ids))
                        && text::texts(ids@) == other
                }
            },
            _ => next == CreateAsk::Stop(CreateError::Refused),
        },
        CreateAsk::RemoveEmpty(e) => next == CreateAsk::Stop(e),
        CreateAsk::RemoveAll(e) => next == CreateAsk::Stop(e),
        CreateAsk::Finished(d) => next == CreateAsk::Finished(d),
        CreateAsk::Stop(e) => next == CreateAsk::Stop(e),
    }
}

/// The steps of a creation with what came of each.
pub open spec fn create_trace(
    os: HostOs,
    root: Seq<char>,
    meta: MetaView,
    t: Seq<(CreateAsk, CreateAnswer)>,
) -> bool {
    &&& t.len() > 0 ==> t[0].0 is MakeDir
    &&& forall|i: int|
        0 <= i && i + 1 < t.len() ==> create_fits(t[i].0, t[i].1) && create_step(
            os,
            root,
            meta,
            t[i].0,
            t[i].1,
            (#[trigger] t[i + 1]).0,
        )
}

/// A worktree's directory is only ever filled after it was made exclusively,
/// under a name that can be looked up and that no listed worktree has as its
/// name or id.
pub proof fn law_created_name_is_free(
    os: HostOs,
    root: Seq<char>,
    meta: MetaView,
    t: Seq<(CreateAsk, CreateAnswer)>,
    i: int,
)
    requires
        create_trace(os, root, meta, t),
        0 <= i < t.len(),
        t[i].0 is Populate,
        meta.name is Some,
    ensures
        i == 2,
        t[0].0 is MakeDir && t[0].1 is Done,
        state::valid_name(os, meta.name->0),
        t[1].1 matches CreateAnswer::Listed(metas) && !taken(
            state::metas_view(metas@),
            meta.name->0,
        ),
{
    assert(i > 0);
    assert(create_step(os, root, meta, t[i - 1].0, t[i - 1].1, t[i - 1 + 1].0));
    assert(i - 1 > 0);
    assert(create_step(os, root, meta, t[i - 2].0, t[i - 2].1, t[i - 2 + 1].0));
    if i - 2 > 0 {
        assert(create_step(os, root, meta, t[i - 3].0, t[i - 3].1, t[i - 3 + 1].0));
    }
}

/// A creation that stops has asked for the directory to be removed just before,
/// unless it never made one, or the worktrees could not be listed.
pub proof fn law_creation_is_undone(
    os: HostOs,
    root: Seq<char>,
    meta: MetaView,
    t: Seq<(CreateAsk, CreateAnswer)>,
    i: int,
)
    requires
        create_trace(os, root, meta, t),
        0 < i < t.len(),
        t[i].0 is Stop,
    ensures
        ({
            ||| t[i - 1].0 is RemoveEmpty
            ||| t[i - 1].0 is RemoveAll
            ||| t[i - 1].0 is MakeDir && !(t[i - 1].1 is Done)
            ||| (t[i - 1].0 is ListBefore || t[i - 1].0 is ListAfter) && t[i - 1].1 is Failed
        }),
{
    assert(create_step(os, root, meta, t[i - 1].0, t[i - 1].1, t[i - 1 + 1].0));
}

/// A creation that finishes has made the directory and filled it, in this
/// order, and has not asked for its removal.
pub proof fn law_finished_is_filled(
    os: HostOs,
    root: Seq<char>,
    meta: MetaView,
    t: Seq<(CreateAsk, CreateAnswer)>,
    i: int,
)
    requires
        create_trace(os, root, meta, t),
        0 <= i < t.len(),
        t[i].0 is Finished,
    ensures
        t[0].0 is MakeDir && t[0].1 is Done,
        exists|j: int| 0 < j < i && (#[trigger] t[j]).0 is Populate && t[j].1 is Done,
        forall|j: int|
            0 <= j <= i ==> !((#[trigger] t[j]).0 is RemoveEmpty) && !(t[j].0 is RemoveAll),
    decreases i,
{
    assert(i > 0);
    assert(create_step(os, root, meta, t[i - 1].0, t[i - 1].1, t[i - 1 + 1].0));
    if t[i - 1].0 is Finished {
        law_finished_is_filled(os, root, meta, t, i - 1);
    } else {
        let f = if t[i - 1].0 is Populate {
            i - 1
        } else {
            i - 2
        };
        assert(i - 1 > 0);
        assert(create_step(os, root, meta, t[i - 2].0, t[i - 2].1, t[i - 2 + 1].0));
        assert(t[f].0 is Populate && t[f].1 is Done);
        assert(f > 0);
        assert(create_step(os, root, meta, t[f - 1].0, t[f - 1].1, t[f - 1 + 1].0));
        if f - 1 > 0 {
            assert(create_step(os, root, meta, t[f - 2].0, t[f - 2].1, t[f - 2 + 1].0));
            if f - 2 > 0 {
                assert(create_step(os, root, meta, t[f - 3].0, t[f - 3].1, t[f - 3 + 1].0));
            }
        }
    }
}

/// What a step of a creation does to the state root, which is seen as the
/// metadata in each of its directories. A step concerns only the directory that
/// has the id; what it leaves there when it fails is open.
pub open spec fn create_effect(
    meta: MetaView,
    ask: CreateAsk,
    answer: CreateAnswer,
    before: Map<Seq<char>, Option<MetaView>>,
    after: Map<Seq<char>, Option<MetaView>>,
) -> bool {
    match ask {
        CreateAsk::MakeDir => if answer is Done {
            !before.dom().contains(meta.id) && after == before.insert(meta.id, None)
        } else {
            after == before
        },
        CreateAsk::Populate => if answer is Done {
            after == before.insert(meta.id, Some(meta))
        } else {
            after.remove(meta.id) == before.remove(meta.id)
        },
        CreateAsk::RemoveEmpty(_) => after.remove(meta.id) == before.remove(meta.id),
        CreateAsk::RemoveAll(_) => after.remove(meta.id) == before.remove(meta.id),
        _ => after == before,
    }
}

/// The state roots over a creation, while nothing else changes the state root:
/// `st[k]` is there before step `k`.
pub open spec fn create_states(
    meta: MetaView,
    t: Seq<(CreateAsk, CreateAnswer)>,
    st: Seq<Map<Seq<char>, Option<MetaView>>>,
) -> bool {
    &&& st.len() == t.len()
    &&& forall|k: int|
        0 <= k && k + 1 < t.len() ==> create_effect(
            meta,
            t[k].0,
            t[k].1,
            st[k],
            #[trigger] st[k + 1],
        )
}

/// The entries show all the worktrees of a state root.
pub open spec fn shows_all(
    entries: Seq<EntryProbe>,
    root: Map<Seq<char>, Option<MetaView>>,
) -> bool {
    forall|id: Seq<char>|
        #[trigger] root.dom().contains(id) && root[id] is Some ==> exists|k: int|
            0 <= k < entries.len() && (#[trigger] entries[k]).name@ == id && entries[k].is_dir
                && entries[k].has_meta && entries[k].meta is Some && entries[k].meta->0@
                == root[id]->0
}

proof fn lemma_create_states(
    os: HostOs,
    root: Seq<char>,
    meta: MetaView,
    t: Seq<(CreateAsk, CreateAnswer)>,
    st: Seq<Map<Seq<char>, Option<MetaView>>>,
    i: int,
)
    requires
        create_trace(os, root, meta, t),
        create_states(meta, t, st),
        0 <= i < t.len(),
    ensures
        t[i].0 is MakeDir ==> i == 0,
        t[i].0 is ListBefore || t[i].0 is Populate ==> st[i] == st[0].insert(meta.id, None)
            && !st[0].dom().contains(meta.id),
        t[i].0 is ListAfter || t[i].0 is Finished ==> st[i] == st[0].insert(meta.id, Some(meta))
            && !st[0].dom().contains(meta.id),
        t[i].0 is Finished ==> finished(os, root, meta.id, t[i].0),
    decreases i,
{
    if i > 0 {
        lemma_create_states(os, root, meta, t, st, i - 1);
        assert(create_step(os, root, meta, t[i - 1].0, t[i - 1].1, t[i - 1 + 1].0));
        assert(create_effect(meta, t[i - 1].0, t[i - 1].1, st[i - 1], st[i - 1 + 1]));
        if t[i - 1].0 is Populate && t[i - 1].1 is Done {
            assert(st[i] =~= st[0].insert(meta.id, Some(meta)));
        }
    }
}

/// What is created reads back. A creation that finishes leaves the state root as
/// it was but for one new entry, which has the new id and holds the metadata.
/// Its directory is the state root joined with the id, one component below it;
/// a listing that shows the state root has the metadata; and looking the id up
/// gives the directory.
pub proof fn law_created_reads_back(
    os: HostOs,
    root: Seq<char>,
    meta: MetaView,
    t: Seq<(CreateAsk, CreateAnswer)>,
    st: Seq<Map<Seq<char>, Option<MetaView>>>,
    i: int,
    entries: Seq<EntryProbe>,
    probe: DirProbe,
    metas: Seq<MetaView>,
)
    requires
        create_trace(os, root, meta, t),
        create_states(meta, t, st),
        0 <= i < t.len(),
        t[i].0 is Finished,
        state::valid_name(os, meta.id),
        shows_all(entries, st[i]),
        probe.has_meta,
    ensures
        !st[0].dom().contains(meta.id),
        st[i] == st[0].insert(meta.id, Some(meta)),
        finished(os, root, meta.id, t[i].0),
        path::whole(os, root) ==> path::comps(os, path::joined(os, root, meta.id)) == path::comps(
            os,
            root,
        ).push(path::Part::Name(meta.id)),
        state::metas_view(listed(os, entries)).contains(meta),
        resolved(os, root, meta.id, probe, metas) == Resolved::Dir(
            path::joined(os, root, meta.id),
        ),
{
    lemma_create_states(os, root, meta, t, st, i);
    if path::whole(os, root) {
        path::lemma_join_component(os, root, meta.id);
    }
    assert(st[i].dom().contains(meta.id) && st[i][meta.id] == Some(meta));
    let k = choose|k: int|
        0 <= k < entries.len() && (#[trigger] entries[k]).name@ == meta.id && entries[k].is_dir
            && entries[k].has_meta && entries[k].meta is Some && entries[k].meta->0@ == meta;
    assert(listed_meta(os, entries[k]) == entries[k].meta);
    lemma_listed_has(os, entries, k);
    let all = listed(os, entries);
    let j = choose|j: int| 0 <= j < all.len() && Some(all[j]) == listed_meta(os, entries[k]);
    assert(state::metas_view(all)[j] == meta);
}

/// An entry by whose metadata it is listed is among those listed.
proof fn lemma_listed_has(os: HostOs, entries: Seq<EntryProbe>, k: int)
    requires
        0 <= k < entries.len(),
        listed_meta(os, entries[k]) is Some,
    ensures
        exists|j: int|
            0 <= j < listed(os, entries).len() && Some(#[trigger] listed(os, entries)[j])
                == listed_meta(os, entries[k]),
    decreases entries.len(),
{
    let all = listed(os, entries);
    let init = entries.drop_last();
    let rest = listed(os, init);
    if k == entries.len() - 1 {
        assert(Some(all[all.len() - 1]) == listed_meta(os, entries[k]));
    } else {
        assert(init[k] == entries[k]);
        lemma_listed_has(os, init, k);
        let j = choose|j: int|
            0 <= j < rest.len() && Some(#[trigger] rest[j]) == listed_meta(os, init[k]);
        assert(all[j] == rest[j]);
    }
}

proof fn lemma_named_one(os: HostOs, metas: Seq<MetaView>, own: Seq<char>, name: Seq<char>)
    requires
        rivals(metas, own, name).len() == 0,
        path::single_component(os, own),
        forall|i: int, j: int|
            0 <= i < j < metas.len() ==> (#[trigger] metas[i]).id != (#[trigger] metas[j]).id,
    ensures
        named(os, metas, name).len() <= 1,
        (exists|i: int| 0 <= i < metas.len() && (#[trigger] metas[i]).id == own && metas[i].name
            == Some(name)) ==> named(os, metas, name) == seq![own],
        (forall|i: int| 0 <= i < metas.len() ==> (#[trigger] metas[i]).id != own) ==> named(
            os,
            metas,
            name,
        ).len() == 0,
    decreases metas.len(),
{
    if metas.len() > 0 {
        let init = metas.drop_last();
        let m = metas.last();
        assert(rivals(init, own, name).len() == 0);
        assert forall|i: int, j: int| 0 <= i < j < init.len() implies (#[trigger] init[i]).id
            != (#[trigger] init[j]).id by {
            assert(metas[i].id != metas[j].id);
        }
        lemma_named_one(os, init, own, name);
        if m.id == own {
            assert forall|i: int| 0 <= i < init.len() implies (#[trigger] init[i]).id != own by {
                assert(metas[i].id != metas[metas.len() - 1].id);
            }
            assert(named(os, init, name).len() == 0);
            assert(named(os, init, name) =~= Seq::empty());
            if m.name == Some(name) {
                assert(named(os, metas, name) =~= seq![own]);
            } else if exists|i: int|
                0 <= i < metas.len() && (#[trigger] metas[i]).id == own && metas[i].name == Some(
                    name,
                ) {
                let i = choose|i: int|
                    0 <= i < metas.len() && (#[trigger] metas[i]).id == own && metas[i].name
                        == Some(name);
                assert(i < init.len());
                assert(init[i].id == own);
            }
        } else {
            assert(m.name != Some(name));
            if exists|i: int|
                0 <= i < metas.len() && (#[trigger] metas[i]).id == own && metas[i].name == Some(
                    name,
                ) {
                let i = choose|i: int|
                    0 <= i < metas.len() && (#[trigger] metas[i]).id == own && metas[i].name
                        == Some(name);
                assert(i < init.len());
                assert(init[i].id == own && init[i].name == Some(name));
            }
            if forall|i: int| 0 <= i < metas.len() ==> (#[trigger] metas[i]).id != own {
                assert forall|i: int| 0 <= i < init.len() implies (#[trigger] init[i]).id != own by {
                    assert(metas[i].id != own);
                }
            }
        }
    }
}

/// A worktree that was created under a name is found by that name: where the
/// last listing shows it and no other worktree of that name, and no directory
/// has the name as its id, looking the name up gives its directory. No two
/// worktrees have the same id.
pub proof fn law_created_is_found(
    os: HostOs,
    root: Seq<char>,
    own: Seq<char>,
    name: Seq<char>,
    metas: Seq<MetaView>,
    probe: DirProbe,
    i: int,
)
    requires
        state::valid_name(os, name),
        path::single_component(os, own),
        rivals(metas, own, name).len() == 0,
        0 <= i < metas.len(),
        metas[i].id == own,
        metas[i].name == Some(name),
        forall|a: int, b: int|
            0 <= a < b < metas.len() ==> (#[trigger] metas[a]).id != (#[trigger] metas[b]).id,
        !probe.shaped(),
    ensures
        resolved(os, root, name, probe, metas) == Resolved::Dir(path::joined(os, root, own)),
{
    lemma_named_one(os, metas, own, name);
}

/// The worktrees of a state root are those entries that are directories with
/// readable metadata whose id is one path component, and were not dropped; all of
/// them, in the order found.
pub proof fn law_listed_are_the_worktrees(os: HostOs, entries: Seq<EntryProbe>)
    ensures
        listed(os, entries) == entries.filter(
            |e: EntryProbe|
                !".trash-"@.is_prefix_of(e.name@) && e.is_dir && e.has_meta && e.meta is Some
                    && path::single_component(os, e.meta->0.id@),
        ).map_values(|e: EntryProbe| e.meta->0),
    decreases entries.len(),
{
    let good = |e: EntryProbe|
        !".trash-"@.is_prefix_of(e.name@) && e.is_dir && e.has_meta && e.meta is Some
            && path::single_component(os, e.meta->0.id@);
    let pick = |e: EntryProbe| e.meta->0;
    reveal(Seq::filter);
    if entries.len() > 0 {
        law_listed_are_the_worktrees(os, entries.drop_last());
        let front = entries.drop_last().filter(good);
        assert(front.push(entries.last()).map_values(pick) =~= front.map_values(pick).push(
            entries.last().meta->0,
        ));
    }
    assert(listed(os, entries) =~= entries.filter(good).map_values(pick));
}

/// What is said of an entry that is not listed: that it has no metadata, where it
/// holds something else of a worktree; that its metadata cannot be read; or that its
/// id is not one path component. Nothing is said of what was dropped, of what is
/// no directory, of one that holds nothing of a worktree, nor of one that is listed.
pub proof fn law_unlisted_are_told(os: HostOs, e: EntryProbe)
    ensures
        list_warning(os, e) == Some(ListWarning::NoMeta) <==> !".trash-"@.is_prefix_of(e.name@)
            && e.is_dir && !e.has_meta && (e.has_manifest || e.has_upper),
        list_warning(os, e) == Some(ListWarning::Unreadable) <==> !".trash-"@.is_prefix_of(e.name@)
            && e.is_dir && e.has_meta && e.meta is None,
        list_warning(os, e) == Some(ListWarning::ForgedId) <==> !".trash-"@.is_prefix_of(e.name@)
            && e.is_dir && e.has_meta && e.meta is Some && !path::single_component(
            os,
            e.meta->0.id@,
        ),
{
}

/// Each warning stands under the name of its entry, and they are all there, in the
/// order found.
pub proof fn law_warnings_are_all_given(os: HostOs, entries: Seq<EntryProbe>)
    ensures
        list_warnings(os, entries) == entries.filter(
            |e: EntryProbe| list_warning(os, e) is Some,
        ).map_values(|e: EntryProbe| (e.name@, list_warning(os, e)->0)),
    decreases entries.len(),
{
    let said = |e: EntryProbe| list_warning(os, e) is Some;
    let pick = |e: EntryProbe| (e.name@, list_warning(os, e)->0);
    reveal(Seq::filter);
    if entries.len() > 0 {
        law_warnings_are_all_given(os, entries.drop_last());
        let front = entries.drop_last().filter(said);
        assert(front.push(entries.last()).map_values(pick) =~= front.map_values(pick).push(
            pick(entries.last()),
        ));
    }
    assert(list_warnings(os, entries) =~= entries.filter(said).map_values(pick));
}

/// The worktrees that have a name are those whose metadata gives it; the rivals of
/// a worktree are the others that have its name. Both are all of them.
pub proof fn law_names_are_found(
    os: HostOs,
    metas: Seq<MetaView>,
    own: Seq<char>,
    name: Seq<char>,
)
    ensures
        named(os, metas, name) == metas.filter(
            |m: MetaView| m.name == Some(name) && path::single_component(os, m.id),
        ).map_values(|m: MetaView| m.id),
        rivals(metas, own, name) == metas.filter(
            |m: MetaView| m.name == Some(name) && m.id != own,
        ).map_values(|m: MetaView| m.id),
    decreases metas.len(),
{
    let has = |m: MetaView| m.name == Some(name) && path::single_component(os, m.id);
    let rival = |m: MetaView| m.name == Some(name) && m.id != own;
    let id = |m: MetaView| m.id;
    reveal(Seq::filter);
    if metas.len() > 0 {
        let init = metas.drop_last();
        law_names_are_found(os, init, own, name);
        assert(init.filter(has).push(metas.last()).map_values(id) =~= init.filter(has).map_values(
            id,
        ).push(metas.last().id));
        assert(init.filter(rival).push(metas.last()).map_values(id) =~= init.filter(
            rival,
        ).map_values(id).push(metas.last().id));
    }
    assert(named(os, metas, name) =~= metas.filter(has).map_values(id));
    assert(rivals(metas, own, name) =~= metas.filter(rival).map_values(id));
}

/// What is looked up is refused if and only if it can be no id or name. A directory
/// of that id that has the shape of a worktree is found first. Otherwise the one
/// worktree of that name is found; none of it, or more than one, is an error, which
/// gives all of them.
pub proof fn law_lookup(
    os: HostOs,
    root: Seq<char>,
    s: Seq<char>,
    probe: DirProbe,
    metas: Seq<MetaView>,
)
    ensures
        resolved(os, root, s, probe, metas) is Invalid <==> !state::valid_name(os, s),
        state::valid_name(os, s) && (probe.has_meta || (probe.is_dir && (probe.manifest_is_file
            || probe.upper_is_dir || probe.work_is_dir))) ==> resolved(os, root, s, probe, metas)
            == Resolved::Dir(path::joined(os, root, s)),
        state::valid_name(os, s) && !probe.has_meta && (!probe.is_dir || (!probe.manifest_is_file
            && !probe.upper_is_dir && !probe.work_is_dir)) ==> ({
            let hits = metas.filter(
                |m: MetaView| m.name == Some(s) && path::single_component(os, m.id),
            ).map_values(|m: MetaView| m.id);
            &&& hits.len() == 0 ==> resolved(os, root, s, probe, metas) is NotFound
            &&& hits.len() == 1 ==> resolved(os, root, s, probe, metas) == Resolved::Dir(
                path::joined(os, root, hits[0]),
            )
            &&& hits.len() > 1 ==> resolved(os, root, s, probe, metas) == Resolved::Ambiguous(hits)
        }),
{
    law_names_are_found(os, metas, s, s);
}

/// Each step of a creation has its cause in what was found before it: the name is
/// looked for only once the directory was made, under a name that can be looked up;
/// the directory is filled only where no listed worktree has the name as its name
/// or its id; the name is looked for once more after that; and the worktree is there
/// only where no other has taken the name meanwhile. A worktree without a name is
/// made without looking for one.
pub proof fn law_creation_steps_have_a_cause(
    os: HostOs,
    root: Seq<char>,
    meta: MetaView,
    t: Seq<(CreateAsk, CreateAnswer)>,
    i: int,
)
    requires
        create_trace(os, root, meta, t),
        0 <= i < t.len(),
    ensures
        t[i].0 is MakeDir <==> i == 0,
        t[i].0 is ListBefore ==> i == 1 && t[0].1 is Done && meta.name is Some && state::valid_name(
            os,
            meta.name->0,
        ),
        t[i].0 is Populate ==> {
            ||| i == 1 && t[0].1 is Done && meta.name is None
            ||| i == 2 && t[1].0 is ListBefore && meta.name is Some && (
            t[1].1 matches CreateAnswer::Listed(ms) && forall|k: int|
                0 <= k < ms@.len() ==> (#[trigger] ms@[k])@.name != meta.name && ms@[k]@.id
                    != meta.name->0)
        },
        t[i].0 is ListAfter ==> i == 3 && meta.name is Some && t[2].0 is Populate && t[2].1 is Done,
        t[i].0 matches CreateAsk::Finished(d) ==> {
            &&& d@ == path::joined(os, root, meta.id)
            &&& meta.name is None ==> i == 2 && t[1].0 is Populate && t[1].1 is Done
            &&& meta.name is Some ==> i == 4 && t[3].0 is ListAfter && (
            t[3].1 matches CreateAnswer::Listed(ms) && forall|k: int|
                0 <= k < ms@.len() ==> (#[trigger] ms@[k])@.name != meta.name || ms@[k]@.id
                    == meta.id)
        },
        i <= 5,
    decreases i,
{
    if i > 0 {
        law_creation_steps_have_a_cause(os, root, meta, t, i - 1);
        assert(create_step(os, root, meta, t[i - 1].0, t[i - 1].1, t[i - 1 + 1].0));
        assert(create_fits(t[i - 1].0, t[i - 1].1));
        lemma_create_left(os, root, meta, t, i);
        if let CreateAnswer::Listed(ms) = t[i - 1].1 {
            let all = state::metas_view(ms@);
            assert forall|k: int| 0 <= k < ms@.len() implies all[k] == (#[trigger] ms@[k])@ by {}
            if meta.name is Some {
                lemma_no_rivals(all, meta.id, meta.name->0);
            }
            if t[i - 1].0 is ListBefore && t[i].0 is Populate {
                assert forall|k: int| 0 <= k < ms@.len() implies (#[trigger] ms@[k])@.name
                    != meta.name && ms@[k]@.id != meta.name->0 by {
                    assert(all[k] == ms@[k]@);
                }
            }
        }
    }
}

/// How many steps are left at most.
spec fn create_left(ask: CreateAsk) -> int {
    match ask {
        CreateAsk::MakeDir => 5,
        CreateAsk::ListBefore => 4,
        CreateAsk::Populate => 3,
        CreateAsk::ListAfter => 2,
        CreateAsk::RemoveEmpty(_) => 1,
        CreateAsk::RemoveAll(_) => 1,
        CreateAsk::Finished(_) => 0,
        CreateAsk::Stop(_) => 0,
    }
}

proof fn lemma_create_left(
    os: HostOs,
    root: Seq<char>,
    meta: MetaView,
    t: Seq<(CreateAsk, CreateAnswer)>,
    i: int,
)
    requires
        create_trace(os, root, meta, t),
        0 <= i < t.len(),
    ensures
        create_left(t[i].0) + i <= 5,
    decreases i,
{
    if i > 0 {
        lemma_create_left(os, root, meta, t, i - 1);
        assert(create_step(os, root, meta, t[i - 1].0, t[i - 1].1, t[i - 1 + 1].0));
        assert(create_fits(t[i - 1].0, t[i - 1].1));
    }
}

proof fn lemma_no_rivals(metas: Seq<MetaView>, own: Seq<char>, name: Seq<char>)
    ensures
        rivals(metas, own, name).len() == 0 <==> forall|k: int|
            0 <= k < metas.len() ==> (#[trigger] metas[k]).name != Some(name) || metas[k].id == own,
    decreases metas.len(),
{
    if metas.len() > 0 {
        let init = metas.drop_last();
        lemma_no_rivals(init, own, name);
        let last = metas.len() - 1;
        if rivals(metas, own, name).len() == 0 {
            assert forall|k: int| 0 <= k < metas.len() implies (#[trigger] metas[k]).name != Some(
                name,
            ) || metas[k].id == own by {
                if k < last {
                    assert(init[k] == metas[k]);
                }
            }
        }
        if forall|k: int|
            0 <= k < metas.len() ==> (#[trigger] metas[k]).name != Some(name) || metas[k].id
                == own {
            assert(metas[last].name != Some(name) || metas[last].id == own);
            assert forall|k: int| 0 <= k < init.len() implies (#[trigger] init[k]).name != Some(
                name,
            ) || init[k].id == own by {
                assert(metas[k] == init[k]);
            }
        }
    }
}

/// A creation stops only for a reason, and for that one: the id exists; the name
/// cannot be one; a listed worktree has it as its name or its id; others, which are
/// told, took it meanwhile; or the system refused. What was made is removed first:
/// all of it where something may be in it, else only an empty directory.
pub proof fn law_creation_stops_for_a_reason(
    os: HostOs,
    root: Seq<char>,
    meta: MetaView,
    t: Seq<(CreateAsk, CreateAnswer)>,
    i: int,
)
    requires
        create_trace(os, root, meta, t),
        0 <= i && i + 1 < t.len(),
    ensures
        t[i + 1].0 matches CreateAsk::RemoveEmpty(e) ==> match e {
            CreateError::InvalidName => t[i].0 is MakeDir && t[i].1 is Done && meta.name is Some
                && !state::valid_name(os, meta.name->0),
            CreateError::NameTaken => t[i].0 is ListBefore && meta.name is Some && (
            t[i].1 matches CreateAnswer::Listed(ms) && exists|k: int|
                0 <= k < ms@.len() && ((#[trigger] ms@[k])@.name == meta.name || ms@[k]@.id
                    == meta.name->0)),
            _ => false,
        },
        t[i + 1].0 matches CreateAsk::RemoveAll(e) ==> match e {
            CreateError::Refused => t[i].0 is Populate && !(t[i].1 is Done),
            CreateError::NameTakenBy(ids) => t[i].0 is ListAfter && meta.name is Some && ids@.len()
                > 0 && (t[i].1 matches CreateAnswer::Listed(ms) && text::texts(ids@)
                == state::metas_view(ms@).filter(
                |m: MetaView| m.name == Some(meta.name->0) && m.id != meta.id,
            ).map_values(|m: MetaView| m.id)),
            _ => false,
        },
        t[i + 1].0 matches CreateAsk::Stop(e) ==> {
            ||| t[i].0 == CreateAsk::RemoveEmpty(e)
            ||| t[i].0 == CreateAsk::RemoveAll(e)
            ||| e is IdExists && t[i].0 is MakeDir && t[i].1 is Exists
            ||| e is Refused && (t[i].0 is MakeDir || t[i].0 is ListBefore || t[i].0 is ListAfter)
                && t[i].1 is Failed
        },
{
    assert(create_step(os, root, meta, t[i].0, t[i].1, (t[i + 1]).0));
    assert(create_fits(t[i].0, t[i].1));
    if let CreateAnswer::Listed(ms) = t[i].1 {
        let all = state::metas_view(ms@);
        if meta.name is Some {
            law_names_are_found(os, all, meta.id, meta.name->0);
            if taken(all, meta.name->0) {
                let k = choose|k: int|
                    0 <= k < all.len() && ((#[trigger] all[k]).name == Some(meta.name->0)
                        || all[k].id == meta.name->0);
                assert(all[k] == ms@[k]@);
            }
            if let CreateAsk::RemoveAll(CreateError::NameTakenBy(ids)) = t[i + 1].0 {
                assert(text::texts(ids@).len() == ids@.len());
            }
        }
    }
}

/// The metadata has this name.
fn has_name(m: &WorktreeMeta, name: &str) -> (r: bool)
    ensures
        r == (m@.name == Some(name@)),
{
    match &m.name {
        Some(n) => same(n.as_str(), name),
        None => false,
    }
}

fn is_taken(metas: &Vec<WorktreeMeta>, name: &str) -> (r: bool)
    ensures
        r == taken(state::metas_view(metas@), name@),
{
    let mut i: usize = 0;
    while i < metas.len()
        invariant
            i <= metas@.len(),
            forall|j: int|
                0 <= j < i ==> (#[trigger] metas@[j])@.name != Some(name@) && metas@[j]@.id != name@,
        decreases metas@.len() - i,
    {
        if has_name(&metas[i], name) || same(metas[i].id.as_str(), name) {
            assert(state::metas_view(metas@)[i as int] == metas@[i as int]@);
            return true;
        }
        i = i + 1;
    }
    assert forall|j: int| 0 <= j < state::metas_view(metas@).len() implies (#[trigger] state::metas_view(
        metas@,
    )[j]).name != Some(name@) && state::metas_view(metas@)[j].id != name@ by {
        assert(state::metas_view(metas@)[j] == metas@[j]@);
    }
    false
}

impl State {
    /// The worktrees among the entries of the state root: those whose metadata
    /// can be read and give an id of one path component, the oldest first, by
    /// id where they are equally old; and a warning for each entry that looks
    /// like a worktree but is left out.
    pub fn list(&self, entries: &Vec<EntryProbe>) -> (r: Listing)
        ensures
            by_age(r.metas@),
            same_entries(r.metas@, listed(self.host(), entries@)),
            r.metas@.to_multiset() == listed(self.host(), entries@).to_multiset(),
            warnings_view(r.warnings@) == list_warnings(self.host(), entries@),
            forall|i: int, j: int|
                0 <= i < j < r.metas@.len() ==> (#[trigger] r.metas@[i]).created_epoch <= (
                #[trigger] r.metas@[j]).created_epoch,
            forall|i: int, j: int|
                0 <= i < j < r.metas@.len() && (#[trigger] r.metas@[i]).created_epoch == (
                #[trigger] r.metas@[j]).created_epoch ==> !order::before(
                    r.metas@[j].id@,
                    r.metas@[i].id@,
                ),
    {
        let os = self.os();
        let mut metas: Vec<WorktreeMeta> = Vec::new();
        let mut warnings: Vec<(String, ListWarning)> = Vec::new();
        let mut i: usize = 0;
        assert(warnings_view(warnings@) =~= list_warnings(os, entries@.take(0)));
        while i < entries.len()
            invariant
                i <= entries@.len(),
                metas@ == listed(os, entries@.take(i as int)),
                warnings_view(warnings@) == list_warnings(os, entries@.take(i as int)),
            decreases entries@.len() - i,
        {
            let e = &entries[i];
            let ghost w0 = warnings@;
            proof {
                assert(entries@.take(i + 1).drop_last() =~= entries@.take(i as int));
                assert(entries@.take(i + 1).last() == *e);
            }
            let mut warn: Option<ListWarning> = None;
            if !starts_with(e.name.as_str(), ".trash-") && e.is_dir {
                if !e.has_meta {
                    if e.has_manifest || e.has_upper {
                        warn = Some(ListWarning::NoMeta);
                    }
                } else {
                    match &e.meta {
                        None => {
                            warn = Some(ListWarning::Unreadable);
                        },
                        Some(m) => {
                            if is_single_component(os, m.id.as_str()) {
                                metas.push(copy_meta(m));
                            } else {
                                warn = Some(ListWarning::ForgedId);
                            }
                        },
                    }
                }
            }
            assert(warn == list_warning(os, *e));
            if let Some(w) = warn {
                warnings.push((e.name.clone(), w));
                assert(warnings_view(warnings@) =~= warnings_view(w0).push((e.name@, w)));
            }
            i = i + 1;
        }
        assert(entries@.take(entries@.len() as int) =~= entries@);
        let sorted = sort_metas(metas);
        proof {
            assert forall|i: int, j: int| 0 <= i < j < sorted@.len() implies (
            #[trigger] sorted@[i]).created_epoch <= (#[trigger] sorted@[j]).created_epoch && (
            sorted@[i].created_epoch == sorted@[j].created_epoch ==> !order::before(
                sorted@[j].id@,
                sorted@[i].id@,
            )) by {
                assert(!older(sorted@[j], sorted@[i]));
            }
        }
        Listing { metas: sorted, warnings }
    }

    /// Looks up a worktree by id or name. `probe` is what is found of the
    /// directory that `id_or_name` has as an id. The worktrees of the state
    /// root play a part only if that directory is none.
    pub fn resolve(
        &self,
        id_or_name: &str,
        probe: DirProbe,
        metas: &Vec<WorktreeMeta>,
    ) -> (r: Result<String, ResolveError>)
        ensures
            resolved_view(r) == resolved(
                self.host(),
                self.root_view(),
                id_or_name@,
                probe,
                state::metas_view(metas@),
            ),
            r matches Ok(d) ==> (path::whole(self.host(), self.root_view()) ==> inside_root(
                self.host(),
                d@,
                self.root_view(),
            )),
    {
        let os = self.os();
        proof {
            if path::whole(os, self.root_view()) {
                law_resolve_stays_inside(
                    os,
                    self.root_view(),
                    id_or_name@,
                    probe,
                    state::metas_view(metas@),
                );
            }
        }
        if !valid_id_or_name(os, id_or_name) {
            return Err(ResolveError::Invalid);
        }
        if probe.is_worktree() {
            return Ok(self.dir(id_or_name));
        }
        let mut hits: Vec<String> = Vec::new();
        let mut i: usize = 0;
        let ghost all = state::metas_view(metas@);
        assert(text::texts(hits@) =~= named(os, all.take(0), id_or_name@));
        while i < metas.len()
            invariant
                i <= metas@.len(),
                all == state::metas_view(metas@),
                text::texts(hits@) == named(os, all.take(i as int), id_or_name@),
            decreases metas@.len() - i,
        {
            let ghost h0 = hits@;
            proof {
                assert(all.take(i + 1).drop_last() =~= all.take(i as int));
                assert(all.take(i + 1).last() == metas@[i as int]@);
            }
            if has_name(&metas[i], id_or_name) && is_single_component(
                os,
                metas[i].id.as_str(),
            ) {
                hits.push(metas[i].id.clone());
                assert(text::texts(hits@) =~= text::texts(h0).push(metas@[i as int].id@));
            }
            i = i + 1;
        }
        assert(all.take(all.len() as int) =~= all);
        if hits.len() == 0 {
            Err(ResolveError::NotFound)
        } else if hits.len() == 1 {
            assert(text::texts(hits@)[0] == hits@[0]@);
            Ok(self.dir(hits[0].as_str()))
        } else {
            Err(ResolveError::Ambiguous(hits))
        }
    }

    /// Creates a worktree's directory, one step at a time. The directory is
    /// made exclusively, so an id is never given twice. A name must be one
    /// that can be looked up, must not be the name or the id of another
    /// worktree, and is checked again once the metadata is written, because a
    /// fork of the same name may have run at the same time. Where the name is
    /// refused or the directory cannot be filled, the directory is removed
    /// again.
    pub fn create(
        &self,
        meta: &WorktreeMeta,
        ask: CreateAsk,
        answer: CreateAnswer,
    ) -> (r: CreateAsk)
        requires
            create_fits(ask, answer),
        ensures
            create_step(self.host(), self.root_view(), meta@, ask, answer, r),
    {
        match ask {
            CreateAsk::MakeDir => match answer {
                CreateAnswer::Done => match &meta.name {
                    None => CreateAsk::Populate,
                    Some(n) => {
                        if valid_id_or_name(self.os(), n.as_str()) {
                            CreateAsk::ListBefore
                        } else {
                            CreateAsk::RemoveEmpty(CreateError::InvalidName)
                        }
                    },
                },
                CreateAnswer::Exists => CreateAsk::Stop(CreateError::IdExists),
                _ => CreateAsk::Stop(CreateError::Refused),
            },
            CreateAsk::ListBefore => match answer {
                CreateAnswer::Listed(metas) => match &meta.name {
                    Some(n) => {
                        if is_taken(&metas, n.as_str()) {
                            CreateAsk::RemoveEmpty(CreateError::NameTaken)
                        } else {
                            CreateAsk::Populate
                        }
                    },
                    None => CreateAsk::Populate,
                },
                _ => CreateAsk::Stop(CreateError::Refused),
            },
            CreateAsk::Populate => match answer {
                CreateAnswer::Done => match &meta.name {
                    Some(_) => CreateAsk::ListAfter,
                    None => CreateAsk::Finished(self.dir(meta.id.as_str())),
                },
                _ => CreateAsk::RemoveAll(CreateError::Refused),
            },
            CreateAsk::ListAfter => match answer {
                CreateAnswer::Listed(metas) => match &meta.name {
                    Some(n) => {
                        let ids = other_ids(&metas, meta.id.as_str(), n.as_str());
                        if ids.len() == 0 {
                            CreateAsk::Finished(self.dir(meta.id.as_str()))
                        } else {
                            CreateAsk::RemoveAll(CreateError::NameTakenBy(ids))
                        }
                    },
                    None => CreateAsk::Finished(self.dir(meta.id.as_str())),
                },
                _ => CreateAsk::Stop(CreateError::Refused),
            },
            CreateAsk::RemoveEmpty(e) => CreateAsk::Stop(e),
            CreateAsk::RemoveAll(e) => CreateAsk::Stop(e),
            other => other,
        }
    }
}

fn other_ids(metas: &Vec<WorktreeMeta>, own: &str, name: &str) -> (r: Vec<String>)
    ensures
        text::texts(r@) == rivals(state::metas_view(metas@), own@, name@),
{
    let mut ids: Vec<String> = Vec::new();
    let mut i: usize = 0;
    let ghost all = state::metas_view(metas@);
    assert(text::texts(ids@) =~= rivals(all.take(0), own@, name@));
    while i < metas.len()
        invariant
            i <= metas@.len(),
            all == state::metas_view(metas@),
            text::texts(ids@) == rivals(all.take(i as int), own@, name@),
        decreases metas@.len() - i,
    {
        let ghost d0 = ids@;
        proof {
            assert(all.take(i + 1).drop_last() =~= all.take(i as int));
            assert(all.take(i + 1).last() == metas@[i as int]@);
        }
        if !same(metas[i].id.as_str(), own) && has_name(&metas[i], name) {
            ids.push(metas[i].id.clone());
            assert(text::texts(ids@) =~= text::texts(d0).push(metas@[i as int].id@));
        }
        i = i + 1;
    }
    assert(all.take(all.len() as int) =~= all);
    ids
}

impl ListWarning {
    /// The text of the warning. `error` is what reading the metadata gave.
    pub open spec fn text(self, dir: Seq<char>, name: Seq<char>, error: Seq<char>) -> Seq<char> {
        match self {
            ListWarning::NoMeta => "cowt: warning: "@ + dir
                + " has no meta.json (interrupted fork or missing file); its isolated data is not listed. Use `cowt drop "@
                + name + " --force` to clean it up"@,
            ListWarning::Unreadable => "cowt: warning: unreadable meta.json in "@ + dir + " ("@
                + error + "); use `cowt drop "@ + name + " --force` to discard"@,
            ListWarning::ForgedId => "cowt: warning: meta.json in "@ + dir
                + " gives an id that is not a worktree's; use `cowt drop "@ + name
                + " --force` to discard"@,
        }
    }

    /// The text of the warning.
    pub fn message(self, dir: &str, name: &str, error: &str) -> (r: String)
        ensures
            r@ == self.text(dir@, name@, error@),
            r@ == match self {
                ListWarning::NoMeta => "cowt: warning: "@ + dir@
                    + " has no meta.json (interrupted fork or missing file); its isolated data is not listed. Use `cowt drop "@
                    + name@ + " --force` to clean it up"@,
                ListWarning::Unreadable => "cowt: warning: unreadable meta.json in "@ + dir@ + " ("@
                    + error@ + "); use `cowt drop "@ + name@ + " --force` to discard"@,
                ListWarning::ForgedId => "cowt: warning: meta.json in "@ + dir@
                    + " gives an id that is not a worktree's; use `cowt drop "@ + name@
                    + " --force` to discard"@,
            },
    {
        match self {
            ListWarning::NoMeta => cat5(
                "cowt: warning: ",
                dir,
                " has no meta.json (interrupted fork or missing file); its isolated data is not listed. Use `cowt drop ",
                name,
                " --force` to clean it up",
            ),
            ListWarning::Unreadable => cat5(
                "cowt: warning: unreadable meta.json in ",
                dir,
                " (",
                error,
                "); use `cowt drop ",
            ).concat(name).concat(" --force` to discard"),
            ListWarning::ForgedId => cat5(
                "cowt: warning: meta.json in ",
                dir,
                " gives an id that is not a worktree's; use `cowt drop ",
                name,
                " --force` to discard",
            ),
        }
    }
}

impl ResolveError {
    /// The text of the error.
    pub open spec fn text(self, asked: Seq<char>) -> Seq<char> {
        match self {
            ResolveError::Invalid => "invalid worktree id or name '"@ + asked + "'"@,
            ResolveError::NotFound => "no worktree named or identified by '"@ + asked + "'"@,
            ResolveError::Ambiguous(ids) => "name '"@ + asked + "' is ambiguous: "@ + text::join(
                text::texts(ids@),
                ", "@,
            ),
        }
    }

    /// The text of the error.
    pub fn message(&self, asked: &str) -> (r: String)
        ensures
            r@ == self.text(asked@),
            r@ == match *self {
                ResolveError::Invalid => "invalid worktree id or name '"@ + asked@ + "'"@,
                ResolveError::NotFound => "no worktree named or identified by '"@ + asked@ + "'"@,
                ResolveError::Ambiguous(ids) => "name '"@ + asked@ + "' is ambiguous: "@ + text::join(
                    text::texts(ids@),
                    ", "@,
                ),
            },
    {
        match self {
            ResolveError::Invalid => cat3("invalid worktree id or name '", asked, "'"),
            ResolveError::NotFound => cat3("no worktree named or identified by '", asked, "'"),
            ResolveError::Ambiguous(ids) => {
                let all = join_text(ids, ", ");
                cat4("name '", asked, "' is ambiguous: ", all.as_str())
            },
        }
    }
}

impl CreateError {
    /// The text of the error. That of the system is passed on as it is.
    pub open spec fn text(self, id: Seq<char>, name: Seq<char>, system: Seq<char>) -> Seq<char> {
        match self {
            CreateError::IdExists => "worktree '"@ + id + "' already exists"@,
            CreateError::InvalidName => "invalid worktree name '"@ + name
                + "' (must be a single path component)"@,
            CreateError::NameTaken => "a worktree named '"@ + name
                + "' already exists; pick a different --name"@,
            CreateError::NameTakenBy(ids) => "a worktree named '"@ + name
                + "' already exists (id "@ + text::join(text::texts(ids@), ", "@)
                + "); pick a different --name"@,
            CreateError::Refused => system,
        }
    }

    /// The text of the error.
    pub fn message(&self, id: &str, name: &str, system: &str) -> (r: String)
        ensures
            r@ == self.text(id@, name@, system@),
            r@ == match *self {
                CreateError::IdExists => "worktree '"@ + id@ + "' already exists"@,
                CreateError::InvalidName => "invalid worktree name '"@ + name@
                    + "' (must be a single path component)"@,
                CreateError::NameTaken => "a worktree named '"@ + name@
                    + "' already exists; pick a different --name"@,
                CreateError::NameTakenBy(ids) => "a worktree named '"@ + name@
                    + "' already exists (id "@ + text::join(text::texts(ids@), ", "@)
                    + "); pick a different --name"@,
                CreateError::Refused => system@,
            },
    {
        match self {
            CreateError::IdExists => cat3("worktree '", id, "' already exists"),
            CreateError::InvalidName => cat3(
                "invalid worktree name '",
                name,
                "' (must be a single path component)",
            ),
            CreateError::NameTaken => cat3(
                "a worktree named '",
                name,
                "' already exists; pick a different --name",
            ),
            CreateError::NameTakenBy(ids) => {
                let all = join_text(ids, ", ");
                cat5(
                    "a worktree named '",
                    name,
                    "' already exists (id ",
                    all.as_str(),
                    "); pick a different --name",
                )
            },
            CreateError::Refused => system.to_owned(),
        }
    }
}

/// The error for metadata that cannot be parsed: it says which worktree it is
/// and what to do. `dir` is the worktree's directory, `id` its last component.
pub fn load_meta_error(dir: &str, id: &str) -> (r: String)
    ensures
        r@ == "parse meta.json for "@ + dir@ + " (worktree "@ + id@ + "); use `cowt drop "@ + id@
            + " --force` to discard the damaged worktree"@,
{
    cat5("parse meta.json for ", dir, " (worktree ", id, "); use `cowt drop ").concat(id).concat(
        " --force` to discard the damaged worktree",
    )
}

} // verus!
