//! `list`, `status` and `doctor`: what is there, and how it is.

use vstd::prelude::*;
use crate::cli::Ending;
use crate::json;
use crate::json::{
    from_bool, from_list, from_members, from_number, from_text, no_members, optional_number,
    optional_text, pretty_text, put_member, Json,
};
use crate::number;
use crate::number::decimal_text;
use crate::state;
use crate::state::{json_file, sanitize_display, MetaView, Status, WorktreeMeta};
use crate::text;
use crate::text::{cat2, cat3, cat4, cat5, join_text, put, starts_with};

verus! {

/// The word for a worktree's status: what runs is running, whatever is stored.
pub open spec fn status_word(status: Status, running: bool) -> Seq<char> {
    if running {
        "running"@
    } else {
        match status {
            Status::Ready => "ready"@,
            Status::Applied => "applied"@,
        }
    }
}

/// The word for a worktree's status.
pub fn effective_status(status: Status, running: bool) -> (r: &'static str)
    ensures
        r@ == status_word(status, running),
        running ==> r@ == "running"@,
        !running && status is Ready ==> r@ == "ready"@,
        !running && status is Applied ==> r@ == "applied"@,
{
    if running {
        "running"
    } else {
        match status {
            Status::Ready => "ready",
            Status::Applied => "applied",
        }
    }
}

/// What runs is shown as running, whatever is stored of it; what does not run is
/// shown as it is stored. The three words are different, so that `running` is
/// shown of nothing that does not run.
pub proof fn law_running_is_shown(status: Status, running: bool)
    ensures
        running <==> status_word(status, running) == "running"@,
        !running && status is Ready <==> status_word(status, running) == "ready"@,
        !running && status is Applied <==> status_word(status, running) == "applied"@,
{
    reveal_strlit("running");
    reveal_strlit("ready");
    reveal_strlit("applied");
    assert("running"@.len() == 7 && "ready"@.len() == 5 && "applied"@.len() == 7);
    assert("running"@[0] != "applied"@[0]);
}

/// This many spaces.
pub open spec fn spaces(n: int) -> Seq<char>
    decreases n,
{
    if n <= 0 {
        Seq::empty()
    } else {
        spaces(n - 1).push(' ')
    }
}

/// A text, filled up with spaces to this many characters.
pub open spec fn padded(s: Seq<char>, width: int) -> Seq<char> {
    s + spaces(width - s.len())
}

/// What is filled up begins with the text, then has only spaces, and is as wide as
/// was asked for, or as the text where that is wider.
pub proof fn law_padded(s: Seq<char>, width: int)
    ensures
        s.is_prefix_of(padded(s, width)),
        padded(s, width).len() == if width > s.len() {
            width
        } else {
            s.len() as int
        },
        forall|i: int| s.len() <= i < padded(s, width).len() ==> #[trigger] padded(s, width)[i] == ' ',
{
    lemma_spaces(width - s.len());
    assert(s =~= padded(s, width).subrange(0, s.len() as int));
}

proof fn lemma_spaces(n: int)
    ensures
        spaces(n).len() == if n > 0 {
            n
        } else {
            0
        },
        forall|i: int| 0 <= i < spaces(n).len() ==> #[trigger] spaces(n)[i] == ' ',
    decreases n,
{
    if n > 0 {
        lemma_spaces(n - 1);
    }
}

/// A text, filled up with spaces to this many characters.
pub fn pad(s: &str, width: usize) -> (r: String)
    ensures
        r@ == padded(s@, width as int),
{
    let x = text::chars_of(s);
    let have: usize = x.len();
    let mut r = s.to_owned();
    let mut i: usize = have;
    assert(r@ =~= s@ + spaces(0));
    while i < width
        invariant
            have == s@.len(),
            have <= i,
            i <= width || i == have,
            r@ == s@ + spaces(i - have),
        decreases width - i,
    {
        r.push(' ');
        i = i + 1;
        assert(r@ =~= s@ + spaces(i - have));
    }
    assert(spaces(width - have) =~= spaces(i - have));
    r
}

/// A line of the table of worktrees.
pub open spec fn table_line(
    id: Seq<char>,
    name: Seq<char>,
    status: Seq<char>,
    backend: Seq<char>,
    target: Seq<char>,
) -> Seq<char> {
    padded(id, 10) + " "@ + padded(name, 20) + " "@ + padded(status, 9) + " "@ + padded(backend, 9)
        + " "@ + target
}

/// The line for a worktree.
pub open spec fn row_line(m: MetaView, running: bool) -> Seq<char> {
    table_line(
        state::shown(m.id),
        state::shown(
            match m.name {
                Some(n) => n,
                None => "-"@,
            },
        ),
        status_word(m.status, running),
        state::shown(m.backend),
        state::shown(m.target),
    )
}

fn table_text(id: &str, name: &str, status: &str, backend: &str, target: &str) -> (r: String)
    ensures
        r@ == table_line(id@, name@, status@, backend@, target@),
{
    let a = pad(id, 10);
    let b = pad(name, 20);
    let c = pad(status, 9);
    let d = pad(backend, 9);
    cat5(a.as_str(), " ", b.as_str(), " ", c.as_str()).concat(" ").concat(d.as_str()).concat(
        " ",
    ).concat(target)
}

fn row_text(m: &WorktreeMeta, running: bool) -> (r: String)
    ensures
        r@ == row_line(m@, running),
{
    let id = sanitize_display(m.id.as_str());
    let name = match &m.name {
        Some(n) => sanitize_display(n.as_str()),
        None => sanitize_display("-"),
    };
    let backend = sanitize_display(m.backend.as_str());
    let target = sanitize_display(m.target.as_str());
    table_text(
        id.as_str(),
        name.as_str(),
        effective_status(m.status, running),
        backend.as_str(),
        target.as_str(),
    )
}

/// The lines for the first `n` worktrees.
pub open spec fn row_lines(metas: Seq<WorktreeMeta>, running: Seq<bool>, n: int) -> Seq<Seq<char>>
    decreases n,
{
    if n <= 0 {
        Seq::empty()
    } else {
        row_lines(metas, running, n - 1).push(row_line(metas[n - 1]@, running[n - 1]))
    }
}

/// The list of worktrees, for people.
pub open spec fn list_text(
    root: Seq<char>,
    metas: Seq<WorktreeMeta>,
    running: Seq<bool>,
) -> Seq<Seq<char>> {
    if metas.len() == 0 {
        seq!["no worktrees (state root: "@ + state::shown(root) + ")"@]
    } else {
        seq![table_line("ID"@, "NAME"@, "STATUS"@, "BACKEND"@, "TARGET"@)] + row_lines(
            metas,
            running,
            metas.len() as int,
        )
    }
}

/// The list of worktrees, for people. `running` says of each whether a process
/// of it runs.
pub fn list(root: &str, metas: &Vec<WorktreeMeta>, running: &Vec<bool>) -> (r: Vec<String>)
    requires
        metas@.len() == running@.len(),
    ensures
        text::texts(r@) == list_text(root@, metas@, running@),
{
    let mut out: Vec<String> = Vec::new();
    if metas.len() == 0 {
        let shown = sanitize_display(root);
        put(&mut out, cat3("no worktrees (state root: ", shown.as_str(), ")"));
        assert(text::texts(out@) =~= list_text(root@, metas@, running@));
        return out;
    }
    put(&mut out, table_text("ID", "NAME", "STATUS", "BACKEND", "TARGET"));
    let ghost head = seq![table_line("ID"@, "NAME"@, "STATUS"@, "BACKEND"@, "TARGET"@)];
    let mut i: usize = 0;
    assert(text::texts(out@) =~= head + row_lines(metas@, running@, 0));
    while i < metas.len()
        invariant
            i <= metas@.len() == running@.len(),
            text::texts(out@) == head + row_lines(metas@, running@, i as int),
        decreases metas@.len() - i,
    {
        put(&mut out, row_text(&metas[i], running[i]));
        i = i + 1;
        assert(text::texts(out@) =~= head + row_lines(metas@, running@, i as int));
    }
    out
}

/// The list has a head and one line for each worktree, in their order. A line gives
/// the id, the name or a dash, the word for the status, the backend and the target,
/// each in its column. The word is `running` for what runs, else `ready` or
/// `applied`, as it is stored.
pub proof fn law_list_shows_every_worktree(
    root: Seq<char>,
    metas: Seq<WorktreeMeta>,
    running: Seq<bool>,
    i: int,
)
    requires
        metas.len() == running.len(),
    ensures
        metas.len() == 0 ==> list_text(root, metas, running) == seq![
            "no worktrees (state root: "@ + state::shown(root) + ")"@,
        ],
        metas.len() > 0 ==> list_text(root, metas, running).len() == 1 + metas.len() && list_text(
            root,
            metas,
            running,
        )[0] == padded("ID"@, 10) + " "@ + padded("NAME"@, 20) + " "@ + padded("STATUS"@, 9) + " "@
            + padded("BACKEND"@, 9) + " "@ + "TARGET"@,
        0 <= i < metas.len() ==> ({
            let m = metas[i]@;
            let name = if m.name is Some {
                m.name->0
            } else {
                "-"@
            };
            let word = if running[i] {
                "running"@
            } else if m.status is Applied {
                "applied"@
            } else {
                "ready"@
            };
            list_text(root, metas, running)[1 + i] == padded(state::shown(m.id), 10) + " "@
                + padded(state::shown(name), 20) + " "@ + padded(word, 9) + " "@ + padded(
                state::shown(m.backend),
                9,
            ) + " "@ + state::shown(m.target)
        }),
{
    lemma_row_lines(metas, running, metas.len() as int, i);
}

proof fn lemma_row_lines(metas: Seq<WorktreeMeta>, running: Seq<bool>, n: int, i: int)
    requires
        0 <= n <= metas.len() == running.len(),
    ensures
        row_lines(metas, running, n).len() == n,
        0 <= i < n ==> row_lines(metas, running, n)[i] == row_line(metas[i]@, running[i]),
    decreases n,
{
    if n > 0 {
        lemma_row_lines(metas, running, n - 1, i);
    }
}

/// What a program reads of a worktree, in the list and alone: its id, name, target,
/// backend and time as they are stored, and the word for its status, which is
/// `running` for what runs, else `ready` or `applied`.
pub proof fn law_programs_read_the_status(m: MetaView, running: bool)
    ensures
        row_object(m, running) matches Json::Object(o) && o["id"@] == Json::Text(m.id) && o["target"@]
            == Json::Text(m.target) && o["backend"@] == Json::Text(m.backend) && o["created_epoch"@]
            == Json::Number(m.created_epoch as int) && o["name"@] == (if m.name is Some {
            Json::Text(m.name->0)
        } else {
            Json::Null
        }) && o["status"@] == Json::Text(
            if running {
                "running"@
            } else if m.status is Applied {
                "applied"@
            } else {
                "ready"@
            },
        ) && o.dom() == set![
            "id"@,
            "name"@,
            "target"@,
            "status"@,
            "backend"@,
            "created_epoch"@,
        ],
{
    lemma_names_differ();
    let o = row_object(m, running)->Object_0;
    assert(o.dom() =~= set!["id"@, "name"@, "target"@, "status"@, "backend"@, "created_epoch"@]);
}

/// The names of members are different.
proof fn lemma_names_differ()
    ensures
        forall|i: int, j: int|
            0 <= i < j < member_names().len() ==> member_names()[i] != member_names()[j],
        member_names()[0] == "id"@,
        member_names()[1] == "name"@,
        member_names()[2] == "target"@,
        member_names()[3] == "status"@,
        member_names()[4] == "backend"@,
        member_names()[5] == "created_epoch"@,
        member_names()[6] == "running_pid"@,
        member_names()[7] == "upper_bytes"@,
        member_names()[8] == "upper_missing"@,
        member_names()[9] == "manifest_ok"@,
        member_names()[10] == "target_missing"@,
        member_names()[11] == "state_dir"@,
        member_names().len() == 12,
{
    reveal_strlit("id");
    reveal_strlit("name");
    reveal_strlit("target");
    reveal_strlit("status");
    reveal_strlit("backend");
    reveal_strlit("created_epoch");
    reveal_strlit("running_pid");
    reveal_strlit("upper_bytes");
    reveal_strlit("upper_missing");
    reveal_strlit("manifest_ok");
    reveal_strlit("target_missing");
    reveal_strlit("state_dir");
    let v = member_names();
    assert(v[0].len() == 2 && v[1].len() == 4 && v[2].len() == 6 && v[3].len() == 6 && v[4].len()
        == 7 && v[5].len() == 13 && v[6].len() == 11 && v[7].len() == 11 && v[8].len() == 13
        && v[9].len() == 11 && v[10].len() == 14 && v[11].len() == 9);
    assert(v[2][0] == 't' && v[3][0] == 's');
    assert(v[5][0] == 'c' && v[8][0] == 'u');
    assert(v[6][0] == 'r' && v[7][0] == 'u' && v[9][0] == 'm');
}

spec fn member_names() -> Seq<Seq<char>> {
    seq![
        "id"@,
        "name"@,
        "target"@,
        "status"@,
        "backend"@,
        "created_epoch"@,
        "running_pid"@,
        "upper_bytes"@,
        "upper_missing"@,
        "manifest_ok"@,
        "target_missing"@,
        "state_dir"@,
    ]
}

/// A worktree in the list, for programs.
pub open spec fn row_object(m: MetaView, running: bool) -> Json {
    Json::Object(
        map![
            "id"@ => Json::Text(m.id),
            "name"@ => json::text_or_null(m.name),
            "target"@ => Json::Text(m.target),
            "status"@ => Json::Text(status_word(m.status, running)),
            "backend"@ => Json::Text(m.backend),
            "created_epoch"@ => Json::Number(m.created_epoch as int),
        ],
    )
}

/// A worktree in the list, for programs.
pub fn row_json(m: &WorktreeMeta, running: bool) -> (r: serde_json::Value)
    ensures
        json::json_of(r) == row_object(m@, running),
{
    let mut o = no_members();
    put_member(&mut o, "id", from_text(m.id.as_str()));
    put_member(&mut o, "name", optional_text(&m.name));
    put_member(&mut o, "target", from_text(m.target.as_str()));
    put_member(&mut o, "status", from_text(effective_status(m.status, running)));
    put_member(&mut o, "backend", from_text(m.backend.as_str()));
    put_member(&mut o, "created_epoch", from_number(m.created_epoch));
    from_members(o)
}

/// The list of worktrees, for programs.
pub open spec fn list_array(metas: Seq<WorktreeMeta>, running: Seq<bool>) -> Json {
    Json::List(Seq::new(metas.len(), |i: int| row_object(metas[i]@, running[i])))
}

/// The list of worktrees, for programs.
pub fn rows_json(metas: &Vec<WorktreeMeta>, running: &Vec<bool>) -> (r: serde_json::Value)
    requires
        metas@.len() == running@.len(),
    ensures
        json::json_of(r) == list_array(metas@, running@),
{
    let mut rows: Vec<serde_json::Value> = Vec::new();
    let mut i: usize = 0;
    while i < metas.len()
        invariant
            i <= metas@.len() == running@.len(),
            rows@.len() == i,
            forall|j: int|
                0 <= j < i ==> json::json_of(#[trigger] rows@[j]) == row_object(
                    metas@[j]@,
                    running@[j],
                ),
        decreases metas@.len() - i,
    {
        rows.push(row_json(&metas[i], running[i]));
        i = i + 1;
    }
    let ghost built = rows@.map_values(|x: serde_json::Value| json::json_of(x));
    assert(built =~= Seq::new(metas@.len(), |i: int| row_object(metas@[i]@, running@[i])));
    from_list(rows)
}

/// The list of worktrees, for programs, as text.
pub fn list_json(metas: &Vec<WorktreeMeta>, running: &Vec<bool>) -> (r: String)
    requires
        metas@.len() == running@.len(),
    ensures
        r@ == json::pretty(list_array(metas@, running@)),
{
    pretty_text(&rows_json(metas, running))
}

// ------------------------------------------------------------------- status

/// What is found of a worktree.
#[derive(Debug)]
pub struct StatusFacts {
    pub running: Option<u32>,
    pub manifest_ok: bool,
    pub target_missing: bool,
    pub upper_missing: bool,
    /// The size of the layer, where it can be measured.
    pub upper_bytes: Option<u64>,
    pub dir: String,
    /// Where the worktree would hold the host directory.
    pub aside: String,
}

/// The lines about a worktree, for people.
pub open spec fn status_text(m: MetaView, f: StatusFacts) -> Seq<Seq<char>> {
    let id = seq!["id:        "@ + state::shown(m.id)];
    let name = match m.name {
        Some(n) => seq!["name:      "@ + state::shown(n)],
        None => Seq::empty(),
    };
    let middle = seq![
        "target:    "@ + state::shown(m.target),
        "created:   "@ + number::decimal(m.created_epoch as nat),
        "status:    "@ + status_word(m.status, f.running is Some),
        "backend:   "@ + state::shown(m.backend),
    ];
    let running = match f.running {
        Some(p) => seq!["running:   pid "@ + number::decimal(p as nat)],
        None => Seq::empty(),
    };
    let upper = match f.upper_bytes {
        Some(n) => if f.upper_missing {
            "upper:     MISSING (will be recreated on next run)"@
        } else {
            "upper:     "@ + number::decimal(n as nat) + " bytes of isolated data"@
        },
        None => "upper:     unknown (unreadable)"@,
    };
    id + name + middle + running + seq![upper, "state:     "@ + state::shown(f.dir@)]
}

/// The lines about a worktree, for people.
pub fn status(m: &WorktreeMeta, f: &StatusFacts) -> (r: Vec<String>)
    ensures
        text::texts(r@) == status_text(m@, *f),
{
    let mut out: Vec<String> = Vec::new();
    let id = sanitize_display(m.id.as_str());
    put(&mut out, cat2("id:        ", id.as_str()));
    if let Some(n) = &m.name {
        let name = sanitize_display(n.as_str());
        put(&mut out, cat2("name:      ", name.as_str()));
    }
    let target = sanitize_display(m.target.as_str());
    put(&mut out, cat2("target:    ", target.as_str()));
    let created = decimal_text(m.created_epoch as u128);
    put(&mut out, cat2("created:   ", created.as_str()));
    let running = match f.running {
        Some(_) => true,
        None => false,
    };
    put(&mut out, cat2("status:    ", effective_status(m.status, running)));
    let backend = sanitize_display(m.backend.as_str());
    put(&mut out, cat2("backend:   ", backend.as_str()));
    if let Some(p) = f.running {
        let pid = decimal_text(p as u128);
        put(&mut out, cat2("running:   pid ", pid.as_str()));
    }
    match f.upper_bytes {
        Some(n) => {
            if f.upper_missing {
                put(&mut out, "upper:     MISSING (will be recreated on next run)".to_owned());
            } else {
                let size = decimal_text(n as u128);
                put(&mut out, cat3("upper:     ", size.as_str(), " bytes of isolated data"));
            }
        },
        None => {
            put(&mut out, "upper:     unknown (unreadable)".to_owned());
        },
    }
    let dir = sanitize_display(f.dir.as_str());
    put(&mut out, cat2("state:     ", dir.as_str()));
    assert(text::texts(out@) =~= status_text(m@, *f));
    out
}

/// What `status` shows of a worktree, line by line. The pid is shown exactly where a
/// process runs, and then the status is `running`; else it is as it is stored. The
/// size of the layer is shown where it is there and could be measured.
pub proof fn law_status_shows_the_worktree(m: MetaView, f: StatusFacts)
    ensures
        ({
            let t = status_text(m, f);
            let k: int = if m.name is Some {
                1
            } else {
                0
            };
            let r: int = if f.running is Some {
                1
            } else {
                0
            };
            &&& t.len() == 7 + k + r
            &&& t[0] == "id:        "@ + state::shown(m.id)
            &&& m.name matches Some(n) ==> t[1] == "name:      "@ + state::shown(n)
            &&& t[1 + k] == "target:    "@ + state::shown(m.target)
            &&& t[2 + k] == "created:   "@ + number::decimal(m.created_epoch as nat)
            &&& t[3 + k] == "status:    "@ + if f.running is Some {
                "running"@
            } else if m.status is Applied {
                "applied"@
            } else {
                "ready"@
            }
            &&& t[4 + k] == "backend:   "@ + state::shown(m.backend)
            &&& f.running matches Some(pid) ==> t[5 + k] == "running:   pid "@ + number::decimal(
                pid as nat,
            )
            &&& t[5 + k + r] == if f.upper_bytes is None {
                "upper:     unknown (unreadable)"@
            } else if f.upper_missing {
                "upper:     MISSING (will be recreated on next run)"@
            } else {
                "upper:     "@ + number::decimal(f.upper_bytes->0 as nat)
                    + " bytes of isolated data"@
            }
            &&& t[6 + k + r] == "state:     "@ + state::shown(f.dir@)
        }),
{
}

/// What a program reads of one worktree: what it reads in the list, and the pid of
/// the process that runs, the size of the layer, what is missing or damaged, and
/// where the state is.
pub proof fn law_programs_read_one_worktree(m: MetaView, f: StatusFacts)
    ensures
        status_object(m, f) matches Json::Object(o) && o["id"@] == Json::Text(m.id) && o["target"@]
            == Json::Text(m.target) && o["backend"@] == Json::Text(m.backend) && o["created_epoch"@]
            == Json::Number(m.created_epoch as int) && o["name"@] == (if m.name is Some {
            Json::Text(m.name->0)
        } else {
            Json::Null
        }) && o["status"@] == Json::Text(
            if f.running is Some {
                "running"@
            } else if m.status is Applied {
                "applied"@
            } else {
                "ready"@
            },
        ) && o["running_pid"@] == (if f.running is Some {
            Json::Number(f.running->0 as int)
        } else {
            Json::Null
        }) && o["upper_bytes"@] == (if f.upper_bytes is Some {
            Json::Number(f.upper_bytes->0 as int)
        } else {
            Json::Null
        }) && o["upper_missing"@] == Json::Bool(f.upper_missing) && o["manifest_ok"@] == Json::Bool(
            f.manifest_ok,
        ) && o["target_missing"@] == Json::Bool(f.target_missing) && o["state_dir"@] == Json::Text(
            f.dir@,
        ),
{
    lemma_names_differ();
    let v = member_names();
    assert(v[0] != v[3] && v[0] != v[1]);
}

/// A worktree, for programs.
pub open spec fn status_object(m: MetaView, f: StatusFacts) -> Json {
    Json::Object(
        map![
            "id"@ => Json::Text(m.id),
            "name"@ => json::text_or_null(m.name),
            "target"@ => Json::Text(m.target),
            "created_epoch"@ => Json::Number(m.created_epoch as int),
            "status"@ => Json::Text(status_word(m.status, f.running is Some)),
            "backend"@ => Json::Text(m.backend),
            "running_pid"@ => json::number_or_null(
                match f.running {
                    Some(p) => Some(p as int),
                    None => None,
                },
            ),
            "upper_bytes"@ => json::number_or_null(
                match f.upper_bytes {
                    Some(n) => Some(n as int),
                    None => None,
                },
            ),
            "upper_missing"@ => Json::Bool(f.upper_missing),
            "manifest_ok"@ => Json::Bool(f.manifest_ok),
            "target_missing"@ => Json::Bool(f.target_missing),
            "state_dir"@ => Json::Text(f.dir@),
        ],
    )
}

/// A worktree, for programs.
pub fn status_value(m: &WorktreeMeta, f: &StatusFacts) -> (r: serde_json::Value)
    ensures
        json::json_of(r) == status_object(m@, *f),
{
    let running = match f.running {
        Some(_) => true,
        None => false,
    };
    let pid = match f.running {
        Some(p) => Some(p as u64),
        None => None,
    };
    let mut o = no_members();
    put_member(&mut o, "id", from_text(m.id.as_str()));
    put_member(&mut o, "name", optional_text(&m.name));
    put_member(&mut o, "target", from_text(m.target.as_str()));
    put_member(&mut o, "created_epoch", from_number(m.created_epoch));
    put_member(&mut o, "status", from_text(effective_status(m.status, running)));
    put_member(&mut o, "backend", from_text(m.backend.as_str()));
    put_member(&mut o, "running_pid", optional_number(pid));
    put_member(&mut o, "upper_bytes", optional_number(f.upper_bytes));
    put_member(&mut o, "upper_missing", from_bool(f.upper_missing));
    put_member(&mut o, "manifest_ok", from_bool(f.manifest_ok));
    put_member(&mut o, "target_missing", from_bool(f.target_missing));
    put_member(&mut o, "state_dir", from_text(f.dir.as_str()));
    from_members(o)
}

/// A worktree, for programs, as text.
pub fn status_json(m: &WorktreeMeta, f: &StatusFacts) -> (r: String)
    ensures
        r@ == json::pretty(status_object(m@, *f)),
{
    pretty_text(&status_value(m, f))
}

/// The warnings about a worktree: damage that other commands would run into.
pub open spec fn status_warnings_text(m: MetaView, f: StatusFacts) -> Seq<Seq<char>> {
    let first = if f.manifest_ok {
        Seq::empty()
    } else {
        seq![
            "cowt: warning: "@ + state::json_name("manifest"@) + " for worktree "@ + state::shown(m.id)
                + " is corrupted or unreadable; diff/apply will refuse to run. Restore the manifest from a backup, or `cowt drop "@
                + state::shown(m.id) + " --force` to discard the worktree"@,
        ]
    };
    let second = if f.target_missing {
        seq![
            "cowt: warning: target directory "@ + state::shown(m.target)
                + " does not exist; if a crashed run moved it aside, run any command to restore it, or check "@
                + state::shown(f.aside@),
        ]
    } else {
        Seq::empty()
    };
    first + second
}

/// A worktree is warned about exactly where its manifest cannot be read, and where
/// its target is missing; each has a warning of its own, in this order, which names
/// the worktree or the target.
pub proof fn law_damage_is_warned_of(m: MetaView, f: StatusFacts)
    ensures
        ({
            let t = status_warnings_text(m, f);
            let a: int = if f.manifest_ok {
                0
            } else {
                1
            };
            let b: int = if f.target_missing {
                1
            } else {
                0
            };
            &&& t.len() == a + b
            &&& !f.manifest_ok ==> t[0] == "cowt: warning: "@ + state::json_name("manifest"@)
                + " for worktree "@ + state::shown(m.id)
                + " is corrupted or unreadable; diff/apply will refuse to run. Restore the manifest from a backup, or `cowt drop "@
                + state::shown(m.id) + " --force` to discard the worktree"@
            &&& f.target_missing ==> t[a] == "cowt: warning: target directory "@ + state::shown(
                m.target,
            )
                + " does not exist; if a crashed run moved it aside, run any command to restore it, or check "@
                + state::shown(f.aside@)
        }),
{
}

/// The warnings about a worktree.
pub fn status_warnings(m: &WorktreeMeta, f: &StatusFacts) -> (r: Vec<String>)
    ensures
        text::texts(r@) == status_warnings_text(m@, *f),
{
    let mut out: Vec<String> = Vec::new();
    if !f.manifest_ok {
        let id = sanitize_display(m.id.as_str());
        put(
            &mut out,
            cat5(
                "cowt: warning: ",
                json_file("manifest").as_str(),
                " for worktree ",
                id.as_str(),
                " is corrupted or unreadable; diff/apply will refuse to run. Restore the manifest from a backup, or `cowt drop ",
            ).concat(id.as_str()).concat(" --force` to discard the worktree"),
        );
    }
    if f.target_missing {
        let target = sanitize_display(m.target.as_str());
        let aside = sanitize_display(f.aside.as_str());
        put(
            &mut out,
            cat4(
                "cowt: warning: target directory ",
                target.as_str(),
                " does not exist; if a crashed run moved it aside, run any command to restore it, or check ",
                aside.as_str(),
            ),
        );
    }
    assert(text::texts(out@) =~= status_warnings_text(m@, *f));
    out
}

/// The sum of these sizes.
pub open spec fn total(sizes: Seq<u64>) -> int
    decreases sizes.len(),
{
    if sizes.len() == 0 {
        0
    } else {
        total(sizes.drop_last()) + sizes.last()
    }
}

/// A sum does not depend on how the sizes are put together: it is 0 for none, the
/// size for one, and for two lists the sum of both.
pub proof fn law_total(a: Seq<u64>, b: Seq<u64>, n: u64)
    ensures
        total(Seq::<u64>::empty()) == 0,
        total(seq![n]) == n,
        total(a + b) == total(a) + total(b),
    decreases b.len(),
{
    assert(seq![n].drop_last() =~= Seq::<u64>::empty());
    if b.len() > 0 {
        law_total(a, b.drop_last(), n);
        assert((a + b).drop_last() =~= a + b.drop_last());
        assert((a + b).last() == b.last());
    } else {
        assert(a + b =~= a);
    }
}

/// The size of a directory: the sum of the sizes of what is in it; none where
/// that is more than can be counted.
pub fn dir_size(sizes: &Vec<u64>) -> (r: Option<u64>)
    ensures
        match r {
            Some(n) => n == total(sizes@),
            None => total(sizes@) > u64::MAX,
        },
{
    let mut sum: u64 = 0;
    let mut i: usize = 0;
    assert(sizes@.take(0) =~= Seq::<u64>::empty());
    while i < sizes.len()
        invariant
            i <= sizes@.len(),
            sum == total(sizes@.take(i as int)),
        decreases sizes@.len() - i,
    {
        proof {
            assert(sizes@.take(i + 1).drop_last() =~= sizes@.take(i as int));
            assert(sizes@.take(i + 1).last() == sizes@[i as int]);
        }
        match sum.checked_add(sizes[i]) {
            Some(s) => {
                sum = s;
            },
            None => {
                proof {
                    lemma_total_grows(sizes@, i + 1);
                }
                return None;
            },
        }
        i = i + 1;
    }
    assert(sizes@.take(sizes@.len() as int) =~= sizes@);
    Some(sum)
}

proof fn lemma_total_grows(sizes: Seq<u64>, n: int)
    requires
        0 <= n <= sizes.len(),
    ensures
        total(sizes.take(n)) <= total(sizes),
    decreases sizes.len() - n,
{
    if n == sizes.len() {
        assert(sizes.take(n) =~= sizes);
    } else {
        lemma_total_grows(sizes, n + 1);
        assert(sizes.take(n + 1).drop_last() =~= sizes.take(n));
    }
}

// ------------------------------------------------------------------- doctor

/// What `doctor` finds of a worktree.
#[derive(Clone, Copy, Debug, PartialEq, Eq, Structural)]
pub struct Health {
    pub manifest_ok: bool,
    pub target_is_dir: bool,
    pub real_exists: bool,
    pub running: bool,
    pub stale_run: bool,
    pub upper_exists: bool,
}

/// What is wrong with a worktree.
pub open spec fn issues(h: Health) -> Seq<Seq<char>> {
    let a = if h.manifest_ok {
        Seq::empty()
    } else {
        seq!["manifest corrupted"@]
    };
    let b = if h.target_is_dir {
        Seq::empty()
    } else if h.real_exists {
        seq!["target missing but real/ present (crash strand; auto-restorable)"@]
    } else {
        seq!["target missing (externally deleted?)"@]
    };
    let c = if h.running {
        seq!["running"@]
    } else if h.stale_run {
        seq!["stale pidfile (self-heals on next run)"@]
    } else {
        Seq::empty()
    };
    let d = if h.upper_exists {
        Seq::empty()
    } else {
        seq!["upper missing (recreated on next run)"@]
    };
    a + b + c + d
}

/// Each fault of a worktree is reported where it is there, and nowhere else, in this
/// order: the manifest, the target, a process or what one left, the layer.
pub proof fn law_faults_are_reported(h: Health)
    ensures
        ({
            let t = issues(h);
            let a: int = if h.manifest_ok {
                0
            } else {
                1
            };
            let b: int = if h.target_is_dir {
                0
            } else {
                1
            };
            let c: int = if h.running || h.stale_run {
                1
            } else {
                0
            };
            let d: int = if h.upper_exists {
                0
            } else {
                1
            };
            &&& t.len() == a + b + c + d
            &&& !h.manifest_ok ==> t[0] == "manifest corrupted"@
            &&& !h.target_is_dir && h.real_exists ==> t[a]
                == "target missing but real/ present (crash strand; auto-restorable)"@
            &&& !h.target_is_dir && !h.real_exists ==> t[a] == "target missing (externally deleted?)"@
            &&& h.running ==> t[a + b] == "running"@
            &&& !h.running && h.stale_run ==> t[a + b] == "stale pidfile (self-heals on next run)"@
            &&& !h.upper_exists ==> t[a + b + c] == "upper missing (recreated on next run)"@
        }),
{
}

/// What is wrong with a worktree.
pub fn doctor_worktree_issues(h: Health) -> (r: Vec<String>)
    ensures
        text::texts(r@) == issues(h),
{
    let mut out: Vec<String> = Vec::new();
    if !h.manifest_ok {
        put(&mut out, "manifest corrupted".to_owned());
    }
    if !h.target_is_dir {
        if h.real_exists {
            put(
                &mut out,
                "target missing but real/ present (crash strand; auto-restorable)".to_owned(),
            );
        } else {
            put(&mut out, "target missing (externally deleted?)".to_owned());
        }
    }
    if h.running {
        put(&mut out, "running".to_owned());
    } else if h.stale_run {
        put(&mut out, "stale pidfile (self-heals on next run)".to_owned());
    }
    if !h.upper_exists {
        put(&mut out, "upper missing (recreated on next run)".to_owned());
    }
    assert(text::texts(out@) =~= issues(h));
    out
}

/// The places where leftovers are looked for.
#[derive(Clone, Copy, Debug, PartialEq, Eq, Structural)]
pub enum Place {
    StateRoot,
    BesideTarget,
    Layer,
}

/// What is said of an entry that is a leftover.
pub open spec fn leftover(place: Place, name: Seq<char>) -> Option<Seq<char>> {
    match place {
        Place::StateRoot => if ".trash-"@.is_prefix_of(name) {
            Some(
                name
                    + " (leftover drop; cleaned by the next drop, or manually if it holds no real/)"@,
            )
        } else if text::find_from(name, "json.tmp-"@, 0) is Some {
            Some(name + " (crashed write; cleaned by the next write)"@)
        } else {
            None
        },
        Place::BesideTarget => if ".cowt-apply-"@.is_prefix_of(name) {
            Some(name + " (crashed apply staging; cleaned by the next apply)"@)
        } else {
            None
        },
        Place::Layer => if ".cowt-copy-tmp."@.is_prefix_of(name) {
            Some(name + " (crashed copy-up; ignored by diff, safe to delete)"@)
        } else {
            None
        },
    }
}

/// What is said of the leftovers among these entries.
pub open spec fn leftovers(place: Place, names: Seq<Seq<char>>) -> Seq<Seq<char>>
    decreases names.len(),
{
    if names.len() == 0 {
        Seq::empty()
    } else {
        match leftover(place, names.last()) {
            Some(l) => leftovers(place, names.drop_last()).push(l),
            None => leftovers(place, names.drop_last()),
        }
    }
}

/// An entry counts as a leftover by its name alone: in the state root one that
/// begins with `.trash-` or holds `json.tmp-`, beside a target one that begins with
/// `.cowt-apply-`, and in a layer one that begins with `.cowt-copy-tmp.`. What is
/// said of it begins with its name.
pub proof fn law_leftovers_by_name(place: Place, name: Seq<char>)
    ensures
        leftover(place, name) is Some <==> match place {
            Place::StateRoot => ".trash-"@.is_prefix_of(name) || exists|k: int|
                #[trigger] text::stands_at(name, "json.tmp-"@, k),
            Place::BesideTarget => ".cowt-apply-"@.is_prefix_of(name),
            Place::Layer => ".cowt-copy-tmp."@.is_prefix_of(name),
        },
        leftover(place, name) matches Some(l) ==> name.is_prefix_of(l),
{
    text::lemma_find_from(name, "json.tmp-"@, 0);
    if let Some(l) = leftover(place, name) {
        assert(name =~= l.subrange(0, name.len() as int));
    }
}

/// Every leftover among the entries is reported, in their order, and nothing else:
/// the report of a list is that of its first part and then that of the rest, and
/// one entry is reported as it is.
pub proof fn law_every_leftover_is_reported(
    place: Place,
    a: Seq<Seq<char>>,
    b: Seq<Seq<char>>,
    name: Seq<char>,
)
    ensures
        leftovers(place, a + b) == leftovers(place, a) + leftovers(place, b),
        leftovers(place, seq![name]) == if leftover(place, name) is Some {
            seq![leftover(place, name)->0]
        } else {
            Seq::empty()
        },
    decreases b.len(),
{
    assert(seq![name].drop_last() =~= Seq::<Seq<char>>::empty());
    assert(seq![name].last() == name);
    assert(leftovers(place, Seq::<Seq<char>>::empty()) =~= Seq::<Seq<char>>::empty());
    assert(leftovers(place, seq![name]) =~= if leftover(place, name) is Some {
        seq![leftover(place, name)->0]
    } else {
        Seq::empty()
    });
    if b.len() > 0 {
        law_every_leftover_is_reported(place, a, b.drop_last(), name);
        assert((a + b).drop_last() =~= a + b.drop_last());
        assert((a + b).last() == b.last());
    } else {
        assert(a + b =~= a);
    }
    assert(leftovers(place, a + b) =~= leftovers(place, a) + leftovers(place, b));
}

fn leftover_text(place: Place, name: &str) -> (r: Option<String>)
    ensures
        text::opt_text(r) == leftover(place, name@),
{
    match place {
        Place::StateRoot => {
            if starts_with(name, ".trash-") {
                Some(
                    cat2(
                        name,
                        " (leftover drop; cleaned by the next drop, or manually if it holds no real/)",
                    ),
                )
            } else {
                match text::find_text(name, "json.tmp-") {
                    Some(_) => Some(cat2(name, " (crashed write; cleaned by the next write)")),
                    None => None,
                }
            }
        },
        Place::BesideTarget => {
            if starts_with(name, ".cowt-apply-") {
                Some(cat2(name, " (crashed apply staging; cleaned by the next apply)"))
            } else {
                None
            }
        },
        Place::Layer => {
            if starts_with(name, ".cowt-copy-tmp.") {
                Some(cat2(name, " (crashed copy-up; ignored by diff, safe to delete)"))
            } else {
                None
            }
        },
    }
}

/// Adds what is said of the leftovers among these entries. Nothing is deleted.
pub fn doctor_residue(out: &mut Vec<String>, place: Place, names: &Vec<String>)
    ensures
        text::texts(final(out)@) == text::texts(old(out)@) + leftovers(place, text::texts(names@)),
{
    let ghost start = text::texts(out@);
    let ghost all = text::texts(names@);
    let mut i: usize = 0;
    assert(text::texts(out@) =~= start + leftovers(place, all.take(0)));
    while i < names.len()
        invariant
            i <= names@.len(),
            all == text::texts(names@),
            text::texts(out@) == start + leftovers(place, all.take(i as int)),
        decreases names@.len() - i,
    {
        proof {
            assert(all.take(i + 1).drop_last() =~= all.take(i as int));
            assert(all.take(i + 1).last() == names@[i as int]@);
        }
        if let Some(l) = leftover_text(place, names[i].as_str()) {
            put(out, l);
        }
        i = i + 1;
        assert(text::texts(out@) =~= start + leftovers(place, all.take(i as int)));
    }
    assert(all.take(all.len() as int) =~= all);
}

/// A worktree in the report of `doctor`.
#[derive(Debug)]
pub struct Checkup {
    pub id: String,
    pub health: Health,
}

/// The line for a worktree.
pub open spec fn checkup_line(c: Checkup) -> Seq<char> {
    if issues(c.health).len() == 0 {
        "  "@ + state::shown(c.id@) + ": ok"@
    } else {
        "  "@ + state::shown(c.id@) + ": WARN ("@ + text::join(issues(c.health), "; "@) + ")"@
    }
}

/// What `doctor` could read of the state.
#[derive(Debug)]
pub enum Seen {
    /// The state root cannot be opened; this is why.
    NoRoot(String),
    /// The worktrees in this root cannot be listed; this is why.
    NoList { root: String, why: String },
    /// The worktrees in this root, and what crashed commands left.
    Listed { root: String, worktrees: Vec<Checkup>, residue: Vec<String> },
}

/// The first three lines of `doctor`, which scripts look for: the backend,
/// whether it can be used, and the state root. `unavailable` is why the backend
/// cannot be used, if it cannot.
pub open spec fn doctor_head(
    backend: Seq<char>,
    unavailable: Option<Seq<char>>,
    seen: Seen,
) -> Seq<Seq<char>> {
    seq![
        "backend:   "@ + backend,
        match unavailable {
            None => "available: yes"@,
            Some(e) => "available: NO ("@ + e + ")"@,
        },
        "state:     "@ + match seen {
            Seen::NoRoot(why) => "unknown ("@ + state::shown(why@) + ")"@,
            Seen::NoList { root, why } => state::shown(root@),
            Seen::Listed { root, worktrees, residue } => state::shown(root@),
        },
    ]
}

/// The lines about each worktree.
pub open spec fn checkup_lines(worktrees: Seq<Checkup>) -> Seq<Seq<char>> {
    if worktrees.len() == 0 {
        seq!["worktrees: 0 (nothing to check)"@]
    } else {
        seq!["worktrees: "@ + number::decimal(worktrees.len()) + " found"@] + worktrees.map_values(
            |c: Checkup| checkup_line(c),
        )
    }
}

/// The lines about what crashed commands left.
pub open spec fn residue_lines(residue: Seq<Seq<char>>) -> Seq<Seq<char>> {
    if residue.len() == 0 {
        seq!["residue:   none"@]
    } else {
        residue.map_values(|r: Seq<char>| "residue:   "@ + r)
    }
}

/// The report of `doctor`: the three lines that scripts look for, always in
/// this order and before everything else; then each worktree; then what crashed
/// commands left. Where the state cannot be read, the report says so.
pub open spec fn doctor_text(
    backend: Seq<char>,
    unavailable: Option<Seq<char>>,
    seen: Seen,
) -> Seq<Seq<char>> {
    doctor_head(backend, unavailable, seen) + match seen {
        Seen::NoRoot(why) => Seq::empty(),
        Seen::NoList { root, why } => seq!["worktrees: unknown ("@ + state::shown(why@) + ")"@],
        Seen::Listed { root, worktrees, residue } => checkup_lines(worktrees@) + residue_lines(
            text::texts(residue@),
        ),
    }
}

fn checkup_text(c: &Checkup) -> (r: String)
    ensures
        r@ == checkup_line(*c),
{
    let id = sanitize_display(c.id.as_str());
    let found = doctor_worktree_issues(c.health);
    assert(found@.len() == issues(c.health).len());
    if found.len() == 0 {
        cat3("  ", id.as_str(), ": ok")
    } else {
        let all = join_text(&found, "; ");
        cat5("  ", id.as_str(), ": WARN (", all.as_str(), ")")
    }
}

fn put_checkups(out: &mut Vec<String>, worktrees: &Vec<Checkup>)
    ensures
        text::texts(final(out)@) == text::texts(old(out)@) + checkup_lines(worktrees@),
{
    let ghost head = text::texts(out@);
    if worktrees.len() == 0 {
        put(out, "worktrees: 0 (nothing to check)".to_owned());
        assert(text::texts(out@) =~= head + checkup_lines(worktrees@));
        return ;
    }
    let n = decimal_text(worktrees.len() as u128);
    put(out, cat3("worktrees: ", n.as_str(), " found"));
    let ghost first = head.push("worktrees: "@ + number::decimal(worktrees@.len()) + " found"@);
    let ghost all = worktrees@.map_values(|c: Checkup| checkup_line(c));
    let mut i: usize = 0;
    assert(text::texts(out@) =~= first + all.take(0));
    while i < worktrees.len()
        invariant
            i <= worktrees@.len(),
            all == worktrees@.map_values(|c: Checkup| checkup_line(c)),
            text::texts(out@) == first + all.take(i as int),
        decreases worktrees@.len() - i,
    {
        put(out, checkup_text(&worktrees[i]));
        i = i + 1;
        assert(text::texts(out@) =~= first + all.take(i as int));
    }
    assert(all.take(all.len() as int) =~= all);
    assert(text::texts(out@) =~= head + checkup_lines(worktrees@));
}

fn put_residue(out: &mut Vec<String>, residue: &Vec<String>)
    ensures
        text::texts(final(out)@) == text::texts(old(out)@) + residue_lines(text::texts(residue@)),
{
    let ghost front = text::texts(out@);
    if residue.len() == 0 {
        put(out, "residue:   none".to_owned());
        assert(text::texts(out@) =~= front + residue_lines(text::texts(residue@)));
        return ;
    }
    let ghost all = text::texts(residue@).map_values(|r: Seq<char>| "residue:   "@ + r);
    let mut i: usize = 0;
    assert(text::texts(out@) =~= front + all.take(0));
    while i < residue.len()
        invariant
            i <= residue@.len(),
            all == text::texts(residue@).map_values(|r: Seq<char>| "residue:   "@ + r),
            text::texts(out@) == front + all.take(i as int),
        decreases residue@.len() - i,
    {
        put(out, cat2("residue:   ", residue[i].as_str()));
        i = i + 1;
        assert(text::texts(out@) =~= front + all.take(i as int));
    }
    assert(all.take(all.len() as int) =~= all);
}

/// The command `doctor`: its report, and how it ends. It always succeeds,
/// whether or not the backend can be used and the state can be read.
pub fn doctor(backend: &str, unavailable: &Option<String>, seen: &Seen) -> (r: (
    Vec<String>,
    Ending,
))
    ensures
        text::texts(r.0@) == doctor_text(backend@, text::opt_text(*unavailable), *seen),
        r.1 == Ending::Done,
{
    let mut out: Vec<String> = Vec::new();
    put(&mut out, cat2("backend:   ", backend));
    match unavailable {
        None => {
            put(&mut out, "available: yes".to_owned());
        },
        Some(e) => {
            put(&mut out, cat3("available: NO (", e.as_str(), ")"));
        },
    }
    let ghost two = text::texts(out@);
    match seen {
        Seen::NoRoot(why) => {
            let shown = sanitize_display(why.as_str());
            let state = cat3("unknown (", shown.as_str(), ")");
            put(&mut out, cat2("state:     ", state.as_str()));
        },
        Seen::NoList { root, why } => {
            let place = sanitize_display(root.as_str());
            put(&mut out, cat2("state:     ", place.as_str()));
            let shown = sanitize_display(why.as_str());
            put(&mut out, cat3("worktrees: unknown (", shown.as_str(), ")"));
        },
        Seen::Listed { root, worktrees, residue } => {
            let place = sanitize_display(root.as_str());
            put(&mut out, cat2("state:     ", place.as_str()));
            put_checkups(&mut out, worktrees);
            put_residue(&mut out, residue);
        },
    }
    assert(text::texts(out@) =~= doctor_text(backend@, text::opt_text(*unavailable), *seen));
    (out, Ending::Done)
}

/// The three lines that scripts look for come first, whatever is found, and
/// also where nothing of the state can be read. The second says that the
/// backend can be used exactly where it can.
pub proof fn law_doctor_header(backend: Seq<char>, unavailable: Option<Seq<char>>, seen: Seen)
    ensures
        ({
            let t = doctor_text(backend, unavailable, seen);
            &&& t.len() >= 3
            &&& t[0] == "backend:   "@ + backend
            &&& t[1] == match unavailable {
                None => "available: yes"@,
                Some(e) => "available: NO ("@ + e + ")"@,
            }
            &&& t[1] == "available: yes"@ <==> unavailable is None
            &&& "state:     "@.is_prefix_of(t[2])
        }),
{
    reveal_strlit("available: yes");
    reveal_strlit("available: NO (");
    if let Some(e) = unavailable {
        let t = "available: NO ("@ + e + ")"@;
        assert(t[11] == 'N');
        assert("available: yes"@[11] == 'y');
    }
}

/// Behind the first three lines, `doctor` reports how many worktrees there are and
/// each of them, a worktree without a fault as `ok` and one with faults with all of
/// them; then each leftover, or that there is none.
pub proof fn law_doctor_reports_all(
    backend: Seq<char>,
    unavailable: Option<Seq<char>>,
    root: String,
    worktrees: Vec<Checkup>,
    residue: Vec<String>,
    i: int,
)
    ensures
        ({
            let t = doctor_text(backend, unavailable, (Seen::Listed { root, worktrees, residue }));
            let n = worktrees@.len() as int;
            let k = residue@.len() as int;
            &&& t[2] == "state:     "@ + state::shown(root@)
            &&& n == 0 ==> t[3] == "worktrees: 0 (nothing to check)"@
            &&& n > 0 ==> t[3] == "worktrees: "@ + number::decimal(n as nat) + " found"@
            &&& 0 <= i < n && issues(worktrees@[i].health).len() == 0 ==> t[4 + i] == "  "@
                + state::shown(worktrees@[i].id@) + ": ok"@
            &&& 0 <= i < n && issues(worktrees@[i].health).len() > 0 ==> t[4 + i] == "  "@
                + state::shown(worktrees@[i].id@) + ": WARN ("@ + text::join(
                issues(worktrees@[i].health),
                "; "@,
            ) + ")"@
            &&& k == 0 ==> t.len() == 5 + n && t[4 + n] == "residue:   none"@
            &&& k > 0 ==> t.len() == 4 + n + k
            &&& 0 <= i < k ==> t[4 + n + i] == "residue:   "@ + residue@[i]@
        }),
{
}

/// Where the state cannot be read, `doctor` says why, and reports nothing else.
pub proof fn law_doctor_reports_what_it_cannot_read(
    backend: Seq<char>,
    unavailable: Option<Seq<char>>,
    root: String,
    why: String,
)
    ensures
        doctor_text(backend, unavailable, Seen::NoRoot(why)).len() == 3,
        doctor_text(backend, unavailable, Seen::NoRoot(why))[2] == "state:     "@ + ("unknown ("@
            + state::shown(why@) + ")"@),
        doctor_text(backend, unavailable, (Seen::NoList { root, why })).len() == 4,
        doctor_text(backend, unavailable, (Seen::NoList { root, why }))[2] == "state:     "@
            + state::shown(root@),
        doctor_text(backend, unavailable, (Seen::NoList { root, why }))[3]
            == "worktrees: unknown ("@ + state::shown(why@) + ")"@,
{
}

/// A worktree without a fault is reported as such, and only such a one.
pub proof fn law_healthy_is_ok(h: Health)
    ensures
        issues(h).len() == 0 <==> h.manifest_ok && h.target_is_dir && !h.running && !h.stale_run
            && h.upper_exists,
{
}

} // verus!
