//! What one run does to a directory, decided from a listing of it taken
//! before any change: the day directories to create and the files to move.
use crate::calendar::{day_name, dir_name, Day};
use crate::error::OrganizeError;
use vstd::prelude::*;

verus! {

/// What an entry directly under the target directory is.
#[derive(Clone, Copy, Debug, PartialEq, Eq, Structural)]
pub enum EntryKind {
    /// A regular file, with the local day of its last modification.
    File(Day),
    /// A directory.
    Dir,
    /// Anything else; it is left alone.
    Other,
}

/// One entry of the target directory's listing.
#[derive(Clone, Debug)]
pub struct Entry {
    pub name: String,
    pub kind: EntryKind,
}

pub ghost struct EntryView {
    pub name: Seq<char>,
    pub kind: EntryKind,
}

impl View for Entry {
    type V = EntryView;

    open spec fn view(&self) -> EntryView {
        EntryView { name: self.name@, kind: self.kind }
    }
}

/// One change to the file system, relative to the target directory.
#[derive(Clone, Debug, PartialEq, Eq)]
pub enum Action {
    /// Create the directory `name` directly under the target directory.
    CreateDir(String),
    /// Move the file `file` into the directory `dir`, keeping its name.
    Move { file: String, dir: String },
}

impl Action {
    /// The error that stops the run when this action cannot be performed.
    pub fn failure(&self) -> (r: OrganizeError)
        ensures
            r == (match self {
                Action::CreateDir(_) => OrganizeError::DirectoryCreateFailure,
                Action::Move { .. } => OrganizeError::MoveFailure,
            }),
    {
        match self {
            Action::CreateDir(_) => OrganizeError::DirectoryCreateFailure,
            Action::Move { .. } => OrganizeError::MoveFailure,
        }
    }
}

pub ghost enum Step {
    Create(Seq<char>),
    Relocate { file: Seq<char>, dir: Seq<char> },
}

impl View for Action {
    type V = Step;

    open spec fn view(&self) -> Step {
        match self {
            Action::CreateDir(n) => Step::Create(n@),
            Action::Move { file, dir } => Step::Relocate { file: file@, dir: dir@ },
        }
    }
}

pub open spec fn entry_views(es: Seq<Entry>) -> Seq<EntryView> {
    es.map_values(|e: Entry| e@)
}

pub open spec fn step_views(acts: Seq<Action>) -> Seq<Step> {
    acts.map_values(|a: Action| a@)
}

/// Every file of the listing carries a day with a four-digit year.
pub open spec fn days_wf(es: Seq<EntryView>) -> bool {
    forall|i: int| 0 <= i < es.len() ==> (#[trigger] es[i].kind matches EntryKind::File(d) ==> d.wf())
}

/// No two entries of the listing share a name, as in any directory.
pub open spec fn names_distinct(es: Seq<EntryView>) -> bool {
    forall|i: int, j: int|
        0 <= i < es.len() && 0 <= j < es.len() && i != j ==> #[trigger] es[i].name != #[trigger] es[j].name
}

/// The listing holds a directory named `n`.
pub open spec fn has_dir(es: Seq<EntryView>, n: Seq<char>) -> bool {
    exists|i: int| 0 <= i < es.len() && #[trigger] es[i].name == n && es[i].kind is Dir
}

/// The steps for the first `k` entries of the listing `es`: each file is
/// moved into the directory of its day, which is created just before the
/// first such move unless the listing already holds it.
pub open spec fn plan_upto(es: Seq<EntryView>, k: int) -> Seq<Step>
    decreases k,
{
    if k <= 0 {
        seq![]
    } else {
        let prev = plan_upto(es, k - 1);
        match es[k - 1].kind {
            EntryKind::File(d) => {
                let n = day_name(d);
                let mv = Step::Relocate { file: es[k - 1].name, dir: n };
                if has_dir(es, n) || prev.contains(Step::Create(n)) {
                    prev.push(mv)
                } else {
                    prev.push(Step::Create(n)).push(mv)
                }
            },
            _ => prev,
        }
    }
}

/// The steps of one run over the listing `es`.
pub open spec fn plan_of(es: Seq<EntryView>) -> Seq<Step> {
    plan_upto(es, es.len() as int)
}

/// Whether the listing holds a directory named `n`.
fn dir_listed(entries: &Vec<Entry>, n: &String) -> (r: bool)
    ensures
        r == has_dir(entry_views(entries@), n@),
{
    let ghost es = entry_views(entries@);
    let mut i: usize = 0;
    while i < entries.len()
        invariant
            0 <= i <= entries.len(),
            es == entry_views(entries@),
            forall|j: int| 0 <= j < i ==> !(#[trigger] es[j].name == n@ && es[j].kind is Dir),
        decreases entries.len() - i,
    {
        let e = &entries[i];
        if e.name.eq(n) {
            if let EntryKind::Dir = e.kind {
                assert(es[i as int].name == n@ && es[i as int].kind is Dir);
                return true;
            }
        }
        i += 1;
    }
    false
}

/// Whether the actions decided so far create the directory `n`.
fn creates(out: &Vec<Action>, n: &String) -> (r: bool)
    ensures
        r == step_views(out@).contains(Step::Create(n@)),
{
    let ghost s = step_views(out@);
    let mut i: usize = 0;
    while i < out.len()
        invariant
            0 <= i <= out.len(),
            s == step_views(out@),
            forall|j: int| 0 <= j < i ==> #[trigger] s[j] != Step::Create(n@),
        decreases out.len() - i,
    {
        if let Action::CreateDir(c) = &out[i] {
            if c.eq(n) {
                assert(s[i as int] == Step::Create(n@));
                return true;
            }
        }
        i += 1;
    }
    false
}

/// The actions of one run over `entries`, the listing of the target
/// directory taken before any change, in listing order.
pub fn plan(entries: &Vec<Entry>) -> (r: Vec<Action>)
    requires
        days_wf(entry_views(entries@)),
    ensures
        step_views(r@) == plan_of(entry_views(entries@)),
{
    let ghost es = entry_views(entries@);
    let mut out: Vec<Action> = Vec::new();
    let mut i: usize = 0;
    while i < entries.len()
        invariant
            0 <= i <= entries.len(),
            es == entry_views(entries@),
            days_wf(es),
            step_views(out@) == plan_upto(es, i as int),
        decreases entries.len() - i,
    {
        if let EntryKind::File(d) = entries[i].kind {
            assert(es[i as int].kind matches EntryKind::File(d));
            let n = dir_name(d);
            if !dir_listed(entries, &n) && !creates(&out, &n) {
                out.push(Action::CreateDir(n.clone()));
            }
            out.push(Action::Move { file: entries[i].name.clone(), dir: n });
            assert(step_views(out@) =~= plan_upto(es, i + 1));
        } else {
            assert(step_views(out@) =~= plan_upto(es, i + 1));
        }
        i += 1;
    }
    out
}

/// The moves among `s`, in order.
pub open spec fn relocations(s: Seq<Step>) -> Seq<Step>
    decreases s.len(),
{
    if s.len() == 0 {
        seq![]
    } else {
        let p = relocations(s.drop_last());
        if s.last() is Relocate {
            p.push(s.last())
        } else {
            p
        }
    }
}

/// For each file among the first `k` entries, in order, its move into the
/// directory named by its day.
pub open spec fn file_moves(es: Seq<EntryView>, k: int) -> Seq<Step>
    decreases k,
{
    if k <= 0 {
        seq![]
    } else {
        let p = file_moves(es, k - 1);
        match es[k - 1].kind {
            EntryKind::File(d) => p.push(Step::Relocate { file: es[k - 1].name, dir: day_name(d) }),
            _ => p,
        }
    }
}

proof fn lemma_relocations_push(s: Seq<Step>, x: Step)
    ensures
        relocations(s.push(x)) == if x is Relocate {
            relocations(s).push(x)
        } else {
            relocations(s)
        },
{
    assert(s.push(x).drop_last() =~= s);
}

proof fn lemma_moves_upto(es: Seq<EntryView>, k: int)
    requires
        0 <= k <= es.len(),
    ensures
        relocations(plan_upto(es, k)) == file_moves(es, k),
    decreases k,
{
    if k > 0 {
        lemma_moves_upto(es, k - 1);
        let prev = plan_upto(es, k - 1);
        if let EntryKind::File(d) = es[k - 1].kind {
            let n = day_name(d);
            let mv = Step::Relocate { file: es[k - 1].name, dir: n };
            if !(has_dir(es, n) || prev.contains(Step::Create(n))) {
                lemma_relocations_push(prev, Step::Create(n));
                lemma_relocations_push(prev.push(Step::Create(n)), mv);
            } else {
                lemma_relocations_push(prev, mv);
            }
        }
    }
}

/// A run moves every regular file of the listing exactly once, in listing
/// order, into the directory named by the day of its last modification, and
/// moves nothing else.
pub proof fn lemma_each_file_moved_to_its_day(es: Seq<EntryView>)
    ensures
        relocations(plan_of(es)) == file_moves(es, es.len() as int),
{
    lemma_moves_upto(es, es.len() as int);
}

proof fn lemma_ready_upto(es: Seq<EntryView>, k: int)
    requires
        0 <= k <= es.len(),
    ensures
        forall|i: int|
            0 <= i < plan_upto(es, k).len() && (#[trigger] plan_upto(es, k)[i]) is Relocate ==> {
                let n = plan_upto(es, k)[i]->dir;
                has_dir(es, n) || exists|j: int| 0 <= j < i && plan_upto(es, k)[j] == Step::Create(n)
            },
    decreases k,
{
    if k > 0 {
        lemma_ready_upto(es, k - 1);
        let prev = plan_upto(es, k - 1);
        let cur = plan_upto(es, k);
        assert forall|i: int| 0 <= i < cur.len() && (#[trigger] cur[i]) is Relocate implies {
            let n = cur[i]->dir;
            has_dir(es, n) || exists|j: int| 0 <= j < i && cur[j] == Step::Create(n)
        } by {
            let n = cur[i]->dir;
            if i < prev.len() {
                assert(cur[i] == prev[i]);
                if !has_dir(es, n) {
                    let j = choose|j: int| 0 <= j < i && prev[j] == Step::Create(n);
                    assert(cur[j] == prev[j]);
                }
            } else if let EntryKind::File(d) = es[k - 1].kind {
                let m = day_name(d);
                if has_dir(es, m) {
                } else if prev.contains(Step::Create(m)) {
                    let j = choose|j: int| 0 <= j < prev.len() && prev[j] == Step::Create(m);
                    assert(cur[j] == prev[j]);
                } else {
                    assert(cur[prev.len() as int] == Step::Create(m));
                }
            }
        }
    }
}

/// When a run moves a file, its day directory is already there: the
/// listing holds it, or an earlier step of the run created it.
pub proof fn lemma_directory_ready_before_move(es: Seq<EntryView>)
    ensures
        forall|i: int|
            0 <= i < plan_of(es).len() && (#[trigger] plan_of(es)[i]) is Relocate ==> {
                let n = plan_of(es)[i]->dir;
                has_dir(es, n) || exists|j: int| 0 <= j < i && plan_of(es)[j] == Step::Create(n)
            },
{
    lemma_ready_upto(es, es.len() as int);
}

proof fn lemma_contains_push(s: Seq<Step>, x: Step, y: Step)
    ensures
        s.push(x).contains(y) <==> (s.contains(y) || x == y),
{
    let t = s.push(x);
    if s.contains(y) {
        let j = choose|j: int| 0 <= j < s.len() && s[j] == y;
        assert(t[j] == y);
    }
    if x == y {
        assert(t[s.len() as int] == y);
    }
    if t.contains(y) {
        let j = choose|j: int| 0 <= j < t.len() && t[j] == y;
        if j < s.len() {
            assert(s[j] == y);
        }
    }
}

/// A file among the first `k` entries whose day is named `n`.
pub open spec fn needs_dir(es: Seq<EntryView>, k: int, n: Seq<char>) -> bool {
    exists|j: int|
        0 <= j < k && (#[trigger] es[j].kind matches EntryKind::File(d) && day_name(d) == n)
}

proof fn lemma_sources_upto(es: Seq<EntryView>, k: int)
    requires
        0 <= k <= es.len(),
    ensures
        forall|i: int|
            0 <= i < plan_upto(es, k).len() && (#[trigger] plan_upto(es, k)[i]) is Relocate ==> exists|j: int|
                0 <= j < k && #[trigger] es[j].name == plan_upto(es, k)[i]->file && es[j].kind is File,
        forall|i: int|
            0 <= i < plan_upto(es, k).len() && (#[trigger] plan_upto(es, k)[i]) is Create ==> !has_dir(
                es,
                plan_upto(es, k)[i]->Create_0,
            ),
    decreases k,
{
    if k > 0 {
        lemma_sources_upto(es, k - 1);
        let prev = plan_upto(es, k - 1);
        let cur = plan_upto(es, k);
        assert forall|i: int| 0 <= i < cur.len() && (#[trigger] cur[i]) is Relocate implies exists|j: int|
            0 <= j < k && #[trigger] es[j].name == cur[i]->file && es[j].kind is File by {
            if i < prev.len() {
                assert(cur[i] == prev[i]);
            } else {
                assert(es[k - 1].name == cur[i]->file);
            }
        }
        assert forall|i: int| 0 <= i < cur.len() && (#[trigger] cur[i]) is Create implies !has_dir(
            es,
            cur[i]->Create_0,
        ) by {
            if i < prev.len() {
                assert(cur[i] == prev[i]);
            }
        }
    }
}

/// A run moves only regular files of the listing and never creates a
/// directory that the listing already holds; so, as the listing of a real
/// directory names each entry once, no directory is moved.
pub proof fn lemma_directories_untouched(es: Seq<EntryView>)
    ensures
        forall|i: int|
            0 <= i < plan_of(es).len() && (#[trigger] plan_of(es)[i]) is Relocate ==> exists|j: int|
                0 <= j < es.len() && #[trigger] es[j].name == plan_of(es)[i]->file && es[j].kind is File,
        names_distinct(es) ==> forall|i: int|
            0 <= i < plan_of(es).len() && (#[trigger] plan_of(es)[i]) is Relocate ==> !has_dir(
                es,
                plan_of(es)[i]->file,
            ),
        forall|i: int|
            0 <= i < plan_of(es).len() && (#[trigger] plan_of(es)[i]) is Create ==> !has_dir(
                es,
                plan_of(es)[i]->Create_0,
            ),
{
    let p = plan_of(es);
    lemma_sources_upto(es, es.len() as int);
    if names_distinct(es) {
        assert forall|i: int| 0 <= i < p.len() && (#[trigger] p[i]) is Relocate implies !has_dir(
            es,
            p[i]->file,
        ) by {
            let j = choose|j: int| 0 <= j < es.len() && #[trigger] es[j].name == p[i]->file && es[j].kind is File;
            if has_dir(es, p[i]->file) {
                let j2 = choose|j2: int| 0 <= j2 < es.len() && #[trigger] es[j2].name == p[i]->file && es[j2].kind is Dir;
                assert(es[j].name == es[j2].name);
            }
        }
    }
}

proof fn lemma_creates_upto(es: Seq<EntryView>, k: int)
    requires
        0 <= k <= es.len(),
    ensures
        forall|n: Seq<char>|
            #[trigger] plan_upto(es, k).contains(Step::Create(n)) <==> (!has_dir(es, n) && needs_dir(es, k, n)),
        forall|i: int, j: int|
            0 <= i < j < plan_upto(es, k).len() && (#[trigger] plan_upto(es, k)[i]) is Create
                ==> #[trigger] plan_upto(es, k)[j] != plan_upto(es, k)[i],
    decreases k,
{
    if k > 0 {
        lemma_creates_upto(es, k - 1);
        let prev = plan_upto(es, k - 1);
        let cur = plan_upto(es, k);
        assert forall|n: Seq<char>| #[trigger] cur.contains(Step::Create(n)) <==> (!has_dir(es, n) && needs_dir(es, k, n)) by {
            assert(prev.contains(Step::Create(n)) <==> (!has_dir(es, n) && needs_dir(es, k - 1, n)));
            if needs_dir(es, k - 1, n) {
                let j = choose|j: int| 0 <= j < k - 1 && (#[trigger] es[j].kind matches EntryKind::File(d) && day_name(d) == n);
                assert(0 <= j < k && (es[j].kind matches EntryKind::File(d) && day_name(d) == n));
            }
            if let EntryKind::File(d) = es[k - 1].kind {
                let m = day_name(d);
                let mv = Step::Relocate { file: es[k - 1].name, dir: m };
                if m == n {
                    assert(es[k - 1].kind matches EntryKind::File(d) && day_name(d) == n);
                    assert(needs_dir(es, k, n));
                }
                if needs_dir(es, k, n) && m != n {
                    let j = choose|j: int| 0 <= j < k && (#[trigger] es[j].kind matches EntryKind::File(d) && day_name(d) == n);
                    assert(j != k - 1);
                    assert(needs_dir(es, k - 1, n));
                }
                if has_dir(es, m) || prev.contains(Step::Create(m)) {
                    lemma_contains_push(prev, mv, Step::Create(n));
                } else {
                    lemma_contains_push(prev, Step::Create(m), Step::Create(n));
                    lemma_contains_push(prev.push(Step::Create(m)), mv, Step::Create(n));
                }
            } else {
                if needs_dir(es, k, n) {
                    let j = choose|j: int| 0 <= j < k && (#[trigger] es[j].kind matches EntryKind::File(d) && day_name(d) == n);
                    assert(j != k - 1);
                    assert(needs_dir(es, k - 1, n));
                }
            }
        }
        assert forall|i: int, j: int| 0 <= i < j < cur.len() && (#[trigger] cur[i]) is Create implies #[trigger] cur[j] != cur[i] by {
            if i < prev.len() {
                assert(cur[i] == prev[i]);
                if j < prev.len() {
                    assert(cur[j] == prev[j]);
                } else if cur[j] == cur[i] {
                    assert(prev.contains(cur[i]));
                }
            }
        }
    }
}

/// A run creates a day directory exactly when some regular file of the
/// listing was last modified on that day and the listing does not already
/// hold a directory of that name; it creates each at most once.
pub proof fn lemma_created_exactly_when_needed(es: Seq<EntryView>)
    ensures
        forall|n: Seq<char>|
            #[trigger] plan_of(es).contains(Step::Create(n)) <==> (!has_dir(es, n) && needs_dir(
                es,
                es.len() as int,
                n,
            )),
        forall|i: int, j: int|
            0 <= i < j < plan_of(es).len() && (#[trigger] plan_of(es)[i]) is Create
                ==> #[trigger] plan_of(es)[j] != plan_of(es)[i],
{
    lemma_creates_upto(es, es.len() as int);
}

/// The entries of the listing that a run leaves where they are: all but the
/// regular files.
pub open spec fn left_in_place(es: Seq<EntryView>) -> Seq<EntryView>
    decreases es.len(),
{
    if es.len() == 0 {
        seq![]
    } else {
        let p = left_in_place(es.drop_last());
        if es.last().kind is File {
            p
        } else {
            p.push(es.last())
        }
    }
}

/// The directories that the steps `s` create.
pub open spec fn new_dirs(s: Seq<Step>) -> Seq<EntryView>
    decreases s.len(),
{
    if s.len() == 0 {
        seq![]
    } else {
        let p = new_dirs(s.drop_last());
        match s.last() {
            Step::Create(n) => p.push(EntryView { name: n, kind: EntryKind::Dir }),
            _ => p,
        }
    }
}

/// The listing of the target directory after a run over `es` succeeded.
pub open spec fn listing_after(es: Seq<EntryView>) -> Seq<EntryView> {
    left_in_place(es) + new_dirs(plan_of(es))
}

pub open spec fn no_files(es: Seq<EntryView>) -> bool {
    forall|i: int| 0 <= i < es.len() ==> !(#[trigger] es[i].kind is File)
}

proof fn lemma_left_in_place_no_files(es: Seq<EntryView>)
    ensures
        no_files(left_in_place(es)),
    decreases es.len(),
{
    if es.len() > 0 {
        lemma_left_in_place_no_files(es.drop_last());
    }
}

proof fn lemma_new_dirs_no_files(s: Seq<Step>)
    ensures
        no_files(new_dirs(s)),
    decreases s.len(),
{
    if s.len() > 0 {
        lemma_new_dirs_no_files(s.drop_last());
    }
}

proof fn lemma_no_files_no_steps(es: Seq<EntryView>, k: int)
    requires
        no_files(es),
        0 <= k <= es.len(),
    ensures
        plan_upto(es, k) == Seq::<Step>::empty(),
    decreases k,
{
    if k > 0 {
        lemma_no_files_no_steps(es, k - 1);
        assert(!(es[k - 1].kind is File));
    }
}

/// A second run right after a successful one has nothing to do: the
/// listing then holds no regular file, so no directory is created and no
/// file is moved.
pub proof fn lemma_second_run_idle(es: Seq<EntryView>)
    ensures
        plan_of(listing_after(es)) == Seq::<Step>::empty(),
{
    let a = left_in_place(es);
    let b = new_dirs(plan_of(es));
    lemma_left_in_place_no_files(es);
    lemma_new_dirs_no_files(plan_of(es));
    let after = listing_after(es);
    assert forall|i: int| 0 <= i < after.len() implies !(#[trigger] after[i].kind is File) by {
        if i < a.len() {
            assert(after[i] == a[i]);
        } else {
            assert(after[i] == b[i - a.len()]);
        }
    }
    lemma_no_files_no_steps(after, after.len() as int);
}

/// Files of different days never share a day directory: the directories
/// that two files of the listing are moved into differ whenever their days
/// do.
pub proof fn lemma_days_kept_apart(es: Seq<EntryView>, i: int, j: int)
    requires
        days_wf(es),
        0 <= i < es.len(),
        0 <= j < es.len(),
        es[i].kind is File,
        es[j].kind is File,
        es[i].kind->File_0 != es[j].kind->File_0,
    ensures
        day_name(es[i].kind->File_0) != day_name(es[j].kind->File_0),
{
    if day_name(es[i].kind->File_0) == day_name(es[j].kind->File_0) {
        crate::calendar::lemma_day_name_injective(es[i].kind->File_0, es[j].kind->File_0);
    }
}

} // verus!
