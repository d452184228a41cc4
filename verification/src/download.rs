//! Download tasks: their states, the table of tasks, and the decisions taken
//! while a download runs.
//!
//! The table keeps the tasks in the order they were added, each id at most
//! once. Its contracts are stated over the sequence of task views.
use vstd::prelude::*;
use std::collections::HashMap;
use crate::text::{chars_eq, chars_of, copy_string, decimal, decimal_u64, push_all, string_of};

verus! {

/// The state of a download task.
#[derive(Debug, Clone, Copy, PartialEq, Eq, Structural)]
pub enum DownloadStatus {
    Pending,
    Downloading,
    Completed,
    Failed,
    Paused,
    Cancelled,
}

/// The name of a status as stored and shown (lowercase).
pub open spec fn status_name(s: DownloadStatus) -> Seq<char> {
    match s {
        DownloadStatus::Pending => "pending"@,
        DownloadStatus::Downloading => "downloading"@,
        DownloadStatus::Completed => "completed"@,
        DownloadStatus::Failed => "failed"@,
        DownloadStatus::Paused => "paused"@,
        DownloadStatus::Cancelled => "cancelled"@,
    }
}

/// The status a stored name stands for; an unknown name reads as pending.
pub open spec fn status_from_name(name: Seq<char>) -> DownloadStatus {
    if name == "downloading"@ {
        DownloadStatus::Downloading
    } else if name == "completed"@ {
        DownloadStatus::Completed
    } else if name == "failed"@ {
        DownloadStatus::Failed
    } else if name == "paused"@ {
        DownloadStatus::Paused
    } else if name == "cancelled"@ {
        DownloadStatus::Cancelled
    } else {
        DownloadStatus::Pending
    }
}

impl DownloadStatus {
    /// The lowercase name of the status.
    pub fn as_str(&self) -> (res: &'static str)
        ensures
            res@ == status_name(*self),
    {
        match self {
            DownloadStatus::Pending => "pending",
            DownloadStatus::Downloading => "downloading",
            DownloadStatus::Completed => "completed",
            DownloadStatus::Failed => "failed",
            DownloadStatus::Paused => "paused",
            DownloadStatus::Cancelled => "cancelled",
        }
    }

    /// The status stored under `name`; an unknown name reads as pending.
    pub fn from_name(name: &str) -> (res: DownloadStatus)
        ensures
            res == status_from_name(name@),
    {
        let n = chars_of(name);
        if chars_eq(&n, &chars_of("downloading")) {
            DownloadStatus::Downloading
        } else if chars_eq(&n, &chars_of("completed")) {
            DownloadStatus::Completed
        } else if chars_eq(&n, &chars_of("failed")) {
            DownloadStatus::Failed
        } else if chars_eq(&n, &chars_of("paused")) {
            DownloadStatus::Paused
        } else if chars_eq(&n, &chars_of("cancelled")) {
            DownloadStatus::Cancelled
        } else {
            DownloadStatus::Pending
        }
    }
}

/// Reading back the name of a status gives the status.
pub proof fn law_status_name_round_trip(s: DownloadStatus)
    ensures
        status_from_name(status_name(s)) == s,
{
    reveal_strlit("pending");
    reveal_strlit("downloading");
    reveal_strlit("completed");
    reveal_strlit("failed");
    reveal_strlit("paused");
    reveal_strlit("cancelled");
    let n = status_name(s);
    assert(n.len() != 11 || n[0] == 'd');
    assert(n[0] != 'c' || n.len() == 9);
    assert(n.len() == 9 ==> (n[1] == 'o' <==> s == DownloadStatus::Completed));
    assert(n[0] == 'f' <==> s == DownloadStatus::Failed);
    assert(n[0] == 'p' && n.len() == 6 <==> s == DownloadStatus::Paused);
    assert(n[0] == 'd' <==> s == DownloadStatus::Downloading);
    if s != DownloadStatus::Downloading {
        assert(n[0] != "downloading"@[0]);
    }
    if s != DownloadStatus::Completed {
        assert(n.len() != 9 || n[1] != "completed"@[1]);
    }
    if s != DownloadStatus::Failed {
        assert(n[0] != "failed"@[0]);
    }
    if s != DownloadStatus::Paused {
        assert(n[0] != 'p' || n.len() != 6);
    }
    if s != DownloadStatus::Cancelled {
        assert(n.len() != 9 || n[1] != "cancelled"@[1]);
    }
}

/// A download: what to fetch, where to save it, and how far it went.
#[derive(Debug, Clone)]
pub struct DownloadTask {
    pub id: u32,
    pub post_id: u32,
    pub image_url: String,
    pub file_name: String,
    pub save_path: String,
    pub status: DownloadStatus,
    pub downloaded_size: u64,
    pub total_size: u64,
    pub error: Option<String>,
}

/// The mathematical value of a [`DownloadTask`].
pub struct TaskView {
    pub id: u32,
    pub post_id: u32,
    pub image_url: Seq<char>,
    pub file_name: Seq<char>,
    pub save_path: Seq<char>,
    pub status: DownloadStatus,
    pub downloaded_size: u64,
    pub total_size: u64,
    pub error: Option<Seq<char>>,
}

impl View for DownloadTask {
    type V = TaskView;

    open spec fn view(&self) -> TaskView {
        TaskView {
            id: self.id,
            post_id: self.post_id,
            image_url: self.image_url@,
            file_name: self.file_name@,
            save_path: self.save_path@,
            status: self.status,
            downloaded_size: self.downloaded_size,
            total_size: self.total_size,
            error: match self.error {
                Some(e) => Some(e@),
                None => None,
            },
        }
    }
}

impl DownloadTask {
    /// A new pending task with nothing downloaded and no error.
    pub fn new(id: u32, post_id: u32, image_url: String, file_name: String, save_path: String) -> (res:
        Self)
        ensures
            res@ == (TaskView {
                id,
                post_id,
                image_url: image_url@,
                file_name: file_name@,
                save_path: save_path@,
                status: DownloadStatus::Pending,
                downloaded_size: 0,
                total_size: 0,
                error: None,
            }),
    {
        DownloadTask {
            id,
            post_id,
            image_url,
            file_name,
            save_path,
            status: DownloadStatus::Pending,
            downloaded_size: 0,
            total_size: 0,
            error: None,
        }
    }

    /// A copy of the task.
    pub fn copy(&self) -> (res: Self)
        ensures
            res@ == self@,
    {
        DownloadTask {
            id: self.id,
            post_id: self.post_id,
            image_url: copy_string(&self.image_url),
            file_name: copy_string(&self.file_name),
            save_path: copy_string(&self.save_path),
            status: self.status,
            downloaded_size: self.downloaded_size,
            total_size: self.total_size,
            error: match &self.error {
                Some(e) => Some(copy_string(e)),
                None => None,
            },
        }
    }
}

/// The views of a sequence of tasks.
pub open spec fn tasks_view(ts: Seq<DownloadTask>) -> Seq<TaskView> {
    ts.map_values(|t: DownloadTask| t@)
}

// ---------------------------------------------------------------------------
// The task table as a map
// ---------------------------------------------------------------------------

/// Every task is stored under its own id.
pub open spec fn keyed_by_id(m: Map<u32, TaskView>) -> bool {
    forall|k: u32| #[trigger] m.contains_key(k) ==> m[k].id == k
}

/// `m` with each task of `ts` stored under its id in turn; a later task
/// replaces an earlier one with the same id.
pub open spec fn insert_all(m: Map<u32, TaskView>, ts: Seq<TaskView>) -> Map<u32, TaskView>
    decreases ts.len(),
{
    if ts.len() == 0 {
        m
    } else {
        insert_all(m, ts.drop_last()).insert(ts.last().id, ts.last())
    }
}

/// `m` with the task `id` changed by `f`, when there is one.
pub open spec fn modify_task(m: Map<u32, TaskView>, id: u32, f: spec_fn(TaskView) -> TaskView) -> Map<
    u32,
    TaskView,
> {
    if m.contains_key(id) {
        m.insert(id, f(m[id]))
    } else {
        m
    }
}

/// `m` without its completed tasks.
pub open spec fn without_completed(m: Map<u32, TaskView>) -> Map<u32, TaskView> {
    m.filter_keys(|k: u32| m[k].status != DownloadStatus::Completed)
}

/// The task with its status set.
pub open spec fn with_status(t: TaskView, status: DownloadStatus) -> TaskView {
    TaskView { status, ..t }
}

/// The task with its byte counts set.
pub open spec fn with_progress(t: TaskView, downloaded: u64, total: u64) -> TaskView {
    TaskView { downloaded_size: downloaded, total_size: total, ..t }
}

/// The task failed with `error`.
pub open spec fn with_error(t: TaskView, error: Seq<char>) -> TaskView {
    TaskView { error: Some(error), status: DownloadStatus::Failed, ..t }
}

/// Storing a task keeps every task under its own id; the stored task is
/// found under its id, and every other id finds what it found before.
pub proof fn law_insert_then_lookup(m: Map<u32, TaskView>, t: TaskView, other: u32)
    requires
        keyed_by_id(m),
    ensures
        keyed_by_id(m.insert(t.id, t)),
        m.insert(t.id, t).contains_key(t.id) && m.insert(t.id, t)[t.id] == t,
        other != t.id ==> m.insert(t.id, t).contains_key(other) == m.contains_key(other)
            && m.insert(t.id, t)[other] == m[other],
{
}

/// Changing one task without changing its id keeps every task under its
/// own id, changes that task and no other.
pub proof fn law_modify_then_lookup(
    m: Map<u32, TaskView>,
    id: u32,
    f: spec_fn(TaskView) -> TaskView,
    other: u32,
)
    requires
        keyed_by_id(m),
        forall|t: TaskView| #[trigger] f(t).id == t.id,
    ensures
        keyed_by_id(modify_task(m, id, f)),
        modify_task(m, id, f).dom() == m.dom(),
        m.contains_key(id) ==> modify_task(m, id, f)[id] == f(m[id]),
        other != id ==> modify_task(m, id, f)[other] == m[other],
{
    assert(modify_task(m, id, f).dom() =~= m.dom());
    if m.contains_key(id) {
        assert(f(m[id]).id == m[id].id);
    }
}

/// After a removal no task has the removed id, every task stays under its
/// own id, and every other id finds what it found before.
pub proof fn law_remove_then_lookup(m: Map<u32, TaskView>, id: u32, other: u32)
    requires
        keyed_by_id(m),
    ensures
        keyed_by_id(m.remove(id)),
        !m.remove(id).contains_key(id),
        other != id ==> m.remove(id).contains_key(other) == m.contains_key(other)
            && m.remove(id)[other] == m[other],
{
}

/// Clearing the completed tasks leaves no completed task and keeps every
/// other task under its id.
pub proof fn law_clear_completed(m: Map<u32, TaskView>, id: u32)
    requires
        keyed_by_id(m),
    ensures
        keyed_by_id(without_completed(m)),
        forall|k: u32|
            #[trigger] without_completed(m).contains_key(k) ==> without_completed(m)[k].status
                != DownloadStatus::Completed,
        without_completed(m).contains_key(id) == (m.contains_key(id) && m[id].status
            != DownloadStatus::Completed),
        without_completed(m).contains_key(id) ==> without_completed(m)[id] == m[id],
{
}

/// Restoring tasks keeps every task under its own id, and each restored
/// task is found under its id unless a later one has the same id.
pub proof fn law_restore_then_lookup(m: Map<u32, TaskView>, ts: Seq<TaskView>, i: int)
    requires
        keyed_by_id(m),
        0 <= i < ts.len(),
        forall|j: int| i < j < ts.len() ==> ts[j].id != ts[i].id,
    ensures
        keyed_by_id(insert_all(m, ts)),
        insert_all(m, ts).contains_key(ts[i].id),
        insert_all(m, ts)[ts[i].id] == ts[i],
    decreases ts.len(),
{
    lemma_insert_all_keyed(m, ts);
    if i < ts.len() - 1 {
        assert(ts.last() == ts[ts.len() - 1]);
        law_restore_then_lookup(m, ts.drop_last(), i);
    }
}

/// Restoring tasks keeps every task under its own id.
proof fn lemma_insert_all_keyed(m: Map<u32, TaskView>, ts: Seq<TaskView>)
    requires
        keyed_by_id(m),
    ensures
        keyed_by_id(insert_all(m, ts)),
    decreases ts.len(),
{
    if ts.len() > 0 {
        lemma_insert_all_keyed(m, ts.drop_last());
    }
}

// ---------------------------------------------------------------------------
// The task table
// ---------------------------------------------------------------------------

/// The download tasks, each stored under its id.
pub struct DownloadManager {
    tasks: HashMap<u32, DownloadTask>,
}

impl View for DownloadManager {
    type V = Map<u32, TaskView>;

    closed spec fn view(&self) -> Map<u32, TaskView> {
        self.tasks@.map_values(|t: DownloadTask| t@)
    }
}

impl DownloadManager {
    #[verifier::type_invariant]
    spec fn stored_by_id(self) -> bool {
        forall|k: u32| #[trigger] self.tasks@.contains_key(k) ==> self.tasks@[k].id == k
    }

    /// An empty table.
    pub fn new() -> (res: Self)
        ensures
            res@ == Map::<u32, TaskView>::empty(),
    {
        let res = DownloadManager { tasks: HashMap::new() };
        assert(res@ =~= Map::<u32, TaskView>::empty());
        res
    }

    /// Stores `t` under `id`, which is its id.
    fn store(&mut self, id: u32, t: DownloadTask)
        requires
            t.id == id,
        ensures
            final(self)@ == old(self)@.insert(id, t@),
    {
        broadcast use vstd::std_specs::hash::group_hash_axioms;

        proof {
            use_type_invariant(&*self);
        }
        let ghost tv = t@;
        let mut tasks: HashMap<u32, DownloadTask> = HashMap::new();
        std::mem::swap(&mut tasks, &mut self.tasks);
        let ghost before = tasks@;
        tasks.insert(id, t);
        assert(tasks@.map_values(|t: DownloadTask| t@) =~= before.map_values(
            |t: DownloadTask| t@,
        ).insert(id, tv));
        self.tasks = tasks;
    }

    /// Stores `task` under its id, replacing the task with that id if any.
    pub fn add_task(&mut self, task: DownloadTask)
        ensures
            final(self)@ == old(self)@.insert(task.id, task@),
    {
        let id = task.id;
        self.store(id, task);
    }

    /// Stores each of `tasks` in turn.
    pub fn restore_tasks(&mut self, tasks: Vec<DownloadTask>)
        ensures
            final(self)@ == insert_all(old(self)@, tasks_view(tasks@)),
    {
        let ghost start = self@;
        let ghost tv = tasks_view(tasks@);
        let mut rest = tasks;
        let mut k: usize = 0;
        let ghost n = rest.len();
        while rest.len() > 0
            invariant
                k + rest.len() == n,
                n == tv.len(),
                tasks_view(rest@) == tv.skip(k as int),
                self@ == insert_all(start, tv.take(k as int)),
            decreases rest.len(),
        {
            let ghost old_rest = rest@;
            let t = rest.remove(0);
            assert(tasks_view(old_rest)[0] == old_rest[0]@);
            assert(tv.skip(k as int)[0] == tv[k as int]);
            assert(t@ == tv[k as int]);
            assert(tv.take(k + 1).drop_last() =~= tv.take(k as int));
            assert(tasks_view(rest@) =~= tasks_view(old_rest).drop_first());
            assert(tv.skip(k as int).drop_first() =~= tv.skip(k + 1));
            self.add_task(t);
            k += 1;
        }
        assert(tv.take(k as int) =~= tv);
    }

    /// A copy of the task with id `id`.
    pub fn get_task(&self, id: u32) -> (res: Option<DownloadTask>)
        ensures
            match res {
                Some(t) => self@.contains_key(id) && self@[id] == t@,
                None => !self@.contains_key(id),
            },
    {
        broadcast use vstd::std_specs::hash::group_hash_axioms;

        match self.tasks.get(&id) {
            Some(t) => Some(t.copy()),
            None => None,
        }
    }

    /// Copies of all tasks, each once, in the order the map hands them out
    /// (which is not specified).
    pub fn get_all_tasks(&self) -> (res: Vec<DownloadTask>)
        ensures
            res.len() == self@.len(),
            forall|i: int|
                0 <= i < res.len() ==> self@.contains_key(#[trigger] res[i].id) && self@[res[i].id]
                    == res[i]@,
            forall|i: int, j: int| 0 <= i < j < res.len() ==> res[i].id != res[j].id,
    {
        broadcast use vstd::std_specs::hash::group_hash_axioms;

        proof {
            use_type_invariant(self);
        }
        let mut res: Vec<DownloadTask> = Vec::new();
        for k in it: self.tasks.keys()
            invariant
                it.seq().no_duplicates(),
                it.seq().len() == self.tasks@.dom().len(),
                it.seq().unref().to_set() == self.tasks@.dom(),
                res.len() == it.index(),
                forall|i: int|
                    0 <= i < res.len() ==> res[i].id == *it.seq()[i] && self@.contains_key(
                        #[trigger] res[i].id,
                    ) && self@[res[i].id] == res[i]@,
        {
            proof {
                use_type_invariant(self);
            }
            assert(it.seq().unref()[it.index()] == *k);
            assert(it.seq().unref().to_set().contains(*k));
            match self.tasks.get(k) {
                Some(t) => {
                    let c = t.copy();
                    let ghost before = res@;
                    res.push(c);
                    assert forall|i: int| 0 <= i < res.len() implies res[i].id == *it.seq()[i]
                        && self@.contains_key(#[trigger] res[i].id) && self@[res[i].id]
                        == res[i]@ by {
                        if i < before.len() {
                            assert(res[i] == before[i]);
                        } else {
                            assert(self.tasks@[*k] == *t);
                            assert(t.id == *k);
                            assert(res[i] == c);
                            assert(self@.contains_key(*k));
                            assert(self@[*k] == t@);
                            assert(*it.seq()[i] == *k);
                        }
                    }
                },
                None => {},
            }
        }
        assert(self@.dom() =~= self.tasks@.dom());
        res
    }
}

impl DownloadManager {
    /// Sets the status of the task `id`, if there is one.
    pub fn update_task_status(&mut self, id: u32, status: DownloadStatus)
        ensures
            final(self)@ == modify_task(old(self)@, id, |t: TaskView| with_status(t, status)),
    {
        match self.get_task(id) {
            Some(mut t) => {
                proof {
                    use_type_invariant(&*self);
                }
                t.status = status;
                self.store(id, t);
            },
            None => {},
        }
    }

    /// Sets the byte counts of the task `id`, if there is one.
    pub fn update_task_progress(&mut self, id: u32, downloaded: u64, total: u64)
        ensures
            final(self)@ == modify_task(
                old(self)@,
                id,
                |t: TaskView| with_progress(t, downloaded, total),
            ),
    {
        match self.get_task(id) {
            Some(mut t) => {
                proof {
                    use_type_invariant(&*self);
                }
                t.downloaded_size = downloaded;
                t.total_size = total;
                self.store(id, t);
            },
            None => {},
        }
    }

    /// Marks the task `id` failed with `error`, if there is one.
    pub fn set_task_error(&mut self, id: u32, error: String)
        ensures
            final(self)@ == modify_task(old(self)@, id, |t: TaskView| with_error(t, error@)),
    {
        match self.get_task(id) {
            Some(mut t) => {
                proof {
                    use_type_invariant(&*self);
                }
                t.error = Some(error);
                t.status = DownloadStatus::Failed;
                self.store(id, t);
            },
            None => {},
        }
    }

    /// Removes the task `id`, if there is one.
    pub fn remove_task(&mut self, id: u32)
        ensures
            final(self)@ == old(self)@.remove(id),
    {
        broadcast use vstd::std_specs::hash::group_hash_axioms;

        proof {
            use_type_invariant(&*self);
        }
        let mut tasks: HashMap<u32, DownloadTask> = HashMap::new();
        std::mem::swap(&mut tasks, &mut self.tasks);
        let ghost before = tasks@;
        tasks.remove(&id);
        assert(tasks@.map_values(|t: DownloadTask| t@) =~= before.map_values(
            |t: DownloadTask| t@,
        ).remove(id));
        self.tasks = tasks;
    }

    /// Removes every completed task.
    pub fn clear_completed(&mut self)
        ensures
            final(self)@ == without_completed(old(self)@),
    {
        broadcast use vstd::std_specs::hash::group_hash_axioms;

        proof {
            use_type_invariant(&*self);
            assert(self@.dom() =~= self.tasks@.dom());
        }
        let ghost start = self@;
        let all = self.get_all_tasks();
        let mut i: usize = 0;
        while i < all.len()
            invariant
                i <= all.len(),
                all.len() == start.len(),
                start.dom().finite(),
                forall|j: int|
                    0 <= j < all.len() ==> start.contains_key(#[trigger] all[j].id) && start[all[j].id]
                        == all[j]@,
                forall|j: int, l: int| 0 <= j < l < all.len() ==> all[j].id != all[l].id,
                self@ == start.filter_keys(
                    |k: u32|
                        !(exists|j: int|
                            0 <= j < i && all[j].id == k && all[j].status
                                == DownloadStatus::Completed),
                ),
            decreases all.len() - i,
        {
            if all[i].status == DownloadStatus::Completed {
                self.remove_task(all[i].id);
            }
            i += 1;
        }
        proof {
            lemma_listed_all(start, all@);
        }
        assert(self@ =~= without_completed(start));
    }
}

/// A list of distinct keys of a finite map, as long as its domain, lists
/// every key.
proof fn lemma_listed_all(m: Map<u32, TaskView>, all: Seq<DownloadTask>)
    requires
        m.dom().finite(),
        all.len() == m.len(),
        forall|j: int| 0 <= j < all.len() ==> m.contains_key(#[trigger] all[j].id),
        forall|j: int, l: int| 0 <= j < l < all.len() ==> all[j].id != all[l].id,
    ensures
        forall|k: u32| #[trigger] m.contains_key(k) ==> exists|j: int| 0 <= j < all.len() && all[j].id == k,
{
    let ids = all.map_values(|t: DownloadTask| t.id);
    assert forall|j: int, l: int| 0 <= j < l < ids.len() implies ids[j] != ids[l] by {
        assert(ids[j] == all[j].id);
        assert(ids[l] == all[l].id);
    }
    assert(ids.no_duplicates());
    ids.unique_seq_to_set();
    assert(ids.to_set().subset_of(m.dom())) by {
        assert forall|k: u32| ids.to_set().contains(k) implies m.dom().contains(k) by {
            let j = choose|j: int| 0 <= j < ids.len() && ids[j] == k;
            assert(all[j].id == k);
        }
    }
    vstd::set_lib::lemma_subset_equality(ids.to_set(), m.dom());
    assert forall|k: u32| #[trigger] m.contains_key(k) implies exists|j: int| 0 <= j < all.len() && all[j].id == k by {
        assert(ids.to_set().contains(k));
        let j = choose|j: int| 0 <= j < ids.len() && ids[j] == k;
        assert(all[j].id == k);
    }
}

// ---------------------------------------------------------------------------
// Commands on the table
// ---------------------------------------------------------------------------

/// What starting the task `id` gives: the task when it is pending or paused.
pub open spec fn start_check(m: Map<u32, TaskView>, id: u32) -> Result<TaskView, Seq<char>> {
    if !m.contains_key(id) {
        Err("Task not found"@)
    } else if m[id].status != DownloadStatus::Pending && m[id].status != DownloadStatus::Paused {
        Err("Task is not in pending or paused state"@)
    } else {
        Ok(m[id])
    }
}

/// What pausing the task `id` gives: it can only pause while downloading.
pub open spec fn pause_check(m: Map<u32, TaskView>, id: u32) -> Result<(), Seq<char>> {
    if !m.contains_key(id) {
        Err("Task not found"@)
    } else if m[id].status != DownloadStatus::Downloading {
        Err("Task is not downloading"@)
    } else {
        Ok(())
    }
}

/// A pending or a paused task may start, and starting gives the task
/// itself; starting fails exactly for a missing task or one in another
/// state.
pub proof fn law_start_pending_or_paused(m: Map<u32, TaskView>, id: u32)
    ensures
        m.contains_key(id) && (m[id].status == DownloadStatus::Pending || m[id].status
            == DownloadStatus::Paused) ==> start_check(m, id) == Ok::<TaskView, Seq<char>>(m[id]),
        start_check(m, id) is Err <==> !m.contains_key(id) || (m[id].status
            != DownloadStatus::Pending && m[id].status != DownloadStatus::Paused),
        !m.contains_key(id) ==> start_check(m, id) == Err::<TaskView, Seq<char>>("Task not found"@),
{
}

/// Only a downloading task may pause; pausing fails exactly for a missing
/// task or one in another state.
pub proof fn law_pause_only_downloading(m: Map<u32, TaskView>, id: u32)
    ensures
        pause_check(m, id) is Ok <==> m.contains_key(id) && m[id].status
            == DownloadStatus::Downloading,
{
}

impl DownloadManager {
    /// The task `id` if it may start: it must exist and be pending or paused.
    pub fn check_start(&self, id: u32) -> (res: Result<DownloadTask, String>)
        ensures
            match res {
                Ok(t) => start_check(self@, id) == Ok::<TaskView, Seq<char>>(t@),
                Err(e) => start_check(self@, id) == Err::<TaskView, Seq<char>>(e@),
            },
    {
        match self.get_task(id) {
            None => Err(String::from_str("Task not found")),
            Some(t) => {
                if t.status != DownloadStatus::Pending && t.status != DownloadStatus::Paused {
                    Err(String::from_str("Task is not in pending or paused state"))
                } else {
                    Ok(t)
                }
            },
        }
    }

    /// Whether the task `id` may pause: it must exist and be downloading.
    pub fn check_pause(&self, id: u32) -> (res: Result<(), String>)
        ensures
            match res {
                Ok(_) => pause_check(self@, id) == Ok::<(), Seq<char>>(()),
                Err(e) => pause_check(self@, id) == Err::<(), Seq<char>>(e@),
            },
    {
        match self.get_task(id) {
            None => Err(String::from_str("Task not found")),
            Some(t) => {
                if t.status != DownloadStatus::Downloading {
                    Err(String::from_str("Task is not downloading"))
                } else {
                    Ok(())
                }
            },
        }
    }
}

/// A task rebuilt from its stored record: the ids are truncated to `u32`,
/// the sizes read as `u64`, the status from its name.
pub open spec fn record_task(
    id: i64,
    post_id: i32,
    image_url: Seq<char>,
    file_name: Seq<char>,
    file_path: Seq<char>,
    status: Seq<char>,
    downloaded_size: i64,
    total_size: i64,
    error: Option<Seq<char>>,
) -> TaskView {
    TaskView {
        id: id as u32,
        post_id: post_id as u32,
        image_url,
        file_name,
        save_path: file_path,
        status: status_from_name(status),
        downloaded_size: downloaded_size as u64,
        total_size: total_size as u64,
        error,
    }
}

/// Rebuilds a task from the fields of its stored record.
pub fn record_to_task(
    id: i64,
    post_id: i32,
    image_url: String,
    file_name: String,
    file_path: String,
    status: &str,
    downloaded_size: i64,
    total_size: i64,
    error: Option<String>,
) -> (res: DownloadTask)
    ensures
        res@ == record_task(
            id,
            post_id,
            image_url@,
            file_name@,
            file_path@,
            status@,
            downloaded_size,
            total_size,
            match error {
                Some(e) => Some(e@),
                None => None,
            },
        ),
{
    DownloadTask {
        id: id as u32,
        post_id: post_id as u32,
        image_url,
        file_name,
        save_path: file_path,
        status: DownloadStatus::from_name(status),
        downloaded_size: downloaded_size as u64,
        total_size: total_size as u64,
        error,
    }
}

/// Each field of a restored task comes from the record field of the same
/// name (the path from the record's file path, numbers as their unsigned
/// types, the status from its stored name): in particular the downloaded size stays the downloaded size and
/// the total the total.
pub proof fn law_record_fields(
    id: i64,
    post_id: i32,
    image_url: Seq<char>,
    file_name: Seq<char>,
    file_path: Seq<char>,
    status: Seq<char>,
    downloaded_size: i64,
    total_size: i64,
    error: Option<Seq<char>>,
)
    ensures
        ({
            let t = record_task(
                id,
                post_id,
                image_url,
                file_name,
                file_path,
                status,
                downloaded_size,
                total_size,
                error,
            );
            &&& t.id == id as u32
            &&& t.post_id == post_id as u32
            &&& t.image_url == image_url
            &&& t.file_name == file_name
            &&& t.save_path == file_path
            &&& forall|st: DownloadStatus| status == #[trigger] status_name(st) ==> t.status == st
            &&& 0 <= downloaded_size ==> t.downloaded_size == downloaded_size
            &&& 0 <= total_size ==> t.total_size == total_size
            &&& t.error == error
        }),
{
    assert forall|st: DownloadStatus| status == #[trigger] status_name(st) implies status_from_name(
        status,
    ) == st by {
        law_status_name_round_trip(st);
    }
}

/// The largest of the stored ids, 0 when there are none.
pub open spec fn max_id(ids: Seq<i64>) -> i64
    decreases ids.len(),
{
    if ids.len() == 0 {
        0
    } else if ids.len() == 1 {
        ids[0]
    } else if max_id(ids.drop_last()) < ids.last() {
        ids.last()
    } else {
        max_id(ids.drop_last())
    }
}

/// The id given to the next new task after restoring tasks with the ids
/// `ids`: one more than the largest, truncated to `u32`.
pub fn next_task_id(ids: &Vec<i64>) -> (res: u32)
    requires
        (max_id(ids@) as u32) < u32::MAX,
    ensures
        res == (max_id(ids@) as u32) + 1,
{
    if ids.len() == 0 {
        return 1;
    }
    let mut m: i64 = ids[0];
    let mut j: usize = 1;
    assert(ids@.take(1) =~= seq![ids@[0]]);
    while j < ids.len()
        invariant
            1 <= j <= ids.len(),
            m == max_id(ids@.take(j as int)),
        decreases ids.len() - j,
    {
        assert(ids@.take(j + 1).drop_last() =~= ids@.take(j as int));
        if m < ids[j] {
            m = ids[j];
        }
        j += 1;
    }
    assert(ids@.take(j as int) =~= ids@);
    (m as u32) + 1
}

/// The largest id is one of the ids and no id exceeds it.
pub proof fn lemma_max_id(ids: Seq<i64>)
    requires
        ids.len() > 0,
    ensures
        exists|j: int| 0 <= j < ids.len() && ids[j] == max_id(ids),
        forall|j: int| 0 <= j < ids.len() ==> ids[j] <= max_id(ids),
    decreases ids.len(),
{
    if ids.len() > 1 {
        let p = ids.drop_last();
        lemma_max_id(p);
        let k = choose|j: int| 0 <= j < p.len() && p[j] == max_id(p);
        assert(ids[k] == p[k]);
        assert(ids[ids.len() - 1] == ids.last());
        assert forall|j: int| 0 <= j < ids.len() implies ids[j] <= max_id(ids) by {
            if j < ids.len() - 1 {
                assert(ids[j] == p[j]);
            }
        }
    } else {
        assert(ids[0] == max_id(ids));
    }
}

/// The counter that hands out the ids of new tasks.
pub struct TaskIds {
    next: u32,
}

impl View for TaskIds {
    type V = u32;

    /// The id the next new task gets.
    closed spec fn view(&self) -> u32 {
        self.next
    }
}

impl TaskIds {
    /// A counter that starts at 1.
    pub fn new() -> (res: Self)
        ensures
            res@ == 1,
    {
        TaskIds { next: 1 }
    }

    /// Hands out the next id and moves on by one, wrapping past `u32::MAX`.
    pub fn take(&mut self) -> (id: u32)
        ensures
            id == old(self)@,
            final(self)@ == if old(self)@ == u32::MAX {
                0
            } else {
                (old(self)@ + 1) as u32
            },
    {
        let id = self.next;
        self.next = self.next.wrapping_add(1);
        id
    }

    /// After restoring tasks with the ids `ids`, continues one past the
    /// largest of them; with no ids the counter stays as it is.
    pub fn restore(&mut self, ids: &Vec<i64>)
        requires
            ids.len() > 0 ==> (max_id(ids@) as u32) < u32::MAX,
        ensures
            final(self)@ == if ids.len() == 0 {
                old(self)@
            } else {
                ((max_id(ids@) as u32) + 1) as u32
            },
    {
        if ids.len() > 0 {
            self.next = next_task_id(ids);
        }
    }
}

/// Every stored id is below `next`.
pub open spec fn ids_below(m: Map<u32, TaskView>, next: u32) -> bool {
    forall|k: u32| #[trigger] m.contains_key(k) ==> k < next
}

/// Adds a new download: a pending task with nothing downloaded and no
/// error, under the next id that `ids` hands out, stored in `manager`; the
/// result is the task. While the counter stands above every stored id and
/// has not reached `u32::MAX`, the new id is not in the table and the
/// counter again stands above every stored id afterwards.
pub fn add_download_task(
    manager: &mut DownloadManager,
    ids: &mut TaskIds,
    post_id: u32,
    image_url: String,
    file_name: String,
    save_path: String,
) -> (res: Result<DownloadTask, String>)
    ensures
        res matches Ok(t) && t@ == (TaskView {
            id: old(ids)@,
            post_id,
            image_url: image_url@,
            file_name: file_name@,
            save_path: save_path@,
            status: DownloadStatus::Pending,
            downloaded_size: 0,
            total_size: 0,
            error: None,
        }) && final(manager)@ == old(manager)@.insert(t.id, t@),
        final(ids)@ == if old(ids)@ == u32::MAX {
            0
        } else {
            (old(ids)@ + 1) as u32
        },
        ids_below(old(manager)@, old(ids)@) && old(ids)@ < u32::MAX ==> !old(manager)@.contains_key(
            old(ids)@,
        ) && ids_below(final(manager)@, final(ids)@),
{
    let id = ids.take();
    let task = DownloadTask::new(id, post_id, image_url, file_name, save_path);
    let shown = task.copy();
    manager.add_task(task);
    Ok(shown)
}

/// After restoring tasks whose ids fit in `u32`, the counter stands above
/// every restored id.
pub proof fn law_restored_ids_below_next(ids: Seq<i64>, i: int)
    requires
        0 <= i < ids.len(),
        forall|j: int| 0 <= j < ids.len() ==> 0 <= #[trigger] ids[j] <= u32::MAX,
        max_id(ids) < u32::MAX,
    ensures
        ids[i] < (max_id(ids) as u32) + 1,
{
    lemma_max_id(ids);
    let k = choose|j: int| 0 <= j < ids.len() && ids[j] == max_id(ids);
    assert(0 <= ids[k] <= u32::MAX);
    assert((max_id(ids) as u32) == max_id(ids));
}

/// While the counter stands above every stored id and has not reached
/// `u32::MAX`, the id it hands out is not in the table, and after storing
/// a task under it the counter again stands above every stored id.
pub proof fn law_taken_id_is_fresh(m: Map<u32, TaskView>, next: u32, t: TaskView)
    requires
        forall|k: u32| #[trigger] m.contains_key(k) ==> k < next,
        next < u32::MAX,
        t.id == next,
    ensures
        !m.contains_key(next),
        forall|k: u32| #[trigger] m.insert(t.id, t).contains_key(k) ==> k < next + 1,
{
}

// ---------------------------------------------------------------------------
// A running download
// ---------------------------------------------------------------------------

/// Bytes between two progress reports while streaming.
pub const REPORT_EVERY: u64 = 102400;

/// How far a running download has come.
#[derive(Debug, Clone, Copy, PartialEq, Eq, Structural)]
pub enum RunPhase {
    /// Waiting for a download slot.
    Waiting,
    /// Preparing: creating the directory, requesting, creating the file.
    Preparing,
    /// Receiving the body into the temporary file.
    Streaming,
    /// The body was received; the temporary file is being renamed.
    Finishing,
    /// Finished, one way or another.
    Done,
}

/// The state of a running download.
#[derive(Debug, Clone, Copy, PartialEq, Eq, Structural)]
pub struct DownloadRun {
    pub id: u32,
    pub post_id: u32,
    pub phase: RunPhase,
    pub downloaded: u64,
    pub total: u64,
}

/// What happened while running a download. The texts are the `Display`
/// forms of the errors met.
#[derive(Debug)]
pub enum RunEvent {
    /// A download slot was obtained and the cancel channel registered.
    Started,
    /// The directory of the file could not be created.
    DirectoryFailed(String),
    /// The request failed.
    RequestFailed(String),
    /// The response arrived, with its content length if known.
    ResponseReceived(Option<u64>),
    /// The temporary file could not be created.
    FileFailed(String),
    /// The temporary file was created.
    FileCreated,
    /// A cancel signal was seen before the next chunk.
    Cancelled,
    /// A chunk of this many bytes was written.
    ChunkWritten(u64),
    /// Writing a chunk failed.
    WriteFailed(String),
    /// Receiving the body failed.
    StreamFailed(String),
    /// The body was received.
    StreamEnded,
    /// Renaming the temporary file failed.
    RenameFailed(String),
    /// The temporary file was renamed to the target.
    Renamed,
}

/// What the runner does in answer to an event. Progress percentages follow
/// from the status and the byte counts.
#[derive(Debug)]
pub enum RunAction {
    /// Set the task's status in the table.
    SetStatus(DownloadStatus),
    /// Set the task's byte counts in the table (downloaded, total).
    SetProgress(u64, u64),
    /// Mark the task failed with this error in the table.
    SetError(String),
    /// Report progress (status, downloaded, total, error).
    Emit(DownloadStatus, u64, u64, Option<String>),
    /// Store progress (status, downloaded, total).
    Persist(DownloadStatus, u64, u64),
    /// Store the error.
    PersistError(String),
    /// Delete the temporary file.
    RemoveTempFile,
    /// Drop the task's cancel channel.
    RemoveCancelToken,
}

/// The mathematical value of a [`RunAction`].
pub enum ActionView {
    SetStatus(DownloadStatus),
    SetProgress(u64, u64),
    SetError(Seq<char>),
    Emit(DownloadStatus, u64, u64, Option<Seq<char>>),
    Persist(DownloadStatus, u64, u64),
    PersistError(Seq<char>),
    RemoveTempFile,
    RemoveCancelToken,
}

impl View for RunAction {
    type V = ActionView;

    open spec fn view(&self) -> ActionView {
        match self {
            RunAction::SetStatus(s) => ActionView::SetStatus(*s),
            RunAction::SetProgress(d, t) => ActionView::SetProgress(*d, *t),
            RunAction::SetError(e) => ActionView::SetError(e@),
            RunAction::Emit(s, d, t, e) => ActionView::Emit(
                *s,
                *d,
                *t,
                match e {
                    Some(m) => Some(m@),
                    None => None,
                },
            ),
            RunAction::Persist(s, d, t) => ActionView::Persist(*s, *d, *t),
            RunAction::PersistError(e) => ActionView::PersistError(e@),
            RunAction::RemoveTempFile => ActionView::RemoveTempFile,
            RunAction::RemoveCancelToken => ActionView::RemoveCancelToken,
        }
    }
}

/// The views of a list of actions.
pub open spec fn actions_view(v: Seq<RunAction>) -> Seq<ActionView> {
    v.map_values(|a: RunAction| a@)
}

/// A run waiting for a download slot.
pub open spec fn run_start(id: u32, post_id: u32) -> DownloadRun {
    DownloadRun { id, post_id, phase: RunPhase::Waiting, downloaded: 0, total: 0 }
}

/// The answer to a failure with message `msg`: the task fails, the failure
/// is reported with zero counts and stored, and the cancel channel dropped.
pub open spec fn fail_actions(msg: Seq<char>) -> Seq<ActionView> {
    seq![
        ActionView::SetError(msg),
        ActionView::Emit(DownloadStatus::Failed, 0, 0, Some(msg)),
        ActionView::PersistError(msg),
        ActionView::RemoveCancelToken,
    ]
}

/// Whether a chunk of `n` bytes that brought the count to `downloaded` is
/// reported: when it crossed a multiple of the report interval, or finished
/// the body.
pub open spec fn reports_chunk(downloaded: u64, total: u64, n: u64) -> bool {
    downloaded % REPORT_EVERY < n || downloaded == total
}

/// The next state of a run and the actions taken, for one event. Events that
/// do not belong to the current phase change nothing.
pub open spec fn run_step(s: DownloadRun, e: RunEvent) -> (DownloadRun, Seq<ActionView>) {
    let done = DownloadRun { phase: RunPhase::Done, ..s };
    let unchanged = (s, Seq::<ActionView>::empty());
    match s.phase {
        RunPhase::Waiting => match e {
            RunEvent::Started => (
                DownloadRun { phase: RunPhase::Preparing, ..s },
                seq![
                    ActionView::SetStatus(DownloadStatus::Downloading),
                    ActionView::Emit(DownloadStatus::Downloading, 0, 0, None),
                    ActionView::Persist(DownloadStatus::Downloading, 0, 0),
                ],
            ),
            _ => unchanged,
        },
        RunPhase::Preparing => match e {
            RunEvent::DirectoryFailed(m) => (
                done,
                fail_actions("Failed to create directory: "@ + m@),
            ),
            RunEvent::RequestFailed(m) => (done, fail_actions("Request failed: "@ + m@)),
            RunEvent::ResponseReceived(len) => (
                DownloadRun {
                    total: match len {
                        Some(n) => n,
                        None => 0,
                    },
                    ..s
                },
                Seq::empty(),
            ),
            RunEvent::FileFailed(m) => (done, fail_actions("Failed to create file: "@ + m@)),
            RunEvent::FileCreated => (DownloadRun { phase: RunPhase::Streaming, ..s }, Seq::empty()),
            _ => unchanged,
        },
        RunPhase::Streaming => match e {
            RunEvent::Cancelled => (
                done,
                seq![
                    ActionView::SetStatus(DownloadStatus::Paused),
                    ActionView::Emit(DownloadStatus::Paused, s.downloaded, s.total, None),
                    ActionView::RemoveCancelToken,
                ],
            ),
            RunEvent::ChunkWritten(n) => {
                let d = (s.downloaded + n) as u64;
                (
                    DownloadRun { downloaded: d, ..s },
                    seq![ActionView::SetProgress(d, s.total)] + if reports_chunk(d, s.total, n) {
                        seq![
                            ActionView::Emit(DownloadStatus::Downloading, d, s.total, None),
                            ActionView::Persist(DownloadStatus::Downloading, d, s.total),
                        ]
                    } else {
                        Seq::empty()
                    },
                )
            },
            RunEvent::WriteFailed(m) => (
                done,
                fail_actions("Write failed: "@ + m@).push(ActionView::RemoveTempFile),
            ),
            RunEvent::StreamFailed(m) => (
                done,
                fail_actions("Stream error: "@ + m@).push(ActionView::RemoveTempFile),
            ),
            RunEvent::StreamEnded => (DownloadRun { phase: RunPhase::Finishing, ..s }, Seq::empty()),
            _ => unchanged,
        },
        RunPhase::Finishing => match e {
            RunEvent::RenameFailed(m) => (done, fail_actions("Rename failed: "@ + m@)),
            RunEvent::Renamed => (
                done,
                seq![
                    ActionView::SetStatus(DownloadStatus::Completed),
                    ActionView::SetProgress(s.downloaded, s.total),
                    ActionView::Emit(DownloadStatus::Completed, s.downloaded, s.total, None),
                    ActionView::Persist(DownloadStatus::Completed, s.downloaded, s.total),
                    ActionView::RemoveCancelToken,
                ],
            ),
            _ => unchanged,
        },
        RunPhase::Done => unchanged,
    }
}

/// The length the server announces becomes the run's total, 0 when it
/// announces none; the run stays in preparation with nothing counted yet
/// changed, and reports nothing.
pub proof fn law_response_sets_total(s: DownloadRun, len: Option<u64>)
    requires
        s.phase == RunPhase::Preparing,
    ensures
        len matches Some(n) ==> run_step(s, RunEvent::ResponseReceived(len)).0.total == n,
        len is None ==> run_step(s, RunEvent::ResponseReceived(len)).0.total == 0,
        run_step(s, RunEvent::ResponseReceived(len)).0.phase == RunPhase::Preparing,
        run_step(s, RunEvent::ResponseReceived(len)).0.downloaded == s.downloaded,
        run_step(s, RunEvent::ResponseReceived(len)).1.len() == 0,
{
}

/// Only the response sets the total: every other event keeps it. While the
/// body is received and the file renamed, every progress, report and stored
/// state (failures aside) carries that total.
pub proof fn law_total_is_carried(s: DownloadRun, e: RunEvent)
    ensures
        !(e is ResponseReceived) ==> run_step(s, e).0.total == s.total,
        s.phase == RunPhase::Streaming || s.phase == RunPhase::Finishing ==> forall|i: int|
            0 <= i < run_step(s, e).1.len() ==> match #[trigger] run_step(s, e).1[i] {
                ActionView::SetProgress(_, t) => t == s.total,
                ActionView::Emit(st, _, t, _) => st != DownloadStatus::Failed ==> t == s.total,
                ActionView::Persist(_, _, t) => t == s.total,
                _ => true,
            },
{
}

/// A chunk may be added without overflowing the byte count.
pub open spec fn step_fits(s: DownloadRun, e: RunEvent) -> bool {
    match e {
        RunEvent::ChunkWritten(n) => s.downloaded + n <= u64::MAX,
        _ => true,
    }
}

/// The answer to a failure with message `prefix` + `m`.
fn fail_with(prefix: &str, m: &String) -> (res: Vec<RunAction>)
    ensures
        actions_view(res@) == fail_actions(prefix@ + m@),
{
    let mut msg = chars_of(prefix);
    push_all(&mut msg, &chars_of(m.as_str()));
    let mut res: Vec<RunAction> = Vec::new();
    res.push(RunAction::SetError(string_of(&msg)));
    res.push(RunAction::Emit(DownloadStatus::Failed, 0, 0, Some(string_of(&msg))));
    res.push(RunAction::PersistError(string_of(&msg)));
    res.push(RunAction::RemoveCancelToken);
    assert(actions_view(res@) =~= fail_actions(prefix@ + m@));
    res
}

impl DownloadRun {
    /// A run of task `id` (of post `post_id`) waiting for a download slot.
    pub fn new(id: u32, post_id: u32) -> (res: Self)
        ensures
            res == run_start(id, post_id),
    {
        DownloadRun { id, post_id, phase: RunPhase::Waiting, downloaded: 0, total: 0 }
    }

    /// Takes one event: the run moves on as [`run_step`] says and the
    /// actions to perform, in order, are returned.
    pub fn step(&mut self, e: &RunEvent) -> (res: Vec<RunAction>)
        requires
            step_fits(*old(self), *e),
        ensures
            (*final(self), actions_view(res@)) == run_step(*old(self), *e),
    {
        let s = *self;
        let mut res: Vec<RunAction> = Vec::new();
        match s.phase {
            RunPhase::Waiting => match e {
                RunEvent::Started => {
                    self.phase = RunPhase::Preparing;
                    res.push(RunAction::SetStatus(DownloadStatus::Downloading));
                    res.push(RunAction::Emit(DownloadStatus::Downloading, 0, 0, None));
                    res.push(RunAction::Persist(DownloadStatus::Downloading, 0, 0));
                },
                _ => {},
            },
            RunPhase::Preparing => match e {
                RunEvent::DirectoryFailed(m) => {
                    self.phase = RunPhase::Done;
                    res = fail_with("Failed to create directory: ", m);
                },
                RunEvent::RequestFailed(m) => {
                    self.phase = RunPhase::Done;
                    res = fail_with("Request failed: ", m);
                },
                RunEvent::ResponseReceived(len) => {
                    self.total = match len {
                        Some(n) => *n,
                        None => 0,
                    };
                },
                RunEvent::FileFailed(m) => {
                    self.phase = RunPhase::Done;
                    res = fail_with("Failed to create file: ", m);
                },
                RunEvent::FileCreated => {
                    self.phase = RunPhase::Streaming;
                },
                _ => {},
            },
            RunPhase::Streaming => match e {
                RunEvent::Cancelled => {
                    self.phase = RunPhase::Done;
                    res.push(RunAction::SetStatus(DownloadStatus::Paused));
                    res.push(RunAction::Emit(DownloadStatus::Paused, s.downloaded, s.total, None));
                    res.push(RunAction::RemoveCancelToken);
                },
                RunEvent::ChunkWritten(n) => {
                    let d = s.downloaded + *n;
                    self.downloaded = d;
                    res.push(RunAction::SetProgress(d, s.total));
                    if d % REPORT_EVERY < *n || d == s.total {
                        res.push(RunAction::Emit(DownloadStatus::Downloading, d, s.total, None));
                        res.push(RunAction::Persist(DownloadStatus::Downloading, d, s.total));
                    }
                },
                RunEvent::WriteFailed(m) => {
                    self.phase = RunPhase::Done;
                    res = fail_with("Write failed: ", m);
                    res.push(RunAction::RemoveTempFile);
                },
                RunEvent::StreamFailed(m) => {
                    self.phase = RunPhase::Done;
                    res = fail_with("Stream error: ", m);
                    res.push(RunAction::RemoveTempFile);
                },
                RunEvent::StreamEnded => {
                    self.phase = RunPhase::Finishing;
                },
                _ => {},
            },
            RunPhase::Finishing => match e {
                RunEvent::RenameFailed(m) => {
                    self.phase = RunPhase::Done;
                    res = fail_with("Rename failed: ", m);
                },
                RunEvent::Renamed => {
                    self.phase = RunPhase::Done;
                    res.push(RunAction::SetStatus(DownloadStatus::Completed));
                    res.push(RunAction::SetProgress(s.downloaded, s.total));
                    res.push(
                        RunAction::Emit(DownloadStatus::Completed, s.downloaded, s.total, None),
                    );
                    res.push(RunAction::Persist(DownloadStatus::Completed, s.downloaded, s.total));
                    res.push(RunAction::RemoveCancelToken);
                },
                _ => {},
            },
            RunPhase::Done => {},
        }
        proof {
            assert(actions_view(res@) =~= run_step(s, *e).1);
        }
        res
    }
}

/// A run's byte count never goes down, and its task never changes.
pub proof fn law_run_count_monotone(s: DownloadRun, e: RunEvent)
    requires
        step_fits(s, e),
    ensures
        run_step(s, e).0.downloaded >= s.downloaded,
        run_step(s, e).0.id == s.id,
        run_step(s, e).0.post_id == s.post_id,
{
}

/// A finished run ignores every event.
pub proof fn law_run_done_is_final(s: DownloadRun, e: RunEvent)
    requires
        s.phase == RunPhase::Done,
    ensures
        run_step(s, e) == (s, Seq::<ActionView>::empty()),
{
}

/// A run drops its cancel channel exactly when it finishes.
pub proof fn law_run_releases_cancel_on_finish(s: DownloadRun, e: RunEvent)
    requires
        s.phase != RunPhase::Done,
    ensures
        (run_step(s, e).0.phase == RunPhase::Done) <==> run_step(s, e).1.contains(
            ActionView::RemoveCancelToken,
        ),
{
    let r = run_step(s, e);
    if r.0.phase == RunPhase::Done {
        match s.phase {
            RunPhase::Streaming => match e {
                RunEvent::Cancelled => {
                    assert(r.1[2] == ActionView::RemoveCancelToken);
                },
                _ => {
                    assert(r.1[3] == ActionView::RemoveCancelToken);
                },
            },
            RunPhase::Finishing => match e {
                RunEvent::Renamed => {
                    assert(r.1[4] == ActionView::RemoveCancelToken);
                },
                _ => {
                    assert(r.1[3] == ActionView::RemoveCancelToken);
                },
            },
            _ => {
                assert(r.1[3] == ActionView::RemoveCancelToken);
            },
        }
    } else {
        assert forall|k: int| 0 <= k < r.1.len() implies r.1[k] != ActionView::RemoveCancelToken by {
        }
    }
}

/// A run completes only when the temporary file was renamed after the body
/// was received.
pub proof fn law_run_completes_after_rename(s: DownloadRun, e: RunEvent)
    ensures
        run_step(s, e).1.contains(ActionView::SetStatus(DownloadStatus::Completed)) ==> (s.phase
            == RunPhase::Finishing && e is Renamed),
{
    let r = run_step(s, e);
    if r.1.contains(ActionView::SetStatus(DownloadStatus::Completed)) {
        let k = choose|k: int| 0 <= k < r.1.len() && r.1[k] == ActionView::SetStatus(
            DownloadStatus::Completed,
        );
        assert(r.1[k] == ActionView::SetStatus(DownloadStatus::Completed));
    }
}

// ---------------------------------------------------------------------------
// Retrying a download
// ---------------------------------------------------------------------------

/// The number of attempts before giving up.
pub const MAX_RETRIES: u32 = 3;

/// The wait before the second attempt, in milliseconds; it doubles after
/// each further failed attempt.
pub const BASE_DELAY_MS: u64 = 1000;

/// The outcome of one download attempt.
#[derive(Debug, Clone, PartialEq, Eq)]
pub enum DownloadAttempt {
    /// The request could not be made or completed; the error's text.
    TransportError(String),
    /// A response with this HTTP status code.
    Response(u16),
}

/// The mathematical value of a [`DownloadAttempt`].
pub enum AttemptView {
    TransportError(Seq<char>),
    Response(u16),
}

impl View for DownloadAttempt {
    type V = AttemptView;

    open spec fn view(&self) -> AttemptView {
        match self {
            DownloadAttempt::TransportError(m) => AttemptView::TransportError(m@),
            DownloadAttempt::Response(c) => AttemptView::Response(*c),
        }
    }
}

/// What to do after an attempt.
#[derive(Debug)]
pub enum RetryDecision {
    /// Stop with this response.
    Return(DownloadAttempt),
    /// Stop with this error.
    Fail(String),
    /// Wait this many milliseconds, then make the next attempt.
    Wait(u64),
}

/// The mathematical value of a [`RetryDecision`].
pub enum DecisionView {
    Return(AttemptView),
    Fail(Seq<char>),
    Wait(nat),
}

impl View for RetryDecision {
    type V = DecisionView;

    open spec fn view(&self) -> DecisionView {
        match self {
            RetryDecision::Return(a) => DecisionView::Return(a@),
            RetryDecision::Fail(m) => DecisionView::Fail(m@),
            RetryDecision::Wait(ms) => DecisionView::Wait(*ms as nat),
        }
    }
}

/// `2` to the power `n`.
pub open spec fn pow2(n: nat) -> nat
    decreases n,
{
    if n == 0 {
        1
    } else {
        2 * pow2((n - 1) as nat)
    }
}

/// The wait after the failed attempt number `attempt` (counted from 1):
/// one second, doubled for each earlier failed attempt.
pub open spec fn backoff_ms(attempt: u32) -> nat {
    (BASE_DELAY_MS as nat) * pow2(
        if attempt > 0 {
            (attempt - 1) as nat
        } else {
            0
        },
    )
}

/// The status code that `StatusCode::from_u16` accepts (100 to 999), any
/// other number standing for 500.
pub open spec fn effective_status(code: u16) -> u16 {
    if 100 <= code <= 999 {
        code
    } else {
        500
    }
}

/// The reason phrase that `http::StatusCode`'s `Display` writes after the
/// number: the canonical reason, or `<unknown status code>`.
pub uninterp spec fn status_reason(code: u16) -> Seq<char>;

/// `http::StatusCode`'s `Display` for a valid code: the number, a space and
/// the reason phrase.
pub open spec fn status_text(code: u16) -> Seq<char> {
    decimal(code as nat) + " "@ + status_reason(code)
}

/// Whether `reqwest::StatusCode::from_u16(code)` succeeds and the status is a
/// server error (500 to 599).
#[verifier::external_body]
fn is_server_error(code: u16) -> (res: bool)
    ensures
        res == (100 <= code <= 999 && 500 <= code < 600),
{
    reqwest::StatusCode::from_u16(code).map_or(false, |s| s.is_server_error())
}

/// The `Display` text of `reqwest::StatusCode::from_u16(code)`: the code, a
/// space and the reason phrase (named `status_reason`).
#[verifier::external_body]
fn status_display(code: u16) -> (res: String)
    requires
        100 <= code <= 999,
    ensures
        res@ == decimal(code as nat) + " "@ + status_reason(code),
{
    reqwest::StatusCode::from_u16(code).map(|s| s.to_string()).unwrap_or_default()
}

/// What follows the attempt number `attempt` (counted from 1) with the
/// outcome `outcome`: a response that is not a server error is returned; a
/// transport error or a server error is retried after [`backoff_ms`] until
/// the third attempt, then reported; an error of the fetcher itself is
/// reported at once.
pub open spec fn retry_decision(attempt: u32, outcome: Result<AttemptView, Seq<char>>) -> DecisionView {
    match outcome {
        Err(e) => DecisionView::Fail(e),
        Ok(AttemptView::TransportError(msg)) => if attempt >= MAX_RETRIES {
            DecisionView::Fail(
                "Request failed after "@ + decimal(attempt as nat) + " attempt(s): "@ + msg,
            )
        } else {
            DecisionView::Wait(backoff_ms(attempt))
        },
        Ok(AttemptView::Response(code)) => {
            let st = effective_status(code);
            if 500 <= st < 600 {
                if attempt >= MAX_RETRIES {
                    DecisionView::Fail(
                        "Server error "@ + status_text(st) + " after "@ + decimal(
                            MAX_RETRIES as nat,
                        ) + " retries"@,
                    )
                } else {
                    DecisionView::Wait(backoff_ms(attempt))
                }
            } else {
                DecisionView::Return(AttemptView::Response(code))
            }
        },
    }
}

/// The view of an attempt's outcome.
pub open spec fn outcome_view(o: Result<DownloadAttempt, String>) -> Result<AttemptView, Seq<char>> {
    match o {
        Ok(a) => Ok(a@),
        Err(e) => Err(e@),
    }
}

/// [`backoff_ms`] for the attempts before the last.
fn backoff_exec(attempt: u32) -> (res: u64)
    requires
        attempt < MAX_RETRIES,
    ensures
        res as nat == backoff_ms(attempt),
{
    reveal_with_fuel(pow2, 3);
    if attempt <= 1 {
        BASE_DELAY_MS
    } else {
        BASE_DELAY_MS * 2
    }
}

/// Decides what follows an attempt (see [`retry_decision`]).
pub fn retry_step(attempt: u32, outcome: &Result<DownloadAttempt, String>) -> (res: RetryDecision)
    ensures
        res@ == retry_decision(attempt, outcome_view(*outcome)),
{
    match outcome {
        Err(e) => RetryDecision::Fail(copy_string(e)),
        Ok(DownloadAttempt::TransportError(msg)) => {
            if attempt >= MAX_RETRIES {
                let mut m = chars_of("Request failed after ");
                push_all(&mut m, &decimal_u64(attempt as u64));
                push_all(&mut m, &chars_of(" attempt(s): "));
                push_all(&mut m, &chars_of(msg.as_str()));
                RetryDecision::Fail(string_of(&m))
            } else {
                RetryDecision::Wait(backoff_exec(attempt))
            }
        },
        Ok(DownloadAttempt::Response(code)) => {
            let st: u16 = if 100 <= *code && *code <= 999 {
                *code
            } else {
                500
            };
            if is_server_error(st) {
                if attempt >= MAX_RETRIES {
                    let mut m = chars_of("Server error ");
                    push_all(&mut m, &chars_of(status_display(st).as_str()));
                    push_all(&mut m, &chars_of(" after "));
                    push_all(&mut m, &decimal_u64(MAX_RETRIES as u64));
                    push_all(&mut m, &chars_of(" retries"));
                    RetryDecision::Fail(string_of(&m))
                } else {
                    RetryDecision::Wait(backoff_exec(attempt))
                }
            } else {
                RetryDecision::Return(DownloadAttempt::Response(*code))
            }
        },
    }
}

/// The error of a download that was cancelled while retrying.
pub fn cancelled_error() -> (res: String)
    ensures
        res@ == "cancelled"@,
{
    String::from_str("cancelled")
}

/// Attempts are made one after another from the first: waiting is decided
/// only before the third, so no download is attempted more than three times.
pub proof fn law_retry_at_most_three_attempts(attempt: u32, o: Result<AttemptView, Seq<char>>)
    requires
        attempt >= MAX_RETRIES,
    ensures
        !(retry_decision(attempt, o) is Wait),
{
}

/// The waits double: one second after the first attempt, two after the
/// second, four after the third.
pub proof fn law_backoff_doubles(attempt: u32)
    requires
        attempt >= 1,
    ensures
        backoff_ms(1) == 1000,
        backoff_ms(2) == 2000,
        backoff_ms(3) == 4000,
        attempt < u32::MAX ==> backoff_ms((attempt + 1) as u32) == 2 * backoff_ms(attempt),
{
    reveal_with_fuel(pow2, 3);
    if attempt < u32::MAX {
        assert(pow2(attempt as nat) == 2 * pow2((attempt - 1) as nat));
    }
}

/// A server error (500 to 599) or a transport error on the first or second
/// attempt is retried after one second and two seconds respectively; only
/// from the third attempt on is it reported as a failure.
pub proof fn law_server_errors_retried_until_third(attempt: u32, code: u16, msg: Seq<char>)
    requires
        500 <= code < 600,
    ensures
        1 <= attempt < 3 ==> retry_decision(attempt, Ok(AttemptView::Response(code)))
            == DecisionView::Wait(1000 * attempt as nat),
        1 <= attempt < 3 ==> retry_decision(attempt, Ok(AttemptView::TransportError(msg)))
            == DecisionView::Wait(1000 * attempt as nat),
        attempt >= 3 ==> retry_decision(attempt, Ok(AttemptView::Response(code))) is Fail,
        attempt >= 3 ==> retry_decision(attempt, Ok(AttemptView::TransportError(msg))) is Fail,
{
    reveal_with_fuel(pow2, 3);
}

/// A response that is not a server error, 4xx among them, is never retried.
pub proof fn law_no_retry_without_server_error(attempt: u32, code: u16)
    requires
        !(500 <= effective_status(code) < 600),
    ensures
        retry_decision(attempt, Ok(AttemptView::Response(code))) == DecisionView::Return(
            AttemptView::Response(code),
        ),
{
}

} // verus!
