//! The shapes the remote service exchanges with the client — accounts,
//! projects, task lists, tasks, time entries — held as plain values, and
//! the service value that carries the credentials every request needs.
//! The transport itself lives with the caller; everything here is a pure
//! function of its inputs.

use vstd::prelude::*;
use crate::config::TeamWorkConfig;
use crate::date::WorkDate;
use crate::date::is_digit;
use crate::duration::dec_val;
use crate::duration::lemma_dec_val_take_le;
use crate::duration::lemma_dec_val_take_nonneg;

verus! {

/// The identity the remote service reports for the stored credentials.
#[derive(Debug)]
pub struct Account {
    pub id: String,
}

/// The envelope the account endpoint answers with.
#[derive(Debug)]
pub struct AccountResponse {
    pub status: String,
    pub account: Account,
}

/// One project of the remote system.
#[derive(Debug)]
pub struct Project {
    pub id: String,
    pub name: String,
}

/// The envelope the project-listing endpoint answers with.
#[derive(Debug)]
pub struct ProjectsResponse {
    pub status: String,
    pub projects: Vec<Project>,
}

/// One task list of a project.
#[derive(Debug)]
pub struct TaskList {
    pub id: String,
    pub name: String,
    pub uncompleted_count: u32,
}

/// The envelope the task-list endpoint answers with.
#[derive(Debug)]
pub struct TasklistsResponse {
    pub status: String,
    pub tasklists: Vec<TaskList>,
}

/// One task, with its sub-tasks nested under it.
#[derive(Debug)]
pub struct Task {
    pub id: usize,
    pub name: String,
    pub sub_tasks: Vec<Task>,
}

/// The envelope the task-listing endpoint answers with.
#[derive(Debug)]
pub struct TasksResponse {
    pub status: String,
    pub tasks: Vec<Task>,
}

/// One recorded time entry, its timestamp already normalized to the
/// calendar date it falls on.
#[derive(Debug)]
pub struct TimeEntry {
    pub id: String,
    pub description: String,
    pub date: WorkDate,
    pub hours: i32,
    pub project_id: String,
    pub project_name: String,
    pub todo_list_id: String,
    pub todo_list_name: String,
    pub todo_item_id: String,
    pub todo_item_name: String,
}

/// The envelope the time-entry listing answers with.
#[derive(Debug)]
pub struct TimeEntriesResponse {
    pub status: String,
    pub time_entries: Vec<TimeEntry>,
}

/// The fields a time-entry creation sends, all as the wire carries them.
#[derive(Debug)]
pub struct TimeEntryInput {
    pub description: String,
    pub person_id: String,
    pub date: String,
    pub time: String,
    pub hours: String,
    pub minutes: String,
}

/// What the remote service answers to a time-entry creation: an
/// identifier when one was assigned, and an advisory status string of
/// which only `OK` marks success.
#[derive(Debug)]
pub struct TimeEntryCreatedResponse {
    pub id: Option<String>,
    pub status: String,
}

/// The credential pair every request carries: the company subdomain and
/// the token used for basic authentication.
#[derive(Debug)]
pub struct HttpClient {
    pub company_id: String,
    pub token: String,
}

impl HttpClient {
    /// Takes the credentials out of the configuration.
    pub fn new(config: &TeamWorkConfig) -> (c: HttpClient)
        ensures
            c.company_id@ == config.company_id@,
            c.token@ == config.token@,
    {
        HttpClient { company_id: config.company_id.clone(), token: config.token.clone() }
    }
}

/// The client side of the remote service: the credentials, and the pure
/// computations on what the service answers.
#[derive(Debug)]
pub struct TeamWorkService {
    pub client: HttpClient,
}

impl TeamWorkService {
    pub fn new(config: &TeamWorkConfig) -> (s: TeamWorkService)
        ensures
            s.client.company_id@ == config.company_id@,
            s.client.token@ == config.token@,
    {
        TeamWorkService { client: HttpClient::new(config) }
    }

    /// The full address of an endpoint: the per-company subdomain
    /// followed by the endpoint's path.
    pub fn base_url(&self, path: &str) -> (r: String)
        ensures
            r@ == "https://"@ + self.client.company_id@ + ".eu.teamwork.com/"@ + path@,
    {
        let url = String::from_str("https://");
        let url = url.concat(self.client.company_id.as_str());
        let url = url.concat(".eu.teamwork.com/");
        let url = url.concat(path);
        url
    }
}

/// A non-empty run of decimal digits whose value fits the machine's
/// index type.
pub open spec fn is_usize_numeral(s: Seq<char>) -> bool {
    &&& s.len() > 0
    &&& forall|i: int| 0 <= i < s.len() ==> is_digit(#[trigger] s[i])
    &&& dec_val(s) <= usize::MAX
}

/// The scanner's saturation bound: one past the largest index value, so
/// a capped count is known not to fit.
pub open spec fn capped_at_word(v: int) -> int {
    if v < 0x1_0000_0000_0000_0000 {
        v
    } else {
        0x1_0000_0000_0000_0000
    }
}

/// Decides whether a string is a numeral that [`TimeEntry::task`] and
/// [`TeamWorkService::last_used_tasks`] accept: digits only, at least
/// one, with a value the index type can hold.
pub fn is_valid_task_number(s: &String) -> (r: bool)
    ensures
        r == is_usize_numeral(s@),
{
    let n = s.as_str().unicode_len();
    if n == 0 {
        return false;
    }
    let mut acc: u128 = 0;
    let mut i: usize = 0;
    while i < n
        invariant
            i <= n,
            n == s@.len(),
            forall|k: int| 0 <= k < i ==> is_digit(#[trigger] s@[k]),
            acc == capped_at_word(dec_val(s@.take(i as int))),
            acc <= 0x1_0000_0000_0000_0000u128,
        decreases n - i,
    {
        let c = s.as_str().get_char(i);
        let u = c as u32;
        if !(48 <= u && u <= 57) {
            return false;
        }
        proof {
            assert(s@.take(i + 1 as int).drop_last() =~= s@.take(i as int));
        }
        let next = 10 * acc + ((u - 48) as u128);
        acc = if next >= 0x1_0000_0000_0000_0000u128 {
            0x1_0000_0000_0000_0000u128
        } else {
            next
        };
        i = i + 1;
    }
    proof {
        assert(s@.take(n as int) =~= s@);
    }
    acc <= usize::MAX as u128
}

/// Reads a decimal numeral whose value is known to fit.
fn parse_usize(s: &String) -> (r: usize)
    requires
        is_usize_numeral(s@),
    ensures
        r == dec_val(s@),
{
    let n = s.as_str().unicode_len();
    let mut acc: usize = 0;
    let mut i: usize = 0;
    while i < n
        invariant
            i <= n,
            n == s@.len(),
            is_usize_numeral(s@),
            acc == dec_val(s@.take(i as int)),
        decreases n - i,
    {
        let c = s.as_str().get_char(i);
        let dv = (c as u32) - 48;
        proof {
            assert(s@.take(i + 1 as int).drop_last() =~= s@.take(i as int));
            lemma_dec_val_take_nonneg(s@, i as int);
            lemma_dec_val_take_le(s@, i + 1 as int);
        }
        acc = acc * 10 + (dv as usize);
        i = i + 1;
    }
    proof {
        assert(s@.take(n as int) =~= s@);
    }
    acc
}

impl TimeEntry {
    /// The hours this entry records.
    pub fn hours(&self) -> (r: i32)
        ensures
            r == self.hours,
    {
        self.hours
    }

    /// The task this entry was recorded under, rebuilt from the entry's
    /// item fields; its identifier must be the numeral the wire carries.
    pub fn task(&self) -> (t: Task)
        requires
            is_usize_numeral(self.todo_item_id@),
        ensures
            t.id == dec_val(self.todo_item_id@),
            t.name@ == self.todo_item_name@,
            t.sub_tasks@.len() == 0,
    {
        let id = parse_usize(&self.todo_item_id);
        Task { id, name: self.todo_item_name.clone(), sub_tasks: Vec::new() }
    }
}

/// What identifies a task in a listing: its numeral identifier and its
/// name.
pub open spec fn spec_task_key(e: TimeEntry) -> (int, Seq<char>) {
    (dec_val(e.todo_item_id@), e.todo_item_name@)
}

/// The distinct tasks of a run of time entries, first occurrence first.
pub open spec fn last_used_keys(entries: Seq<TimeEntry>) -> Seq<(int, Seq<char>)>
    decreases entries.len(),
{
    if entries.len() == 0 {
        Seq::empty()
    } else {
        let rest = last_used_keys(entries.drop_last());
        if rest.contains(spec_task_key(entries.last())) {
            rest
        } else {
            rest.push(spec_task_key(entries.last()))
        }
    }
}

/// Whether the tasks built so far already carry the given key.
fn tasks_contain(tasks: &Vec<Task>, id: usize, name: &String) -> (r: bool)
    ensures
        r == exists|j: int|
            0 <= j < tasks@.len() && ((#[trigger] tasks@[j]).id == id && tasks@[j].name@ == name@),
{
    let n = tasks.len();
    let mut i: usize = 0;
    while i < n
        invariant
            i <= n,
            n == tasks@.len(),
            forall|k: int|
                0 <= k < i ==> !((#[trigger] tasks@[k]).id == id && tasks@[k].name@ == name@),
        decreases n - i,
    {
        if tasks[i].id == id && tasks[i].name == *name {
            return true;
        }
        i = i + 1;
    }
    false
}

impl TeamWorkService {
    /// The distinct tasks that a run of recently fetched time entries
    /// was recorded under, each kept at its first appearance, in order.
    pub fn last_used_tasks(&self, time_entries: &Vec<TimeEntry>) -> (r: Vec<Task>)
        requires
            forall|i: int|
                0 <= i < time_entries@.len() ==> is_usize_numeral(
                    (#[trigger] time_entries@[i]).todo_item_id@,
                ),
        ensures
            r@.len() == last_used_keys(time_entries@).len(),
            forall|j: int|
                0 <= j < r@.len() ==> ((#[trigger] r@[j]).id as int, r@[j].name@)
                    == last_used_keys(time_entries@)[j] && r@[j].sub_tasks@.len() == 0,
    {
        let n = time_entries.len();
        let mut tasks: Vec<Task> = Vec::new();
        let mut i: usize = 0;
        while i < n
            invariant
                i <= n,
                n == time_entries@.len(),
                forall|k: int|
                    0 <= k < n ==> is_usize_numeral((#[trigger] time_entries@[k]).todo_item_id@),
                tasks@.len() == last_used_keys(time_entries@.take(i as int)).len(),
                forall|j: int|
                    0 <= j < tasks@.len() ==> ((#[trigger] tasks@[j]).id as int, tasks@[j].name@)
                        == last_used_keys(time_entries@.take(i as int))[j] && tasks@[j].sub_tasks@
                        .len() == 0,
            decreases n - i,
        {
            let ghost before = last_used_keys(time_entries@.take(i as int));
            proof {
                assert(time_entries@.take(i + 1 as int).drop_last() =~= time_entries@.take(
                    i as int,
                ));
            }
            let task = time_entries[i].task();
            let ghost key = spec_task_key(time_entries@[i as int]);
            let present = tasks_contain(&tasks, task.id, &task.name);
            proof {
                if present {
                    let j = choose|j: int|
                        0 <= j < tasks@.len() && ((#[trigger] tasks@[j]).id == task.id
                            && tasks@[j].name@ == task.name@);
                    assert(before[j] == key);
                    assert(before.contains(key));
                } else {
                    if before.contains(key) {
                        let j = choose|j: int| 0 <= j < before.len() && before[j] == key;
                        assert(((tasks@[j]).id == task.id && tasks@[j].name@ == task.name@));
                    }
                }
            }
            if !present {
                tasks.push(task);
            }
            i = i + 1;
        }
        proof {
            assert(time_entries@.take(n as int) =~= time_entries@);
        }
        tasks
    }
}

} // verus!
