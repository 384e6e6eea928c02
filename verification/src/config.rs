//! The values the client keeps on disk: credentials, project aliases,
//! declared time off and starred tasks, together with the pure
//! copy-on-write operations on them. Reading and writing the file itself
//! is the caller's business; every function here maps configuration
//! values to configuration values.

use vstd::prelude::*;
use vstd::std_specs::cmp::PartialEqSpec;
use vstd::std_specs::cmp::PartialEqSpecImpl;

verus! {

/// The error a configuration-dependent operation reports when no
/// configuration exists yet.
#[derive(Clone, Copy, Debug)]
pub struct NoConfigError;

impl NoConfigError {
    /// The user-facing description of the error.
    pub fn message(&self) -> (r: String)
        ensures
            r@ == "no config file ~/.teamwork"@,
    {
        String::from_str("no config file ~/.teamwork")
    }
}

/// A short name a user gave to a project.
#[derive(Debug)]
pub struct ProjectAlias {
    pub project_id: String,
    pub alias: String,
}

/// A locally declared day off: an ISO `YYYY-MM-DD` date string, as the
/// configuration stores it, and the hours excused on that day.
#[derive(Debug)]
pub struct TimeOff {
    pub date: String,
    pub hours: i32,
}

/// The whole local configuration.
#[derive(Debug)]
pub struct TeamWorkConfig {
    pub company_id: String,
    pub token: String,
    pub project_aliases: Vec<ProjectAlias>,
    pub times_off: Vec<TimeOff>,
    pub starred_tasks: Vec<usize>,
}

impl Clone for ProjectAlias {
    fn clone(&self) -> (r: Self)
        ensures
            r == *self,
    {
        ProjectAlias { project_id: self.project_id.clone(), alias: self.alias.clone() }
    }
}

impl PartialEq for ProjectAlias {
    fn eq(&self, other: &Self) -> (r: bool) {
        self.project_id == other.project_id && self.alias == other.alias
    }
}

impl Eq for ProjectAlias {

}

impl PartialEqSpecImpl for ProjectAlias {
    open spec fn obeys_eq_spec() -> bool {
        true
    }

    open spec fn eq_spec(&self, other: &Self) -> bool {
        self.project_id@ == other.project_id@ && self.alias@ == other.alias@
    }
}

impl Clone for TimeOff {
    fn clone(&self) -> (r: Self)
        ensures
            r == *self,
    {
        TimeOff { date: self.date.clone(), hours: self.hours }
    }
}

impl PartialEq for TimeOff {
    fn eq(&self, other: &Self) -> (r: bool) {
        self.date == other.date && self.hours == other.hours
    }
}

impl Eq for TimeOff {

}

impl PartialEqSpecImpl for TimeOff {
    open spec fn obeys_eq_spec() -> bool {
        true
    }

    open spec fn eq_spec(&self, other: &Self) -> bool {
        self.date@ == other.date@ && self.hours == other.hours
    }
}

/// Whether `x` equals some entry of `s`, entry equality taken from the
/// element type.
pub open spec fn has_match<T: PartialEqSpec>(x: T, s: Seq<T>) -> bool {
    exists|j: int| 0 <= j < s.len() && #[trigger] x.eq_spec(&s[j])
}

/// Equality of two sequences taken as bags of interchangeable entries:
/// same length, and each entry of either side has an equal entry on the
/// other. Duplicates on one side may be matched by a single entry on the
/// other, exactly as comparing the two as sets does.
pub open spec fn set_like_eq<T: PartialEqSpec>(a: Seq<T>, b: Seq<T>) -> bool {
    &&& a.len() == b.len()
    &&& forall|i: int| 0 <= i < a.len() ==> has_match(#[trigger] a[i], b)
    &&& forall|j: int| 0 <= j < b.len() ==> has_match(#[trigger] b[j], a)
}

/// Whether some entry of `v` equals `x`, entry equality taken from the
/// element type.
fn slice_has<T: Eq + PartialEqSpec>(v: &Vec<T>, x: &T) -> (r: bool)
    requires
        T::obeys_eq_spec(),
    ensures
        r == has_match(*x, v@),
{
    let n = v.len();
    let mut i: usize = 0;
    while i < n
        invariant
            i <= n,
            n == v@.len(),
            T::obeys_eq_spec(),
            forall|k: int| 0 <= k < i ==> !#[trigger] x.eq_spec(&v@[k]),
        decreases n - i,
    {
        if *x == v[i] {
            return true;
        }
        i = i + 1;
    }
    false
}

/// Order-insensitive comparison of two arrays: equal lengths and, taken
/// as sets of entries, the same contents.
pub fn array_eq<T: Eq + PartialEqSpec>(a: &Vec<T>, b: &Vec<T>) -> (r: bool)
    requires
        T::obeys_eq_spec(),
    ensures
        r == set_like_eq(a@, b@),
{
    if a.len() != b.len() {
        return false;
    }
    let n = a.len();
    let mut i: usize = 0;
    while i < n
        invariant
            i <= n,
            n == a@.len() == b@.len(),
            T::obeys_eq_spec(),
            forall|k: int| 0 <= k < i ==> has_match(#[trigger] a@[k], b@),
        decreases n - i,
    {
        if !slice_has(b, &a[i]) {
            return false;
        }
        i = i + 1;
    }
    let mut j: usize = 0;
    while j < n
        invariant
            j <= n,
            n == a@.len() == b@.len(),
            T::obeys_eq_spec(),
            forall|k: int| 0 <= k < a@.len() ==> has_match(#[trigger] a@[k], b@),
            forall|k: int| 0 <= k < j ==> has_match(#[trigger] b@[k], a@),
        decreases n - j,
    {
        if !slice_has(a, &b[j]) {
            return false;
        }
        j = j + 1;
    }
    true
}

impl TeamWorkConfig {
    /// The same configuration, field for field and in the same order.
    pub open spec fn same_as(self, other: TeamWorkConfig) -> bool {
        &&& self.company_id@ == other.company_id@
        &&& self.token@ == other.token@
        &&& self.project_aliases@ == other.project_aliases@
        &&& self.times_off@ == other.times_off@
        &&& self.starred_tasks@ == other.starred_tasks@
    }
}

impl Clone for TeamWorkConfig {
    fn clone(&self) -> (r: Self)
        ensures
            r.same_as(*self),
    {
        let r = TeamWorkConfig {
            company_id: self.company_id.clone(),
            token: self.token.clone(),
            project_aliases: self.project_aliases.clone(),
            times_off: self.times_off.clone(),
            starred_tasks: self.starred_tasks.clone(),
        };
        proof {
            assert(r.project_aliases@ =~= self.project_aliases@);
            assert(r.times_off@ =~= self.times_off@);
            assert(r.starred_tasks@ =~= self.starred_tasks@);
        }
        r
    }
}

impl PartialEq for TeamWorkConfig {
    fn eq(&self, other: &Self) -> (r: bool) {
        self.company_id == other.company_id && self.token == other.token && array_eq(
            &self.times_off,
            &other.times_off,
        ) && array_eq(&self.starred_tasks, &other.starred_tasks) && array_eq(
            &self.project_aliases,
            &other.project_aliases,
        )
    }
}

impl PartialEqSpecImpl for TeamWorkConfig {
    open spec fn obeys_eq_spec() -> bool {
        true
    }

    open spec fn eq_spec(&self, other: &Self) -> bool {
        &&& self.company_id@ == other.company_id@
        &&& self.token@ == other.token@
        &&& set_like_eq(self.times_off@, other.times_off@)
        &&& set_like_eq(self.starred_tasks@, other.starred_tasks@)
        &&& set_like_eq(self.project_aliases@, other.project_aliases@)
    }
}

/// No alias among the first `n` carries the given project id.
pub open spec fn no_alias_before(aliases: Seq<ProjectAlias>, pid: Seq<char>, n: int) -> bool {
    forall|k: int| 0 <= k < n ==> (#[trigger] aliases[k]).project_id@ != pid
}

impl TeamWorkConfig {
    /// The first alias declared for the given project, if any.
    pub fn get_alias<'a>(&'a self, project_id: &String) -> (r: Option<&'a ProjectAlias>)
        ensures
            match r {
                Some(a) => {
                    &&& a.project_id@ == project_id@
                    &&& exists|i: int|
                        0 <= i < self.project_aliases@.len() && #[trigger] self.project_aliases@[i]
                            == *a && no_alias_before(self.project_aliases@, project_id@, i)
                },
                None => no_alias_before(
                    self.project_aliases@,
                    project_id@,
                    self.project_aliases@.len() as int,
                ),
            },
    {
        let n = self.project_aliases.len();
        let mut i: usize = 0;
        while i < n
            invariant
                i <= n,
                n == self.project_aliases@.len(),
                no_alias_before(self.project_aliases@, project_id@, i as int),
            decreases n - i,
        {
            if self.project_aliases[i].project_id == *project_id {
                return Some(&self.project_aliases[i]);
            }
            i = i + 1;
        }
        None
    }

    /// A copy of this configuration in which the given date carries the
    /// given time off: any previous declaration for that date is dropped,
    /// and a positive number of hours is recorded anew. Declaring zero or
    /// negative hours thus removes the date.
    pub fn with_time_off(&self, date: String, hours: i32) -> (c: TeamWorkConfig)
        ensures
            c.company_id@ == self.company_id@,
            c.token@ == self.token@,
            c.project_aliases@ == self.project_aliases@,
            c.starred_tasks@ == self.starred_tasks@,
            c.times_off@ == times_off_without(self.times_off@, date@) + (if hours > 0 {
                seq![(TimeOff { date, hours })]
            } else {
                Seq::<TimeOff>::empty()
            }),
    {
        let n = self.times_off.len();
        let mut kept: Vec<TimeOff> = Vec::new();
        let mut i: usize = 0;
        while i < n
            invariant
                i <= n,
                n == self.times_off@.len(),
                kept@ == times_off_without(self.times_off@.take(i as int), date@),
            decreases n - i,
        {
            proof {
                assert(self.times_off@.take(i + 1 as int).drop_last() =~= self.times_off@.take(
                    i as int,
                ));
            }
            if !(self.times_off[i].date == date) {
                kept.push(self.times_off[i].clone());
            }
            i = i + 1;
        }
        proof {
            assert(self.times_off@.take(n as int) =~= self.times_off@);
        }
        if hours > 0 {
            kept.push(TimeOff { date, hours });
        }
        proof {
            if hours > 0 {
                assert(kept@ =~= times_off_without(self.times_off@, date@) + seq![
                    (TimeOff { date, hours }),
                ]);
            } else {
                assert(kept@ =~= times_off_without(self.times_off@, date@)
                    + Seq::<TimeOff>::empty());
            }
        }
        TeamWorkConfig {
            company_id: self.company_id.clone(),
            token: self.token.clone(),
            project_aliases: clone_vec(&self.project_aliases),
            times_off: kept,
            starred_tasks: clone_vec(&self.starred_tasks),
        }
    }
}

/// The declared times off that do not fall on the given date, in their
/// original order.
pub open spec fn times_off_without(s: Seq<TimeOff>, date: Seq<char>) -> Seq<TimeOff>
    decreases s.len(),
{
    if s.len() == 0 {
        s
    } else {
        let rest = times_off_without(s.drop_last(), date);
        if s.last().date@ != date {
            rest.push(s.last())
        } else {
            rest
        }
    }
}

/// The starred tasks other than the given one, in their original order.
pub open spec fn tasks_without(s: Seq<usize>, task_id: usize) -> Seq<usize>
    decreases s.len(),
{
    if s.len() == 0 {
        s
    } else {
        let rest = tasks_without(s.drop_last(), task_id);
        if s.last() != task_id {
            rest.push(s.last())
        } else {
            rest
        }
    }
}

/// A copy of a vector whose element type clones exactly.
fn clone_vec<T: Clone>(v: &Vec<T>) -> (r: Vec<T>)
    requires
        forall|x: T, y: T| vstd::pervasive::cloned::<T>(x, y) ==> x == y,
    ensures
        r@ == v@,
{
    let r = v.clone();
    proof {
        assert(r@ =~= v@);
    }
    r
}

/// The fresh configuration that authentication stores: the credential
/// pair and nothing else yet. The caller persists it.
pub fn save_token_and_company(company_id: &String, token: &String) -> (c: TeamWorkConfig)
    ensures
        c.company_id@ == company_id@,
        c.token@ == token@,
        c.project_aliases@.len() == 0,
        c.times_off@.len() == 0,
        c.starred_tasks@.len() == 0,
{
    TeamWorkConfig {
        company_id: company_id.clone(),
        token: token.clone(),
        project_aliases: Vec::new(),
        times_off: Vec::new(),
        starred_tasks: Vec::new(),
    }
}

/// A copy of the configuration with one more alias declared for a
/// project. The caller persists it.
pub fn save_alias(config: &TeamWorkConfig, project_id: &String, alias: &String) -> (c:
    TeamWorkConfig)
    ensures
        c.company_id@ == config.company_id@,
        c.token@ == config.token@,
        c.times_off@ == config.times_off@,
        c.starred_tasks@ == config.starred_tasks@,
        c.project_aliases@ == config.project_aliases@.push(
            (ProjectAlias { project_id: *project_id, alias: *alias }),
        ),
{
    let mut aliases = clone_vec(&config.project_aliases);
    aliases.push(ProjectAlias { project_id: project_id.clone(), alias: alias.clone() });
    TeamWorkConfig {
        company_id: config.company_id.clone(),
        token: config.token.clone(),
        project_aliases: aliases,
        times_off: clone_vec(&config.times_off),
        starred_tasks: clone_vec(&config.starred_tasks),
    }
}

/// Whether the given task is starred in the configuration.
pub fn is_starred_task(config: &TeamWorkConfig, task_id: usize) -> (r: bool)
    ensures
        r == config.starred_tasks@.contains(task_id),
{
    let n = config.starred_tasks.len();
    let mut i: usize = 0;
    while i < n
        invariant
            i <= n,
            n == config.starred_tasks@.len(),
            forall|k: int| 0 <= k < i ==> config.starred_tasks@[k] != task_id,
        decreases n - i,
    {
        if config.starred_tasks[i] == task_id {
            return true;
        }
        i = i + 1;
    }
    false
}

/// A copy of the configuration with the given task starred. The caller
/// persists it.
pub fn star_task(config: &TeamWorkConfig, task_id: usize) -> (c: TeamWorkConfig)
    ensures
        c.company_id@ == config.company_id@,
        c.token@ == config.token@,
        c.times_off@ == config.times_off@,
        c.project_aliases@ == config.project_aliases@,
        c.starred_tasks@ == config.starred_tasks@.push(task_id),
{
    let mut tasks = clone_vec(&config.starred_tasks);
    tasks.push(task_id);
    TeamWorkConfig {
        company_id: config.company_id.clone(),
        token: config.token.clone(),
        project_aliases: clone_vec(&config.project_aliases),
        times_off: clone_vec(&config.times_off),
        starred_tasks: tasks,
    }
}

/// A copy of the configuration with every star for the given task
/// removed. The caller persists it.
pub fn unstar_task(config: &TeamWorkConfig, task_id: usize) -> (c: TeamWorkConfig)
    ensures
        c.company_id@ == config.company_id@,
        c.token@ == config.token@,
        c.times_off@ == config.times_off@,
        c.project_aliases@ == config.project_aliases@,
        c.starred_tasks@ == tasks_without(config.starred_tasks@, task_id),
{
    let n = config.starred_tasks.len();
    let mut kept: Vec<usize> = Vec::new();
    let mut i: usize = 0;
    while i < n
        invariant
            i <= n,
            n == config.starred_tasks@.len(),
            kept@ == tasks_without(config.starred_tasks@.take(i as int), task_id),
        decreases n - i,
    {
        proof {
            assert(config.starred_tasks@.take(i + 1 as int).drop_last() =~= config.starred_tasks@
                .take(i as int));
        }
        if config.starred_tasks[i] != task_id {
            kept.push(config.starred_tasks[i]);
        }
        i = i + 1;
    }
    proof {
        assert(config.starred_tasks@.take(n as int) =~= config.starred_tasks@);
    }
    TeamWorkConfig {
        company_id: config.company_id.clone(),
        token: config.token.clone(),
        project_aliases: clone_vec(&config.project_aliases),
        times_off: clone_vec(&config.times_off),
        starred_tasks: kept,
    }
}

/// Whether the character sequence `s` begins with `p`.
pub open spec fn starts_with(s: Seq<char>, p: Seq<char>) -> bool {
    s.len() >= p.len() && s.take(p.len() as int) == p
}

/// Whether one string begins with the other.
fn str_starts_with(s: &String, p: &String) -> (r: bool)
    ensures
        r == starts_with(s@, p@),
{
    let sl = s.as_str().unicode_len();
    let pl = p.as_str().unicode_len();
    if sl < pl {
        return false;
    }
    let mut i: usize = 0;
    while i < pl
        invariant
            i <= pl,
            pl == p@.len(),
            sl == s@.len(),
            pl <= sl,
            forall|k: int| 0 <= k < i ==> s@[k] == p@[k],
        decreases pl - i,
    {
        if s.as_str().get_char(i) != p.as_str().get_char(i) {
            proof {
                assert(s@.take(pl as int)[i as int] == s@[i as int]);
            }
            return false;
        }
        i = i + 1;
    }
    proof {
        assert(s@.take(pl as int) =~= p@);
    }
    true
}

/// The declared times off whose date string begins with the given
/// pattern, in their original order.
pub open spec fn times_off_with_prefix(s: Seq<TimeOff>, p: Seq<char>) -> Seq<TimeOff>
    decreases s.len(),
{
    if s.len() == 0 {
        s
    } else {
        let rest = times_off_with_prefix(s.drop_last(), p);
        if starts_with(s.last().date@, p) {
            rest.push(s.last())
        } else {
            rest
        }
    }
}

impl TeamWorkConfig {
    /// The declared times off whose date begins with the given pattern: a
    /// year `YYYY` or a month `YYYY-MM` selects that period's entries.
    pub fn times_off_starting_with(&self, pattern: &String) -> (r: Vec<TimeOff>)
        ensures
            r@ == times_off_with_prefix(self.times_off@, pattern@),
    {
        let n = self.times_off.len();
        let mut picked: Vec<TimeOff> = Vec::new();
        let mut i: usize = 0;
        while i < n
            invariant
                i <= n,
                n == self.times_off@.len(),
                picked@ == times_off_with_prefix(self.times_off@.take(i as int), pattern@),
            decreases n - i,
        {
            proof {
                assert(self.times_off@.take(i + 1 as int).drop_last() =~= self.times_off@.take(
                    i as int,
                ));
            }
            if str_starts_with(&self.times_off[i].date, pattern) {
                picked.push(self.times_off[i].clone());
            }
            i = i + 1;
        }
        proof {
            assert(self.times_off@.take(n as int) =~= self.times_off@);
        }
        picked
    }
}

/// The configuration as the file holds it: the array fields are optional
/// so that files written before a field existed still read back, an
/// absent array meaning an empty one.
#[derive(Debug)]
pub struct SerializableTeamWorkConfig {
    pub company_id: String,
    pub token: String,
    pub project_aliases: Option<Vec<ProjectAlias>>,
    pub times_off: Option<Vec<TimeOff>>,
    pub starred_tasks: Option<Vec<usize>>,
}

impl TeamWorkConfig {
    /// The configuration a stored form denotes: absent arrays read as
    /// empty.
    pub fn from_serializable(stored: SerializableTeamWorkConfig) -> (c: TeamWorkConfig)
        ensures
            c.company_id@ == stored.company_id@,
            c.token@ == stored.token@,
            c.project_aliases@ == (match stored.project_aliases {
                Some(v) => v@,
                None => Seq::<ProjectAlias>::empty(),
            }),
            c.times_off@ == (match stored.times_off {
                Some(v) => v@,
                None => Seq::<TimeOff>::empty(),
            }),
            c.starred_tasks@ == (match stored.starred_tasks {
                Some(v) => v@,
                None => Seq::<usize>::empty(),
            }),
    {
        let project_aliases = match stored.project_aliases {
            Some(v) => v,
            None => Vec::new(),
        };
        let times_off = match stored.times_off {
            Some(v) => v,
            None => Vec::new(),
        };
        let starred_tasks = match stored.starred_tasks {
            Some(v) => v,
            None => Vec::new(),
        };
        proof {
            if stored.project_aliases is None {
                assert(project_aliases@ =~= Seq::<ProjectAlias>::empty());
            }
            if stored.times_off is None {
                assert(times_off@ =~= Seq::<TimeOff>::empty());
            }
            if stored.starred_tasks is None {
                assert(starred_tasks@ =~= Seq::<usize>::empty());
            }
        }
        TeamWorkConfig {
            company_id: stored.company_id,
            token: stored.token,
            project_aliases,
            times_off,
            starred_tasks,
        }
    }
}

impl SerializableTeamWorkConfig {
    /// The stored form of a configuration: every array present.
    pub fn from_config(config: &TeamWorkConfig) -> (s: SerializableTeamWorkConfig)
        ensures
            s.company_id@ == config.company_id@,
            s.token@ == config.token@,
            s.project_aliases matches Some(v) && v@ == config.project_aliases@,
            s.times_off matches Some(v) && v@ == config.times_off@,
            s.starred_tasks matches Some(v) && v@ == config.starred_tasks@,
    {
        SerializableTeamWorkConfig {
            company_id: config.company_id.clone(),
            token: config.token.clone(),
            project_aliases: Some(clone_vec(&config.project_aliases)),
            times_off: Some(clone_vec(&config.times_off)),
            starred_tasks: Some(clone_vec(&config.starred_tasks)),
        }
    }
}

} // verus!
