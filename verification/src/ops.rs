//! Operations on loaded collections: find, update, link, delete and list
//! filtering. These are the command handlers' decision logic; reading and
//! writing the collections is the caller's business.

use vstd::prelude::*;
use crate::errors::VaultError;
use crate::idea::{Idea, IdeaStatus};
use crate::project::{Project, ProjectStatus};
use crate::task::{Task, TaskStatus, TaskPriority};
use crate::text::{contains_str, str_eq};

verus! {

/// Whether some idea in the list bears the identity.
pub open spec fn has_idea(ideas: Seq<Idea>, id: u128) -> bool {
    exists|j: int| 0 <= j < ideas.len() && ideas[j].id == id
}

/// Whether some project in the list bears the identity.
pub open spec fn has_project(projects: Seq<Project>, id: u128) -> bool {
    exists|j: int| 0 <= j < projects.len() && projects[j].id == id
}

/// Whether some task in the list bears the identity.
pub open spec fn has_task(tasks: Seq<Task>, id: u128) -> bool {
    exists|j: int| 0 <= j < tasks.len() && tasks[j].id == id
}

/// The position of the first idea bearing the identity, if any.
pub fn find_idea_index(ideas: &Vec<Idea>, id: u128) -> (r: Option<usize>)
    ensures
        match r {
            Some(i) => 0 <= i < ideas@.len() && ideas@[i as int].id == id
                && (forall|j: int| 0 <= j < i ==> ideas@[j].id != id),
            None => !has_idea(ideas@, id),
        },
{
    let n = ideas.len();
    let mut i: usize = 0;
    while i < n
        invariant
            n == ideas@.len(),
            i <= n,
            forall|j: int| 0 <= j < i ==> ideas@[j].id != id,
        decreases n - i,
    {
        if ideas[i].id == id {
            return Some(i);
        }
        i = i + 1;
    }
    None
}

/// The position of the first project bearing the identity, if any.
pub fn find_project_index(projects: &Vec<Project>, id: u128) -> (r: Option<usize>)
    ensures
        match r {
            Some(i) => 0 <= i < projects@.len() && projects@[i as int].id == id
                && (forall|j: int| 0 <= j < i ==> projects@[j].id != id),
            None => !has_project(projects@, id),
        },
{
    let n = projects.len();
    let mut i: usize = 0;
    while i < n
        invariant
            n == projects@.len(),
            i <= n,
            forall|j: int| 0 <= j < i ==> projects@[j].id != id,
        decreases n - i,
    {
        if projects[i].id == id {
            return Some(i);
        }
        i = i + 1;
    }
    None
}

/// The position of the first task bearing the identity, if any.
pub fn find_task_index(tasks: &Vec<Task>, id: u128) -> (r: Option<usize>)
    ensures
        match r {
            Some(i) => 0 <= i < tasks@.len() && tasks@[i as int].id == id
                && (forall|j: int| 0 <= j < i ==> tasks@[j].id != id),
            None => !has_task(tasks@, id),
        },
{
    let n = tasks.len();
    let mut i: usize = 0;
    while i < n
        invariant
            n == tasks@.len(),
            i <= n,
            forall|j: int| 0 <= j < i ==> tasks@[j].id != id,
        decreases n - i,
    {
        if tasks[i].id == id {
            return Some(i);
        }
        i = i + 1;
    }
    None
}

fn not_found_error(id: u128, kind: &str) -> (e: VaultError)
    ensures
        e is NotFound,
{
    let mut m = String::from_str(kind);
    m.append(" with ID ");
    let ids = crate::ids::id_string(id);
    m.append(ids.as_str());
    m.append(" not found");
    VaultError::NotFound { message: m }
}

fn invalid_clear_error(field: &String, valid: &str) -> (e: VaultError)
    ensures
        e is Validation,
{
    let mut m = String::from_str("Cannot clear '");
    m.append(field.as_str());
    m.append("'. Valid fields: ");
    m.append(valid);
    VaultError::Validation { message: m }
}

/// Field updates requested for one idea; `None` leaves a field alone, and
/// `clear` names optional fields to empty afterwards.
#[derive(Debug, Clone)]
pub struct IdeaUpdateArgs {
    pub id: u128,
    pub title: Option<String>,
    pub description: Option<String>,
    pub status: Option<IdeaStatus>,
    pub clear: Vec<String>,
}

/// Whether every name in `clear` is one of the clearable fields.
pub open spec fn clear_ok(clear: Seq<String>, allowed: Seq<Seq<char>>) -> bool {
    forall|j: int| 0 <= j < clear.len() ==> allowed.contains(clear[j]@)
}

/// Whether `clear` names the field.
pub open spec fn clears(clear: Seq<String>, field: Seq<char>) -> bool {
    exists|j: int| 0 <= j < clear.len() && clear[j]@ == field
}

fn check_clear_fields(clear: &Vec<String>, allowed: &str) -> (r: bool)
    ensures
        r == clear_ok(clear@, seq![allowed@]),
{
    let n = clear.len();
    let mut i: usize = 0;
    while i < n
        invariant
            n == clear@.len(),
            i <= n,
            forall|j: int| 0 <= j < i ==> clear@[j]@ == allowed@,
        decreases n - i,
    {
        if !str_eq(clear[i].as_str(), allowed) {
            proof {
                assert(!seq![allowed@].contains(clear@[i as int]@));
            }
            return false;
        }
        i = i + 1;
    }
    proof {
        assert forall|j: int| 0 <= j < clear@.len() implies seq![allowed@].contains(
            clear@[j]@,
        ) by {
            assert(seq![allowed@][0] == allowed@);
        }
    }
    true
}

fn clear_names(clear: &Vec<String>, field: &str) -> (r: bool)
    ensures
        r == clears(clear@, field@),
{
    crate::text::has_str(clear, field)
}

/// Apply an update to the idea with the given identity.
///
/// Validation of the `clear` list comes first; only "description" may be
/// cleared. Then the idea is looked up, and its fields are set from the
/// arguments and cleared, in that order. A request naming no change leaves
/// the collection untouched.
pub fn update_idea(ideas: &mut Vec<Idea>, args: &IdeaUpdateArgs) -> (r: Result<(), VaultError>)
    ensures
        r is Err <==> (!clear_ok(args.clear@, seq!["description"@]) || !has_idea(
            old(ideas)@,
            args.id,
        )),
        !clear_ok(args.clear@, seq!["description"@]) <==> (r matches Err(e) && e is Validation),
        (clear_ok(args.clear@, seq!["description"@]) && !has_idea(old(ideas)@, args.id)) <==> (
        r matches Err(e) && e is NotFound),
        r is Err ==> final(ideas)@ == old(ideas)@,
        r is Ok ==> exists|j: int|
            {
                &&& 0 <= j < old(ideas)@.len()
                &&& old(ideas)@[j].id == args.id
                &&& (forall|k: int| 0 <= k < j ==> old(ideas)@[k].id != args.id)
                &&& final(ideas)@ == old(ideas)@.update(j, final(ideas)@[j])
                &&& idea_updated(old(ideas)@[j], final(ideas)@[j], *args)
            },
{
    if !check_clear_fields(&args.clear, "description") {
        let e = invalid_clear_error(&args.clear[first_bad_clear(&args.clear, "description")],
            "description");
        return Err(e);
    }
    let idx = match find_idea_index(ideas, args.id) {
        Some(i) => i,
        None => {
            return Err(not_found_error(args.id, "Idea"));
        },
    };
    let no_changes = matches!(args.title, Option::None) && matches!(
        args.description,
        Option::None,
    ) && matches!(args.status, Option::None) && args.clear.len() == 0;
    if no_changes {
        proof {
            assert(final(ideas)@ =~= old(ideas)@.update(idx as int, final(ideas)@[idx as int]));
        }
        return Ok(());
    }
    let mut idea = ideas.remove(idx);
    match &args.title {
        Some(t) => idea.update_title(t.clone()),
        None => {},
    }
    match &args.description {
        Some(d) => idea.update_description(Some(d.clone())),
        None => {},
    }
    match &args.status {
        Some(st) => idea.set_status(*st),
        None => {},
    }
    if clear_names(&args.clear, "description") {
        idea.update_description(None);
    }
    ideas.insert(idx, idea);
    proof {
        assert(final(ideas)@ =~= old(ideas)@.update(idx as int, final(ideas)@[idx as int]));
    }
    Ok(())
}

/// How an updated idea relates to the one it replaces.
pub open spec fn idea_updated(o: Idea, n: Idea, args: IdeaUpdateArgs) -> bool {
    &&& n.id == o.id
    &&& n.created_at == o.created_at
    &&& n.tags == o.tags
    &&& n.title == (if args.title is Some {
        args.title->Some_0
    } else {
        o.title
    })
    &&& n.description == (if clears(args.clear@, "description"@) {
        Option::<String>::None
    } else if args.description is Some {
        args.description
    } else {
        o.description
    })
    &&& n.status == (if args.status is Some {
        args.status->Some_0
    } else {
        o.status
    })
    &&& n.updated_at >= o.updated_at
    &&& (o.wf() ==> n.wf())
    &&& ((args.title is None && args.description is None && args.status is None
        && args.clear.len() == 0) ==> n == o)
}

/// Field updates requested for one project.
#[derive(Debug, Clone)]
pub struct UpdateProjectArgs {
    pub id: u128,
    pub title: Option<String>,
    pub description: Option<String>,
    pub milestone: Option<String>,
    pub url: Option<String>,
    pub repo: Option<String>,
    pub status: Option<ProjectStatus>,
    pub clear: Vec<String>,
}

/// The fields of a project that may be cleared.
pub open spec fn project_clearable() -> Seq<Seq<char>> {
    seq!["description"@, "milestone"@, "url"@, "repo"@]
}

fn check_project_clear(clear: &Vec<String>) -> (r: bool)
    ensures
        r == clear_ok(clear@, project_clearable()),
{
    let n = clear.len();
    let mut i: usize = 0;
    while i < n
        invariant
            n == clear@.len(),
            i <= n,
            forall|j: int| 0 <= j < i ==> project_clearable().contains(clear@[j]@),
        decreases n - i,
    {
        let c = &clear[i];
        let ok = str_eq(c.as_str(), "description") || str_eq(c.as_str(), "milestone") || str_eq(
            c.as_str(),
            "url",
        ) || str_eq(c.as_str(), "repo");
        if !ok {
            proof {
                assert(forall|k: int| 0 <= k < 4 ==> project_clearable()[k] != clear@[i as int]@);
            }
            return false;
        }
        proof {
            if c@ == "description"@ {
                assert(project_clearable()[0] == c@);
            } else if c@ == "milestone"@ {
                assert(project_clearable()[1] == c@);
            } else if c@ == "url"@ {
                assert(project_clearable()[2] == c@);
            } else {
                assert(project_clearable()[3] == c@);
            }
        }
        i = i + 1;
    }
    true
}

/// How an updated project relates to the one it replaces.
pub open spec fn project_updated(o: Project, n: Project, args: UpdateProjectArgs) -> bool {
    &&& n.id == o.id
    &&& n.created_at == o.created_at
    &&& n.idea_ids == o.idea_ids
    &&& n.title == (if args.title is Some {
        args.title->Some_0
    } else {
        o.title
    })
    &&& n.description == (if clears(args.clear@, "description"@) {
        Option::<String>::None
    } else if args.description is Some {
        args.description
    } else {
        o.description
    })
    &&& n.milestone == (if clears(args.clear@, "milestone"@) {
        Option::<String>::None
    } else if args.milestone is Some {
        args.milestone
    } else {
        o.milestone
    })
    &&& n.url == (if clears(args.clear@, "url"@) {
        Option::<String>::None
    } else if args.url is Some {
        args.url
    } else {
        o.url
    })
    &&& n.repo == (if clears(args.clear@, "repo"@) {
        Option::<String>::None
    } else if args.repo is Some {
        args.repo
    } else {
        o.repo
    })
    &&& n.status == (if args.status is Some {
        args.status->Some_0
    } else {
        o.status
    })
    &&& n.updated_at >= o.updated_at
    &&& (o.wf() ==> n.wf())
    &&& ((args.title is None && args.description is None && args.milestone is None
        && args.url is None && args.repo is None && args.status is None && args.clear.len()
        == 0) ==> n == o)
}

/// Apply an update to the project with the given identity. Validation of
/// the `clear` list comes first; then lookup; then the fields are set and
/// cleared, in that order.
#[verifier::rlimit(60)]
pub fn update_project(projects: &mut Vec<Project>, args: &UpdateProjectArgs) -> (r: Result<
    (),
    VaultError,
>)
    ensures
        r is Err <==> (!clear_ok(args.clear@, project_clearable()) || !has_project(
            old(projects)@,
            args.id,
        )),
        !clear_ok(args.clear@, project_clearable()) <==> (r matches Err(e) && e is Validation),
        (clear_ok(args.clear@, project_clearable()) && !has_project(old(projects)@, args.id))
            <==> (r matches Err(e) && e is NotFound),
        r is Err ==> final(projects)@ == old(projects)@,
        r is Ok ==> exists|j: int|
            {
                &&& 0 <= j < old(projects)@.len()
                &&& old(projects)@[j].id == args.id
                &&& (forall|k: int| 0 <= k < j ==> old(projects)@[k].id != args.id)
                &&& final(projects)@ == old(projects)@.update(j, final(projects)@[j])
                &&& project_updated(old(projects)@[j], final(projects)@[j], *args)
            },
{
    if !check_project_clear(&args.clear) {
        return Err(VaultError::Validation {
            message: String::from_str(
                "Cannot clear that field. Valid fields: description, milestone, url, repo",
            ),
        });
    }
    let idx = match find_project_index(projects, args.id) {
        Some(i) => i,
        None => {
            return Err(not_found_error(args.id, "Project"));
        },
    };
    let no_changes = matches!(args.title, Option::None) && matches!(
        args.description,
        Option::None,
    ) && matches!(args.milestone, Option::None) && matches!(args.url, Option::None) && matches!(
        args.repo,
        Option::None,
    ) && matches!(args.status, Option::None) && args.clear.len() == 0;
    if no_changes {
        proof {
            assert(final(projects)@ =~= old(projects)@.update(
                idx as int,
                final(projects)@[idx as int],
            ));
        }
        return Ok(());
    }
    let mut project = projects.remove(idx);
    match &args.title {
        Some(t) => project.update_title(t.clone()),
        None => {},
    }
    match &args.description {
        Some(d) => project.update_description(Some(d.clone())),
        None => {},
    }
    match &args.milestone {
        Some(m) => project.update_milestone(Some(m.clone())),
        None => {},
    }
    match &args.url {
        Some(u) => project.set_url(Some(u.clone())),
        None => {},
    }
    match &args.repo {
        Some(rp) => project.set_repo(Some(rp.clone())),
        None => {},
    }
    match &args.status {
        Some(st) => project.set_status(*st),
        None => {},
    }
    if clear_names(&args.clear, "description") {
        project.update_description(None);
    }
    if clear_names(&args.clear, "milestone") {
        project.update_milestone(None);
    }
    if clear_names(&args.clear, "url") {
        project.set_url(None);
    }
    if clear_names(&args.clear, "repo") {
        project.set_repo(None);
    }
    projects.insert(idx, project);
    proof {
        assert(final(projects)@ =~= old(projects)@.update(
            idx as int,
            final(projects)@[idx as int],
        ));
    }
    Ok(())
}

/// Field updates requested for one task; the due date comes as text, and
/// the literal "clear" (in any case) empties it.
#[derive(Debug, Clone)]
pub struct TaskUpdateArgs {
    pub id: u128,
    pub title: Option<String>,
    pub description: Option<String>,
    pub priority: Option<TaskPriority>,
    pub due_date: Option<String>,
    pub status: Option<TaskStatus>,
    pub tags: Option<Vec<String>>,
    pub clear: Vec<String>,
}

/// The fields of a task that may be cleared.
pub open spec fn task_clearable() -> Seq<Seq<char>> {
    seq!["description"@, "due_date"@, "tags"@]
}

fn check_task_clear(clear: &Vec<String>) -> (r: bool)
    ensures
        r == clear_ok(clear@, task_clearable()),
{
    let n = clear.len();
    let mut i: usize = 0;
    while i < n
        invariant
            n == clear@.len(),
            i <= n,
            forall|j: int| 0 <= j < i ==> task_clearable().contains(clear@[j]@),
        decreases n - i,
    {
        let c = &clear[i];
        let ok = str_eq(c.as_str(), "description") || str_eq(c.as_str(), "due_date") || str_eq(
            c.as_str(),
            "tags",
        );
        if !ok {
            proof {
                assert(forall|k: int| 0 <= k < 3 ==> task_clearable()[k] != clear@[i as int]@);
            }
            return false;
        }
        proof {
            if c@ == "description"@ {
                assert(task_clearable()[0] == c@);
            } else if c@ == "due_date"@ {
                assert(task_clearable()[1] == c@);
            } else {
                assert(task_clearable()[2] == c@);
            }
        }
        i = i + 1;
    }
    true
}

/// Whether a due-date argument asks to empty the field.
pub open spec fn due_is_clear(s: String) -> bool {
    crate::text::lower_ascii(s@) == "clear"@
}

/// Whether a due-date argument is neither "clear" nor a `YYYY-MM-DD` date.
pub open spec fn due_is_bad(due: Option<String>) -> bool {
    match due {
        Some(s) => !due_is_clear(s) && crate::dates::ymd_instant_of(s@) is None,
        None => false,
    }
}

/// How an updated task relates to the one it replaces.
pub open spec fn task_updated(o: Task, n: Task, args: TaskUpdateArgs) -> bool {
    &&& n.id == o.id
    &&& n.created_at == o.created_at
    &&& n.project_id == o.project_id
    &&& n.idea_id == o.idea_id
    &&& n.title == (if args.title is Some {
        args.title->Some_0
    } else {
        o.title
    })
    &&& n.description == (if clears(args.clear@, "description"@) {
        Option::<String>::None
    } else if args.description is Some {
        args.description
    } else {
        o.description
    })
    &&& n.priority == (if args.priority is Some {
        args.priority->Some_0
    } else {
        o.priority
    })
    &&& n.status == (if args.status is Some {
        args.status->Some_0
    } else {
        o.status
    })
    &&& n.tags@ == (if clears(args.clear@, "tags"@) {
        Seq::<String>::empty()
    } else if args.tags is Some {
        args.tags->Some_0@
    } else {
        o.tags@
    })
    &&& n.due_date == (if clears(args.clear@, "due_date"@) {
        Option::<i64>::None
    } else {
        match args.due_date {
            Some(s) => if due_is_clear(s) {
                Option::<i64>::None
            } else {
                Some(crate::dates::ymd_instant_of(s@)->Some_0 as i64)
            },
            None => o.due_date,
        }
    })
    &&& n.updated_at >= o.updated_at
    &&& (o.wf() ==> n.wf())
    &&& ((args.title is None && args.description is None && args.priority is None
        && args.due_date is None && args.status is None && args.tags is None
        && args.clear.len() == 0) ==> n == o)
}

/// Apply an update to the task with the given identity. Validation of the
/// `clear` list comes first; an unparseable due date is rejected after
/// lookup, before anything changes.
pub fn update_task(tasks: &mut Vec<Task>, args: &TaskUpdateArgs) -> (r: Result<(), VaultError>)
    ensures
        r is Err <==> (!clear_ok(args.clear@, task_clearable()) || !has_task(old(tasks)@, args.id)
            || (has_task(old(tasks)@, args.id) && due_is_bad(args.due_date))),
        (r matches Err(e) && e is Validation) <==> (!clear_ok(args.clear@, task_clearable()) || (
        clear_ok(args.clear@, task_clearable()) && has_task(old(tasks)@, args.id) && due_is_bad(
            args.due_date,
        ))),
        (r matches Err(e) && e is NotFound) <==> (clear_ok(args.clear@, task_clearable())
            && !has_task(old(tasks)@, args.id)),
        r is Err ==> final(tasks)@ == old(tasks)@,
        r is Ok ==> exists|j: int|
            {
                &&& 0 <= j < old(tasks)@.len()
                &&& old(tasks)@[j].id == args.id
                &&& (forall|k: int| 0 <= k < j ==> old(tasks)@[k].id != args.id)
                &&& final(tasks)@ == old(tasks)@.update(j, final(tasks)@[j])
                &&& task_updated(old(tasks)@[j], final(tasks)@[j], *args)
            },
{
    if !check_task_clear(&args.clear) {
        return Err(VaultError::Validation {
            message: String::from_str(
                "Cannot clear that field. Valid fields: description, due_date, tags",
            ),
        });
    }
    let idx = match find_task_index(tasks, args.id) {
        Some(i) => i,
        None => {
            return Err(not_found_error(args.id, "Task"));
        },
    };
    let mut parsed_due: Option<i64> = None;
    let mut due_requested = false;
    match &args.due_date {
        Some(s) => {
            let low = crate::text::ascii_lower(s.as_str());
            if str_eq(low.as_str(), "clear") {
                due_requested = true;
                parsed_due = None;
            } else {
                match crate::dates::parse_ymd(s.as_str()) {
                    Ok(t) => {
                        due_requested = true;
                        parsed_due = Some(t);
                    },
                    Err(e) => {
                        return Err(e);
                    },
                }
            }
        },
        None => {},
    }
    let no_changes = matches!(args.title, Option::None) && matches!(
        args.description,
        Option::None,
    ) && matches!(args.priority, Option::None) && matches!(args.due_date, Option::None)
        && matches!(args.status, Option::None) && matches!(args.tags, Option::None)
        && args.clear.len() == 0;
    if no_changes {
        proof {
            assert(final(tasks)@ =~= old(tasks)@.update(idx as int, final(tasks)@[idx as int]));
        }
        return Ok(());
    }
    let mut task = tasks.remove(idx);
    match &args.title {
        Some(t) => {
            task.title = t.clone();
        },
        None => {},
    }
    match &args.description {
        Some(d) => {
            task.description = Some(d.clone());
        },
        None => {},
    }
    match &args.priority {
        Some(p) => {
            task.priority = *p;
        },
        None => {},
    }
    match &args.status {
        Some(st) => {
            task.status = *st;
        },
        None => {},
    }
    match &args.tags {
        Some(ts) => {
            task.tags = clone_string_vec(ts);
        },
        None => {},
    }
    if due_requested {
        task.due_date = parsed_due;
    }
    if clear_names(&args.clear, "description") {
        task.description = None;
    }
    if clear_names(&args.clear, "due_date") {
        task.due_date = None;
    }
    if clear_names(&args.clear, "tags") {
        task.tags = Vec::new();
    }
    task.touch();
    tasks.insert(idx, task);
    proof {
        assert(final(tasks)@ =~= old(tasks)@.update(idx as int, final(tasks)@[idx as int]));
    }
    Ok(())
}

/// A clone of a string list, entry by entry.
fn clone_string_vec(v: &Vec<String>) -> (r: Vec<String>)
    ensures
        r@ == v@,
{
    let mut r: Vec<String> = Vec::new();
    let n = v.len();
    let mut i: usize = 0;
    while i < n
        invariant
            n == v@.len(),
            i <= n,
            r@.len() == i,
            forall|j: int| 0 <= j < i ==> r@[j] == v@[j],
        decreases n - i,
    {
        r.push(v[i].clone());
        i = i + 1;
    }
    proof {
        assert(r@ =~= v@);
    }
    r
}

/// Set the status of the idea with the given identity.
pub fn set_idea_status(ideas: &mut Vec<Idea>, id: u128, status: IdeaStatus) -> (r: Result<
    (),
    VaultError,
>)
    ensures
        r is Err <==> !has_idea(old(ideas)@, id),
        r matches Err(e) ==> e is NotFound,
        r is Err ==> final(ideas)@ == old(ideas)@,
        r is Ok ==> exists|j: int|
            {
                &&& 0 <= j < old(ideas)@.len()
                &&& old(ideas)@[j].id == id
                &&& (forall|k: int| 0 <= k < j ==> old(ideas)@[k].id != id)
                &&& final(ideas)@ == old(ideas)@.update(j, final(ideas)@[j])
                &&& final(ideas)@[j] == (Idea {
                    status,
                    updated_at: final(ideas)@[j].updated_at,
                    ..old(ideas)@[j]
                })
                &&& final(ideas)@[j].updated_at >= old(ideas)@[j].updated_at
            },
{
    let idx = match find_idea_index(ideas, id) {
        Some(i) => i,
        None => {
            return Err(not_found_error(id, "Idea"));
        },
    };
    let mut idea = ideas.remove(idx);
    idea.set_status(status);
    ideas.insert(idx, idea);
    proof {
        assert(final(ideas)@ =~= old(ideas)@.update(idx as int, final(ideas)@[idx as int]));
    }
    Ok(())
}

/// Set the status of the project with the given identity.
pub fn set_project_status(projects: &mut Vec<Project>, id: u128, status: ProjectStatus) -> (r:
    Result<(), VaultError>)
    ensures
        r is Err <==> !has_project(old(projects)@, id),
        r matches Err(e) ==> e is NotFound,
        r is Err ==> final(projects)@ == old(projects)@,
        r is Ok ==> exists|j: int|
            {
                &&& 0 <= j < old(projects)@.len()
                &&& old(projects)@[j].id == id
                &&& (forall|k: int| 0 <= k < j ==> old(projects)@[k].id != id)
                &&& final(projects)@ == old(projects)@.update(j, final(projects)@[j])
                &&& final(projects)@[j] == (Project {
                    status,
                    updated_at: final(projects)@[j].updated_at,
                    ..old(projects)@[j]
                })
                &&& final(projects)@[j].updated_at >= old(projects)@[j].updated_at
            },
{
    let idx = match find_project_index(projects, id) {
        Some(i) => i,
        None => {
            return Err(not_found_error(id, "Project"));
        },
    };
    let mut project = projects.remove(idx);
    project.set_status(status);
    projects.insert(idx, project);
    proof {
        assert(final(projects)@ =~= old(projects)@.update(
            idx as int,
            final(projects)@[idx as int],
        ));
    }
    Ok(())
}

/// Set the status of the task with the given identity.
pub fn set_task_status(tasks: &mut Vec<Task>, id: u128, status: TaskStatus) -> (r: Result<
    (),
    VaultError,
>)
    ensures
        r is Err <==> !has_task(old(tasks)@, id),
        r matches Err(e) ==> e is NotFound,
        r is Err ==> final(tasks)@ == old(tasks)@,
        r is Ok ==> exists|j: int|
            {
                &&& 0 <= j < old(tasks)@.len()
                &&& old(tasks)@[j].id == id
                &&& (forall|k: int| 0 <= k < j ==> old(tasks)@[k].id != id)
                &&& final(tasks)@ == old(tasks)@.update(j, final(tasks)@[j])
                &&& final(tasks)@[j] == (Task {
                    status,
                    updated_at: final(tasks)@[j].updated_at,
                    ..old(tasks)@[j]
                })
                &&& final(tasks)@[j].updated_at >= old(tasks)@[j].updated_at
            },
{
    let idx = match find_task_index(tasks, id) {
        Some(i) => i,
        None => {
            return Err(not_found_error(id, "Task"));
        },
    };
    let mut task = tasks.remove(idx);
    task.status = status;
    task.touch();
    tasks.insert(idx, task);
    proof {
        assert(final(tasks)@ =~= old(tasks)@.update(idx as int, final(tasks)@[idx as int]));
    }
    Ok(())
}

/// Set the priority of the task with the given identity.
pub fn set_task_priority(tasks: &mut Vec<Task>, id: u128, priority: TaskPriority) -> (r: Result<
    (),
    VaultError,
>)
    ensures
        r is Err <==> !has_task(old(tasks)@, id),
        r matches Err(e) ==> e is NotFound,
        r is Err ==> final(tasks)@ == old(tasks)@,
        r is Ok ==> exists|j: int|
            {
                &&& 0 <= j < old(tasks)@.len()
                &&& old(tasks)@[j].id == id
                &&& (forall|k: int| 0 <= k < j ==> old(tasks)@[k].id != id)
                &&& final(tasks)@ == old(tasks)@.update(j, final(tasks)@[j])
                &&& final(tasks)@[j] == (Task {
                    priority,
                    updated_at: final(tasks)@[j].updated_at,
                    ..old(tasks)@[j]
                })
                &&& final(tasks)@[j].updated_at >= old(tasks)@[j].updated_at
            },
{
    let idx = match find_task_index(tasks, id) {
        Some(i) => i,
        None => {
            return Err(not_found_error(id, "Task"));
        },
    };
    let mut task = tasks.remove(idx);
    task.priority = priority;
    task.touch();
    tasks.insert(idx, task);
    proof {
        assert(final(tasks)@ =~= old(tasks)@.update(idx as int, final(tasks)@[idx as int]));
    }
    Ok(())
}

/// Set or clear the due date of the task with the given identity; the
/// literal "clear" (in any case) empties it, and anything else must be a
/// parseable date.
pub fn update_due_date(tasks: &mut Vec<Task>, id: u128, due: &str) -> (r: Result<(), VaultError>)
    ensures
        r is Err <==> (!has_task(old(tasks)@, id) || (crate::text::lower_ascii(due@) != "clear"@
            && crate::dates::ymd_instant_of(due@) is None)),
        (r matches Err(e) && e is NotFound) <==> !has_task(old(tasks)@, id),
        (r matches Err(e) && e is Validation) <==> (has_task(old(tasks)@, id) && crate::text::lower_ascii(due@)
            != "clear"@ && crate::dates::ymd_instant_of(due@) is None),
        r is Err ==> final(tasks)@ == old(tasks)@,
        r is Ok ==> exists|j: int|
            {
                &&& 0 <= j < old(tasks)@.len()
                &&& old(tasks)@[j].id == id
                &&& (forall|k: int| 0 <= k < j ==> old(tasks)@[k].id != id)
                &&& final(tasks)@ == old(tasks)@.update(j, final(tasks)@[j])
                &&& final(tasks)@[j] == (Task {
                    due_date: final(tasks)@[j].due_date,
                    updated_at: final(tasks)@[j].updated_at,
                    ..old(tasks)@[j]
                })
                &&& final(tasks)@[j].due_date == (if crate::text::lower_ascii(due@) == "clear"@ {
                    Option::<i64>::None
                } else {
                    Some(crate::dates::ymd_instant_of(due@)->Some_0 as i64)
                })
                &&& final(tasks)@[j].updated_at >= old(tasks)@[j].updated_at
            },
{
    let idx = match find_task_index(tasks, id) {
        Some(i) => i,
        None => {
            return Err(not_found_error(id, "Task"));
        },
    };
    let low = crate::text::ascii_lower(due);
    let new_due: Option<i64>;
    if str_eq(low.as_str(), "clear") {
        new_due = None;
    } else {
        match crate::dates::parse_ymd(due) {
            Ok(t) => {
                new_due = Some(t);
            },
            Err(e) => {
                return Err(e);
            },
        }
    }
    let mut task = tasks.remove(idx);
    task.due_date = new_due;
    task.touch();
    tasks.insert(idx, task);
    proof {
        assert(final(tasks)@ =~= old(tasks)@.update(idx as int, final(tasks)@[idx as int]));
    }
    Ok(())
}

/// Link an idea to a project. The idea must exist; linking one that is
/// already linked changes nothing and reports `false`.
pub fn link_idea(
    projects: &mut Vec<Project>,
    ideas: &Vec<Idea>,
    project_id: u128,
    idea_id: u128,
) -> (r: Result<bool, VaultError>)
    ensures
        r is Err <==> (!has_idea(ideas@, idea_id) || !has_project(old(projects)@, project_id)),
        r matches Err(e) ==> e is NotFound && final(projects)@ == old(projects)@,
        r matches Ok(changed) ==> exists|j: int|
            {
                &&& 0 <= j < old(projects)@.len()
                &&& old(projects)@[j].id == project_id
                &&& (forall|k: int| 0 <= k < j ==> old(projects)@[k].id != project_id)
                &&& changed == !crate::text::contains_id(old(projects)@[j].idea_ids@, idea_id)
                &&& (!changed ==> final(projects)@ == old(projects)@)
                &&& (changed ==> {
                    &&& final(projects)@ == old(projects)@.update(j, final(projects)@[j])
                    &&& final(projects)@[j] == (Project {
                        idea_ids: final(projects)@[j].idea_ids,
                        updated_at: final(projects)@[j].updated_at,
                        ..old(projects)@[j]
                    })
                    &&& final(projects)@[j].idea_ids@ == old(projects)@[j].idea_ids@.push(
                        idea_id,
                    )
                    &&& final(projects)@[j].updated_at >= old(projects)@[j].updated_at
                })
            },
{
    if find_idea_index(ideas, idea_id).is_none() {
        return Err(not_found_error(idea_id, "Idea"));
    }
    let idx = match find_project_index(projects, project_id) {
        Some(i) => i,
        None => {
            return Err(not_found_error(project_id, "Project"));
        },
    };
    if crate::text::find_id(&projects[idx].idea_ids, idea_id).is_some() {
        proof {
            assert(final(projects)@ =~= old(projects)@);
        }
        return Ok(false);
    }
    let mut project = projects.remove(idx);
    project.add_idea(idea_id);
    projects.insert(idx, project);
    proof {
        assert(final(projects)@ =~= old(projects)@.update(
            idx as int,
            final(projects)@[idx as int],
        ));
    }
    Ok(true)
}

/// Unlink an idea from a project; unlinking one that is not linked changes
/// nothing and reports `false`.
pub fn unlink_idea(projects: &mut Vec<Project>, project_id: u128, idea_id: u128) -> (r: Result<
    bool,
    VaultError,
>)
    ensures
        r is Err <==> !has_project(old(projects)@, project_id),
        r matches Err(e) ==> e is NotFound && final(projects)@ == old(projects)@,
        r matches Ok(changed) ==> exists|j: int|
            {
                &&& 0 <= j < old(projects)@.len()
                &&& old(projects)@[j].id == project_id
                &&& (forall|k: int| 0 <= k < j ==> old(projects)@[k].id != project_id)
                &&& changed == crate::text::contains_id(old(projects)@[j].idea_ids@, idea_id)
                &&& (!changed ==> final(projects)@ == old(projects)@)
                &&& (changed ==> {
                    &&& final(projects)@ == old(projects)@.update(j, final(projects)@[j])
                    &&& final(projects)@[j] == (Project {
                        idea_ids: final(projects)@[j].idea_ids,
                        updated_at: final(projects)@[j].updated_at,
                        ..old(projects)@[j]
                    })
                    &&& (exists|i: int|
                        {
                            &&& 0 <= i < old(projects)@[j].idea_ids@.len()
                            &&& old(projects)@[j].idea_ids@[i] == idea_id
                            &&& (forall|k: int| 0 <= k < i ==> old(projects)@[j].idea_ids@[k]
                                != idea_id)
                            &&& final(projects)@[j].idea_ids@ == old(
                                projects,
                            )@[j].idea_ids@.remove(i)
                        })
                    &&& final(projects)@[j].updated_at >= old(projects)@[j].updated_at
                })
            },
{
    let idx = match find_project_index(projects, project_id) {
        Some(i) => i,
        None => {
            return Err(not_found_error(project_id, "Project"));
        },
    };
    if crate::text::find_id(&projects[idx].idea_ids, idea_id).is_none() {
        proof {
            assert(final(projects)@ =~= old(projects)@);
        }
        return Ok(false);
    }
    let mut project = projects.remove(idx);
    project.remove_idea(idea_id);
    projects.insert(idx, project);
    proof {
        assert(final(projects)@ =~= old(projects)@.update(
            idx as int,
            final(projects)@[idx as int],
        ));
    }
    Ok(true)
}

/// Link a task to a project; the project must exist. An existing link is
/// overwritten.
pub fn link_task_project(
    tasks: &mut Vec<Task>,
    projects: &Vec<Project>,
    task_id: u128,
    project_id: u128,
) -> (r: Result<(), VaultError>)
    ensures
        r is Err <==> (!has_project(projects@, project_id) || !has_task(old(tasks)@, task_id)),
        r matches Err(e) ==> e is NotFound && final(tasks)@ == old(tasks)@,
        r is Ok ==> exists|j: int|
            {
                &&& 0 <= j < old(tasks)@.len()
                &&& old(tasks)@[j].id == task_id
                &&& (forall|k: int| 0 <= k < j ==> old(tasks)@[k].id != task_id)
                &&& final(tasks)@ == old(tasks)@.update(j, final(tasks)@[j])
                &&& final(tasks)@[j] == (Task {
                    project_id: Some(project_id),
                    updated_at: final(tasks)@[j].updated_at,
                    ..old(tasks)@[j]
                })
                &&& final(tasks)@[j].updated_at >= old(tasks)@[j].updated_at
            },
{
    if find_project_index(projects, project_id).is_none() {
        return Err(not_found_error(project_id, "Project"));
    }
    let idx = match find_task_index(tasks, task_id) {
        Some(i) => i,
        None => {
            return Err(not_found_error(task_id, "Task"));
        },
    };
    let mut task = tasks.remove(idx);
    task.project_id = Some(project_id);
    task.touch();
    tasks.insert(idx, task);
    proof {
        assert(final(tasks)@ =~= old(tasks)@.update(idx as int, final(tasks)@[idx as int]));
    }
    Ok(())
}

/// Link a task to an idea; the idea must exist. An existing link is
/// overwritten.
pub fn link_task_idea(
    tasks: &mut Vec<Task>,
    ideas: &Vec<Idea>,
    task_id: u128,
    idea_id: u128,
) -> (r: Result<(), VaultError>)
    ensures
        r is Err <==> (!has_idea(ideas@, idea_id) || !has_task(old(tasks)@, task_id)),
        r matches Err(e) ==> e is NotFound && final(tasks)@ == old(tasks)@,
        r is Ok ==> exists|j: int|
            {
                &&& 0 <= j < old(tasks)@.len()
                &&& old(tasks)@[j].id == task_id
                &&& (forall|k: int| 0 <= k < j ==> old(tasks)@[k].id != task_id)
                &&& final(tasks)@ == old(tasks)@.update(j, final(tasks)@[j])
                &&& final(tasks)@[j] == (Task {
                    idea_id: Some(idea_id),
                    updated_at: final(tasks)@[j].updated_at,
                    ..old(tasks)@[j]
                })
                &&& final(tasks)@[j].updated_at >= old(tasks)@[j].updated_at
            },
{
    if find_idea_index(ideas, idea_id).is_none() {
        return Err(not_found_error(idea_id, "Idea"));
    }
    let idx = match find_task_index(tasks, task_id) {
        Some(i) => i,
        None => {
            return Err(not_found_error(task_id, "Task"));
        },
    };
    let mut task = tasks.remove(idx);
    task.idea_id = Some(idea_id);
    task.touch();
    tasks.insert(idx, task);
    proof {
        assert(final(tasks)@ =~= old(tasks)@.update(idx as int, final(tasks)@[idx as int]));
    }
    Ok(())
}

/// Remove a task's project link; a task with no link changes nothing and
/// reports `false`.
pub fn unlink_task_project(tasks: &mut Vec<Task>, task_id: u128) -> (r: Result<bool, VaultError>)
    ensures
        r is Err <==> !has_task(old(tasks)@, task_id),
        r matches Err(e) ==> e is NotFound && final(tasks)@ == old(tasks)@,
        r matches Ok(changed) ==> exists|j: int|
            {
                &&& 0 <= j < old(tasks)@.len()
                &&& old(tasks)@[j].id == task_id
                &&& (forall|k: int| 0 <= k < j ==> old(tasks)@[k].id != task_id)
                &&& changed == (old(tasks)@[j].project_id is Some)
                &&& (!changed ==> final(tasks)@ == old(tasks)@)
                &&& (changed ==> {
                    &&& final(tasks)@ == old(tasks)@.update(j, final(tasks)@[j])
                    &&& final(tasks)@[j] == (Task {
                        project_id: None,
                        updated_at: final(tasks)@[j].updated_at,
                        ..old(tasks)@[j]
                    })
                    &&& final(tasks)@[j].updated_at >= old(tasks)@[j].updated_at
                })
            },
{
    let idx = match find_task_index(tasks, task_id) {
        Some(i) => i,
        None => {
            return Err(not_found_error(task_id, "Task"));
        },
    };
    if tasks[idx].project_id.is_none() {
        proof {
            assert(final(tasks)@ =~= old(tasks)@);
        }
        return Ok(false);
    }
    let mut task = tasks.remove(idx);
    task.project_id = None;
    task.touch();
    tasks.insert(idx, task);
    proof {
        assert(final(tasks)@ =~= old(tasks)@.update(idx as int, final(tasks)@[idx as int]));
    }
    Ok(true)
}

/// Remove a task's idea link; a task with no link changes nothing and
/// reports `false`.
pub fn unlink_task_idea(tasks: &mut Vec<Task>, task_id: u128) -> (r: Result<bool, VaultError>)
    ensures
        r is Err <==> !has_task(old(tasks)@, task_id),
        r matches Err(e) ==> e is NotFound && final(tasks)@ == old(tasks)@,
        r matches Ok(changed) ==> exists|j: int|
            {
                &&& 0 <= j < old(tasks)@.len()
                &&& old(tasks)@[j].id == task_id
                &&& (forall|k: int| 0 <= k < j ==> old(tasks)@[k].id != task_id)
                &&& changed == (old(tasks)@[j].idea_id is Some)
                &&& (!changed ==> final(tasks)@ == old(tasks)@)
                &&& (changed ==> {
                    &&& final(tasks)@ == old(tasks)@.update(j, final(tasks)@[j])
                    &&& final(tasks)@[j] == (Task {
                        idea_id: None,
                        updated_at: final(tasks)@[j].updated_at,
                        ..old(tasks)@[j]
                    })
                    &&& final(tasks)@[j].updated_at >= old(tasks)@[j].updated_at
                })
            },
{
    let idx = match find_task_index(tasks, task_id) {
        Some(i) => i,
        None => {
            return Err(not_found_error(task_id, "Task"));
        },
    };
    if tasks[idx].idea_id.is_none() {
        proof {
            assert(final(tasks)@ =~= old(tasks)@);
        }
        return Ok(false);
    }
    let mut task = tasks.remove(idx);
    task.idea_id = None;
    task.touch();
    tasks.insert(idx, task);
    proof {
        assert(final(tasks)@ =~= old(tasks)@.update(idx as int, final(tasks)@[idx as int]));
    }
    Ok(true)
}

/// Remove the idea with the given identity and hand it back.
pub fn delete_idea(ideas: &mut Vec<Idea>, id: u128) -> (r: Result<Idea, VaultError>)
    ensures
        r is Err <==> !has_idea(old(ideas)@, id),
        r matches Err(e) ==> e is NotFound && final(ideas)@ == old(ideas)@,
        r matches Ok(removed) ==> exists|j: int|
            {
                &&& 0 <= j < old(ideas)@.len()
                &&& old(ideas)@[j].id == id
                &&& (forall|k: int| 0 <= k < j ==> old(ideas)@[k].id != id)
                &&& removed == old(ideas)@[j]
                &&& final(ideas)@ == old(ideas)@.remove(j)
            },
{
    let idx = match find_idea_index(ideas, id) {
        Some(i) => i,
        None => {
            return Err(not_found_error(id, "Idea"));
        },
    };
    let removed = ideas.remove(idx);
    Ok(removed)
}

/// Remove the project with the given identity and hand it back.
pub fn delete_project(projects: &mut Vec<Project>, id: u128) -> (r: Result<Project, VaultError>)
    ensures
        r is Err <==> !has_project(old(projects)@, id),
        r matches Err(e) ==> e is NotFound && final(projects)@ == old(projects)@,
        r matches Ok(removed) ==> exists|j: int|
            {
                &&& 0 <= j < old(projects)@.len()
                &&& old(projects)@[j].id == id
                &&& (forall|k: int| 0 <= k < j ==> old(projects)@[k].id != id)
                &&& removed == old(projects)@[j]
                &&& final(projects)@ == old(projects)@.remove(j)
            },
{
    let idx = match find_project_index(projects, id) {
        Some(i) => i,
        None => {
            return Err(not_found_error(id, "Project"));
        },
    };
    let removed = projects.remove(idx);
    Ok(removed)
}

/// Remove the task with the given identity and hand it back.
pub fn delete_task(tasks: &mut Vec<Task>, id: u128) -> (r: Result<Task, VaultError>)
    ensures
        r is Err <==> !has_task(old(tasks)@, id),
        r matches Err(e) ==> e is NotFound && final(tasks)@ == old(tasks)@,
        r matches Ok(removed) ==> exists|j: int|
            {
                &&& 0 <= j < old(tasks)@.len()
                &&& old(tasks)@[j].id == id
                &&& (forall|k: int| 0 <= k < j ==> old(tasks)@[k].id != id)
                &&& removed == old(tasks)@[j]
                &&& final(tasks)@ == old(tasks)@.remove(j)
            },
{
    let idx = match find_task_index(tasks, id) {
        Some(i) => i,
        None => {
            return Err(not_found_error(id, "Task"));
        },
    };
    let removed = tasks.remove(idx);
    Ok(removed)
}

/// The requested tag list with later duplicates dropped: each tag keeps
/// its first occurrence.
pub open spec fn dedup_tags(ts: Seq<String>) -> Seq<String>
    decreases ts.len(),
{
    if ts.len() == 0 {
        Seq::empty()
    } else {
        let p = dedup_tags(ts.drop_last());
        if contains_str(p, ts.last()@) {
            p
        } else {
            p.push(ts.last())
        }
    }
}

/// Replace all tags of the idea with the given identity by the requested
/// list, keeping only the first occurrence of each tag.
pub fn tag_idea(ideas: &mut Vec<Idea>, id: u128, tags: &Vec<String>) -> (r: Result<
    (),
    VaultError,
>)
    ensures
        r is Err <==> !has_idea(old(ideas)@, id),
        r matches Err(e) ==> e is NotFound && final(ideas)@ == old(ideas)@,
        r is Ok ==> exists|j: int|
            {
                &&& 0 <= j < old(ideas)@.len()
                &&& old(ideas)@[j].id == id
                &&& (forall|k: int| 0 <= k < j ==> old(ideas)@[k].id != id)
                &&& final(ideas)@ == old(ideas)@.update(j, final(ideas)@[j])
                &&& final(ideas)@[j] == (Idea {
                    tags: final(ideas)@[j].tags,
                    updated_at: final(ideas)@[j].updated_at,
                    ..old(ideas)@[j]
                })
                &&& final(ideas)@[j].tags@ == dedup_tags(tags@)
                &&& final(ideas)@[j].updated_at >= old(ideas)@[j].updated_at
            },
{
    let idx = match find_idea_index(ideas, id) {
        Some(i) => i,
        None => {
            return Err(not_found_error(id, "Idea"));
        },
    };
    let mut new_tags: Vec<String> = Vec::new();
    let n = tags.len();
    let mut i: usize = 0;
    proof {
        assert(new_tags@ =~= dedup_tags(tags@.take(0)));
    }
    while i < n
        invariant
            n == tags@.len(),
            i <= n,
            new_tags@ == dedup_tags(tags@.take(i as int)),
        decreases n - i,
    {
        if !crate::text::has_str(&new_tags, tags[i].as_str()) {
            new_tags.push(tags[i].clone());
        }
        proof {
            assert(tags@.take(i + 1).drop_last() =~= tags@.take(i as int));
            assert(tags@.take(i + 1).last() == tags@[i as int]);
            assert(new_tags@ =~= dedup_tags(tags@.take(i + 1)));
        }
        i = i + 1;
    }
    proof {
        assert(tags@.take(n as int) =~= tags@);
    }
    let mut idea = ideas.remove(idx);
    idea.tags = new_tags;
    idea.touch();
    ideas.insert(idx, idea);
    proof {
        assert(final(ideas)@ =~= old(ideas)@.update(idx as int, final(ideas)@[idx as int]));
    }
    Ok(())
}

/// Whether an idea survives the listing filters: exact status, exact tag.
pub open spec fn keep_idea(i: Idea, status: Option<IdeaStatus>, tag: Option<String>) -> bool {
    &&& (status matches Some(st) ==> i.status == st)
    &&& (tag matches Some(t) ==> contains_str(i.tags@, t@))
}

/// The ideas surviving the listing filters, in order.
pub open spec fn ideas_filtered(
    s: Seq<Idea>,
    status: Option<IdeaStatus>,
    tag: Option<String>,
) -> Seq<Idea>
    decreases s.len(),
{
    if s.len() == 0 {
        Seq::empty()
    } else {
        ideas_filtered(s.drop_last(), status, tag) + if keep_idea(s.last(), status, tag) {
            seq![s.last()]
        } else {
            Seq::empty()
        }
    }
}

/// Keep only the ideas matching the optional status and tag filters.
pub fn filter_ideas(ideas: &mut Vec<Idea>, status: &Option<IdeaStatus>, tag: &Option<String>)
    ensures
        final(ideas)@ == ideas_filtered(old(ideas)@, *status, *tag),
{
    let ghost orig = old(ideas)@;
    let mut i: usize = 0;
    proof {
        assert(orig.take(0) =~= Seq::<Idea>::empty());
        assert(orig.skip(0) =~= orig);
        assert(ideas@ =~= ideas_filtered(orig.take(0), *status, *tag) + orig.skip(0));
    }
    while i < ideas.len()
        invariant
            i <= ideas@.len(),
            ideas@.len() <= orig.len(),
            i + orig.len() - ideas@.len() <= orig.len(),
            ideas@ == ideas_filtered(
                orig.take(i + orig.len() - ideas@.len()),
                *status,
                *tag,
            ) + orig.skip(i + orig.len() - ideas@.len()),
            i as int == ideas_filtered(
                orig.take(i + orig.len() - ideas@.len()),
                *status,
                *tag,
            ).len(),
        decreases ideas@.len() - i,
    {
        let ghost k = i + orig.len() - ideas@.len();
        proof {
            assert(ideas@[i as int] == orig.skip(k)[0]);
            assert(orig.skip(k)[0] == orig[k]);
            assert(orig.take(k + 1).drop_last() =~= orig.take(k));
            assert(orig.take(k + 1).last() == orig[k]);
        }
        let mut keep = true;
        match status {
            Some(st) => {
                if !(ideas[i].status == *st) {
                    keep = false;
                }
            },
            None => {},
        }
        match tag {
            Some(t) => {
                if !crate::text::has_str(&ideas[i].tags, t.as_str()) {
                    keep = false;
                }
            },
            None => {},
        }
        if keep {
            proof {
                assert(ideas@ =~= ideas_filtered(orig.take(k + 1), *status, *tag) + orig.skip(
                    k + 1,
                ));
            }
            i = i + 1;
        } else {
            ideas.remove(i);
            proof {
                assert(ideas@ =~= ideas_filtered(orig.take(k + 1), *status, *tag) + orig.skip(
                    k + 1,
                ));
            }
        }
    }
    proof {
        let k = i + orig.len() - ideas@.len();
        assert(orig.skip(k) =~= Seq::<Idea>::empty());
        assert(k == orig.len());
        assert(orig.take(orig.len() as int) =~= orig);
        assert(ideas@ =~= ideas_filtered(orig, *status, *tag));
    }
}

/// Whether a project survives the listing filter: exact status.
pub open spec fn keep_project(p: Project, status: Option<ProjectStatus>) -> bool {
    status matches Some(st) ==> p.status == st
}

/// The projects surviving the listing filter, in order.
pub open spec fn projects_filtered(s: Seq<Project>, status: Option<ProjectStatus>) -> Seq<Project>
    decreases s.len(),
{
    if s.len() == 0 {
        Seq::empty()
    } else {
        projects_filtered(s.drop_last(), status) + if keep_project(s.last(), status) {
            seq![s.last()]
        } else {
            Seq::empty()
        }
    }
}

/// Keep only the projects matching the optional status filter.
pub fn filter_projects(projects: &mut Vec<Project>, status: &Option<ProjectStatus>)
    ensures
        final(projects)@ == projects_filtered(old(projects)@, *status),
{
    let ghost orig = old(projects)@;
    let mut i: usize = 0;
    proof {
        assert(orig.take(0) =~= Seq::<Project>::empty());
        assert(orig.skip(0) =~= orig);
        assert(projects@ =~= projects_filtered(orig.take(0), *status) + orig.skip(0));
    }
    while i < projects.len()
        invariant
            i <= projects@.len(),
            projects@.len() <= orig.len(),
            i + orig.len() - projects@.len() <= orig.len(),
            projects@ == projects_filtered(orig.take(i + orig.len() - projects@.len()), *status)
                + orig.skip(i + orig.len() - projects@.len()),
            i as int == projects_filtered(
                orig.take(i + orig.len() - projects@.len()),
                *status,
            ).len(),
        decreases projects@.len() - i,
    {
        let ghost k = i + orig.len() - projects@.len();
        proof {
            assert(projects@[i as int] == orig.skip(k)[0]);
            assert(orig.skip(k)[0] == orig[k]);
            assert(orig.take(k + 1).drop_last() =~= orig.take(k));
            assert(orig.take(k + 1).last() == orig[k]);
        }
        let keep = match status {
            Some(st) => projects[i].status == *st,
            None => true,
        };
        if keep {
            proof {
                assert(projects@ =~= projects_filtered(orig.take(k + 1), *status) + orig.skip(
                    k + 1,
                ));
            }
            i = i + 1;
        } else {
            projects.remove(i);
            proof {
                assert(projects@ =~= projects_filtered(orig.take(k + 1), *status) + orig.skip(
                    k + 1,
                ));
            }
        }
    }
    proof {
        let k = i + orig.len() - projects@.len();
        assert(orig.skip(k) =~= Seq::<Project>::empty());
        assert(k == orig.len());
        assert(orig.take(orig.len() as int) =~= orig);
        assert(projects@ =~= projects_filtered(orig, *status));
    }
}

/// Whether a task survives the listing filters: exact status, priority and
/// links, exact tag membership, and, when asked, only overdue tasks (due
/// before `now` and neither done nor cancelled).
pub open spec fn keep_task(
    t: Task,
    status: Option<TaskStatus>,
    priority: Option<TaskPriority>,
    tag: Option<String>,
    project_id: Option<u128>,
    idea_id: Option<u128>,
    overdue: bool,
    now: int,
) -> bool {
    &&& (status matches Some(st) ==> t.status == st)
    &&& (priority matches Some(p) ==> t.priority == p)
    &&& (tag matches Some(tg) ==> contains_str(t.tags@, tg@))
    &&& (project_id matches Some(pid) ==> t.project_id == Some(pid))
    &&& (idea_id matches Some(iid) ==> t.idea_id == Some(iid))
    &&& (overdue ==> (t.due_date matches Some(d) && d < now && !(t.status is Done) && !(
    t.status is Cancelled)))
}

/// The tasks surviving the listing filters, in order.
pub open spec fn tasks_filtered(
    s: Seq<Task>,
    status: Option<TaskStatus>,
    priority: Option<TaskPriority>,
    tag: Option<String>,
    project_id: Option<u128>,
    idea_id: Option<u128>,
    overdue: bool,
    now: int,
) -> Seq<Task>
    decreases s.len(),
{
    if s.len() == 0 {
        Seq::empty()
    } else {
        tasks_filtered(s.drop_last(), status, priority, tag, project_id, idea_id, overdue, now)
            + if keep_task(s.last(), status, priority, tag, project_id, idea_id, overdue, now) {
            seq![s.last()]
        } else {
            Seq::empty()
        }
    }
}

/// Keep only the tasks matching the listing filters. `now` is the instant
/// the overdue rule compares due dates against.
#[verifier::rlimit(60)]
pub fn filter_tasks(
    tasks: &mut Vec<Task>,
    status: &Option<TaskStatus>,
    priority: &Option<TaskPriority>,
    tag: &Option<String>,
    project_id: &Option<u128>,
    idea_id: &Option<u128>,
    overdue: bool,
    now: i64,
)
    ensures
        final(tasks)@ == tasks_filtered(
            old(tasks)@,
            *status,
            *priority,
            *tag,
            *project_id,
            *idea_id,
            overdue,
            now as int,
        ),
{
    let ghost orig = old(tasks)@;
    let mut i: usize = 0;
    proof {
        assert(orig.take(0) =~= Seq::<Task>::empty());
        assert(orig.skip(0) =~= orig);
        assert(tasks@ =~= tasks_filtered(
            orig.take(0),
            *status,
            *priority,
            *tag,
            *project_id,
            *idea_id,
            overdue,
            now as int,
        ) + orig.skip(0));
    }
    while i < tasks.len()
        invariant
            i <= tasks@.len(),
            tasks@.len() <= orig.len(),
            i + orig.len() - tasks@.len() <= orig.len(),
            tasks@ == tasks_filtered(
                orig.take(i + orig.len() - tasks@.len()),
                *status,
                *priority,
                *tag,
                *project_id,
                *idea_id,
                overdue,
                now as int,
            ) + orig.skip(i + orig.len() - tasks@.len()),
            i as int == tasks_filtered(
                orig.take(i + orig.len() - tasks@.len()),
                *status,
                *priority,
                *tag,
                *project_id,
                *idea_id,
                overdue,
                now as int,
            ).len(),
        decreases tasks@.len() - i,
    {
        let ghost k = i + orig.len() - tasks@.len();
        proof {
            assert(tasks@[i as int] == orig.skip(k)[0]);
            assert(orig.skip(k)[0] == orig[k]);
            assert(orig.take(k + 1).drop_last() =~= orig.take(k));
            assert(orig.take(k + 1).last() == orig[k]);
        }
        let mut keep = true;
        match status {
            Some(st) => if !(tasks[i].status == *st) {
                keep = false;
            },
            None => {},
        }
        match priority {
            Some(p) => if !(tasks[i].priority == *p) {
                keep = false;
            },
            None => {},
        }
        match tag {
            Some(tg) => if !crate::text::has_str(&tasks[i].tags, tg.as_str()) {
                keep = false;
            },
            None => {},
        }
        match project_id {
            Some(pid) => {
                let ok = match &tasks[i].project_id {
                    Some(tp) => *tp == *pid,
                    None => false,
                };
                if !ok {
                    keep = false;
                }
            },
            None => {},
        }
        match idea_id {
            Some(iid) => {
                let ok = match &tasks[i].idea_id {
                    Some(ti) => *ti == *iid,
                    None => false,
                };
                if !ok {
                    keep = false;
                }
            },
            None => {},
        }
        if overdue {
            let ok = match &tasks[i].due_date {
                Some(d) => *d < now && !matches!(tasks[i].status, TaskStatus::Done) && !matches!(
                    tasks[i].status,
                    TaskStatus::Cancelled,
                ),
                None => false,
            };
            if !ok {
                keep = false;
            }
        }
        if keep {
            proof {
                assert(tasks@ =~= tasks_filtered(
                    orig.take(k + 1),
                    *status,
                    *priority,
                    *tag,
                    *project_id,
                    *idea_id,
                    overdue,
                    now as int,
                ) + orig.skip(k + 1));
            }
            i = i + 1;
        } else {
            tasks.remove(i);
            proof {
                assert(tasks@ =~= tasks_filtered(
                    orig.take(k + 1),
                    *status,
                    *priority,
                    *tag,
                    *project_id,
                    *idea_id,
                    overdue,
                    now as int,
                ) + orig.skip(k + 1));
            }
        }
    }
    proof {
        let k = i + orig.len() - tasks@.len();
        assert(orig.skip(k) =~= Seq::<Task>::empty());
        assert(k == orig.len());
        assert(orig.take(orig.len() as int) =~= orig);
        assert(tasks@ =~= tasks_filtered(
            orig,
            *status,
            *priority,
            *tag,
            *project_id,
            *idea_id,
            overdue,
            now as int,
        ));
    }
}

/// The position of the first entry that is not the allowed field name.
fn first_bad_clear(clear: &Vec<String>, allowed: &str) -> (r: usize)
    requires
        !clear_ok(clear@, seq![allowed@]),
    ensures
        r < clear@.len(),
{
    let n = clear.len();
    let mut i: usize = 0;
    proof {
        let w = choose|j: int| 0 <= j < clear@.len() && !seq![allowed@].contains(clear@[j]@);
        assert(clear@[w]@ != allowed@) by {
            assert(seq![allowed@][0] == allowed@);
        }
    }
    while i < n
        invariant
            n == clear@.len(),
            i <= n,
            exists|j: int| 0 <= j < clear@.len() && clear@[j]@ != allowed@,
            forall|j: int| 0 <= j < i ==> clear@[j]@ == allowed@,
        decreases n - i,
    {
        if !str_eq(clear[i].as_str(), allowed) {
            return i;
        }
        i = i + 1;
    }
    proof {
        assert(false);
    }
    0
}

} // verus!
