//! Projects: goal-oriented containers that link zero or more ideas by
//! identity. Links are soft references: a linked idea may no longer exist.

use vstd::prelude::*;
use crate::text::{contains_id, find_id};

verus! {

#[derive(Debug, Clone, Copy, PartialEq, Eq, Structural)]
pub enum ProjectStatus {
    Planning,
    InProgress,
    Completed,
    OnHold,
}

impl ProjectStatus {
    /// The canonical display name, also used by the status filter of search.
    pub fn name(&self) -> (r: &'static str)
        ensures
            r@ == self.spec_name(),
    {
        match self {
            ProjectStatus::Planning => "Planning",
            ProjectStatus::InProgress => "InProgress",
            ProjectStatus::Completed => "Completed",
            ProjectStatus::OnHold => "OnHold",
        }
    }

    pub open spec fn spec_name(self) -> Seq<char> {
        match self {
            ProjectStatus::Planning => "Planning"@,
            ProjectStatus::InProgress => "InProgress"@,
            ProjectStatus::Completed => "Completed"@,
            ProjectStatus::OnHold => "OnHold"@,
        }
    }

    /// Case-insensitive parse, accepting the documented aliases.
    pub fn parse(s: &str) -> (r: Option<ProjectStatus>)
        ensures
            r == parse_project_status(crate::text::lower_ascii(s@)),
    {
        let low = crate::text::ascii_lower(s);
        let t = low.as_str();
        if crate::text::str_eq(t, "planning") {
            Some(ProjectStatus::Planning)
        } else if crate::text::str_eq(t, "inprogress") || crate::text::str_eq(t, "in-progress")
            || crate::text::str_eq(t, "progress") {
            Some(ProjectStatus::InProgress)
        } else if crate::text::str_eq(t, "completed") || crate::text::str_eq(t, "complete")
            || crate::text::str_eq(t, "done") {
            Some(ProjectStatus::Completed)
        } else if crate::text::str_eq(t, "onhold") || crate::text::str_eq(t, "on-hold")
            || crate::text::str_eq(t, "hold") {
            Some(ProjectStatus::OnHold)
        } else {
            None
        }
    }
}

/// Which status an already lower-cased name or alias denotes, if any.
pub open spec fn parse_project_status(low: Seq<char>) -> Option<ProjectStatus> {
    if low == "planning"@ {
        Some(ProjectStatus::Planning)
    } else if low == "inprogress"@ || low == "in-progress"@ || low == "progress"@ {
        Some(ProjectStatus::InProgress)
    } else if low == "completed"@ || low == "complete"@ || low == "done"@ {
        Some(ProjectStatus::Completed)
    } else if low == "onhold"@ || low == "on-hold"@ || low == "hold"@ {
        Some(ProjectStatus::OnHold)
    } else {
        None
    }
}

#[derive(Debug, Clone)]
pub struct Project {
    pub id: u128,
    pub title: String,
    pub description: Option<String>,
    pub milestone: Option<String>,
    pub url: Option<String>,
    pub repo: Option<String>,
    pub status: ProjectStatus,
    pub idea_ids: Vec<u128>,
    pub created_at: i64,
    pub updated_at: i64,
}

impl Project {
    /// The timestamp invariant: a project was updated no earlier than it
    /// was created.
    pub open spec fn wf(self) -> bool {
        self.created_at <= self.updated_at
    }

    /// A fresh project: new random identity, default status, no links,
    /// equal timestamps.
    pub fn new(title: String) -> (p: Project)
        ensures
            p.title == title,
            p.description is None,
            p.milestone is None,
            p.url is None,
            p.repo is None,
            p.status is Planning,
            p.idea_ids@.len() == 0,
            p.created_at == p.updated_at,
            p.wf(),
    {
        let now = crate::clock::now_millis();
        Project {
            id: crate::ids::fresh_id(),
            title,
            description: None,
            milestone: None,
            url: None,
            repo: None,
            status: ProjectStatus::Planning,
            idea_ids: Vec::new(),
            created_at: now,
            updated_at: now,
        }
    }

    /// Refresh `updated_at` from the clock; the stamp never moves backwards.
    pub fn touch(&mut self)
        ensures
            final(self).updated_at >= old(self).updated_at,
            *final(self) == (Project { updated_at: final(self).updated_at, ..*old(self) }),
            old(self).wf() ==> final(self).wf(),
    {
        let t = crate::clock::now_millis();
        if t > self.updated_at {
            self.updated_at = t;
        }
    }

    pub fn with_description(self, description: String) -> (p: Project)
        ensures
            p.description matches Some(d) && d == description,
            p == (Project { description: p.description, updated_at: p.updated_at, ..self }),
            p.updated_at >= self.updated_at,
            self.wf() ==> p.wf(),
    {
        let mut p = self;
        p.description = Some(description);
        p.touch();
        p
    }

    pub fn with_milestone(self, milestone: String) -> (p: Project)
        ensures
            p.milestone matches Some(m) && m == milestone,
            p == (Project { milestone: p.milestone, updated_at: p.updated_at, ..self }),
            p.updated_at >= self.updated_at,
            self.wf() ==> p.wf(),
    {
        let mut p = self;
        p.milestone = Some(milestone);
        p.touch();
        p
    }

    pub fn with_url(self, url: String) -> (p: Project)
        ensures
            p.url matches Some(u) && u == url,
            p == (Project { url: p.url, updated_at: p.updated_at, ..self }),
            p.updated_at >= self.updated_at,
            self.wf() ==> p.wf(),
    {
        let mut p = self;
        p.url = Some(url);
        p.touch();
        p
    }

    pub fn with_repo(self, repo: String) -> (p: Project)
        ensures
            p.repo matches Some(rp) && rp == repo,
            p == (Project { repo: p.repo, updated_at: p.updated_at, ..self }),
            p.updated_at >= self.updated_at,
            self.wf() ==> p.wf(),
    {
        let mut p = self;
        p.repo = Some(repo);
        p.touch();
        p
    }

    pub fn with_ideas(self, idea_ids: Vec<u128>) -> (p: Project)
        ensures
            p.idea_ids == idea_ids,
            p == (Project { idea_ids: p.idea_ids, updated_at: p.updated_at, ..self }),
            p.updated_at >= self.updated_at,
            self.wf() ==> p.wf(),
    {
        let mut p = self;
        p.idea_ids = idea_ids;
        p.touch();
        p
    }

    pub fn with_status(self, status: ProjectStatus) -> (p: Project)
        ensures
            p.status == status,
            p == (Project { status, updated_at: p.updated_at, ..self }),
            p.updated_at >= self.updated_at,
            self.wf() ==> p.wf(),
    {
        let mut p = self;
        p.status = status;
        p.touch();
        p
    }

    pub fn update_title(&mut self, title: String)
        ensures
            final(self).title == title,
            *final(self) == (Project {
                title: final(self).title,
                updated_at: final(self).updated_at,
                ..*old(self)
            }),
            final(self).updated_at >= old(self).updated_at,
            old(self).wf() ==> final(self).wf(),
    {
        self.title = title;
        self.touch();
    }

    pub fn update_description(&mut self, description: Option<String>)
        ensures
            final(self).description == description,
            *final(self) == (Project {
                description,
                updated_at: final(self).updated_at,
                ..*old(self)
            }),
            final(self).updated_at >= old(self).updated_at,
            old(self).wf() ==> final(self).wf(),
    {
        self.description = description;
        self.touch();
    }

    pub fn update_milestone(&mut self, milestone: Option<String>)
        ensures
            final(self).milestone == milestone,
            *final(self) == (Project {
                milestone,
                updated_at: final(self).updated_at,
                ..*old(self)
            }),
            final(self).updated_at >= old(self).updated_at,
            old(self).wf() ==> final(self).wf(),
    {
        self.milestone = milestone;
        self.touch();
    }

    pub fn set_url(&mut self, url: Option<String>)
        ensures
            final(self).url == url,
            *final(self) == (Project {
                url,
                updated_at: final(self).updated_at,
                ..*old(self)
            }),
            final(self).updated_at >= old(self).updated_at,
            old(self).wf() ==> final(self).wf(),
    {
        self.url = url;
        self.touch();
    }

    pub fn set_repo(&mut self, repo: Option<String>)
        ensures
            final(self).repo == repo,
            *final(self) == (Project {
                repo,
                updated_at: final(self).updated_at,
                ..*old(self)
            }),
            final(self).updated_at >= old(self).updated_at,
            old(self).wf() ==> final(self).wf(),
    {
        self.repo = repo;
        self.touch();
    }

    /// Link an idea unless it is already linked. Linking a present idea
    /// leaves the record entirely unchanged, timestamp included.
    pub fn add_idea(&mut self, idea_id: u128)
        ensures
            contains_id(old(self).idea_ids@, idea_id) ==> *final(self) == *old(self),
            !contains_id(old(self).idea_ids@, idea_id) ==> {
                &&& final(self).idea_ids@ == old(self).idea_ids@.push(idea_id)
                &&& *final(self) == (Project {
                    idea_ids: final(self).idea_ids,
                    updated_at: final(self).updated_at,
                    ..*old(self)
                })
                &&& final(self).updated_at >= old(self).updated_at
            },
            old(self).wf() ==> final(self).wf(),
    {
        if find_id(&self.idea_ids, idea_id).is_none() {
            self.idea_ids.push(idea_id);
            self.touch();
        }
    }

    /// Unlink the first occurrence of an idea; unlinking an absent idea
    /// leaves the record entirely unchanged.
    pub fn remove_idea(&mut self, idea_id: u128)
        ensures
            !contains_id(old(self).idea_ids@, idea_id) ==> *final(self) == *old(self),
            contains_id(old(self).idea_ids@, idea_id) ==> exists|i: int| {
                &&& 0 <= i < old(self).idea_ids@.len()
                &&& old(self).idea_ids@[i] == idea_id
                &&& (forall|j: int| 0 <= j < i ==> old(self).idea_ids@[j] != idea_id)
                &&& final(self).idea_ids@ == old(self).idea_ids@.remove(i)
            },
            *final(self) == (Project {
                idea_ids: final(self).idea_ids,
                updated_at: final(self).updated_at,
                ..*old(self)
            }),
            final(self).updated_at >= old(self).updated_at,
            old(self).wf() ==> final(self).wf(),
    {
        match find_id(&self.idea_ids, idea_id) {
            Some(pos) => {
                self.idea_ids.remove(pos);
                self.touch();
            },
            None => {},
        }
    }

    pub fn set_status(&mut self, status: ProjectStatus)
        ensures
            final(self).status == status,
            *final(self) == (Project {
                status,
                updated_at: final(self).updated_at,
                ..*old(self)
            }),
            final(self).updated_at >= old(self).updated_at,
            old(self).wf() ==> final(self).wf(),
    {
        self.status = status;
        self.touch();
    }

    /// How many ideas are linked.
    pub fn get_idea_count(&self) -> (n: usize)
        ensures
            n == self.idea_ids@.len(),
    {
        self.idea_ids.len()
    }
}

} // verus!
