//! Ideas: brainstorming-stage notes with tags, a status and timestamps.
//!
//! Every mutation refreshes `updated_at`, and timestamps never move
//! backwards, so `created_at <= updated_at` holds after any sequence of
//! mutations on a record built by `new`.

use vstd::prelude::*;
use crate::text::{contains_str, find_str, has_str};

verus! {

#[derive(Debug, Clone, Copy, PartialEq, Eq, Structural)]
pub enum IdeaStatus {
    Brainstorming,
    Active,
    Completed,
    Archived,
}

impl IdeaStatus {
    /// The canonical display name, also used by the status filter of search.
    pub fn name(&self) -> (r: &'static str)
        ensures
            r@ == self.spec_name(),
    {
        match self {
            IdeaStatus::Brainstorming => "Brainstorming",
            IdeaStatus::Active => "Active",
            IdeaStatus::Completed => "Completed",
            IdeaStatus::Archived => "Archived",
        }
    }

    pub open spec fn spec_name(self) -> Seq<char> {
        match self {
            IdeaStatus::Brainstorming => "Brainstorming"@,
            IdeaStatus::Active => "Active"@,
            IdeaStatus::Completed => "Completed"@,
            IdeaStatus::Archived => "Archived"@,
        }
    }

    /// Case-insensitive parse of a status name; only the canonical names
    /// are accepted, each compared without regard to ASCII case.
    pub fn parse(s: &str) -> (r: Option<IdeaStatus>)
        ensures
            r == parse_idea_status(crate::text::lower_ascii(s@)),
    {
        let low = crate::text::ascii_lower(s);
        if crate::text::str_eq(low.as_str(), "brainstorming") {
            Some(IdeaStatus::Brainstorming)
        } else if crate::text::str_eq(low.as_str(), "active") {
            Some(IdeaStatus::Active)
        } else if crate::text::str_eq(low.as_str(), "completed") {
            Some(IdeaStatus::Completed)
        } else if crate::text::str_eq(low.as_str(), "archived") {
            Some(IdeaStatus::Archived)
        } else {
            None
        }
    }
}

/// Which status an already lower-cased name denotes, if any.
pub open spec fn parse_idea_status(low: Seq<char>) -> Option<IdeaStatus> {
    if low == "brainstorming"@ {
        Some(IdeaStatus::Brainstorming)
    } else if low == "active"@ {
        Some(IdeaStatus::Active)
    } else if low == "completed"@ {
        Some(IdeaStatus::Completed)
    } else if low == "archived"@ {
        Some(IdeaStatus::Archived)
    } else {
        None
    }
}

#[derive(Debug, Clone)]
pub struct Idea {
    pub id: u128,
    pub title: String,
    pub description: Option<String>,
    pub tags: Vec<String>,
    pub status: IdeaStatus,
    pub created_at: i64,
    pub updated_at: i64,
}

impl Idea {
    /// The timestamp invariant: an idea was updated no earlier than it was
    /// created.
    pub open spec fn wf(self) -> bool {
        self.created_at <= self.updated_at
    }

    /// A fresh idea: new random identity, default status, equal timestamps.
    pub fn new(title: String) -> (i: Idea)
        ensures
            i.title == title,
            i.description is None,
            i.tags@.len() == 0,
            i.status is Brainstorming,
            i.created_at == i.updated_at,
            i.wf(),
    {
        let now = crate::clock::now_millis();
        Idea {
            id: crate::ids::fresh_id(),
            title,
            description: None,
            tags: Vec::new(),
            status: IdeaStatus::Brainstorming,
            created_at: now,
            updated_at: now,
        }
    }

    /// Refresh `updated_at` from the clock; the stamp never moves backwards.
    pub fn touch(&mut self)
        ensures
            final(self).updated_at >= old(self).updated_at,
            final(self).id == old(self).id,
            final(self).title == old(self).title,
            final(self).description == old(self).description,
            final(self).tags == old(self).tags,
            final(self).status == old(self).status,
            final(self).created_at == old(self).created_at,
            old(self).wf() ==> final(self).wf(),
    {
        let t = crate::clock::now_millis();
        if t > self.updated_at {
            self.updated_at = t;
        }
    }

    pub fn with_description(self, description: String) -> (i: Idea)
        ensures
            i.description matches Some(d) && d == description,
            i.id == self.id,
            i.title == self.title,
            i.tags == self.tags,
            i.status == self.status,
            i.created_at == self.created_at,
            i.updated_at >= self.updated_at,
            self.wf() ==> i.wf(),
    {
        let mut i = self;
        i.description = Some(description);
        i.touch();
        i
    }

    pub fn with_tags(self, tags: Vec<String>) -> (i: Idea)
        ensures
            i.tags == tags,
            i.id == self.id,
            i.title == self.title,
            i.description == self.description,
            i.status == self.status,
            i.created_at == self.created_at,
            i.updated_at >= self.updated_at,
            self.wf() ==> i.wf(),
    {
        let mut i = self;
        i.tags = tags;
        i.touch();
        i
    }

    pub fn with_status(self, status: IdeaStatus) -> (i: Idea)
        ensures
            i.status == status,
            i.id == self.id,
            i.title == self.title,
            i.description == self.description,
            i.tags == self.tags,
            i.created_at == self.created_at,
            i.updated_at >= self.updated_at,
            self.wf() ==> i.wf(),
    {
        let mut i = self;
        i.status = status;
        i.touch();
        i
    }

    pub fn update_title(&mut self, title: String)
        ensures
            final(self).title == title,
            final(self).id == old(self).id,
            final(self).description == old(self).description,
            final(self).tags == old(self).tags,
            final(self).status == old(self).status,
            final(self).created_at == old(self).created_at,
            final(self).updated_at >= old(self).updated_at,
            old(self).wf() ==> final(self).wf(),
    {
        self.title = title;
        self.touch();
    }

    pub fn update_description(&mut self, description: Option<String>)
        ensures
            final(self).description == description,
            final(self).id == old(self).id,
            final(self).title == old(self).title,
            final(self).tags == old(self).tags,
            final(self).status == old(self).status,
            final(self).created_at == old(self).created_at,
            final(self).updated_at >= old(self).updated_at,
            old(self).wf() ==> final(self).wf(),
    {
        self.description = description;
        self.touch();
    }

    /// Add a tag unless an equal one is already present. Adding a present
    /// tag leaves the record entirely unchanged, timestamp included.
    pub fn add_tag(&mut self, tag: String)
        ensures
            contains_str(old(self).tags@, tag@) ==> *final(self) == *old(self),
            !contains_str(old(self).tags@, tag@) ==> {
                &&& final(self).tags@ == old(self).tags@.push(tag)
                &&& final(self).id == old(self).id
                &&& final(self).title == old(self).title
                &&& final(self).description == old(self).description
                &&& final(self).status == old(self).status
                &&& final(self).created_at == old(self).created_at
                &&& final(self).updated_at >= old(self).updated_at
            },
            old(self).wf() ==> final(self).wf(),
    {
        if !has_str(&self.tags, tag.as_str()) {
            self.tags.push(tag);
            self.touch();
        }
    }

    /// Remove the first tag equal to `tag`; removing an absent tag leaves
    /// the record entirely unchanged.
    pub fn remove_tag(&mut self, tag: &str)
        ensures
            !contains_str(old(self).tags@, tag@) ==> *final(self) == *old(self),
            contains_str(old(self).tags@, tag@) ==> exists|i: int| {
                &&& 0 <= i < old(self).tags@.len()
                &&& old(self).tags@[i]@ == tag@
                &&& (forall|j: int| 0 <= j < i ==> old(self).tags@[j]@ != tag@)
                &&& final(self).tags@ == old(self).tags@.remove(i)
            },
            final(self).id == old(self).id,
            final(self).title == old(self).title,
            final(self).description == old(self).description,
            final(self).status == old(self).status,
            final(self).created_at == old(self).created_at,
            final(self).updated_at >= old(self).updated_at,
            old(self).wf() ==> final(self).wf(),
    {
        match find_str(&self.tags, tag) {
            Some(pos) => {
                self.tags.remove(pos);
                self.touch();
            },
            None => {},
        }
    }

    pub fn set_status(&mut self, status: IdeaStatus)
        ensures
            final(self).status == status,
            final(self).id == old(self).id,
            final(self).title == old(self).title,
            final(self).description == old(self).description,
            final(self).tags == old(self).tags,
            final(self).created_at == old(self).created_at,
            final(self).updated_at >= old(self).updated_at,
            old(self).wf() ==> final(self).wf(),
    {
        self.status = status;
        self.touch();
    }
}

} // verus!
