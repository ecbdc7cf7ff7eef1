//! The search engine: scores and filters ideas, projects and tags against a
//! free-text query, and merges the per-kind results into one list ranked by
//! relevance.
//!
//! All matching is case-insensitive. A title or name scores 100 when it
//! equals the query, 80 when it merely starts with it, and 60 when it merely
//! contains it; a matching description adds 40, a matching project milestone
//! adds 30, and every matching idea tag adds 20. An empty query matches
//! nothing. Ties keep their scan order: ideas, then projects, then tags,
//! each in collection order.

use vstd::prelude::*;
use crate::idea::Idea;
use crate::project::Project;
use crate::tag::Tag;
use crate::text::{
    contains_sub, lower_ascii, lower_of, starts_with, snippet_of, has_sub, is_prefix,
    lowercase, ascii_lower, str_eq,
};

verus! {

/// Entity kinds that can be searched.
#[derive(Debug, Clone, Copy, PartialEq, Eq, Structural)]
pub enum EntityType {
    Idea,
    Project,
    Tag,
}

impl EntityType {
    /// The display name of the kind.
    pub fn name(&self) -> (r: &'static str)
        ensures
            r@ == self.spec_name(),
    {
        match self {
            EntityType::Idea => "Idea",
            EntityType::Project => "Project",
            EntityType::Tag => "Tag",
        }
    }

    pub open spec fn spec_name(self) -> Seq<char> {
        match self {
            EntityType::Idea => "Idea"@,
            EntityType::Project => "Project"@,
            EntityType::Tag => "Tag"@,
        }
    }
}

/// Restrictions applied before scoring.
#[derive(Debug, Clone)]
pub struct SearchFilters {
    /// Which kinds to search; the default is all three.
    pub entity_types: Vec<EntityType>,
    /// A substring matched case-insensitively against the status name.
    pub status_filter: Option<String>,
    /// Every term must be contained, case-insensitively, in some tag.
    pub tags_filter: Vec<String>,
    /// Inclusive lower bound on `created_at`, milliseconds since the epoch.
    pub date_from: Option<i64>,
    /// Inclusive upper bound on `created_at`, milliseconds since the epoch.
    pub date_to: Option<i64>,
}

impl Default for SearchFilters {
    fn default() -> (f: SearchFilters)
        ensures
            f.entity_types@.len() == 3,
            f.entity_types@[0] is Idea,
            f.entity_types@[1] is Project,
            f.entity_types@[2] is Tag,
            f.status_filter is None,
            f.tags_filter@.len() == 0,
            f.date_from is None,
            f.date_to is None,
    {
        let mut entity_types: Vec<EntityType> = Vec::new();
        entity_types.push(EntityType::Idea);
        entity_types.push(EntityType::Project);
        entity_types.push(EntityType::Tag);
        SearchFilters {
            entity_types,
            status_filter: None,
            tags_filter: Vec::new(),
            date_from: None,
            date_to: None,
        }
    }
}

/// The kind list selected by the three restriction flags: the first flag
/// set wins (ideas, then projects, then tags); with none set, all three
/// kinds are searched.
pub fn kinds_from_flags(ideas: bool, projects: bool, tags: bool) -> (r: Vec<EntityType>)
    ensures
        ideas ==> r@ == seq![EntityType::Idea],
        (!ideas && projects) ==> r@ == seq![EntityType::Project],
        (!ideas && !projects && tags) ==> r@ == seq![EntityType::Tag],
        (!ideas && !projects && !tags) ==> r@ == seq![
            EntityType::Idea,
            EntityType::Project,
            EntityType::Tag,
        ],
{
    let mut r: Vec<EntityType> = Vec::new();
    if ideas {
        r.push(EntityType::Idea);
        proof {
            assert(r@ =~= seq![EntityType::Idea]);
        }
    } else if projects {
        r.push(EntityType::Project);
        proof {
            assert(r@ =~= seq![EntityType::Project]);
        }
    } else if tags {
        r.push(EntityType::Tag);
        proof {
            assert(r@ =~= seq![EntityType::Tag]);
        }
    } else {
        r.push(EntityType::Idea);
        r.push(EntityType::Project);
        r.push(EntityType::Tag);
        proof {
            assert(r@ =~= seq![EntityType::Idea, EntityType::Project, EntityType::Tag]);
        }
    }
    r
}

/// One ranked match.
#[derive(Debug, Clone)]
pub struct SearchResult {
    pub id: String,
    pub title: String,
    pub description: Option<String>,
    pub entity_type: EntityType,
    pub status: String,
    pub relevance_score: u128,
    pub created_at: i64,
    pub snippet: Option<String>,
    pub tags: Vec<String>,
}

/// The mathematical shadow of a `SearchResult`.
#[verifier::ext_equal]
pub ghost struct ResultRep {
    pub id: Seq<char>,
    pub title: Seq<char>,
    pub description: Option<Seq<char>>,
    pub entity_type: EntityType,
    pub status: Seq<char>,
    pub score: int,
    pub created_at: int,
    pub snippet: Option<Seq<char>>,
    pub tags: Seq<Seq<char>>,
}

pub open spec fn opt_view(o: Option<String>) -> Option<Seq<char>> {
    match o {
        Some(s) => Some(s@),
        None => None,
    }
}

pub open spec fn result_rep(r: SearchResult) -> ResultRep {
    ResultRep {
        id: r.id@,
        title: r.title@,
        description: opt_view(r.description),
        entity_type: r.entity_type,
        status: r.status@,
        score: r.relevance_score as int,
        created_at: r.created_at as int,
        snippet: opt_view(r.snippet),
        tags: r.tags@.map_values(|t: String| t@),
    }
}

pub open spec fn reps_of(rs: Seq<SearchResult>) -> Seq<ResultRep> {
    rs.map_values(|r: SearchResult| result_rep(r))
}

/// Score of a title or name against an already lower-cased, nonempty query:
/// 100 for equality, 80 for a prefix, 60 for mere containment, 0 otherwise.
/// An empty query scores nothing.
pub open spec fn name_score(low_name: Seq<char>, q: Seq<char>) -> int {
    if q.len() == 0 {
        0
    } else if !contains_sub(low_name, q) {
        0
    } else if low_name == q {
        100
    } else if starts_with(low_name, q) {
        80
    } else {
        60
    }
}

/// Points contributed by an optional free-text field that contains the
/// query.
pub open spec fn field_score(field: Option<String>, q: Seq<char>, points: int) -> int {
    match field {
        Some(d) => if q.len() > 0 && contains_sub(lower_of(d@), q) {
            points
        } else {
            0
        },
        None => 0,
    }
}

/// How many tags contain the query.
pub open spec fn tag_hits(tags: Seq<String>, q: Seq<char>) -> int
    decreases tags.len(),
{
    if tags.len() == 0 {
        0
    } else {
        tag_hits(tags.drop_last(), q) + if q.len() > 0 && contains_sub(
            lower_of(tags.last()@),
            q,
        ) {
            1int
        } else {
            0int
        }
    }
}

/// The position of the first tag containing the query, or -1.
pub open spec fn first_hit(tags: Seq<String>, q: Seq<char>) -> int
    decreases tags.len(),
{
    if tags.len() == 0 || q.len() == 0 {
        -1
    } else if contains_sub(lower_of(tags[0]@), q) {
        0
    } else {
        let r = first_hit(tags.drop_first(), q);
        if r < 0 {
            -1
        } else {
            r + 1
        }
    }
}

/// The relevance score of an idea: title rule, 40 for a matching
/// description, 20 per matching tag.
pub open spec fn idea_score(i: Idea, q: Seq<char>) -> int {
    name_score(lower_of(i.title@), q) + field_score(i.description, q, 40) + 20 * tag_hits(
        i.tags@,
        q,
    )
}

/// The snippet of an idea result: from the title when it matched, else the
/// description, else the first matching tag.
pub open spec fn idea_snippet(i: Idea, q: Seq<char>) -> Option<Seq<char>> {
    if q.len() > 0 && contains_sub(lower_of(i.title@), q) {
        Some(snippet_of(i.title@, q))
    } else if field_score(i.description, q, 40) > 0 {
        Some(snippet_of(i.description->Some_0@, q))
    } else if first_hit(i.tags@, q) >= 0 {
        Some("Tag: "@ + i.tags@[first_hit(i.tags@, q)]@)
    } else {
        None
    }
}

/// The result record an idea produces when its score is positive.
pub open spec fn idea_result(i: Idea, q: Seq<char>) -> ResultRep {
    ResultRep {
        id: crate::ids::id_text(i.id),
        title: i.title@,
        description: opt_view(i.description),
        entity_type: EntityType::Idea,
        status: i.status.spec_name(),
        score: idea_score(i, q),
        created_at: i.created_at as int,
        snippet: idea_snippet(i, q),
        tags: i.tags@.map_values(|t: String| t@),
    }
}

/// The relevance score of a project: title rule, 40 for a matching
/// description, 30 for a matching milestone.
pub open spec fn project_score(p: Project, q: Seq<char>) -> int {
    name_score(lower_of(p.title@), q) + field_score(p.description, q, 40) + field_score(
        p.milestone,
        q,
        30,
    )
}

/// The snippet of a project result: from the title when it matched, else
/// the description, else the milestone.
pub open spec fn project_snippet(p: Project, q: Seq<char>) -> Option<Seq<char>> {
    if q.len() > 0 && contains_sub(lower_of(p.title@), q) {
        Some(snippet_of(p.title@, q))
    } else if field_score(p.description, q, 40) > 0 {
        Some(snippet_of(p.description->Some_0@, q))
    } else if field_score(p.milestone, q, 30) > 0 {
        Some("Milestone: "@ + p.milestone->Some_0@)
    } else {
        None
    }
}

/// The result record a project produces when its score is positive.
/// Projects carry no tags, so the result's tag list is empty.
pub open spec fn project_result(p: Project, q: Seq<char>) -> ResultRep {
    ResultRep {
        id: crate::ids::id_text(p.id),
        title: p.title@,
        description: opt_view(p.description),
        entity_type: EntityType::Project,
        status: p.status.spec_name(),
        score: project_score(p, q),
        created_at: p.created_at as int,
        snippet: project_snippet(p, q),
        tags: Seq::empty(),
    }
}

/// The result record a tag produces when its name matches. Tags have no
/// stored identity or timestamps: the id is a placeholder, the color serves
/// as the description, and the creation instant is the search time.
pub open spec fn tag_result(t: Tag, q: Seq<char>, now: int) -> ResultRep {
    ResultRep {
        id: "tag"@,
        title: t.name@,
        description: opt_view(t.color),
        entity_type: EntityType::Tag,
        status: "Active"@,
        score: name_score(lower_of(t.name@), q),
        created_at: now,
        snippet: Some("Tag: "@ + t.name@),
        tags: Seq::empty(),
    }
}

/// Whether a status name passes the status filter: no filter, or the
/// lower-cased filter text occurs in the lower-cased status name.
pub open spec fn status_ok(status_name: Seq<char>, filter: Option<String>) -> bool {
    match filter {
        None => true,
        Some(f) => contains_sub(lower_ascii(status_name), lower_of(f@)),
    }
}

/// Whether some tag contains the term.
pub open spec fn term_hits(tags: Seq<String>, term: Seq<char>) -> bool {
    exists|j: int| 0 <= j < tags.len() && contains_sub(lower_of(tags[j]@), term)
}

/// The AND-of-OR tag rule: every filter term is contained in some tag.
pub open spec fn tags_ok(tags: Seq<String>, terms: Seq<String>) -> bool {
    forall|i: int| 0 <= i < terms.len() ==> term_hits(tags, lower_of(terms[i]@))
}

/// Whether a creation instant lies within the optional inclusive bounds.
pub open spec fn date_ok(created: i64, from: Option<i64>, to: Option<i64>) -> bool {
    &&& (from matches Some(f) ==> created >= f)
    &&& (to matches Some(t) ==> created <= t)
}

/// Whether an idea passes the filters: status substring, tag rule, dates.
pub open spec fn idea_passes(i: Idea, f: SearchFilters) -> bool {
    &&& status_ok(i.status.spec_name(), f.status_filter)
    &&& tags_ok(i.tags@, f.tags_filter@)
    &&& date_ok(i.created_at, f.date_from, f.date_to)
}

/// Whether a project passes the filters: status substring and dates;
/// projects carry no tags, so the tag rule does not apply.
pub open spec fn project_passes(p: Project, f: SearchFilters) -> bool {
    &&& status_ok(p.status.spec_name(), f.status_filter)
    &&& date_ok(p.created_at, f.date_from, f.date_to)
}

/// Whether a tag entity passes the filters: every filter term must be
/// contained in the name; status and dates never apply.
pub open spec fn tag_passes(t: Tag, f: SearchFilters) -> bool {
    forall|i: int|
        0 <= i < f.tags_filter@.len() ==> contains_sub(
            lower_of(t.name@),
            lower_of(f.tags_filter@[i]@),
        )
}

/// Whether the kind list names `k`.
pub open spec fn kind_on(kinds: Seq<EntityType>, k: EntityType) -> bool {
    exists|i: int| 0 <= i < kinds.len() && kinds[i] == k
}

/// The results the idea collection contributes, in collection order: every
/// idea that passes the filters and scores above zero.
pub open spec fn idea_results(ideas: Seq<Idea>, q: Seq<char>, f: SearchFilters) -> Seq<ResultRep>
    decreases ideas.len(),
{
    if ideas.len() == 0 {
        Seq::empty()
    } else {
        idea_results(ideas.drop_last(), q, f) + if idea_passes(ideas.last(), f) && idea_score(
            ideas.last(),
            q,
        ) > 0 {
            seq![idea_result(ideas.last(), q)]
        } else {
            Seq::empty()
        }
    }
}

/// The results the project collection contributes, in collection order.
pub open spec fn project_results(
    projects: Seq<Project>,
    q: Seq<char>,
    f: SearchFilters,
) -> Seq<ResultRep>
    decreases projects.len(),
{
    if projects.len() == 0 {
        Seq::empty()
    } else {
        project_results(projects.drop_last(), q, f) + if project_passes(projects.last(), f)
            && project_score(projects.last(), q) > 0 {
            seq![project_result(projects.last(), q)]
        } else {
            Seq::empty()
        }
    }
}

/// The results the tag collection contributes, in collection order; `now`
/// is the search instant stamped on every tag result.
pub open spec fn tag_results(
    tags: Seq<Tag>,
    q: Seq<char>,
    f: SearchFilters,
    now: int,
) -> Seq<ResultRep>
    decreases tags.len(),
{
    if tags.len() == 0 {
        Seq::empty()
    } else {
        tag_results(tags.drop_last(), q, f, now) + if tag_passes(tags.last(), f) && name_score(
            lower_of(tags.last().name@),
            q,
        ) > 0 {
            seq![tag_result(tags.last(), q, now)]
        } else {
            Seq::empty()
        }
    }
}

/// Everything a search collects before ranking: ideas, then projects, then
/// tags, each kind only when the filters name it.
pub open spec fn search_rep(
    ideas: Seq<Idea>,
    projects: Seq<Project>,
    tags: Seq<Tag>,
    q: Seq<char>,
    f: SearchFilters,
    now: int,
) -> Seq<ResultRep> {
    (if kind_on(f.entity_types@, EntityType::Idea) {
        idea_results(ideas, q, f)
    } else {
        Seq::empty()
    }) + (if kind_on(f.entity_types@, EntityType::Project) {
        project_results(projects, q, f)
    } else {
        Seq::empty()
    }) + (if kind_on(f.entity_types@, EntityType::Tag) {
        tag_results(tags, q, f, now)
    } else {
        Seq::empty()
    })
}

/// Insert `x` after every element scoring at least as much, so that equal
/// scores keep their arrival order.
pub open spec fn insert_desc(x: ResultRep, s: Seq<ResultRep>) -> Seq<ResultRep>
    decreases s.len(),
{
    if s.len() == 0 {
        seq![x]
    } else if s[0].score >= x.score {
        seq![s[0]] + insert_desc(x, s.drop_first())
    } else {
        seq![x] + s
    }
}

/// The stable descending sort by score: elements are inserted in arrival
/// order, each after all earlier elements of equal or higher score.
pub open spec fn sort_desc(s: Seq<ResultRep>) -> Seq<ResultRep>
    decreases s.len(),
{
    if s.len() == 0 {
        Seq::empty()
    } else {
        insert_desc(s.last(), sort_desc(s.drop_last()))
    }
}

/// Scores never increase along the sequence.
pub open spec fn sorted_desc(s: Seq<ResultRep>) -> bool {
    forall|i: int, j: int| 0 <= i < j < s.len() ==> s[i].score >= s[j].score
}

/// Where `insert_desc` puts the element: at the first position whose score
/// is lower.
proof fn lemma_insert_desc_split(x: ResultRep, s: Seq<ResultRep>, p: int)
    requires
        0 <= p <= s.len(),
        forall|i: int| 0 <= i < p ==> s[i].score >= x.score,
        p < s.len() ==> s[p].score < x.score,
    ensures
        insert_desc(x, s) == s.take(p) + seq![x] + s.skip(p),
    decreases s.len(),
{
    if s.len() == 0 {
        assert(insert_desc(x, s) =~= s.take(0) + seq![x] + s.skip(0));
    } else if s[0].score >= x.score {
        assert(p >= 1);
        assert(forall|i: int| 0 <= i < p - 1 ==> s.drop_first()[i] == s[i + 1]);
        lemma_insert_desc_split(x, s.drop_first(), p - 1);
        assert(s.take(p) =~= seq![s[0]] + s.drop_first().take(p - 1));
        assert(s.skip(p) =~= s.drop_first().skip(p - 1));
        assert(insert_desc(x, s) =~= s.take(p) + seq![x] + s.skip(p));
    } else {
        assert(p == 0);
        assert(insert_desc(x, s) =~= s.take(0) + seq![x] + s.skip(0));
    }
}

/// Every element of the insertion is the inserted one or one of the old
/// ones, and the length grows by one.
proof fn lemma_insert_desc_mem(x: ResultRep, s: Seq<ResultRep>)
    ensures
        insert_desc(x, s).len() == s.len() + 1,
        forall|k: int| 0 <= k < insert_desc(x, s).len() ==> (insert_desc(x, s)[k] == x
            || s.contains(insert_desc(x, s)[k])),
    decreases s.len(),
{
    if s.len() == 0 {
    } else if s[0].score >= x.score {
        lemma_insert_desc_mem(x, s.drop_first());
        assert forall|k: int| 0 <= k < insert_desc(x, s).len() implies (insert_desc(x, s)[k] == x
            || s.contains(insert_desc(x, s)[k])) by {
            if k > 0 {
                let e = insert_desc(x, s)[k];
                assert(e == insert_desc(x, s.drop_first())[k - 1]);
                if e != x {
                    assert(s.drop_first().contains(e));
                    let w = choose|w: int|
                        0 <= w < s.drop_first().len() && s.drop_first()[w] == e;
                    assert(s[w + 1] == e);
                }
            }
        }
    } else {
        assert forall|k: int| 0 <= k < insert_desc(x, s).len() implies (insert_desc(x, s)[k] == x
            || s.contains(insert_desc(x, s)[k])) by {
            if k > 0 {
                assert(insert_desc(x, s)[k] == s[k - 1]);
            }
        }
    }
}

/// Inserting into a sorted sequence keeps it sorted.
proof fn lemma_insert_desc_sorted(x: ResultRep, s: Seq<ResultRep>)
    requires
        sorted_desc(s),
    ensures
        sorted_desc(insert_desc(x, s)),
    decreases s.len(),
{
    if s.len() == 0 {
    } else if s[0].score >= x.score {
        assert(sorted_desc(s.drop_first()));
        lemma_insert_desc_sorted(x, s.drop_first());
        lemma_insert_desc_mem(x, s.drop_first());
        let r = insert_desc(x, s);
        let r1 = insert_desc(x, s.drop_first());
        assert forall|i: int, j: int| 0 <= i < j < r.len() implies r[i].score >= r[j].score by {
            if i == 0 {
                let e = r1[j - 1];
                if e == x {
                    assert(s[0].score >= x.score);
                } else {
                    assert(s.drop_first().contains(e));
                    let w = choose|w: int|
                        0 <= w < s.drop_first().len() && s.drop_first()[w] == e;
                    assert(s[0].score >= s[w + 1].score);
                }
            } else {
                assert(r[i] == r1[i - 1] && r[j] == r1[j - 1]);
            }
        }
    } else {
        assert forall|i: int, j: int|
            0 <= i < j < insert_desc(x, s).len() implies insert_desc(x, s)[i].score >= insert_desc(
            x,
            s,
        )[j].score by {
            if i > 0 {
                assert(insert_desc(x, s)[i] == s[i - 1] && insert_desc(x, s)[j] == s[j - 1]);
            } else {
                assert(insert_desc(x, s)[j] == s[j - 1]);
                if j - 1 > 0 {
                    assert(s[0].score >= s[j - 1].score);
                }
            }
        }
    }
}

/// The sort is sorted, keeps the length, and invents no elements.
proof fn lemma_sort_desc(s: Seq<ResultRep>)
    ensures
        sorted_desc(sort_desc(s)),
        sort_desc(s).len() == s.len(),
        forall|k: int| 0 <= k < sort_desc(s).len() ==> s.contains(sort_desc(s)[k]),
    decreases s.len(),
{
    if s.len() > 0 {
        lemma_sort_desc(s.drop_last());
        lemma_insert_desc_sorted(s.last(), sort_desc(s.drop_last()));
        lemma_insert_desc_mem(s.last(), sort_desc(s.drop_last()));
        assert forall|k: int| 0 <= k < sort_desc(s).len() implies s.contains(sort_desc(s)[k]) by {
            let e = sort_desc(s)[k];
            if e == s.last() {
                assert(s[s.len() - 1] == e);
            } else {
                assert(sort_desc(s.drop_last()).contains(e));
                let w = choose|w: int|
                    0 <= w < sort_desc(s.drop_last()).len() && sort_desc(s.drop_last())[w] == e;
                assert(s.drop_last().contains(e));
                let v = choose|v: int| 0 <= v < s.drop_last().len() && s.drop_last()[v] == e;
                assert(s[v] == e);
            }
        }
    }
}

/// Every idea result is of the idea kind.
proof fn lemma_idea_results_kind(ideas: Seq<Idea>, q: Seq<char>, f: SearchFilters)
    ensures
        forall|k: int| 0 <= k < idea_results(ideas, q, f).len() ==> idea_results(ideas, q, f)[k]
            .entity_type is Idea,
    decreases ideas.len(),
{
    if ideas.len() > 0 {
        lemma_idea_results_kind(ideas.drop_last(), q, f);
    }
}

/// Every project result is of the project kind.
proof fn lemma_project_results_kind(projects: Seq<Project>, q: Seq<char>, f: SearchFilters)
    ensures
        forall|k: int| 0 <= k < project_results(projects, q, f).len() ==> project_results(
            projects,
            q,
            f,
        )[k].entity_type is Project,
    decreases projects.len(),
{
    if projects.len() > 0 {
        lemma_project_results_kind(projects.drop_last(), q, f);
    }
}

/// Every tag result is of the tag kind.
proof fn lemma_tag_results_kind(tags: Seq<Tag>, q: Seq<char>, f: SearchFilters, now: int)
    ensures
        forall|k: int| 0 <= k < tag_results(tags, q, f, now).len() ==> tag_results(
            tags,
            q,
            f,
            now,
        )[k].entity_type is Tag,
    decreases tags.len(),
{
    if tags.len() > 0 {
        lemma_tag_results_kind(tags.drop_last(), q, f, now);
    }
}

/// Everything collected before ranking bears a kind the filters name.
proof fn lemma_search_rep_kinds(
    ideas: Seq<Idea>,
    projects: Seq<Project>,
    tags: Seq<Tag>,
    q: Seq<char>,
    f: SearchFilters,
    now: int,
)
    ensures
        forall|k: int| 0 <= k < search_rep(ideas, projects, tags, q, f, now).len() ==> kind_on(
            f.entity_types@,
            search_rep(ideas, projects, tags, q, f, now)[k].entity_type,
        ),
{
    lemma_idea_results_kind(ideas, q, f);
    lemma_project_results_kind(projects, q, f);
    lemma_tag_results_kind(tags, q, f, now);
}

/// With an empty query no tag can hit.
proof fn lemma_tag_hits_empty_q(tags: Seq<String>, q: Seq<char>)
    requires
        q.len() == 0,
    ensures
        tag_hits(tags, q) == 0,
    decreases tags.len(),
{
    if tags.len() > 0 {
        lemma_tag_hits_empty_q(tags.drop_last(), q);
    }
}

/// `first_hit` names the least matching tag position, and is negative
/// exactly when no tag matches.
proof fn lemma_first_hit(tags: Seq<String>, q: Seq<char>)
    requires
        q.len() > 0,
    ensures
        first_hit(tags, q) >= 0 ==> 0 <= first_hit(tags, q) < tags.len() && contains_sub(
            lower_of(tags[first_hit(tags, q)]@),
            q,
        ) && (forall|j: int|
            0 <= j < first_hit(tags, q) ==> !contains_sub(lower_of(tags[j]@), q)),
        first_hit(tags, q) < 0 ==> forall|j: int|
            0 <= j < tags.len() ==> !contains_sub(lower_of(tags[j]@), q),
    decreases tags.len(),
{
    if tags.len() == 0 {
    } else if contains_sub(lower_of(tags[0]@), q) {
    } else {
        lemma_first_hit(tags.drop_first(), q);
        assert(forall|j: int| 1 <= j < tags.len() ==> tags.drop_first()[j - 1] == tags[j]);
    }
}

/// A clone of a string list, entry by entry.
fn clone_strings(v: &Vec<String>) -> (r: Vec<String>)
    ensures
        r@ == v@,
{
    let mut r: Vec<String> = Vec::new();
    let n = v.len();
    let mut i: usize = 0;
    while i < n
        invariant
            n == v@.len(),
            i <= n,
            r@.len() == i,
            forall|j: int| 0 <= j < i ==> r@[j] == v@[j],
        decreases n - i,
    {
        r.push(v[i].clone());
        i = i + 1;
    }
    proof {
        assert(r@ =~= v@);
    }
    r
}

/// Whether the kind list names `k`, by scanning.
fn has_kind(kinds: &Vec<EntityType>, k: EntityType) -> (r: bool)
    ensures
        r == kind_on(kinds@, k),
{
    let n = kinds.len();
    let mut i: usize = 0;
    while i < n
        invariant
            n == kinds@.len(),
            i <= n,
            forall|j: int| 0 <= j < i ==> kinds@[j] != k,
        decreases n - i,
    {
        if kinds[i] == k {
            return true;
        }
        i = i + 1;
    }
    false
}

/// What the original text is cut to for display: at most `max` characters,
/// with a trailing ellipsis when cut.
pub open spec fn truncated(s: Seq<char>, max: int) -> Seq<char> {
    if s.len() <= max {
        s
    } else {
        s.subrange(0, if max >= 3 { max - 3 } else { 0 }) + "..."@
    }
}

/// Cut a string for display to at most `max_len` characters, appending an
/// ellipsis when something was cut.
pub fn truncate_string(s: &str, max_len: usize) -> (r: String)
    ensures
        r@ == truncated(s@, max_len as int),
{
    let n = s.unicode_len();
    if n <= max_len {
        s.to_owned()
    } else {
        let keep: usize = if max_len >= 3 {
            max_len - 3
        } else {
            0
        };
        let mut r = s.substring_char(0, keep).to_owned();
        r.append("...");
        r
    }
}

/// The search engine works over collections already loaded in memory, so
/// its ranking is a pure function of the records and the query.
pub struct SearchEngine {
    pub ideas: Vec<Idea>,
    pub projects: Vec<Project>,
    pub tags: Vec<Tag>,
}

impl SearchEngine {
    /// An engine over the given collections.
    pub fn new(ideas: Vec<Idea>, projects: Vec<Project>, tags: Vec<Tag>) -> (e: SearchEngine)
        ensures
            e.ideas == ideas,
            e.projects == projects,
            e.tags == tags,
    {
        SearchEngine { ideas, projects, tags }
    }

    /// The excerpt around the first occurrence of the lower-cased query in
    /// `text`, or the whole text when it does not occur.
    pub fn create_snippet(&self, text: &str, query_lower: &str) -> (r: String)
        ensures
            r@ == snippet_of(text@, query_lower@),
    {
        let lowered = lowercase(text);
        match crate::text::find_sub(lowered.as_str(), query_lower) {
            None => text.to_owned(),
            Some(pos) => {
                let tn = text.unicode_len();
                let qn = query_lower.unicode_len();
                let ln = lowered.unicode_len();
                let s0: usize = if pos > 50 {
                    pos - 50
                } else {
                    0
                };
                let lo: usize = if s0 > tn {
                    tn
                } else {
                    s0
                };
                let pq: usize = pos + qn;
                let hi: usize = if pq >= tn {
                    tn
                } else if tn - pq > 50 {
                    pq + 50
                } else {
                    tn
                };
                proof {
                    assert(lo as int == crate::text::clip(pos - 50, tn as int));
                    assert(hi as int == crate::text::clip(pos + qn + 50, tn as int));
                }
                let sub = text.substring_char(lo, hi);
                if lo > 0 {
                    let mut r = String::from_str("...");
                    r.append(sub);
                    r
                } else {
                    sub.to_owned()
                }
            },
        }
    }

    /// Whether an idea passes the status, tag and date filters.
    pub fn matches_idea_filters(&self, idea: &Idea, filters: &SearchFilters) -> (r: bool)
        ensures
            r == idea_passes(*idea, *filters),
    {
        match &filters.status_filter {
            Some(f) => {
                let sl = ascii_lower(idea.status.name());
                let fl = lowercase(f.as_str());
                if !has_sub(sl.as_str(), fl.as_str()) {
                    return false;
                }
            },
            None => {},
        }
        let nt = filters.tags_filter.len();
        let mut i: usize = 0;
        while i < nt
            invariant
                nt == filters.tags_filter@.len(),
                i <= nt,
                status_ok(idea.status.spec_name(), filters.status_filter),
                forall|j: int| 0 <= j < i ==> term_hits(
                    idea.tags@,
                    lower_of(filters.tags_filter@[j]@),
                ),
            decreases nt - i,
        {
            let term_l = lowercase(filters.tags_filter[i].as_str());
            let mut hit = false;
            let m = idea.tags.len();
            let mut j: usize = 0;
            while j < m
                invariant
                    m == idea.tags@.len(),
                    j <= m,
                    term_l@ == lower_of(filters.tags_filter@[i as int]@),
                    hit ==> term_hits(idea.tags@, term_l@),
                    !hit ==> forall|k: int| 0 <= k < j ==> !contains_sub(
                        lower_of(idea.tags@[k]@),
                        term_l@,
                    ),
                decreases m - j,
            {
                let tl = lowercase(idea.tags[j].as_str());
                if has_sub(tl.as_str(), term_l.as_str()) {
                    hit = true;
                }
                j = j + 1;
            }
            if !hit {
                assert(!term_hits(idea.tags@, lower_of(filters.tags_filter@[i as int]@)));
                return false;
            }
            i = i + 1;
        }
        match filters.date_from {
            Some(f) => if idea.created_at < f {
                return false;
            },
            None => {},
        }
        match filters.date_to {
            Some(t) => if idea.created_at > t {
                return false;
            },
            None => {},
        }
        true
    }

    /// Whether a project passes the status and date filters.
    pub fn matches_project_filters(&self, project: &Project, filters: &SearchFilters) -> (r: bool)
        ensures
            r == project_passes(*project, *filters),
    {
        match &filters.status_filter {
            Some(f) => {
                let sl = ascii_lower(project.status.name());
                let fl = lowercase(f.as_str());
                if !has_sub(sl.as_str(), fl.as_str()) {
                    return false;
                }
            },
            None => {},
        }
        match filters.date_from {
            Some(f) => if project.created_at < f {
                return false;
            },
            None => {},
        }
        match filters.date_to {
            Some(t) => if project.created_at > t {
                return false;
            },
            None => {},
        }
        true
    }

    /// Whether a tag entity passes the tag-term filter.
    pub fn matches_tag_filters(&self, tag: &Tag, filters: &SearchFilters) -> (r: bool)
        ensures
            r == tag_passes(*tag, *filters),
    {
        let nt = filters.tags_filter.len();
        if nt == 0 {
            return true;
        }
        let name_l = lowercase(tag.name.as_str());
        let mut i: usize = 0;
        while i < nt
            invariant
                nt == filters.tags_filter@.len(),
                i <= nt,
                name_l@ == lower_of(tag.name@),
                forall|j: int| 0 <= j < i ==> contains_sub(
                    lower_of(tag.name@),
                    lower_of(filters.tags_filter@[j]@),
                ),
            decreases nt - i,
        {
            let term_l = lowercase(filters.tags_filter[i].as_str());
            if !has_sub(name_l.as_str(), term_l.as_str()) {
                return false;
            }
            i = i + 1;
        }
        true
    }

    /// Score an idea against the query; a result comes back exactly when
    /// some field matched.
    pub fn search_in_idea(&self, idea: &Idea, query: &str) -> (r: Option<SearchResult>)
        ensures
            ({
                let q = lower_of(query@);
                match r {
                    Some(res) => idea_score(*idea, q) > 0 && result_rep(res) == idea_result(
                        *idea,
                        q,
                    ),
                    None => idea_score(*idea, q) == 0,
                }
            }),
    {
        let ghost q = lower_of(query@);
        let query_lower = lowercase(query);
        let qn = query_lower.unicode_len();
        if qn == 0 {
            proof {
                lemma_tag_hits_empty_q(idea.tags@, q);
            }
            return None;
        }
        let ql = query_lower.as_str();
        let mut score: u128 = 0;
        let mut snippet: Option<String> = None;

        let title_lower = lowercase(idea.title.as_str());
        if has_sub(title_lower.as_str(), ql) {
            let pts: u128 = if str_eq(title_lower.as_str(), ql) {
                100
            } else if is_prefix(title_lower.as_str(), ql) {
                80
            } else {
                60
            };
            score = pts;
            snippet = Some(self.create_snippet(idea.title.as_str(), ql));
        }
        proof {
            assert(score as int == name_score(lower_of(idea.title@), q));
        }

        match &idea.description {
            Some(d) => {
                let dl = lowercase(d.as_str());
                if has_sub(dl.as_str(), ql) {
                    score = score + 40;
                    if snippet.is_none() {
                        snippet = Some(self.create_snippet(d.as_str(), ql));
                    }
                }
            },
            None => {},
        }
        proof {
            assert(score as int == name_score(lower_of(idea.title@), q) + field_score(
                idea.description,
                q,
                40,
            ));
        }

        let n = idea.tags.len();
        let mut hits: usize = 0;
        let mut first_idx: Option<usize> = None;
        let mut i: usize = 0;
        while i < n
            invariant
                n == idea.tags@.len(),
                i <= n,
                q.len() > 0,
                query_lower@ == q,
                hits <= i,
                hits as int == tag_hits(idea.tags@.take(i as int), q),
                match first_idx {
                    Some(fi) => fi < i && contains_sub(lower_of(idea.tags@[fi as int]@), q)
                        && forall|k: int| 0 <= k < fi ==> !contains_sub(
                            lower_of(idea.tags@[k]@),
                            q,
                        ),
                    None => forall|k: int| 0 <= k < i ==> !contains_sub(
                        lower_of(idea.tags@[k]@),
                        q,
                    ),
                },
            decreases n - i,
        {
            let tl = lowercase(idea.tags[i].as_str());
            if has_sub(tl.as_str(), query_lower.as_str()) {
                hits = hits + 1;
                if first_idx.is_none() {
                    first_idx = Some(i);
                }
            }
            proof {
                assert(idea.tags@.take(i + 1).drop_last() =~= idea.tags@.take(i as int));
                assert(idea.tags@.take(i + 1).last() == idea.tags@[i as int]);
            }
            i = i + 1;
        }
        proof {
            assert(idea.tags@.take(n as int) =~= idea.tags@);
            lemma_first_hit(idea.tags@, q);
            match first_idx {
                Some(fi) => {
                    let f = first_hit(idea.tags@, q);
                    if f < 0 {
                        assert(contains_sub(lower_of(idea.tags@[fi as int]@), q));
                        assert(false);
                    }
                    if f < fi as int {
                        assert(!contains_sub(lower_of(idea.tags@[f]@), q));
                        assert(false);
                    }
                    if (fi as int) < f {
                        assert(!contains_sub(lower_of(idea.tags@[fi as int]@), q));
                        assert(false);
                    }
                },
                None => {
                    if first_hit(idea.tags@, q) >= 0 {
                        assert(contains_sub(
                            lower_of(idea.tags@[first_hit(idea.tags@, q)]@),
                            q,
                        ));
                        assert(false);
                    }
                },
            }
        }
        score = score + 20 * (hits as u128);

        match (&snippet, &first_idx) {
            (Option::None, Option::Some(fi)) => {
                let mut sn = String::from_str("Tag: ");
                sn.append(idea.tags[*fi].as_str());
                snippet = Some(sn);
            },
            _ => {},
        }

        if score > 0 {
            let res = SearchResult {
                id: crate::ids::id_string(idea.id),
                title: idea.title.clone(),
                description: match &idea.description {
                    Some(d) => Some(d.clone()),
                    None => None,
                },
                entity_type: EntityType::Idea,
                status: String::from_str(idea.status.name()),
                relevance_score: score,
                created_at: idea.created_at,
                snippet,
                tags: clone_strings(&idea.tags),
            };
            proof {
                assert(result_rep(res) =~= idea_result(*idea, q));
            }
            Some(res)
        } else {
            None
        }
    }

    /// Score a project against the query; a result comes back exactly when
    /// some field matched.
    pub fn search_in_project(&self, project: &Project, query: &str) -> (r: Option<SearchResult>)
        ensures
            ({
                let q = lower_of(query@);
                match r {
                    Some(res) => project_score(*project, q) > 0 && result_rep(res)
                        == project_result(*project, q),
                    None => project_score(*project, q) == 0,
                }
            }),
    {
        let ghost q = lower_of(query@);
        let query_lower = lowercase(query);
        let qn = query_lower.unicode_len();
        if qn == 0 {
            return None;
        }
        let ql = query_lower.as_str();
        let mut score: u128 = 0;
        let mut snippet: Option<String> = None;

        let title_lower = lowercase(project.title.as_str());
        if has_sub(title_lower.as_str(), ql) {
            let pts: u128 = if str_eq(title_lower.as_str(), ql) {
                100
            } else if is_prefix(title_lower.as_str(), ql) {
                80
            } else {
                60
            };
            score = pts;
            snippet = Some(self.create_snippet(project.title.as_str(), ql));
        }

        match &project.description {
            Some(d) => {
                let dl = lowercase(d.as_str());
                if has_sub(dl.as_str(), ql) {
                    score = score + 40;
                    if snippet.is_none() {
                        snippet = Some(self.create_snippet(d.as_str(), ql));
                    }
                }
            },
            None => {},
        }

        match &project.milestone {
            Some(m) => {
                let ml = lowercase(m.as_str());
                if has_sub(ml.as_str(), ql) {
                    score = score + 30;
                    if snippet.is_none() {
                        let mut sn = String::from_str("Milestone: ");
                        sn.append(m.as_str());
                        snippet = Some(sn);
                    }
                }
            },
            None => {},
        }

        if score > 0 {
            let res = SearchResult {
                id: crate::ids::id_string(project.id),
                title: project.title.clone(),
                description: match &project.description {
                    Some(d) => Some(d.clone()),
                    None => None,
                },
                entity_type: EntityType::Project,
                status: String::from_str(project.status.name()),
                relevance_score: score,
                created_at: project.created_at,
                snippet,
                tags: Vec::new(),
            };
            proof {
                assert(result_rep(res).tags =~= Seq::<Seq<char>>::empty());
                assert(result_rep(res) =~= project_result(*project, q));
            }
            Some(res)
        } else {
            None
        }
    }

    /// Search every requested collection and rank the survivors. The result
    /// list is the stable descending sort, by relevance score, of the
    /// per-kind results in scan order: ideas, then projects, then tags.
    /// Every returned result bears a kind the filters name. Tag results are
    /// stamped with the clock reading taken at the start of the search.
    pub fn search(&self, query: &str, filters: &SearchFilters) -> (r: Vec<SearchResult>)
        ensures
            exists|now: int| reps_of(r@) == sort_desc(
                search_rep(self.ideas@, self.projects@, self.tags@, lower_of(query@), *filters, now),
            ),
            sorted_desc(reps_of(r@)),
            forall|i: int| 0 <= i < r@.len() ==> kind_on(
                filters.entity_types@,
                r@[i].entity_type,
            ),
    {
        let ghost q = lower_of(query@);
        let now_ms = crate::clock::now_millis();
        let include_ideas = has_kind(&filters.entity_types, EntityType::Idea);
        let include_projects = has_kind(&filters.entity_types, EntityType::Project);
        let include_tags = has_kind(&filters.entity_types, EntityType::Tag);

        let mut unsorted: Vec<SearchResult> = Vec::new();

        if include_ideas {
            let n = self.ideas.len();
            let mut i: usize = 0;
            proof {
                assert(reps_of(unsorted@) =~= idea_results(self.ideas@.take(0), q, *filters));
            }
            while i < n
                invariant
                    n == self.ideas@.len(),
                    i <= n,
                    q == lower_of(query@),
                    reps_of(unsorted@) == idea_results(self.ideas@.take(i as int), q, *filters),
                decreases n - i,
            {
                let idea = &self.ideas[i];
                if self.matches_idea_filters(idea, filters) {
                    match self.search_in_idea(idea, query) {
                        Some(res) => {
                            unsorted.push(res);
                        },
                        None => {},
                    }
                }
                proof {
                    assert(self.ideas@.take(i + 1).drop_last() =~= self.ideas@.take(i as int));
                    assert(self.ideas@.take(i + 1).last() == self.ideas@[i as int]);
                    assert(reps_of(unsorted@) =~= idea_results(
                        self.ideas@.take(i + 1),
                        q,
                        *filters,
                    ));
                }
                i = i + 1;
            }
            proof {
                assert(self.ideas@.take(n as int) =~= self.ideas@);
            }
        }
        let ghost seg1 = if kind_on(filters.entity_types@, EntityType::Idea) {
            idea_results(self.ideas@, q, *filters)
        } else {
            Seq::<ResultRep>::empty()
        };
        proof {
            assert(reps_of(unsorted@) =~= seg1);
        }

        if include_projects {
            let n = self.projects.len();
            let mut i: usize = 0;
            proof {
                assert(reps_of(unsorted@) =~= seg1 + project_results(
                    self.projects@.take(0),
                    q,
                    *filters,
                ));
            }
            while i < n
                invariant
                    n == self.projects@.len(),
                    i <= n,
                    q == lower_of(query@),
                    reps_of(unsorted@) == seg1 + project_results(
                        self.projects@.take(i as int),
                        q,
                        *filters,
                    ),
                decreases n - i,
            {
                let project = &self.projects[i];
                let ghost pre = unsorted@;
                if self.matches_project_filters(project, filters) {
                    match self.search_in_project(project, query) {
                        Some(res) => {
                            unsorted.push(res);
                            proof {
                                assert(reps_of(unsorted@) =~= reps_of(pre).push(result_rep(res)));
                            }
                        },
                        None => {},
                    }
                }
                proof {
                    assert(self.projects@.take(i + 1).drop_last() =~= self.projects@.take(
                        i as int,
                    ));
                    assert(self.projects@.take(i + 1).last() == self.projects@[i as int]);
                    assert(project_results(self.projects@.take(i + 1), q, *filters)
                        == project_results(self.projects@.take(i as int), q, *filters) + (
                    if project_passes(self.projects@[i as int], *filters) && project_score(
                        self.projects@[i as int],
                        q,
                    ) > 0 {
                        seq![project_result(self.projects@[i as int], q)]
                    } else {
                        Seq::empty()
                    }));
                    assert(reps_of(unsorted@) =~= seg1 + project_results(
                        self.projects@.take(i + 1),
                        q,
                        *filters,
                    ));
                }
                i = i + 1;
            }
            proof {
                assert(self.projects@.take(n as int) =~= self.projects@);
            }
        }
        let ghost seg2 = if kind_on(filters.entity_types@, EntityType::Project) {
            project_results(self.projects@, q, *filters)
        } else {
            Seq::<ResultRep>::empty()
        };
        proof {
            assert(reps_of(unsorted@) =~= seg1 + seg2);
        }

        if include_tags {
            let n = self.tags.len();
            let mut i: usize = 0;
            proof {
                assert(reps_of(unsorted@) =~= seg1 + seg2 + tag_results(
                    self.tags@.take(0),
                    q,
                    *filters,
                    now_ms as int,
                ));
            }
            while i < n
                invariant
                    n == self.tags@.len(),
                    i <= n,
                    q == lower_of(query@),
                    reps_of(unsorted@) == seg1 + seg2 + tag_results(
                        self.tags@.take(i as int),
                        q,
                        *filters,
                        now_ms as int,
                    ),
                decreases n - i,
            {
                let tag = &self.tags[i];
                let ghost pre = unsorted@;
                if self.matches_tag_filters(tag, filters) {
                    match self.search_in_tag(tag, query, now_ms) {
                        Some(res) => {
                            unsorted.push(res);
                            proof {
                                assert(reps_of(unsorted@) =~= reps_of(pre).push(result_rep(res)));
                            }
                        },
                        None => {},
                    }
                }
                proof {
                    assert(self.tags@.take(i + 1).drop_last() =~= self.tags@.take(i as int));
                    assert(self.tags@.take(i + 1).last() == self.tags@[i as int]);
                    assert(tag_results(self.tags@.take(i + 1), q, *filters, now_ms as int)
                        == tag_results(self.tags@.take(i as int), q, *filters, now_ms as int) + (
                    if tag_passes(self.tags@[i as int], *filters) && name_score(
                        lower_of(self.tags@[i as int].name@),
                        q,
                    ) > 0 {
                        seq![tag_result(self.tags@[i as int], q, now_ms as int)]
                    } else {
                        Seq::empty()
                    }));
                    assert(reps_of(unsorted@) =~= seg1 + seg2 + tag_results(
                        self.tags@.take(i + 1),
                        q,
                        *filters,
                        now_ms as int,
                    ));
                }
                i = i + 1;
            }
            proof {
                assert(self.tags@.take(n as int) =~= self.tags@);
            }
        }
        let ghost all = search_rep(
            self.ideas@,
            self.projects@,
            self.tags@,
            q,
            *filters,
            now_ms as int,
        );
        proof {
            assert(reps_of(unsorted@) =~= all);
        }

        let ghost us0 = unsorted@;
        let mut out: Vec<SearchResult> = Vec::new();
        proof {
            assert(us0.skip(0) =~= us0);
            assert(us0.take(0) =~= Seq::<SearchResult>::empty());
            assert(reps_of(us0.take(0)) =~= Seq::<ResultRep>::empty());
        }
        while unsorted.len() > 0
            invariant
                unsorted@ == us0.skip(us0.len() - unsorted@.len()),
                reps_of(out@) == sort_desc(reps_of(us0.take(us0.len() - unsorted@.len()))),
                out@.len() + unsorted@.len() == us0.len(),
            decreases unsorted.len(),
        {
            let ghost k = us0.len() - unsorted@.len();
            let x = unsorted.remove(0);
            proof {
                assert(x == us0[k]);
                assert(unsorted@ =~= us0.skip(k + 1));
            }
            let xs = x.relevance_score;
            let m = out.len();
            let mut p: usize = 0;
            while p < m && out[p].relevance_score >= xs
                invariant
                    m == out@.len(),
                    p <= m,
                    forall|t: int| 0 <= t < p ==> out@[t].relevance_score >= xs,
                decreases m - p,
            {
                p = p + 1;
            }
            let ghost out_pre = out@;
            out.insert(p, x);
            proof {
                assert(forall|t: int| 0 <= t < p ==> reps_of(out_pre)[t].score
                    >= result_rep(x).score);
                assert(p < out_pre.len() ==> reps_of(out_pre)[p as int].score < result_rep(
                    x,
                ).score);
                lemma_insert_desc_split(result_rep(x), reps_of(out_pre), p as int);
                assert(reps_of(out@) =~= reps_of(out_pre).take(p as int) + seq![result_rep(x)]
                    + reps_of(out_pre).skip(p as int));
                assert(reps_of(out@) == insert_desc(result_rep(x), reps_of(out_pre)));
                assert(reps_of(us0.take(k + 1)).drop_last() =~= reps_of(us0.take(k)));
                assert(reps_of(us0.take(k + 1)).last() == result_rep(us0[k]));
                assert(reps_of(out@) == sort_desc(reps_of(us0.take(k + 1))));
            }
        }
        proof {
            assert(us0.take(us0.len() as int) =~= us0);
            assert(reps_of(out@) == sort_desc(all));
            lemma_sort_desc(all);
            lemma_search_rep_kinds(
                self.ideas@,
                self.projects@,
                self.tags@,
                q,
                *filters,
                now_ms as int,
            );
            assert forall|i: int| 0 <= i < out@.len() implies kind_on(
                filters.entity_types@,
                out@[i].entity_type,
            ) by {
                let e = reps_of(out@)[i];
                assert(all.contains(e));
                let w = choose|w: int| 0 <= w < all.len() && all[w] == e;
                assert(kind_on(filters.entity_types@, all[w].entity_type));
                assert(e.entity_type == out@[i].entity_type);
            }
        }
        out
    }

    /// Score a tag entity against the query. The creation instant of the
    /// result is `now`, the search time, since tags store no timestamps.
    pub fn search_in_tag(&self, tag: &Tag, query: &str, now: i64) -> (r: Option<SearchResult>)
        ensures
            ({
                let q = lower_of(query@);
                match r {
                    Some(res) => name_score(lower_of(tag.name@), q) > 0 && result_rep(res)
                        == tag_result(*tag, q, now as int),
                    None => name_score(lower_of(tag.name@), q) == 0,
                }
            }),
    {
        let ghost q = lower_of(query@);
        let query_lower = lowercase(query);
        let qn = query_lower.unicode_len();
        if qn == 0 {
            return None;
        }
        let ql = query_lower.as_str();
        let name_lower = lowercase(tag.name.as_str());
        if has_sub(name_lower.as_str(), ql) {
            let pts: u128 = if str_eq(name_lower.as_str(), ql) {
                100
            } else if is_prefix(name_lower.as_str(), ql) {
                80
            } else {
                60
            };
            let mut sn = String::from_str("Tag: ");
            sn.append(tag.name.as_str());
            let res = SearchResult {
                id: String::from_str("tag"),
                title: tag.name.clone(),
                description: match &tag.color {
                    Some(c) => Some(c.clone()),
                    None => None,
                },
                entity_type: EntityType::Tag,
                status: String::from_str("Active"),
                relevance_score: pts,
                created_at: now,
                snippet: Some(sn),
                tags: Vec::new(),
            };
            proof {
                assert(result_rep(res).tags =~= Seq::<Seq<char>>::empty());
                assert(result_rep(res) =~= tag_result(*tag, q, now as int));
            }
            Some(res)
        } else {
            None
        }
    }
}

} // verus!
