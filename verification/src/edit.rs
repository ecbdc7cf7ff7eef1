//! The editor round trip: an idea or task is rendered as a small Markdown
//! document (`# title`, free-text body, trailing `Tags:` / `Status:` /
//! `Priority:` lines), handed to an external editor by the caller, and the
//! edited text is applied back to the record, line by line.

use vstd::prelude::*;
use crate::idea::{Idea, parse_idea_status};
use crate::task::{Task, parse_task_status, parse_task_priority};
use crate::text::{lower_ascii, starts_with, string_push};

verus! {

/// The views of a list of lines.
pub open spec fn line_views(v: Seq<String>) -> Seq<Seq<char>> {
    v.map_values(|l: String| l@)
}

/// The lines joined back with newlines.
pub open spec fn join_nl(ls: Seq<Seq<char>>) -> Seq<char>
    decreases ls.len(),
{
    if ls.len() == 0 {
        Seq::empty()
    } else if ls.len() == 1 {
        ls[0]
    } else {
        join_nl(ls.drop_last()) + seq!['\n'] + ls.last()
    }
}

/// Whether `ls` is the line decomposition of `s`: joining with newlines
/// gives `s` back and no line holds a newline.
pub open spec fn lines_of(ls: Seq<Seq<char>>, s: Seq<char>) -> bool {
    &&& join_nl(ls) == s
    &&& ls.len() >= 1
    &&& forall|i: int, j: int| 0 <= i < ls.len() && 0 <= j < ls[i].len() ==> ls[i][j] != '\n'
}

/// Split text on newlines. The result is the unique decomposition whose
/// rejoining gives the text back.
pub fn split_lines(s: &str) -> (r: Vec<String>)
    ensures
        lines_of(line_views(r@), s@),
{
    let n = s.unicode_len();
    let mut parts: Vec<String> = Vec::new();
    let mut cur = String::new();
    let mut i: usize = 0;
    while i < n
        invariant
            n == s@.len(),
            i <= n,
            line_views(parts@).len() == 0 ==> s@.take(i as int) == cur@,
            line_views(parts@).len() > 0 ==> s@.take(i as int) == join_nl(line_views(parts@))
                + seq!['\n'] + cur@,
            forall|a: int, b: int| 0 <= a < line_views(parts@).len() && 0 <= b < line_views(
                parts@,
            )[a].len() ==> line_views(parts@)[a][b] != '\n',
            forall|b: int| 0 <= b < cur@.len() ==> cur@[b] != '\n',
        decreases n - i,
    {
        let c = s.get_char(i);
        let ghost ps0 = line_views(parts@);
        let ghost cur0 = cur@;
        if c == '\n' {
            let done = cur;
            cur = String::new();
            parts.push(done);
            proof {
                let ps1 = line_views(parts@);
                assert(ps1.drop_last() =~= ps0);
                assert(ps1.last() == parts@.last()@);
                assert(ps1.last() == cur0);
                assert forall|a: int, b: int|
                    0 <= a < ps1.len() && 0 <= b < ps1[a].len() implies ps1[a][b] != '\n' by {
                    if a < ps1.len() - 1 {
                        assert(ps1[a] == ps0[a]);
                    } else {
                        assert(ps1[a] == cur0);
                    }
                }
                if ps0.len() == 0 {
                    assert(join_nl(ps1) == ps1[0]);
                } else {
                    assert(join_nl(ps1) == join_nl(ps0) + seq!['\n'] + ps1.last());
                }
                assert(s@.take(i + 1) =~= join_nl(ps1) + seq!['\n'] + cur@);
            }
        } else {
            string_push(&mut cur, c);
            proof {
                if ps0.len() == 0 {
                    assert(s@.take(i + 1) =~= cur@);
                } else {
                    assert(s@.take(i + 1) =~= join_nl(ps0) + seq!['\n'] + cur@);
                }
            }
        }
        i = i + 1;
    }
    let ghost ps0 = line_views(parts@);
    let ghost cur0 = cur@;
    parts.push(cur);
    proof {
        let ps1 = line_views(parts@);
        assert(ps1.drop_last() =~= ps0);
        assert(ps1.last() == parts@.last()@);
        assert(ps1.last() == cur0);
        assert forall|a: int, b: int|
            0 <= a < ps1.len() && 0 <= b < ps1[a].len() implies ps1[a][b] != '\n' by {
            if a < ps1.len() - 1 {
                assert(ps1[a] == ps0[a]);
            } else {
                assert(ps1[a] == cur0);
            }
        }
        if ps0.len() == 0 {
            assert(join_nl(ps1) == ps1[0]);
        } else {
            assert(join_nl(ps1) == join_nl(ps0) + seq!['\n'] + ps1.last());
        }
        assert(s@.take(n as int) =~= s@);
        assert(join_nl(ps1) == s@);
    }
    parts
}

/// Whitespace that trimming strips: spaces, tabs and carriage returns.
pub open spec fn is_ws(c: char) -> bool {
    c == ' ' || c == '\t' || c == '\r'
}

/// The text with leading whitespace stripped.
pub open spec fn trim_front(s: Seq<char>) -> Seq<char>
    decreases s.len(),
{
    if s.len() > 0 && is_ws(s[0]) {
        trim_front(s.drop_first())
    } else {
        s
    }
}

/// The text with trailing whitespace stripped.
pub open spec fn trim_back(s: Seq<char>) -> Seq<char>
    decreases s.len(),
{
    if s.len() > 0 && is_ws(s.last()) {
        trim_back(s.drop_last())
    } else {
        s
    }
}

/// The text with whitespace stripped from both ends.
pub open spec fn trim_of(s: Seq<char>) -> Seq<char> {
    trim_back(trim_front(s))
}

proof fn lemma_trim_front_skip(s: Seq<char>, a: int)
    requires
        0 <= a <= s.len(),
        forall|i: int| 0 <= i < a ==> is_ws(s[i]),
        a < s.len() ==> !is_ws(s[a]),
    ensures
        trim_front(s) == s.skip(a),
    decreases a,
{
    if a == 0 {
        assert(s.skip(0) =~= s);
    } else {
        assert(is_ws(s[0]));
        lemma_trim_front_skip(s.drop_first(), a - 1);
        assert(s.drop_first().skip(a - 1) =~= s.skip(a));
    }
}

proof fn lemma_trim_back_take(s: Seq<char>, b: int)
    requires
        0 <= b <= s.len(),
        forall|i: int| b <= i < s.len() ==> is_ws(s[i]),
        b > 0 ==> !is_ws(s[b - 1]),
    ensures
        trim_back(s) == s.take(b),
    decreases s.len() - b,
{
    if b == s.len() {
        assert(s.take(b) =~= s);
    } else {
        assert(is_ws(s.last()));
        lemma_trim_back_take(s.drop_last(), b);
        assert(s.drop_last().take(b) =~= s.take(b));
    }
}

/// Strip whitespace from both ends, as `trim_of` describes.
pub fn trim_ascii(s: &str) -> (r: String)
    ensures
        r@ == trim_of(s@),
{
    let n = s.unicode_len();
    let mut a: usize = 0;
    loop
        invariant
            n == s@.len(),
            a <= n,
            forall|i: int| 0 <= i < a ==> is_ws(s@[i]),
        ensures
            a <= n,
            forall|i: int| 0 <= i < a ==> is_ws(s@[i]),
            a < n ==> !is_ws(s@[a as int]),
        decreases n - a,
    {
        if a >= n {
            break;
        }
        let c = s.get_char(a);
        if !(c == ' ' || c == '\t' || c == '\r') {
            break;
        }
        a = a + 1;
    }
    proof {
        lemma_trim_front_skip(s@, a as int);
    }
    let mut b: usize = n;
    loop
        invariant
            n == s@.len(),
            a <= b <= n,
            forall|i: int| 0 <= i < a ==> is_ws(s@[i]),
            forall|i: int| b <= i < n ==> is_ws(s@[i]),
        ensures
            a <= b <= n,
            forall|i: int| b <= i < n ==> is_ws(s@[i]),
            b > a ==> !is_ws(s@[b - 1]),
        decreases b,
    {
        if b <= a {
            break;
        }
        let c = s.get_char(b - 1);
        if !(c == ' ' || c == '\t' || c == '\r') {
            break;
        }
        b = b - 1;
    }
    proof {
        let tf = s@.skip(a as int);
        assert(forall|i: int| b - a <= i < tf.len() ==> is_ws(tf[i]));
        if b > a {
            assert(!is_ws(tf[b - a - 1]));
        }
        lemma_trim_back_take(tf, b - a);
        assert(tf.take(b - a) =~= s@.subrange(a as int, b as int));
    }
    s.substring_char(a, b).to_owned()
}

/// The tag list joined with ", ".
pub open spec fn join_comma(ts: Seq<String>) -> Seq<char>
    decreases ts.len(),
{
    if ts.len() == 0 {
        Seq::empty()
    } else if ts.len() == 1 {
        ts[0]@
    } else {
        join_comma(ts.drop_last()) + ", "@ + ts.last()@
    }
}

fn push_joined(out: &mut String, ts: &Vec<String>)
    ensures
        final(out)@ == old(out)@ + join_comma(ts@),
{
    let n = ts.len();
    if n == 0 {
        proof {
            assert(out@ =~= old(out)@ + join_comma(ts@));
        }
        return;
    }
    out.append(ts[0].as_str());
    proof {
        assert(ts@.take(1) =~= seq![ts@[0]]);
        assert(out@ =~= old(out)@ + join_comma(ts@.take(1)));
    }
    let mut i: usize = 1;
    while i < n
        invariant
            n == ts@.len(),
            1 <= i <= n,
            out@ == old(out)@ + join_comma(ts@.take(i as int)),
        decreases n - i,
    {
        out.append(", ");
        out.append(ts[i].as_str());
        proof {
            assert(ts@.take(i + 1).drop_last() =~= ts@.take(i as int));
            assert(ts@.take(i + 1).last() == ts@[i as int]);
            assert(out@ =~= old(out)@ + join_comma(ts@.take(i + 1)));
        }
        i = i + 1;
    }
    proof {
        assert(ts@.take(n as int) =~= ts@);
    }
}

/// The document handed to the editor for an idea.
pub open spec fn idea_markdown(i: Idea) -> Seq<char> {
    "# "@ + i.title@ + "\n\n"@ + (match i.description {
        Some(d) => d@,
        None => Seq::empty(),
    }) + "\n\nTags: "@ + join_comma(i.tags@) + "\n\nStatus: "@ + i.status.spec_name() + "\n\n"@
}

/// Render an idea as its editor document.
pub fn render_idea_markdown(i: &Idea) -> (r: String)
    ensures
        r@ == idea_markdown(*i),
{
    let mut out = String::from_str("# ");
    out.append(i.title.as_str());
    out.append("\n\n");
    match &i.description {
        Some(d) => out.append(d.as_str()),
        None => {},
    }
    out.append("\n\nTags: ");
    push_joined(&mut out, &i.tags);
    out.append("\n\nStatus: ");
    out.append(i.status.name());
    out.append("\n\n");
    proof {
        assert(out@ =~= idea_markdown(*i));
    }
    out
}

/// The document handed to the editor for a task.
pub open spec fn task_markdown(t: Task) -> Seq<char> {
    "# "@ + t.title@ + "\n\n"@ + (match t.description {
        Some(d) => d@,
        None => Seq::empty(),
    }) + "\n\nPriority: "@ + t.priority.spec_name() + "\nStatus: "@ + t.status.spec_name()
        + "\nTags: "@ + join_comma(t.tags@) + "\n\n"@
}

/// Render a task as its editor document.
pub fn render_task_markdown(t: &Task) -> (r: String)
    ensures
        r@ == task_markdown(*t),
{
    let mut out = String::from_str("# ");
    out.append(t.title.as_str());
    out.append("\n\n");
    match &t.description {
        Some(d) => out.append(d.as_str()),
        None => {},
    }
    out.append("\n\nPriority: ");
    out.append(t.priority.name());
    out.append("\nStatus: ");
    out.append(t.status.name());
    out.append("\nTags: ");
    push_joined(&mut out, &t.tags);
    out.append("\n\n");
    proof {
        assert(out@ =~= task_markdown(*t));
    }
    out
}

/// Whether a line opens a title.
pub open spec fn is_title_line(l: String) -> bool {
    starts_with(l@, "# "@)
}

/// Whether a line ends the free-text body of an idea document.
pub open spec fn is_idea_boundary(l: String) -> bool {
    starts_with(l@, "Tags:"@) || starts_with(l@, "Status:"@)
}

/// Whether a line ends the free-text body of a task document.
pub open spec fn is_task_boundary(l: String) -> bool {
    starts_with(l@, "Priority:"@) || starts_with(l@, "Status:"@) || starts_with(l@, "Tags:"@)
}

/// Whether line `i` lies in the free-text body: the nearest earlier
/// heading or trailing-field line is a heading.
pub open spec fn idea_desc_on(lines: Seq<String>, i: int) -> bool {
    exists|j: int|
        0 <= j < i && is_title_line(lines[j]) && (forall|k: int|
            j < k < i ==> !is_title_line(lines[k]) && !is_idea_boundary(lines[k]))
}

/// The description collected from the body lines before line `i`:
/// non-empty trimmed body lines, joined with newlines.
pub open spec fn idea_desc_text(lines: Seq<String>, i: int) -> Seq<char>
    decreases i,
{
    if i <= 0 {
        Seq::empty()
    } else {
        let pre = idea_desc_text(lines, i - 1);
        let l = lines[i - 1];
        if idea_desc_on(lines, i - 1) && !is_title_line(l) && !is_idea_boundary(l) && trim_of(
            l@,
        ).len() > 0 {
            if pre.len() == 0 {
                trim_of(l@)
            } else {
                pre + seq!['\n'] + trim_of(l@)
            }
        } else {
            pre
        }
    }
}

/// As `idea_desc_on`, with the task document's trailing fields.
pub open spec fn task_desc_on(lines: Seq<String>, i: int) -> bool {
    exists|j: int|
        0 <= j < i && is_title_line(lines[j]) && (forall|k: int|
            j < k < i ==> !is_title_line(lines[k]) && !is_task_boundary(lines[k]))
}

/// As `idea_desc_text`, with the task document's trailing fields.
pub open spec fn task_desc_text(lines: Seq<String>, i: int) -> Seq<char>
    decreases i,
{
    if i <= 0 {
        Seq::empty()
    } else {
        let pre = task_desc_text(lines, i - 1);
        let l = lines[i - 1];
        if task_desc_on(lines, i - 1) && !is_title_line(l) && !is_task_boundary(l) && trim_of(
            l@,
        ).len() > 0 {
            if pre.len() == 0 {
                trim_of(l@)
            } else {
                pre + seq!['\n'] + trim_of(l@)
            }
        } else {
            pre
        }
    }
}

/// The position of the first line beginning with `p`, if any.
fn find_prefixed(lines: &Vec<String>, p: &str) -> (r: Option<usize>)
    ensures
        match r {
            Some(i) => 0 <= i < lines@.len() && starts_with(lines@[i as int]@, p@) && (forall|
                j: int,
            | 0 <= j < i ==> !starts_with(lines@[j]@, p@)),
            None => forall|j: int| 0 <= j < lines@.len() ==> !starts_with(lines@[j]@, p@),
        },
{
    let n = lines.len();
    let mut i: usize = 0;
    while i < n
        invariant
            n == lines@.len(),
            i <= n,
            forall|j: int| 0 <= j < i ==> !starts_with(lines@[j]@, p@),
        decreases n - i,
    {
        if crate::text::is_prefix(lines[i].as_str(), p) {
            return Some(i);
        }
        i = i + 1;
    }
    None
}

/// The text joined back with commas.
pub open spec fn join_commas(ps: Seq<Seq<char>>) -> Seq<char>
    decreases ps.len(),
{
    if ps.len() == 0 {
        Seq::empty()
    } else if ps.len() == 1 {
        ps[0]
    } else {
        join_commas(ps.drop_last()) + seq![','] + ps.last()
    }
}

/// Split text on commas. The result is the unique decomposition whose
/// rejoining gives the text back.
pub fn split_commas(s: &str) -> (r: Vec<String>)
    ensures
        join_commas(line_views(r@)) == s@,
        r@.len() >= 1,
        forall|a: int, b: int| 0 <= a < line_views(r@).len() && 0 <= b < line_views(
            r@,
        )[a].len() ==> line_views(r@)[a][b] != ',',
{
    let n = s.unicode_len();
    let mut parts: Vec<String> = Vec::new();
    let mut cur = String::new();
    let mut i: usize = 0;
    while i < n
        invariant
            n == s@.len(),
            i <= n,
            line_views(parts@).len() == 0 ==> s@.take(i as int) == cur@,
            line_views(parts@).len() > 0 ==> s@.take(i as int) == join_commas(line_views(parts@))
                + seq![','] + cur@,
            forall|a: int, b: int| 0 <= a < line_views(parts@).len() && 0 <= b < line_views(
                parts@,
            )[a].len() ==> line_views(parts@)[a][b] != ',',
            forall|b: int| 0 <= b < cur@.len() ==> cur@[b] != ',',
        decreases n - i,
    {
        let c = s.get_char(i);
        let ghost ps0 = line_views(parts@);
        let ghost cur0 = cur@;
        if c == ',' {
            let done = cur;
            cur = String::new();
            parts.push(done);
            proof {
                let ps1 = line_views(parts@);
                assert(ps1.drop_last() =~= ps0);
                assert(ps1.last() == parts@.last()@);
                assert(ps1.last() == cur0);
                assert forall|a: int, b: int|
                    0 <= a < ps1.len() && 0 <= b < ps1[a].len() implies ps1[a][b] != ',' by {
                    if a < ps1.len() - 1 {
                        assert(ps1[a] == ps0[a]);
                    } else {
                        assert(ps1[a] == cur0);
                    }
                }
                if ps0.len() == 0 {
                    assert(join_commas(ps1) == ps1[0]);
                } else {
                    assert(join_commas(ps1) == join_commas(ps0) + seq![','] + ps1.last());
                }
                assert(s@.take(i + 1) =~= join_commas(ps1) + seq![','] + cur@);
            }
        } else {
            string_push(&mut cur, c);
            proof {
                if ps0.len() == 0 {
                    assert(s@.take(i + 1) =~= cur@);
                } else {
                    assert(s@.take(i + 1) =~= join_commas(ps0) + seq![','] + cur@);
                }
            }
        }
        i = i + 1;
    }
    let ghost ps0 = line_views(parts@);
    let ghost cur0 = cur@;
    parts.push(cur);
    proof {
        let ps1 = line_views(parts@);
        assert(ps1.drop_last() =~= ps0);
        assert(ps1.last() == parts@.last()@);
        assert(ps1.last() == cur0);
        assert forall|a: int, b: int|
            0 <= a < ps1.len() && 0 <= b < ps1[a].len() implies ps1[a][b] != ',' by {
            if a < ps1.len() - 1 {
                assert(ps1[a] == ps0[a]);
            } else {
                assert(ps1[a] == cur0);
            }
        }
        if ps0.len() == 0 {
            assert(join_commas(ps1) == ps1[0]);
        } else {
            assert(join_commas(ps1) == join_commas(ps0) + seq![','] + ps1.last());
        }
        assert(s@.take(n as int) =~= s@);
        assert(join_commas(ps1) == s@);
    }
    parts
}

/// Split on commas and trim each part.
fn split_tags(s: &str) -> (r: Vec<String>)
    ensures
        exists|ps: Seq<Seq<char>>|
            {
                &&& join_commas(ps) == s@
                &&& r@.len() == ps.len()
                &&& forall|k: int| 0 <= k < ps.len() ==> r@[k]@ == trim_of(ps[k])
            },
{
    let raw = split_commas(s);
    let ghost ps = line_views(raw@);
    let n = raw.len();
    let mut out: Vec<String> = Vec::new();
    let mut i: usize = 0;
    while i < n
        invariant
            n == raw@.len(),
            i <= n,
            out@.len() == i,
            forall|k: int| 0 <= k < i ==> out@[k]@ == trim_of(line_views(raw@)[k]),
        decreases n - i,
    {
        out.push(trim_ascii(raw[i].as_str()));
        i = i + 1;
    }
    out
}

/// The tail of the line after a prefix of length `plen`, trimmed.
fn line_tail(l: &String, plen: usize) -> (r: String)
    requires
        plen <= l@.len(),
    ensures
        r@ == trim_of(l@.skip(plen as int)),
{
    let n = l.as_str().unicode_len();
    let tail = l.as_str().substring_char(plen, n);
    proof {
        assert(tail@ =~= l@.skip(plen as int));
    }
    trim_ascii(tail)
}


/// Replace the title from the first heading line, if there is one.
fn apply_idea_title(idea: &mut Idea, lines: &Vec<String>)
    ensures
        *final(idea) == (Idea { title: final(idea).title, ..*old(idea) }),
        (exists|i: int| 0 <= i < lines@.len() && is_title_line(lines@[i])) ==> exists|i: int|
            {
                &&& 0 <= i < lines@.len()
                &&& is_title_line(lines@[i])
                &&& (forall|j: int| 0 <= j < i ==> !is_title_line(lines@[j]))
                &&& final(idea).title@ == trim_of(lines@[i]@.skip(2))
            },
        (forall|i: int| 0 <= i < lines@.len() ==> !is_title_line(lines@[i])) ==> final(idea).title
            == old(idea).title,
{
    match find_prefixed(lines, "# ") {
        Some(i) => {
            let pl = "# ".unicode_len();
            proof {
                reveal_strlit("# ");
            }
            idea.title = line_tail(&lines[i], pl);
        },
        None => {},
    }
}

/// Replace the description from the non-empty body lines, if any.
fn apply_idea_description(idea: &mut Idea, lines: &Vec<String>)
    ensures
        *final(idea) == (Idea { description: final(idea).description, ..*old(idea) }),
        idea_desc_text(lines@, lines@.len() as int).len() > 0 ==> (final(idea).description matches Some(d) && d@ == idea_desc_text(lines@, lines@.len() as int)),
        idea_desc_text(lines@, lines@.len() as int).len() == 0 ==> final(idea).description == old(
            idea,
        ).description,
{
    let n = lines.len();
    let mut in_desc = false;
    let mut desc = String::new();
    let mut i: usize = 0;
    while i < n
        invariant
            n == lines@.len(),
            i <= n,
            in_desc == idea_desc_on(lines@, i as int),
            desc@ == idea_desc_text(lines@, i as int),
        decreases n - i,
    {
        let l = &lines[i];
        if crate::text::is_prefix(l.as_str(), "# ") {
            in_desc = true;
            proof {
                assert(is_title_line(lines@[i as int]));
                assert(idea_desc_on(lines@, i + 1));
            }
        } else if crate::text::is_prefix(l.as_str(), "Tags:") || crate::text::is_prefix(
            l.as_str(),
            "Status:",
        ) {
            in_desc = false;
            proof {
                if idea_desc_on(lines@, i + 1) {
                    let j = choose|j: int|
                        0 <= j < i + 1 && is_title_line(lines@[j]) && (forall|k: int|
                            j < k < i + 1 ==> !is_title_line(lines@[k]) && !is_idea_boundary(
                                lines@[k],
                            ));
                    if j == i {
                        assert(is_title_line(lines@[i as int]));
                        assert(false);
                    } else {
                        assert(!is_idea_boundary(lines@[i as int]));
                        assert(false);
                    }
                }
            }
        } else {
            proof {
                if idea_desc_on(lines@, i as int) {
                    let j = choose|j: int|
                        0 <= j < i && is_title_line(lines@[j]) && (forall|k: int|
                            j < k < i ==> !is_title_line(lines@[k]) && !is_idea_boundary(
                                lines@[k],
                            ));
                    assert(forall|k: int|
                        j < k < i + 1 ==> !is_title_line(lines@[k]) && !is_idea_boundary(
                            lines@[k],
                        ));
                    assert(idea_desc_on(lines@, i + 1));
                }
                if idea_desc_on(lines@, i + 1) {
                    let j = choose|j: int|
                        0 <= j < i + 1 && is_title_line(lines@[j]) && (forall|k: int|
                            j < k < i + 1 ==> !is_title_line(lines@[k]) && !is_idea_boundary(
                                lines@[k],
                            ));
                    assert(j != i);
                    assert(idea_desc_on(lines@, i as int));
                }
            }
            if in_desc {
                let t = trim_ascii(l.as_str());
                if t.as_str().unicode_len() > 0 {
                    if desc.as_str().unicode_len() == 0 {
                        desc = t;
                    } else {
                        string_push(&mut desc, '\n');
                        desc.append(t.as_str());
                    }
                }
            }
        }
        proof {
            assert(desc@ == idea_desc_text(lines@, i + 1));
        }
        i = i + 1;
    }
    if desc.as_str().unicode_len() > 0 {
        idea.description = Some(desc);
    }
}

/// Replace the tag list from the topmost `Tags:` line, if there is one.
fn apply_idea_tags(idea: &mut Idea, lines: &Vec<String>)
    ensures
        *final(idea) == (Idea { tags: final(idea).tags, ..*old(idea) }),
        (forall|i: int| 0 <= i < lines@.len() ==> !starts_with(lines@[i]@, "Tags:"@)) ==> final(idea).tags == old(idea).tags,
        (exists|i: int| 0 <= i < lines@.len() && starts_with(lines@[i]@, "Tags:"@)) ==> exists|
            i: int,
        |
            {
                &&& 0 <= i < lines@.len()
                &&& starts_with(lines@[i]@, "Tags:"@)
                &&& (forall|j: int| 0 <= j < i ==> !starts_with(lines@[j]@, "Tags:"@))
                &&& (trim_of(lines@[i]@.skip(5)).len() == 0 ==> final(idea).tags@.len() == 0)
                &&& (trim_of(lines@[i]@.skip(5)).len() > 0 ==> exists|ps: Seq<Seq<char>>|
                    {
                        &&& join_commas(ps) == trim_of(lines@[i]@.skip(5))
                        &&& final(idea).tags@.len() == ps.len()
                        &&& (forall|k: int| 0 <= k < ps.len() ==> final(idea).tags@[k]@ == trim_of(
                            ps[k],
                        ))
                    })
            },
{
    match find_prefixed(lines, "Tags:") {
        Some(i) => {
            let pl = "Tags:".unicode_len();
            proof {
                reveal_strlit("Tags:");
            }
            let rest = line_tail(&lines[i], pl);
            if rest.as_str().unicode_len() == 0 {
                idea.tags = Vec::new();
            } else {
                idea.tags = split_tags(rest.as_str());
            }
        },
        None => {},
    }
}

/// Apply the topmost `Status:` line when its text parses as a status.
fn apply_idea_status(idea: &mut Idea, lines: &Vec<String>)
    ensures
        *final(idea) == (Idea {
            status: final(idea).status,
            updated_at: final(idea).updated_at,
            ..*old(idea)
        }),
        final(idea).updated_at >= old(idea).updated_at,
        old(idea).wf() ==> final(idea).wf(),
        (forall|i: int| 0 <= i < lines@.len() ==> !starts_with(lines@[i]@, "Status:"@)) ==> final(idea).status == old(idea).status,
        (exists|i: int| 0 <= i < lines@.len() && starts_with(lines@[i]@, "Status:"@)) ==> exists|
            i: int,
        |
            {
                &&& 0 <= i < lines@.len()
                &&& starts_with(lines@[i]@, "Status:"@)
                &&& (forall|j: int| 0 <= j < i ==> !starts_with(lines@[j]@, "Status:"@))
                &&& final(idea).status == (match parse_idea_status(
                    lower_ascii(trim_of(lines@[i]@.skip(7))),
                ) {
                    Some(st) => st,
                    None => old(idea).status,
                })
            },
{
    match find_prefixed(lines, "Status:") {
        Some(i) => {
            let pl = "Status:".unicode_len();
            proof {
                reveal_strlit("Status:");
            }
            let rest = line_tail(&lines[i], pl);
            match crate::idea::IdeaStatus::parse(rest.as_str()) {
                Some(st) => idea.set_status(st),
                None => {},
            }
        },
        None => {},
    }
}

/// Apply an edited idea document back to the idea, line by line: the
/// heading replaces the title, non-empty trimmed body lines replace the
/// description, and the topmost `Tags:` and `Status:` lines replace the
/// tag list and (when its text parses) the status. The edit refreshes
/// `updated_at`.
pub fn apply_edited_idea(idea: &mut Idea, lines: &Vec<String>)
    ensures
        final(idea).id == old(idea).id,
        final(idea).created_at == old(idea).created_at,
        final(idea).updated_at >= old(idea).updated_at,
        old(idea).wf() ==> final(idea).wf(),
        (exists|i: int| 0 <= i < lines@.len() && is_title_line(lines@[i])) ==> exists|i: int|
            {
                &&& 0 <= i < lines@.len()
                &&& is_title_line(lines@[i])
                &&& (forall|j: int| 0 <= j < i ==> !is_title_line(lines@[j]))
                &&& final(idea).title@ == trim_of(lines@[i]@.skip(2))
            },
        (forall|i: int| 0 <= i < lines@.len() ==> !is_title_line(lines@[i])) ==> final(idea).title
            == old(idea).title,
        idea_desc_text(lines@, lines@.len() as int).len() > 0 ==> (final(idea).description matches Some(d) && d@ == idea_desc_text(lines@, lines@.len() as int)),
        idea_desc_text(lines@, lines@.len() as int).len() == 0 ==> final(idea).description == old(
            idea,
        ).description,
        (forall|i: int| 0 <= i < lines@.len() ==> !starts_with(lines@[i]@, "Tags:"@)) ==> final(idea).tags == old(idea).tags,
        (exists|i: int| 0 <= i < lines@.len() && starts_with(lines@[i]@, "Tags:"@)) ==> exists|
            i: int,
        |
            {
                &&& 0 <= i < lines@.len()
                &&& starts_with(lines@[i]@, "Tags:"@)
                &&& (forall|j: int| 0 <= j < i ==> !starts_with(lines@[j]@, "Tags:"@))
                &&& (trim_of(lines@[i]@.skip(5)).len() == 0 ==> final(idea).tags@.len() == 0)
                &&& (trim_of(lines@[i]@.skip(5)).len() > 0 ==> exists|ps: Seq<Seq<char>>|
                    {
                        &&& join_commas(ps) == trim_of(lines@[i]@.skip(5))
                        &&& final(idea).tags@.len() == ps.len()
                        &&& (forall|k: int| 0 <= k < ps.len() ==> final(idea).tags@[k]@ == trim_of(
                            ps[k],
                        ))
                    })
            },
        (forall|i: int| 0 <= i < lines@.len() ==> !starts_with(lines@[i]@, "Status:"@)) ==> final(idea).status == old(idea).status,
        (exists|i: int| 0 <= i < lines@.len() && starts_with(lines@[i]@, "Status:"@)) ==> exists|
            i: int,
        |
            {
                &&& 0 <= i < lines@.len()
                &&& starts_with(lines@[i]@, "Status:"@)
                &&& (forall|j: int| 0 <= j < i ==> !starts_with(lines@[j]@, "Status:"@))
                &&& final(idea).status == (match parse_idea_status(
                    lower_ascii(trim_of(lines@[i]@.skip(7))),
                ) {
                    Some(st) => st,
                    None => old(idea).status,
                })
            },
{
    apply_idea_title(idea, lines);
    apply_idea_description(idea, lines);
    apply_idea_tags(idea, lines);
    apply_idea_status(idea, lines);
    idea.touch();
}

/// Replace the title from the first heading line, if there is one.
fn apply_task_title(task: &mut Task, lines: &Vec<String>)
    ensures
        *final(task) == (Task { title: final(task).title, ..*old(task) }),
        (exists|i: int| 0 <= i < lines@.len() && is_title_line(lines@[i])) ==> exists|i: int|
            {
                &&& 0 <= i < lines@.len()
                &&& is_title_line(lines@[i])
                &&& (forall|j: int| 0 <= j < i ==> !is_title_line(lines@[j]))
                &&& final(task).title@ == trim_of(lines@[i]@.skip(2))
            },
        (forall|i: int| 0 <= i < lines@.len() ==> !is_title_line(lines@[i])) ==> final(task).title
            == old(task).title,
{
    match find_prefixed(lines, "# ") {
        Some(i) => {
            let pl = "# ".unicode_len();
            proof {
                reveal_strlit("# ");
            }
            task.title = line_tail(&lines[i], pl);
        },
        None => {},
    }
}

/// Replace the description from the non-empty body lines, if any.
fn apply_task_description(task: &mut Task, lines: &Vec<String>)
    ensures
        *final(task) == (Task { description: final(task).description, ..*old(task) }),
        task_desc_text(lines@, lines@.len() as int).len() > 0 ==> (final(task).description matches Some(d) && d@ == task_desc_text(lines@, lines@.len() as int)),
        task_desc_text(lines@, lines@.len() as int).len() == 0 ==> final(task).description == old(task).description,
{
    let n = lines.len();
    let mut in_desc = false;
    let mut desc = String::new();
    let mut i: usize = 0;
    while i < n
        invariant
            n == lines@.len(),
            i <= n,
            in_desc == task_desc_on(lines@, i as int),
            desc@ == task_desc_text(lines@, i as int),
        decreases n - i,
    {
        let l = &lines[i];
        if crate::text::is_prefix(l.as_str(), "# ") {
            in_desc = true;
            proof {
                assert(is_title_line(lines@[i as int]));
                assert(task_desc_on(lines@, i + 1));
            }
        } else if crate::text::is_prefix(l.as_str(), "Priority:") || crate::text::is_prefix(
            l.as_str(),
            "Status:",
        ) || crate::text::is_prefix(l.as_str(), "Tags:") {
            in_desc = false;
            proof {
                if task_desc_on(lines@, i + 1) {
                    let j = choose|j: int|
                        0 <= j < i + 1 && is_title_line(lines@[j]) && (forall|k: int|
                            j < k < i + 1 ==> !is_title_line(lines@[k]) && !is_task_boundary(
                                lines@[k],
                            ));
                    if j == i {
                        assert(is_title_line(lines@[i as int]));
                        assert(false);
                    } else {
                        assert(!is_task_boundary(lines@[i as int]));
                        assert(false);
                    }
                }
            }
        } else {
            proof {
                if task_desc_on(lines@, i as int) {
                    let j = choose|j: int|
                        0 <= j < i && is_title_line(lines@[j]) && (forall|k: int|
                            j < k < i ==> !is_title_line(lines@[k]) && !is_task_boundary(
                                lines@[k],
                            ));
                    assert(forall|k: int|
                        j < k < i + 1 ==> !is_title_line(lines@[k]) && !is_task_boundary(
                            lines@[k],
                        ));
                    assert(task_desc_on(lines@, i + 1));
                }
                if task_desc_on(lines@, i + 1) {
                    let j = choose|j: int|
                        0 <= j < i + 1 && is_title_line(lines@[j]) && (forall|k: int|
                            j < k < i + 1 ==> !is_title_line(lines@[k]) && !is_task_boundary(
                                lines@[k],
                            ));
                    assert(j != i);
                    assert(task_desc_on(lines@, i as int));
                }
            }
            if in_desc {
                let t = trim_ascii(l.as_str());
                if t.as_str().unicode_len() > 0 {
                    if desc.as_str().unicode_len() == 0 {
                        desc = t;
                    } else {
                        string_push(&mut desc, '\n');
                        desc.append(t.as_str());
                    }
                }
            }
        }
        proof {
            assert(desc@ == task_desc_text(lines@, i + 1));
        }
        i = i + 1;
    }
    if desc.as_str().unicode_len() > 0 {
        task.description = Some(desc);
    }
}

/// Replace the tag list from the topmost `Tags:` line, if there is one.
fn apply_task_tags(task: &mut Task, lines: &Vec<String>)
    ensures
        *final(task) == (Task { tags: final(task).tags, ..*old(task) }),
        (forall|i: int| 0 <= i < lines@.len() ==> !starts_with(lines@[i]@, "Tags:"@)) ==> final(task).tags == old(task).tags,
        (exists|i: int| 0 <= i < lines@.len() && starts_with(lines@[i]@, "Tags:"@)) ==> exists|
            i: int,
        |
            {
                &&& 0 <= i < lines@.len()
                &&& starts_with(lines@[i]@, "Tags:"@)
                &&& (forall|j: int| 0 <= j < i ==> !starts_with(lines@[j]@, "Tags:"@))
                &&& (trim_of(lines@[i]@.skip(5)).len() == 0 ==> final(task).tags@.len() == 0)
                &&& (trim_of(lines@[i]@.skip(5)).len() > 0 ==> exists|ps: Seq<Seq<char>>|
                    {
                        &&& join_commas(ps) == trim_of(lines@[i]@.skip(5))
                        &&& final(task).tags@.len() == ps.len()
                        &&& (forall|k: int| 0 <= k < ps.len() ==> final(task).tags@[k]@ == trim_of(
                            ps[k],
                        ))
                    })
            },
{
    match find_prefixed(lines, "Tags:") {
        Some(i) => {
            let pl = "Tags:".unicode_len();
            proof {
                reveal_strlit("Tags:");
            }
            let rest = line_tail(&lines[i], pl);
            if rest.as_str().unicode_len() == 0 {
                task.tags = Vec::new();
            } else {
                task.tags = split_tags(rest.as_str());
            }
        },
        None => {},
    }
}

/// Apply the topmost `Status:` line when its text parses as a status.
fn apply_task_status(task: &mut Task, lines: &Vec<String>)
    ensures
        *final(task) == (Task { status: final(task).status, ..*old(task) }),
        (forall|i: int| 0 <= i < lines@.len() ==> !starts_with(lines@[i]@, "Status:"@)) ==> final(task).status == old(task).status,
        (exists|i: int| 0 <= i < lines@.len() && starts_with(lines@[i]@, "Status:"@)) ==> exists|
            i: int,
        |
            {
                &&& 0 <= i < lines@.len()
                &&& starts_with(lines@[i]@, "Status:"@)
                &&& (forall|j: int| 0 <= j < i ==> !starts_with(lines@[j]@, "Status:"@))
                &&& final(task).status == (match parse_task_status(
                    lower_ascii(trim_of(lines@[i]@.skip(7))),
                ) {
                    Some(st) => st,
                    None => old(task).status,
                })
            },
{
    match find_prefixed(lines, "Status:") {
        Some(i) => {
            let pl = "Status:".unicode_len();
            proof {
                reveal_strlit("Status:");
            }
            let rest = line_tail(&lines[i], pl);
            match crate::task::TaskStatus::parse(rest.as_str()) {
                Some(st) => {
                    task.status = st;
                },
                None => {},
            }
        },
        None => {},
    }
}

/// Apply the topmost `Priority:` line when its text parses as a priority.
fn apply_task_priority(task: &mut Task, lines: &Vec<String>)
    ensures
        *final(task) == (Task { priority: final(task).priority, ..*old(task) }),
        (forall|i: int| 0 <= i < lines@.len() ==> !starts_with(lines@[i]@, "Priority:"@)) ==>
            final(task).priority == old(task).priority,
        (exists|i: int| 0 <= i < lines@.len() && starts_with(lines@[i]@, "Priority:"@)) ==>
            exists|i: int|
            {
                &&& 0 <= i < lines@.len()
                &&& starts_with(lines@[i]@, "Priority:"@)
                &&& (forall|j: int| 0 <= j < i ==> !starts_with(lines@[j]@, "Priority:"@))
                &&& final(task).priority == (match parse_task_priority(
                    lower_ascii(trim_of(lines@[i]@.skip(9))),
                ) {
                    Some(pr) => pr,
                    None => old(task).priority,
                })
            },
{
    match find_prefixed(lines, "Priority:") {
        Some(i) => {
            let pl = "Priority:".unicode_len();
            proof {
                reveal_strlit("Priority:");
            }
            let rest = line_tail(&lines[i], pl);
            match crate::task::TaskPriority::parse(rest.as_str()) {
                Some(pr) => {
                    task.priority = pr;
                },
                None => {},
            }
        },
        None => {},
    }
}

/// Apply an edited task document back to the task, line by line, and
/// refresh its `updated_at` stamp.
pub fn apply_edited_task(task: &mut Task, lines: &Vec<String>)
    ensures
        final(task).id == old(task).id,
        final(task).created_at == old(task).created_at,
        final(task).due_date == old(task).due_date,
        final(task).project_id == old(task).project_id,
        final(task).idea_id == old(task).idea_id,
        final(task).updated_at >= old(task).updated_at,
        old(task).wf() ==> final(task).wf(),
        (exists|i: int| 0 <= i < lines@.len() && is_title_line(lines@[i])) ==> exists|i: int|
            {
                &&& 0 <= i < lines@.len()
                &&& is_title_line(lines@[i])
                &&& (forall|j: int| 0 <= j < i ==> !is_title_line(lines@[j]))
                &&& final(task).title@ == trim_of(lines@[i]@.skip(2))
            },
        (forall|i: int| 0 <= i < lines@.len() ==> !is_title_line(lines@[i])) ==> final(task).title
            == old(task).title,
        task_desc_text(lines@, lines@.len() as int).len() > 0 ==> (final(task).description matches Some(d) && d@ == task_desc_text(lines@, lines@.len() as int)),
        task_desc_text(lines@, lines@.len() as int).len() == 0 ==> final(task).description == old(task).description,
        (exists|i: int| 0 <= i < lines@.len() && starts_with(lines@[i]@, "Status:"@)) ==> exists|
            i: int,
        |
            {
                &&& 0 <= i < lines@.len()
                &&& starts_with(lines@[i]@, "Status:"@)
                &&& (forall|j: int| 0 <= j < i ==> !starts_with(lines@[j]@, "Status:"@))
                &&& final(task).status == (match parse_task_status(
                    lower_ascii(trim_of(lines@[i]@.skip(7))),
                ) {
                    Some(st) => st,
                    None => old(task).status,
                })
            },
        (exists|i: int| 0 <= i < lines@.len() && starts_with(lines@[i]@, "Priority:"@)) ==>
            exists|i: int|
            {
                &&& 0 <= i < lines@.len()
                &&& starts_with(lines@[i]@, "Priority:"@)
                &&& (forall|j: int| 0 <= j < i ==> !starts_with(lines@[j]@, "Priority:"@))
                &&& final(task).priority == (match parse_task_priority(
                    lower_ascii(trim_of(lines@[i]@.skip(9))),
                ) {
                    Some(pr) => pr,
                    None => old(task).priority,
                })
            },
        (exists|i: int| 0 <= i < lines@.len() && starts_with(lines@[i]@, "Tags:"@)) ==> exists|
            i: int,
        |
            {
                &&& 0 <= i < lines@.len()
                &&& starts_with(lines@[i]@, "Tags:"@)
                &&& (forall|j: int| 0 <= j < i ==> !starts_with(lines@[j]@, "Tags:"@))
                &&& (trim_of(lines@[i]@.skip(5)).len() == 0 ==> final(task).tags@.len() == 0)
                &&& (trim_of(lines@[i]@.skip(5)).len() > 0 ==> exists|ps: Seq<Seq<char>>|
                    {
                        &&& join_commas(ps) == trim_of(lines@[i]@.skip(5))
                        &&& final(task).tags@.len() == ps.len()
                        &&& (forall|k: int| 0 <= k < ps.len() ==> final(task).tags@[k]@ == trim_of(
                            ps[k],
                        ))
                    })
            },
{
    apply_task_title(task, lines);
    apply_task_description(task, lines);
    apply_task_priority(task, lines);
    apply_task_status(task, lines);
    apply_task_tags(task, lines);
    task.touch();
}

} // verus!
