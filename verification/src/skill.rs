//! Skills: named instruction documents with a YAML front matter, kept in a
//! registry that lists them and hands out their full text on demand.
use vstd::prelude::*;

use crate::text::{
    chars_of, concat, contains_chars, join, join_spec, lemma_sort_seq, occurs_at, occurs_at_exec,
    owned, push_char, sort_seq, sort_strings, str_eq, string_of, string_of_range, strictly_sorted,
    trim_bounds, trim_spec, views,
};

verus! {

/// The name, description and file of a skill.
pub struct SkillManifest {
    pub name: String,
    pub description: String,
    pub path: String,
}

/// A skill: its manifest and the body of its document.
pub struct SkillDocument {
    pub manifest: SkillManifest,
    pub body: String,
}

pub struct SkillView {
    pub name: Seq<char>,
    pub description: Seq<char>,
    pub path: Seq<char>,
    pub body: Seq<char>,
}

impl View for SkillDocument {
    type V = SkillView;

    open spec fn view(&self) -> SkillView {
        SkillView {
            name: self.manifest.name@,
            description: self.manifest.description@,
            path: self.manifest.path@,
            body: self.body@,
        }
    }
}

pub open spec fn skill_views(v: Seq<SkillDocument>) -> Seq<SkillView> {
    v.map_values(|d: SkillDocument| d@)
}

/// The full text of a skill as handed to the model.
pub open spec fn render_spec(d: SkillView) -> Seq<char> {
    "<skill name=\""@ + d.name + "\">\n"@ + d.body + "\n</skill>"@
}

impl SkillDocument {
    /// The full text of the skill: its body inside a `<skill>` element.
    pub fn render(&self) -> (r: String)
        ensures
            r@ == render_spec(self@),
    {
        let r = concat(owned("<skill name=\""), self.manifest.name.as_str());
        let r = concat(r, "\">\n");
        let r = concat(r, self.body.as_str());
        concat(r, "\n</skill>")
    }

    fn copy(&self) -> (r: SkillDocument)
        ensures
            r@ == self@,
    {
        SkillDocument {
            manifest: SkillManifest {
                name: self.manifest.name.clone(),
                description: self.manifest.description.clone(),
                path: self.manifest.path.clone(),
            },
            body: self.body.clone(),
        }
    }
}

/// One `SKILL.md` file as read from disk: where it is, the name of its
/// directory, the `name` and `description` of its front matter, and its body.
pub struct SkillSource {
    pub path: String,
    pub dir_name: Option<String>,
    pub name: Option<String>,
    pub description: Option<String>,
    pub body: String,
}

/// The names of the skills, in registry order.
pub open spec fn skill_names(docs: Seq<SkillView>) -> Seq<Seq<char>> {
    docs.map_values(|d: SkillView| d.name)
}

/// The index of the skill called `name`.
pub open spec fn find_skill(docs: Seq<SkillView>, name: Seq<char>) -> Option<int> {
    if exists|i: int| 0 <= i < docs.len() && docs[i].name == name {
        Some(choose|i: int| 0 <= i < docs.len() && docs[i].name == name)
    } else {
        None
    }
}

/// `docs` after adding `d`: it replaces the skill of the same name, or comes
/// last (`HashMap::insert`).
pub open spec fn insert_skill(docs: Seq<SkillView>, d: SkillView) -> Seq<SkillView> {
    match find_skill(docs, d.name) {
        Some(i) => docs.update(i, d),
        None => docs.push(d),
    }
}

/// The line that lists one skill.
pub open spec fn skill_line(docs: Seq<SkillView>, name: Seq<char>) -> Seq<char> {
    " - "@ + name + ": "@ + docs[find_skill(docs, name)->0].description
}

/// The list of skills, one line per skill in name order.
pub open spec fn describe_available_spec(docs: Seq<SkillView>) -> Seq<char> {
    if docs.len() == 0 {
        "(no skills available)"@
    } else {
        join_spec(sort_seq(skill_names(docs)).map_values(|n: Seq<char>| skill_line(docs, n)), "\n"@)
    }
}

/// The full text of the skill called `name`, or an error that lists the
/// skills in name order.
pub open spec fn load_full_text_spec(docs: Seq<SkillView>, name: Seq<char>) -> Seq<char> {
    match find_skill(docs, name) {
        Some(i) => render_spec(docs[i]),
        None => "Error: Unknown skill '"@ + name + "'. Available: "@ + join_spec(
            sort_seq(skill_names(docs)),
            ", "@,
        ),
    }
}

/// The skills found under a directory, by name.
pub struct SkillRegistry {
    skills_dir: String,
    skills: Vec<SkillDocument>,
}

impl View for SkillRegistry {
    type V = Seq<SkillView>;

    closed spec fn view(&self) -> Seq<SkillView> {
        skill_views(self.skills@)
    }
}

/// The registry of the skills in `skills_dir`, loaded from the files read
/// there.
pub fn get_skill_registry(skills_dir: String, sources: Vec<SkillSource>) -> (r: SkillRegistry)
    ensures
        r@ == load_sources_spec(Seq::empty(), sources@),
        r.dir()@ == skills_dir@,
{
    let mut registry = SkillRegistry::new(skills_dir);
    registry.load_skills(sources);
    registry
}

/// The skill that a source file describes: its front matter's name, or the
/// name of its directory, or `unknown`; its front matter's description or
/// `No description`.
pub open spec fn source_skill(s: SkillSourceView) -> SkillView {
    SkillView {
        name: match s.name {
            Some(n) => n,
            None => match s.dir_name {
                Some(d) => d,
                None => "unknown"@,
            },
        },
        description: match s.description {
            Some(d) => d,
            None => "No description"@,
        },
        path: s.path,
        body: s.body,
    }
}

pub struct SkillSourceView {
    pub path: Seq<char>,
    pub dir_name: Option<Seq<char>>,
    pub name: Option<Seq<char>>,
    pub description: Option<Seq<char>>,
    pub body: Seq<char>,
}

pub open spec fn opt_str_view(o: Option<String>) -> Option<Seq<char>> {
    match o {
        Some(s) => Some(s@),
        None => None,
    }
}

impl View for SkillSource {
    type V = SkillSourceView;

    open spec fn view(&self) -> SkillSourceView {
        SkillSourceView {
            path: self.path@,
            dir_name: opt_str_view(self.dir_name),
            name: opt_str_view(self.name),
            description: opt_str_view(self.description),
            body: self.body@,
        }
    }
}

/// `docs` after registering each source in turn.
pub open spec fn load_sources_spec(docs: Seq<SkillView>, sources: Seq<SkillSource>) -> Seq<SkillView>
    decreases sources.len(),
{
    if sources.len() == 0 {
        docs
    } else {
        insert_skill(load_sources_spec(docs, sources.drop_last()), source_skill(sources.last()@))
    }
}

pub open spec fn unique_names(docs: Seq<SkillView>) -> bool {
    forall|i: int, j: int| 0 <= i < j < docs.len() ==> #[trigger] docs[i].name != #[trigger] docs[j].name
}

impl SkillRegistry {
    #[verifier::type_invariant]
    spec fn inv(self) -> bool {
        unique_names(skill_views(self.skills@))
    }

    pub closed spec fn dir(&self) -> String {
        self.skills_dir
    }

    /// An empty registry for `skills_dir`.
    pub fn new(skills_dir: String) -> (r: SkillRegistry)
        ensures
            r@ == Seq::<SkillView>::empty(),
            r.dir() == skills_dir,
    {
        let r = SkillRegistry { skills_dir, skills: Vec::new() };
        assert(skill_views(r.skills@) =~= Seq::<SkillView>::empty());
        r
    }

    /// The directory the skills come from.
    pub fn skills_dir(&self) -> (r: &String)
        ensures
            *r == self.dir(),
    {
        &self.skills_dir
    }

    /// The index of the skill called `name`.
    fn position(&self, name: &str) -> (r: Option<usize>)
        ensures
            match r {
                Some(i) => find_skill(self@, name@) == Some(i as int) && i < self@.len(),
                None => find_skill(self@, name@) is None,
            },
    {
        proof {
            use_type_invariant(self);
        }
        let ghost docs = self@;
        let mut i: usize = 0;
        while i < self.skills.len()
            invariant
                i <= self.skills.len(),
                docs == skill_views(self.skills@),
                unique_names(docs),
                forall|k: int| 0 <= k < i ==> docs[k].name != name@,
            decreases self.skills.len() - i,
        {
            if str_eq(self.skills[i].manifest.name.as_str(), name) {
                assert(docs[i as int].name == name@);
                let ghost c = choose|k: int| 0 <= k < docs.len() && docs[k].name == name@;
                assert(c == i) by {
                    if c != i {
                        if c < i {
                            assert(docs[c].name != docs[i as int].name);
                        } else {
                            assert(docs[i as int].name != docs[c].name);
                        }
                    }
                }
                return Some(i);
            }
            i = i + 1;
        }
        None
    }

    /// Adds a skill, replacing the one of the same name.
    pub fn insert(&mut self, doc: SkillDocument)
        ensures
            final(self)@ == insert_skill(old(self)@, doc@),
            final(self).dir() == old(self).dir(),
    {
        proof {
            use_type_invariant(&*self);
        }
        let ghost docs = self@;
        match self.position(doc.manifest.name.as_str()) {
            Some(i) => {
                let mut skills: Vec<SkillDocument> = Vec::new();
                std::mem::swap(&mut skills, &mut self.skills);
                skills.set(i, doc);
                proof {
                    assert(skill_views(skills@) =~= docs.update(i as int, doc@));
                    let nd = skill_views(skills@);
                    assert forall|a: int, b: int| 0 <= a < b < nd.len() implies #[trigger] nd[a].name != #[trigger] nd[b].name by {
                        if a != i && b != i {
                            assert(nd[a] == docs[a] && nd[b] == docs[b]);
                        } else if a == i {
                            assert(nd[b] == docs[b]);
                            assert(docs[b].name != docs[a].name);
                        } else {
                            assert(nd[a] == docs[a]);
                            assert(docs[a].name != docs[b].name);
                        }
                    }
                }
                self.skills = skills;
            },
            None => {
                let mut skills: Vec<SkillDocument> = Vec::new();
                std::mem::swap(&mut skills, &mut self.skills);
                skills.push(doc);
                proof {
                    assert(skill_views(skills@) =~= docs.push(doc@));
                    let nd = skill_views(skills@);
                    assert forall|a: int, b: int| 0 <= a < b < nd.len() implies #[trigger] nd[a].name != #[trigger] nd[b].name by {
                        if b == nd.len() - 1 {
                            assert(nd[a] == docs[a]);
                            assert(!(0 <= a < docs.len() && docs[a].name == doc@.name));
                        } else {
                            assert(nd[a] == docs[a] && nd[b] == docs[b]);
                        }
                    }
                }
                self.skills = skills;
            },
        }
    }

    /// Registers the skill that a source file describes.
    pub fn register(&mut self, source: SkillSource)
        ensures
            final(self)@ == insert_skill(old(self)@, source_skill(source@)),
            final(self).dir() == old(self).dir(),
    {
        let name = match source.name {
            Some(n) => n,
            None => match source.dir_name {
                Some(d) => d,
                None => owned("unknown"),
            },
        };
        let description = match source.description {
            Some(d) => d,
            None => owned("No description"),
        };
        let doc = SkillDocument {
            manifest: SkillManifest { name, description, path: source.path },
            body: source.body,
        };
        self.insert(doc);
    }

    /// Replaces the skills with those of the given source files.
    pub fn load_skills(&mut self, sources: Vec<SkillSource>)
        ensures
            final(self)@ == load_sources_spec(Seq::empty(), sources@),
            final(self).dir() == old(self).dir(),
    {
        let ghost dir0 = self.skills_dir;
        self.skills = Vec::new();
        assert(self@ =~= Seq::<SkillView>::empty());
        let mut sources = sources;
        let ghost all = sources@;
        let mut rest: Vec<SkillSource> = Vec::new();
        // Take the sources from the back, then register them front to back.
        while sources.len() > 0
            invariant
                all == sources@ + rest@.reverse(),
                self@ == Seq::<SkillView>::empty(),
                self.skills_dir == dir0,
            decreases sources.len(),
        {
            let ghost s_before = sources@;
            let ghost r_before = rest@;
            let s = sources.pop().unwrap();
            rest.push(s);
            assert(rest@.reverse() =~= seq![s] + r_before.reverse());
            assert(all =~= sources@ + rest@.reverse());
        }
        let ghost ordered = rest@.reverse();
        assert(ordered == all);
        let total = rest.len();
        assert(all.len() == total);
        let mut done: usize = 0;
        while rest.len() > 0
            invariant
                done <= all.len(),
                all.len() <= usize::MAX,
                rest@.reverse() == all.subrange(done as int, all.len() as int),
                self@ == load_sources_spec(Seq::empty(), all.take(done as int)),
                self.skills_dir == dir0,
            decreases rest.len(),
        {
            let ghost r_before = rest@;
            let s = rest.pop().unwrap();
            assert(r_before.reverse().len() == all.len() - done);
            assert(r_before.reverse()[0] == r_before[r_before.len() - 1]);
            assert(all.subrange(done as int, all.len() as int)[0] == all[done as int]);
            assert(all[done as int] == s);
            assert(rest@.reverse() =~= r_before.reverse().drop_first());
            let ghost sv = s@;
            self.register(s);
            assert(all.take(done + 1).drop_last() =~= all.take(done as int));
            assert(all.take(done + 1).last() == all[done as int]);
            done = done + 1;
        }
        assert(all.take(done as int) =~= all);
    }

    /// The names of the skills, in registry order.
    fn names(&self) -> (r: Vec<String>)
        ensures
            views(r@) == skill_names(self@),
    {
        let mut r: Vec<String> = Vec::new();
        let mut i: usize = 0;
        while i < self.skills.len()
            invariant
                i <= self.skills.len(),
                views(r@) == skill_names(skill_views(self.skills@.take(i as int))),
            decreases self.skills.len() - i,
        {
            let n = self.skills[i].manifest.name.clone();
            let ghost before = r@;
            r.push(n);
            assert(views(r@) =~= views(before).push(n@));
            assert(skill_views(self.skills@.take(i + 1)) =~= skill_views(self.skills@.take(i as int)).push(self.skills@[i as int]@));
            assert(skill_names(skill_views(self.skills@.take(i + 1))) =~= skill_names(skill_views(self.skills@.take(i as int))).push(n@));
            i = i + 1;
        }
        assert(self.skills@.take(self.skills.len() as int) == self.skills@);
        r
    }

    /// The skills, one line ` - name: description` each, in name order.
    pub fn describe_available(&self) -> (r: String)
        ensures
            r@ == describe_available_spec(self@),
    {
        if self.skills.len() == 0 {
            return owned("(no skills available)");
        }
        let names = self.names();
        let sorted = sort_strings(&names);
        let ghost docs = self@;
        let mut lines: Vec<String> = Vec::new();
        let mut i: usize = 0;
        while i < sorted.len()
            invariant
                i <= sorted.len(),
                docs == self@,
                views(names@) == skill_names(docs),
                views(sorted@) == sort_seq(skill_names(docs)),
                views(lines@) == views(sorted@).take(i as int).map_values(|n: Seq<char>| skill_line(docs, n)),
            decreases sorted.len() - i,
        {
            proof {
                lemma_sort_seq(skill_names(docs));
                assert(views(sorted@)[i as int] == sorted@[i as int]@);
                assert(sort_seq(skill_names(docs)).contains(sorted@[i as int]@));
                let k = choose|k: int| 0 <= k < skill_names(docs).len() && skill_names(docs)[k] == sorted@[i as int]@;
                assert(docs[k].name == sorted@[i as int]@);
            }
            let pos = self.position(sorted[i].as_str());
            let idx = pos.unwrap();
            let line = concat(concat(concat(owned(" - "), sorted[i].as_str()), ": "), self.skills[idx].manifest.description.as_str());
            let ghost before = lines@;
            lines.push(line);
            assert(views(lines@) =~= views(before).push(line@));
            assert(views(sorted@).take(i + 1).map_values(|n: Seq<char>| skill_line(docs, n)) =~= views(sorted@).take(
                i as int,
            ).map_values(|n: Seq<char>| skill_line(docs, n)).push(skill_line(docs, sorted@[i as int]@)));
            i = i + 1;
        }
        assert(views(sorted@).take(sorted.len() as int) == views(sorted@));
        join(&lines, "\n")
    }

    /// The full text of the skill called `name`, or an error that lists the
    /// available skills.
    pub fn load_full_text(&self, name: &str) -> (r: String)
        ensures
            r@ == load_full_text_spec(self@, name@),
    {
        match self.position(name) {
            Some(i) => self.skills[i].render(),
            None => {
                let names = self.names();
                let sorted = sort_strings(&names);
                let listed = join(&sorted, ", ");
                let r = concat(owned("Error: Unknown skill '"), name);
                let r = concat(r, "'. Available: ");
                concat(r, listed.as_str())
            },
        }
    }

    /// The skills, in registry order.
    pub fn skills(&self) -> (r: &Vec<SkillDocument>)
        ensures
            skill_views(r@) == self@,
    {
        &self.skills
    }
}

// ---------------------------------------------------------------------------
// Front matter
// ---------------------------------------------------------------------------

/// The text with every `\r\n` turned into `\n`, scanning left to right.
pub open spec fn crlf_to_lf(s: Seq<char>) -> Seq<char>
    decreases s.len(),
{
    if s.len() == 0 {
        s
    } else if s.len() >= 2 && s[0] == '\r' && s[1] == '\n' {
        seq!['\n'] + crlf_to_lf(s.skip(2))
    } else {
        seq![s[0]] + crlf_to_lf(s.drop_first())
    }
}

/// The first position from `k` on at which `sub` occurs in `s`.
pub open spec fn first_occurrence(s: Seq<char>, sub: Seq<char>, k: int) -> Option<int>
    decreases s.len() + 1 - k,
{
    if 0 <= k && k + sub.len() <= s.len() {
        if occurs_at(s, sub, k) {
            Some(k)
        } else {
            first_occurrence(s, sub, k + 1)
        }
    } else {
        None
    }
}

/// A skill file split into its front matter text (when it has one) and its
/// trimmed body: after line endings are normalised, the file must start with
/// `---\n`, and the front matter ends at the first `\n---\n`.
pub open spec fn split_frontmatter_spec(text: Seq<char>) -> (Option<Seq<char>>, Seq<char>) {
    let t = crlf_to_lf(text);
    let open_marker = seq!['-', '-', '-', '\n'];
    let close_marker = seq!['\n', '-', '-', '-', '\n'];
    if !(t.len() >= 4 && t.take(4) == open_marker) {
        (None, trim_spec(t))
    } else {
        let rest = t.skip(4);
        match first_occurrence(rest, close_marker, 0) {
            Some(i) => (Some(rest.take(i)), trim_spec(rest.skip(i + 5))),
            None => (None, trim_spec(t)),
        }
    }
}

/// `text.replace("\r\n", "\n")` over characters.
fn crlf_to_lf_exec(v: &Vec<char>) -> (r: Vec<char>)
    ensures
        r@ == crlf_to_lf(v@),
{
    let mut r: Vec<char> = Vec::new();
    let mut i: usize = 0;
    assert(v@.skip(0) =~= v@);
    assert(r@ + crlf_to_lf(v@) =~= crlf_to_lf(v@));
    while i < v.len()
        invariant
            i <= v.len(),
            crlf_to_lf(v@) == r@ + crlf_to_lf(v@.skip(i as int)),
        decreases v.len() - i,
    {
        let ghost rest = v@.skip(i as int);
        if i + 1 < v.len() && v[i] == '\r' && v[i + 1] == '\n' {
            let ghost rb = r@;
            r.push('\n');
            assert(rest.skip(2) =~= v@.skip(i + 2));
            assert(rest[0] == '\r' && rest[1] == '\n');
            assert(r@ + crlf_to_lf(v@.skip(i + 2)) =~= rb + (seq!['\n'] + crlf_to_lf(rest.skip(2))));
            i = i + 2;
        } else {
            let ghost rb = r@;
            r.push(v[i]);
            assert(rest.drop_first() =~= v@.skip(i + 1));
            assert(rest[0] == v@[i as int]);
            assert(r@ + crlf_to_lf(v@.skip(i + 1)) =~= rb + (seq![rest[0]] + crlf_to_lf(rest.drop_first())));
            i = i + 1;
        }
    }
    assert(v@.skip(i as int) =~= Seq::<char>::empty());
    r
}

/// Splits a skill file into its front matter text, if any, and its trimmed
/// body.
pub fn split_frontmatter(text: &str) -> (r: (Option<String>, String))
    ensures
        (match r.0 {
            Some(f) => Some(f@),
            None => None,
        }, r.1@) == split_frontmatter_spec(text@),
{
    let raw = chars_of(text);
    let t = crlf_to_lf_exec(&raw);
    let ghost ts = t@;
    let mut open_marker: Vec<char> = Vec::new();
    open_marker.push('-');
    open_marker.push('-');
    open_marker.push('-');
    open_marker.push('\n');
    assert(open_marker@ =~= seq!['-', '-', '-', '\n']);
    let starts = occurs_at_exec(&t, &open_marker, 0);
    assert(starts == (ts.len() >= 4 && ts.take(4) == seq!['-', '-', '-', '\n'])) by {
        assert(ts.subrange(0, 4) =~= ts.take(4)) by {};
    }
    if !starts {
        let (a, b) = trim_bounds(&t);
        return (None, string_of_range(&t, a, b));
    }
    let rest = string_of_range(&t, 4, t.len());
    let rv = chars_of(rest.as_str());
    assert(rv@ =~= ts.skip(4));
    let mut close_marker: Vec<char> = Vec::new();
    close_marker.push('\n');
    close_marker.push('-');
    close_marker.push('-');
    close_marker.push('-');
    close_marker.push('\n');
    assert(close_marker@ =~= seq!['\n', '-', '-', '-', '\n']);
    let mut i: usize = 0;
    while rv.len() >= 5 && i <= rv.len() - 5
        invariant
            close_marker@ == seq!['\n', '-', '-', '-', '\n'],
            i <= rv.len(),
            rv@ == ts.skip(4),
            ts == crlf_to_lf(text@),
            ts.len() >= 4 && ts.take(4) == seq!['-', '-', '-', '\n'],
            first_occurrence(rv@, close_marker@, 0) == first_occurrence(rv@, close_marker@, i as int),
        decreases rv.len() - i,
    {
        if occurs_at_exec(&rv, &close_marker, i) {
            assert(first_occurrence(rv@, close_marker@, i as int) == Some(i as int));
            let front = string_of_range(&rv, 0, i);
            assert(rv@.subrange(0, i as int) =~= rv@.take(i as int));
            let body_chars = string_of_range(&rv, i + 5, rv.len());
            let bv = chars_of(body_chars.as_str());
            assert(bv@ =~= rv@.skip(i + 5));
            let (a, b) = trim_bounds(&bv);
            return (Some(front), string_of_range(&bv, a, b));
        }
        i = i + 1;
    }
    assert(first_occurrence(rv@, close_marker@, i as int) is None);
    let (a, b) = trim_bounds(&t);
    (None, string_of_range(&t, a, b))
}

/// Every registered skill is listed by `describe_available`, exactly once and
/// in strictly increasing name order.
pub proof fn law_listing_is_sorted_and_complete(docs: Seq<SkillView>)
    requires
        unique_names(docs),
    ensures
        strictly_sorted(sort_seq(skill_names(docs))),
        forall|n: Seq<char>| #[trigger] sort_seq(skill_names(docs)).contains(n) <==> find_skill(docs, n) is Some,
{
    let names = skill_names(docs);
    assert(names.no_duplicates()) by {
        assert forall|i: int, j: int| 0 <= i < names.len() && 0 <= j < names.len() && i != j implies names[i] != names[j] by {
            if i < j {
                assert(docs[i].name != docs[j].name);
            } else {
                assert(docs[j].name != docs[i].name);
            }
        }
    }
    lemma_sort_seq(names);
    assert forall|n: Seq<char>| #[trigger] sort_seq(names).contains(n) <==> find_skill(docs, n) is Some by {
        if names.contains(n) {
            let k = choose|k: int| 0 <= k < names.len() && names[k] == n;
            assert(docs[k].name == n);
        }
        if find_skill(docs, n) is Some {
            let k = choose|k: int| 0 <= k < docs.len() && docs[k].name == n;
            assert(names[k] == n);
        }
    }
}

/// A skill that was registered can be loaded: its full text is its rendered
/// document.
pub proof fn law_registered_skill_loads(docs: Seq<SkillView>, d: SkillView)
    requires
        unique_names(docs),
    ensures
        load_full_text_spec(insert_skill(docs, d), d.name) == render_spec(d),
{
    let after = insert_skill(docs, d);
    match find_skill(docs, d.name) {
        Some(i) => {
            assert(after[i].name == d.name);
            let c = choose|k: int| 0 <= k < after.len() && after[k].name == d.name;
            assert(c == i) by {
                if c != i {
                    assert(after[c] == docs[c]);
                    if c < i {
                        assert(docs[c].name != docs[i].name);
                    } else {
                        assert(docs[i].name != docs[c].name);
                    }
                }
            }
        },
        None => {
            let last = after.len() - 1;
            assert(after[last].name == d.name);
            let c = choose|k: int| 0 <= k < after.len() && after[k].name == d.name;
            assert(c == last) by {
                if c != last {
                    assert(after[c] == docs[c]);
                }
            }
        },
    }
}


/// A skill file whose front matter names the skill is registered under that
/// name, with its body and path; the name of its directory serves only when
/// the front matter gives no name.
pub proof fn law_front_matter_name_is_registered(docs: Seq<SkillView>, s: SkillSourceView, n: Seq<char>)
    requires
        unique_names(docs),
        s.name == Some(n) || (s.name is None && s.dir_name == Some(n)),
    ensures
        find_skill(insert_skill(docs, source_skill(s)), n) matches Some(i) && {
            let d = insert_skill(docs, source_skill(s))[i];
            &&& d.name == n
            &&& d.body == s.body
            &&& d.path == s.path
        },
{
    let after = insert_skill(docs, source_skill(s));
    assert(source_skill(s).name == n);
    match find_skill(docs, n) {
        Some(i) => {
            assert(after[i].name == n);
        },
        None => {
            assert(after[after.len() - 1].name == n);
        },
    }
    let c = choose|k: int| 0 <= k < after.len() && after[k].name == n;
    match find_skill(docs, n) {
        Some(i) => {
            assert(c == i) by {
                if c != i {
                    assert(after[c] == docs[c]);
                    if c < i {
                        assert(docs[c].name != docs[i].name);
                    } else {
                        assert(docs[i].name != docs[c].name);
                    }
                }
            }
        },
        None => {
            let last = after.len() - 1;
            assert(c == last) by {
                if c != last {
                    assert(after[c] == docs[c]);
                }
            }
        },
    }
}

} // verus!
