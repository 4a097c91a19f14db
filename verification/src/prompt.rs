//! The system prompt: its sections (role, skills, memory, project
//! instructions, dynamic context, guidelines, constraints), the builder that
//! fills them, and the template that renders them with `tera`.
use vstd::prelude::*;

use crate::text::{concat, join, join_spec, owned, trim, trim_spec, views};

verus! {

/// The template the harness renders its system prompt with.
pub const DEFAULT_PROMPT_TEMPLATE: &'static str = "{% if role %}{{ role }}\n\n{% endif %}{% if guidelines %}## Guidelines\n\n{% for guideline in guidelines %}- {{ guideline }}\n{% endfor %}\n{% endif %}{% if constraints %}## Constraints\n\n{% for constraint in constraints %}- {{ constraint }}\n{% endfor %}\n{% endif %}{% if skills_available %}## Skills available\n\n{{ skills_available }}\n\n{% endif %}{% if memory %}{{ memory }}\n\n{% endif %}{% if memory_guidance %}{{ memory_guidance }}\n\n{% endif %}{% if claude_md %}{{ claude_md }}\n\n{% endif %}{% if dynamic_context %}{{ dynamic_context }}\n\n{% endif %}{% if additional %}{{ additional }}\n{% endif %}";

// ---------------------------------------------------------------------------
// Outside: tera
// ---------------------------------------------------------------------------

#[verifier::external_type_specification]
#[verifier::external_body]
pub struct ExTeraError(tera::Error);

pub open spec fn text_entries(v: Seq<(String, Option<String>)>) -> Seq<(Seq<char>, Option<Seq<char>>)> {
    v.map_values(|e: (String, Option<String>)| (e.0@, opt_text(e.1)))
}

pub open spec fn list_entries(v: Seq<(String, Vec<String>)>) -> Seq<(Seq<char>, Seq<Seq<char>>)> {
    v.map_values(|e: (String, Vec<String>)| (e.0@, views(e.1@)))
}

/// Whether `tera::Tera::one_off` may render `template` (without escaping),
/// over a context that maps each key of `texts` to its text (or to nothing)
/// and each key of `lists` to its list of texts, to `out`. A relation, not a
/// function: tera's default function `get_env` lets a template read the
/// process environment, so one input may render to different texts.
pub uninterp spec fn tera_may_render(
    template: Seq<char>,
    texts: Seq<(Seq<char>, Option<Seq<char>>)>,
    lists: Seq<(Seq<char>, Seq<Seq<char>>)>,
    out: Seq<char>,
) -> bool;

/// Renders `template` with `tera::Tera::one_off` (no escaping) over a context
/// built from `texts` and `lists`. A text it gives back is one that tera may
/// render from exactly these arguments; nothing says which one, nor when
/// rendering fails.
#[verifier::external_body]
fn render_one_off(
    template: &str,
    texts: &Vec<(String, Option<String>)>,
    lists: &Vec<(String, Vec<String>)>,
) -> (r: Result<String, tera::Error>)
    ensures
        r matches Ok(s) ==> tera_may_render(template@, text_entries(texts@), list_entries(lists@), s@),
{
    let mut context = tera::Context::new();
    for (key, value) in texts.iter() {
        context.insert(key.as_str(), value);
    }
    for (key, value) in lists.iter() {
        context.insert(key.as_str(), value);
    }
    tera::Tera::one_off(template, &context, false)
}

// ---------------------------------------------------------------------------
// The prompt
// ---------------------------------------------------------------------------

pub open spec fn opt_text(o: Option<String>) -> Option<Seq<char>> {
    match o {
        Some(s) => Some(s@),
        None => None,
    }
}

fn clone_opt(o: &Option<String>) -> (r: Option<String>)
    ensures
        opt_text(r) == opt_text(*o),
{
    match o {
        Some(s) => Some(s.clone()),
        None => None,
    }
}

fn clone_strings(v: &Vec<String>) -> (r: Vec<String>)
    ensures
        views(r@) == views(v@),
{
    let mut r: Vec<String> = Vec::new();
    let mut i: usize = 0;
    while i < v.len()
        invariant
            i <= v.len(),
            views(r@) == views(v@.take(i as int)),
        decreases v.len() - i,
    {
        let ghost before = views(r@);
        r.push(v[i].clone());
        assert(views(r@) =~= before.push(v@[i as int]@));
        assert(views(v@.take(i + 1)) =~= views(v@.take(i as int)).push(v@[i as int]@));
        i = i + 1;
    }
    assert(v@.take(i as int) =~= v@);
    r
}

/// The sections of a system prompt and the template that lays them out.
pub struct SystemPrompt {
    pub role: Option<String>,
    pub skills_available: Option<String>,
    pub memory: Option<String>,
    pub claude_md: Option<String>,
    pub dynamic_context: Option<String>,
    pub memory_guidance: Option<String>,
    pub guidelines: Vec<String>,
    pub constraints: Vec<String>,
    pub additional: Option<String>,
    pub template: String,
}

/// The text sections of `p`, by their names in the template.
pub open spec fn prompt_texts(p: SystemPrompt) -> Seq<(Seq<char>, Option<Seq<char>>)> {
    seq![
        ("role"@, opt_text(p.role)),
        ("skills_available"@, opt_text(p.skills_available)),
        ("memory"@, opt_text(p.memory)),
        ("claude_md"@, opt_text(p.claude_md)),
        ("dynamic_context"@, opt_text(p.dynamic_context)),
        ("memory_guidance"@, opt_text(p.memory_guidance)),
        ("additional"@, opt_text(p.additional)),
    ]
}

/// The list sections of `p`, by their names in the template.
pub open spec fn prompt_lists(p: SystemPrompt) -> Seq<(Seq<char>, Seq<Seq<char>>)> {
    seq![("guidelines"@, views(p.guidelines@)), ("constraints"@, views(p.constraints@))]
}

impl SystemPrompt {
    /// A builder with nothing set.
    pub fn builder() -> (r: SystemPromptBuilder)
        ensures
            r.is_empty(),
    {
        SystemPromptBuilder::new()
    }

    /// A prompt with no sections, laid out by `template`.
    pub fn from_template(template: String) -> (r: SystemPrompt)
        ensures
            r.template@ == template@,
            r.is_blank(),
    {
        SystemPrompt {
            role: None,
            skills_available: None,
            memory: None,
            claude_md: None,
            dynamic_context: None,
            memory_guidance: None,
            guidelines: Vec::new(),
            constraints: Vec::new(),
            additional: None,
            template,
        }
    }

    /// A prompt with no sections, laid out by the harness's template.
    pub fn default_prompt() -> (r: SystemPrompt)
        ensures
            r.template@ == DEFAULT_PROMPT_TEMPLATE@,
            r.is_blank(),
    {
        SystemPrompt::from_template(owned(DEFAULT_PROMPT_TEMPLATE))
    }

    /// No section is set.
    pub open spec fn is_blank(&self) -> bool {
        &&& self.role is None
        &&& self.skills_available is None
        &&& self.memory is None
        &&& self.claude_md is None
        &&& self.dynamic_context is None
        &&& self.memory_guidance is None
        &&& self.guidelines@.len() == 0
        &&& self.constraints@.len() == 0
        &&& self.additional is None
    }

    /// Adds a guideline at the end.
    pub fn with_added_guideline(&mut self, guideline: &str) -> (r: &mut SystemPrompt)
        ensures
            views(r.guidelines@) == views(old(self).guidelines@).push(guideline@),
            views(r.constraints@) == views(old(self).constraints@),
            *r == (SystemPrompt { guidelines: r.guidelines, ..*old(self) }),
            *final(self) == *final(r),
    {
        let ghost before = views(self.guidelines@);
        self.guidelines.push(owned(guideline));
        assert(views(self.guidelines@) =~= before.push(guideline@));
        self
    }

    /// Adds a constraint at the end.
    pub fn with_added_constraint(&mut self, constraint: &str) -> (r: &mut SystemPrompt)
        ensures
            views(r.constraints@) == views(old(self).constraints@).push(constraint@),
            views(r.guidelines@) == views(old(self).guidelines@),
            *r == (SystemPrompt { constraints: r.constraints, ..*old(self) }),
            *final(self) == *final(r),
    {
        let ghost before = views(self.constraints@);
        self.constraints.push(owned(constraint));
        assert(views(self.constraints@) =~= before.push(constraint@));
        self
    }

    /// Replaces the guidelines.
    pub fn with_guidelines(&mut self, guidelines: Vec<String>) -> (r: &mut SystemPrompt)
        ensures
            views(r.guidelines@) == views(guidelines@),
            views(r.constraints@) == views(old(self).constraints@),
            *r == (SystemPrompt { guidelines: r.guidelines, ..*old(self) }),
            *final(self) == *final(r),
    {
        self.guidelines = guidelines;
        self
    }

    /// Replaces the constraints.
    pub fn with_constraints(&mut self, constraints: Vec<String>) -> (r: &mut SystemPrompt)
        ensures
            views(r.constraints@) == views(constraints@),
            views(r.guidelines@) == views(old(self).guidelines@),
            *r == (SystemPrompt { constraints: r.constraints, ..*old(self) }),
            *final(self) == *final(r),
    {
        self.constraints = constraints;
        self
    }

    /// Sets the role.
    pub fn with_role(&mut self, role: &str) -> (r: &mut SystemPrompt)
        ensures
            opt_text(r.role) == Some(role@),
            *r == (SystemPrompt { role: r.role, ..*old(self) }),
            *final(self) == *final(r),
    {
        self.role = Some(owned(role));
        self
    }

    /// Sets the skills section.
    pub fn with_skills_available(&mut self, skills_available: &str) -> (r: &mut SystemPrompt)
        ensures
            opt_text(r.skills_available) == Some(skills_available@),
            *r == (SystemPrompt { skills_available: r.skills_available, ..*old(self) }),
            *final(self) == *final(r),
    {
        self.skills_available = Some(owned(skills_available));
        self
    }

    /// Sets the memory section.
    pub fn with_memory(&mut self, memory: &str) -> (r: &mut SystemPrompt)
        ensures
            opt_text(r.memory) == Some(memory@),
            *r == (SystemPrompt { memory: r.memory, ..*old(self) }),
            *final(self) == *final(r),
    {
        self.memory = Some(owned(memory));
        self
    }

    /// Sets the project-instructions section.
    pub fn with_claude_md(&mut self, claude_md: &str) -> (r: &mut SystemPrompt)
        ensures
            opt_text(r.claude_md) == Some(claude_md@),
            *r == (SystemPrompt { claude_md: r.claude_md, ..*old(self) }),
            *final(self) == *final(r),
    {
        self.claude_md = Some(owned(claude_md));
        self
    }

    /// Sets the dynamic-context section.
    pub fn with_dynamic_context(&mut self, dynamic_context: &str) -> (r: &mut SystemPrompt)
        ensures
            opt_text(r.dynamic_context) == Some(dynamic_context@),
            *r == (SystemPrompt { dynamic_context: r.dynamic_context, ..*old(self) }),
            *final(self) == *final(r),
    {
        self.dynamic_context = Some(owned(dynamic_context));
        self
    }

    /// Sets the memory-guidance section.
    pub fn with_memory_guidance(&mut self, guidance: &str) -> (r: &mut SystemPrompt)
        ensures
            opt_text(r.memory_guidance) == Some(guidance@),
            *r == (SystemPrompt { memory_guidance: r.memory_guidance, ..*old(self) }),
            *final(self) == *final(r),
    {
        self.memory_guidance = Some(owned(guidance));
        self
    }

    /// Sets the additional markdown.
    pub fn with_additional(&mut self, additional: &str) -> (r: &mut SystemPrompt)
        ensures
            opt_text(r.additional) == Some(additional@),
            *r == (SystemPrompt { additional: r.additional, ..*old(self) }),
            *final(self) == *final(r),
    {
        self.additional = Some(owned(additional));
        self
    }

    /// Replaces the template.
    pub fn with_template(&mut self, template: &str) -> (r: &mut SystemPrompt)
        ensures
            r.template@ == template@,
            *r == (SystemPrompt { template: r.template, ..*old(self) }),
            *final(self) == *final(r),
    {
        self.template = owned(template);
        self
    }

    /// The prompt as a template with its sections as context (keys `role`,
    /// `skills_available`, `memory`, `claude_md`, `dynamic_context`,
    /// `memory_guidance`, `guidelines`, `constraints`, `additional`).
    pub fn to_prompt(&self) -> (r: Prompt)
        ensures
            r.template@ == self.template@,
            r.context matches Some(c) && text_entries(c.texts@) == prompt_texts(*self) && list_entries(
                c.lists@,
            ) == prompt_lists(*self),
    {
        let mut texts: Vec<(String, Option<String>)> = Vec::new();
        texts.push((owned("role"), clone_opt(&self.role)));
        texts.push((owned("skills_available"), clone_opt(&self.skills_available)));
        texts.push((owned("memory"), clone_opt(&self.memory)));
        texts.push((owned("claude_md"), clone_opt(&self.claude_md)));
        texts.push((owned("dynamic_context"), clone_opt(&self.dynamic_context)));
        texts.push((owned("memory_guidance"), clone_opt(&self.memory_guidance)));
        texts.push((owned("additional"), clone_opt(&self.additional)));
        let mut lists: Vec<(String, Vec<String>)> = Vec::new();
        lists.push((owned("guidelines"), clone_strings(&self.guidelines)));
        lists.push((owned("constraints"), clone_strings(&self.constraints)));
        proof {
            assert(text_entries(texts@) =~= prompt_texts(*self));
            assert(list_entries(lists@) =~= prompt_lists(*self));
        }
        Prompt { template: self.template.clone(), context: Some(PromptContext { texts, lists }) }
    }

    /// The prompt rendered by its template with its sections (the context of
    /// `to_prompt`); the error says that the template could not be rendered.
    pub fn render(&self) -> (r: Result<String, String>)
        ensures
            r is Ok || (r matches Err(e) && e@ == "Failed to render one-off template"@),
            r matches Ok(t) ==> tera_may_render(self.template@, prompt_texts(*self), prompt_lists(*self), t@),
    {
        self.to_prompt().render()
    }

    /// A builder holding every section of this prompt.
    pub fn into_builder(self) -> (r: SystemPromptBuilder)
        ensures
            r.build_spec() == self.spec_copy(),
    {
        SystemPromptBuilder {
            role: Some(self.role),
            skills_available: Some(self.skills_available),
            memory: Some(self.memory),
            claude_md: Some(self.claude_md),
            dynamic_context: Some(self.dynamic_context),
            memory_guidance: Some(self.memory_guidance),
            guidelines: Some(self.guidelines),
            constraints: Some(self.constraints),
            additional: Some(self.additional),
            template: Some(self.template),
        }
    }

    /// The prompt's sections and template, as values.
    pub open spec fn spec_copy(&self) -> PromptValue {
        PromptValue {
            role: opt_text(self.role),
            skills_available: opt_text(self.skills_available),
            memory: opt_text(self.memory),
            claude_md: opt_text(self.claude_md),
            dynamic_context: opt_text(self.dynamic_context),
            memory_guidance: opt_text(self.memory_guidance),
            guidelines: views(self.guidelines@),
            constraints: views(self.constraints@),
            additional: opt_text(self.additional),
            template: self.template@,
        }
    }
}

/// A system prompt's sections and template, as values.
pub struct PromptValue {
    pub role: Option<Seq<char>>,
    pub skills_available: Option<Seq<char>>,
    pub memory: Option<Seq<char>>,
    pub claude_md: Option<Seq<char>>,
    pub dynamic_context: Option<Seq<char>>,
    pub memory_guidance: Option<Seq<char>>,
    pub guidelines: Seq<Seq<char>>,
    pub constraints: Seq<Seq<char>>,
    pub additional: Option<Seq<char>>,
    pub template: Seq<char>,
}

// ---------------------------------------------------------------------------
// Prompts
// ---------------------------------------------------------------------------

/// The values a template is rendered with: texts (or nothing) and lists of
/// texts, by key; no key occurs twice.
pub struct PromptContext {
    pub texts: Vec<(String, Option<String>)>,
    pub lists: Vec<(String, Vec<String>)>,
}

/// A template and, once a value was added, the context it is rendered with.
pub struct Prompt {
    pub template: String,
    pub context: Option<PromptContext>,
}

/// `entries` without the key `k`.
pub open spec fn drop_text_key(entries: Seq<(Seq<char>, Option<Seq<char>>)>, k: Seq<char>) -> Seq<(Seq<char>, Option<Seq<char>>)>
    decreases entries.len(),
{
    if entries.len() == 0 {
        entries
    } else if entries.last().0 == k {
        drop_text_key(entries.drop_last(), k)
    } else {
        drop_text_key(entries.drop_last(), k).push(entries.last())
    }
}

/// `entries` without the key `k`.
pub open spec fn drop_list_key(entries: Seq<(Seq<char>, Seq<Seq<char>>)>, k: Seq<char>) -> Seq<(Seq<char>, Seq<Seq<char>>)>
    decreases entries.len(),
{
    if entries.len() == 0 {
        entries
    } else if entries.last().0 == k {
        drop_list_key(entries.drop_last(), k)
    } else {
        drop_list_key(entries.drop_last(), k).push(entries.last())
    }
}

/// The texts of a context, empty where there is none.
pub open spec fn context_texts(c: Option<PromptContext>) -> Seq<(Seq<char>, Option<Seq<char>>)> {
    match c {
        Some(c) => text_entries(c.texts@),
        None => Seq::empty(),
    }
}

/// The lists of a context, empty where there is none.
pub open spec fn context_lists(c: Option<PromptContext>) -> Seq<(Seq<char>, Seq<Seq<char>>)> {
    match c {
        Some(c) => list_entries(c.lists@),
        None => Seq::empty(),
    }
}

/// The texts and lists of a context once the text entries `entries` are
/// added one after another, each replacing what its key held.
pub open spec fn with_texts_spec(
    t: Seq<(Seq<char>, Option<Seq<char>>)>,
    l: Seq<(Seq<char>, Seq<Seq<char>>)>,
    entries: Seq<(Seq<char>, Option<Seq<char>>)>,
) -> (Seq<(Seq<char>, Option<Seq<char>>)>, Seq<(Seq<char>, Seq<Seq<char>>)>)
    decreases entries.len(),
{
    if entries.len() == 0 {
        (t, l)
    } else {
        let prev = with_texts_spec(t, l, entries.drop_last());
        let e = entries.last();
        (drop_text_key(prev.0, e.0).push(e), drop_list_key(prev.1, e.0))
    }
}

/// The texts and lists of a context once the list entries `entries` are
/// added one after another, each replacing what its key held.
pub open spec fn with_lists_spec(
    t: Seq<(Seq<char>, Option<Seq<char>>)>,
    l: Seq<(Seq<char>, Seq<Seq<char>>)>,
    entries: Seq<(Seq<char>, Seq<Seq<char>>)>,
) -> (Seq<(Seq<char>, Option<Seq<char>>)>, Seq<(Seq<char>, Seq<Seq<char>>)>)
    decreases entries.len(),
{
    if entries.len() == 0 {
        (t, l)
    } else {
        let prev = with_lists_spec(t, l, entries.drop_last());
        let e = entries.last();
        (drop_text_key(prev.0, e.0), drop_list_key(prev.1, e.0).push(e))
    }
}

fn drop_text_exec(v: Vec<(String, Option<String>)>, k: &str) -> (r: Vec<(String, Option<String>)>)
    ensures
        text_entries(r@) == drop_text_key(text_entries(v@), k@),
{
    let ghost ev = text_entries(v@);
    let mut r: Vec<(String, Option<String>)> = Vec::new();
    let mut i: usize = 0;
    while i < v.len()
        invariant
            i <= v.len(),
            ev == text_entries(v@),
            text_entries(r@) == drop_text_key(ev.take(i as int), k@),
        decreases v.len() - i,
    {
        assert(ev.take(i + 1).drop_last() =~= ev.take(i as int));
        assert(ev.take(i + 1).last() == ev[i as int]);
        if !crate::text::str_eq(v[i].0.as_str(), k) {
            let ghost before = text_entries(r@);
            r.push((v[i].0.clone(), clone_opt(&v[i].1)));
            assert(text_entries(r@) =~= before.push(ev[i as int]));
        }
        i = i + 1;
    }
    assert(ev.take(i as int) =~= ev);
    r
}

fn drop_list_exec(v: Vec<(String, Vec<String>)>, k: &str) -> (r: Vec<(String, Vec<String>)>)
    ensures
        list_entries(r@) == drop_list_key(list_entries(v@), k@),
{
    let ghost ev = list_entries(v@);
    let mut r: Vec<(String, Vec<String>)> = Vec::new();
    let mut i: usize = 0;
    while i < v.len()
        invariant
            i <= v.len(),
            ev == list_entries(v@),
            list_entries(r@) == drop_list_key(ev.take(i as int), k@),
        decreases v.len() - i,
    {
        assert(ev.take(i + 1).drop_last() =~= ev.take(i as int));
        assert(ev.take(i + 1).last() == ev[i as int]);
        if !crate::text::str_eq(v[i].0.as_str(), k) {
            let ghost before = list_entries(r@);
            r.push((v[i].0.clone(), clone_strings(&v[i].1)));
            assert(list_entries(r@) =~= before.push(ev[i as int]));
        }
        i = i + 1;
    }
    assert(ev.take(i as int) =~= ev);
    r
}

impl Prompt {
    /// A template with no context: it renders as it is.
    pub fn from_text(template: String) -> (r: Prompt)
        ensures
            r.template@ == template@,
            r.context is None,
    {
        Prompt { template, context: None }
    }

    /// Adds the text `value` (or nothing) under `key`, replacing what the
    /// key held.
    pub fn with_text_value(self, key: &str, value: Option<String>) -> (r: Prompt)
        ensures
            r.template@ == self.template@,
            r.context is Some,
            context_texts(r.context) == drop_text_key(context_texts(self.context), key@).push((key@, opt_text(value))),
            context_lists(r.context) == drop_list_key(context_lists(self.context), key@),
    {
        let (texts, lists) = match self.context {
            Some(c) => (c.texts, c.lists),
            None => {
                let t: Vec<(String, Option<String>)> = Vec::new();
                let l: Vec<(String, Vec<String>)> = Vec::new();
                assert(text_entries(t@) =~= Seq::<(Seq<char>, Option<Seq<char>>)>::empty());
                assert(list_entries(l@) =~= Seq::<(Seq<char>, Seq<Seq<char>>)>::empty());
                (t, l)
            },
        };
        let mut texts = drop_text_exec(texts, key);
        let lists = drop_list_exec(lists, key);
        let ghost before = text_entries(texts@);
        texts.push((owned(key), value));
        assert(text_entries(texts@) =~= before.push((key@, opt_text(value))));
        Prompt { template: self.template, context: Some(PromptContext { texts, lists }) }
    }

    /// Adds every value of `context`, its texts and then its lists, each
    /// replacing what its key held.
    pub fn with_context(self, context: PromptContext) -> (r: Prompt)
        ensures
            r.template@ == self.template@,
            r.context is Some,
            (context_texts(r.context), context_lists(r.context)) == ({
                let after = with_texts_spec(context_texts(self.context), context_lists(self.context), text_entries(context.texts@));
                with_lists_spec(after.0, after.1, list_entries(context.lists@))
            }),
    {
        let ghost t0 = context_texts(self.context);
        let ghost l0 = context_lists(self.context);
        let ghost te = text_entries(context.texts@);
        let ghost le = list_entries(context.lists@);
        let mut p = match self.context {
            Some(c) => Prompt { template: self.template, context: Some(c) },
            None => {
                let texts: Vec<(String, Option<String>)> = Vec::new();
                let lists: Vec<(String, Vec<String>)> = Vec::new();
                assert(text_entries(texts@) =~= Seq::<(Seq<char>, Option<Seq<char>>)>::empty());
                assert(list_entries(lists@) =~= Seq::<(Seq<char>, Seq<Seq<char>>)>::empty());
                Prompt { template: self.template, context: Some(PromptContext { texts, lists }) }
            },
        };
        let ghost template = p.template@;
        assert(te.take(0) =~= Seq::<(Seq<char>, Option<Seq<char>>)>::empty());
        let mut i: usize = 0;
        while i < context.texts.len()
            invariant
                i <= context.texts.len(),
                te == text_entries(context.texts@),
                p.template@ == template,
                p.context is Some,
                (context_texts(p.context), context_lists(p.context)) == with_texts_spec(t0, l0, te.take(i as int)),
            decreases context.texts.len() - i,
        {
            assert(te.take(i + 1).drop_last() =~= te.take(i as int));
            assert(te.take(i + 1).last() == te[i as int]);
            let value = clone_opt(&context.texts[i].1);
            p = p.with_text_value(context.texts[i].0.as_str(), value);
            i = i + 1;
        }
        assert(te.take(i as int) =~= te);
        let ghost after = with_texts_spec(t0, l0, te);
        assert(le.take(0) =~= Seq::<(Seq<char>, Seq<Seq<char>>)>::empty());
        let mut j: usize = 0;
        while j < context.lists.len()
            invariant
                j <= context.lists.len(),
                le == list_entries(context.lists@),
                p.template@ == template,
                p.context is Some,
                (context_texts(p.context), context_lists(p.context)) == with_lists_spec(after.0, after.1, le.take(j as int)),
            decreases context.lists.len() - j,
        {
            assert(le.take(j + 1).drop_last() =~= le.take(j as int));
            assert(le.take(j + 1).last() == le[j as int]);
            let value = clone_strings(&context.lists[j].1);
            p = p.with_list_value(context.lists[j].0.as_str(), value);
            j = j + 1;
        }
        assert(le.take(j as int) =~= le);
        p
    }

    /// Adds the list `value` under `key`, replacing what the key held.
    pub fn with_list_value(self, key: &str, value: Vec<String>) -> (r: Prompt)
        ensures
            r.template@ == self.template@,
            r.context is Some,
            context_lists(r.context) == drop_list_key(context_lists(self.context), key@).push((key@, views(value@))),
            context_texts(r.context) == drop_text_key(context_texts(self.context), key@),
    {
        let (texts, lists) = match self.context {
            Some(c) => (c.texts, c.lists),
            None => {
                let t: Vec<(String, Option<String>)> = Vec::new();
                let l: Vec<(String, Vec<String>)> = Vec::new();
                assert(text_entries(t@) =~= Seq::<(Seq<char>, Option<Seq<char>>)>::empty());
                assert(list_entries(l@) =~= Seq::<(Seq<char>, Seq<Seq<char>>)>::empty());
                (t, l)
            },
        };
        let texts = drop_text_exec(texts, key);
        let mut lists = drop_list_exec(lists, key);
        let ghost before = list_entries(lists@);
        let ghost vv = views(value@);
        lists.push((owned(key), value));
        assert(list_entries(lists@) =~= before.push((key@, vv)));
        Prompt { template: self.template, context: Some(PromptContext { texts, lists }) }
    }

    /// The rendered prompt: the template as it is where no value was added,
    /// otherwise what tera renders; the error says that rendering failed.
    pub fn render(&self) -> (r: Result<String, String>)
        ensures
            match self.context {
                None => r matches Ok(t) && t@ == self.template@,
                Some(c) => (r is Ok || (r matches Err(e) && e@ == "Failed to render one-off template"@))
                    && (r matches Ok(t) ==> tera_may_render(self.template@, text_entries(c.texts@), list_entries(c.lists@), t@)),
            },
    {
        match &self.context {
            None => Ok(self.template.clone()),
            Some(c) => rendered_or_error(render_one_off(self.template.as_str(), &c.texts, &c.lists)),
        }
    }
}

/// What rendering a prompt with a context answers for tera's outcome: the
/// rendered text, or the fixed error text.
pub fn rendered_or_error(outcome: Result<String, tera::Error>) -> (r: Result<String, String>)
    ensures
        match outcome {
            Ok(s) => r matches Ok(t) && t@ == s@,
            Err(_) => r matches Err(e) && e@ == "Failed to render one-off template"@,
        },
{
    match outcome {
        Ok(s) => Ok(s),
        Err(_) => Err(owned("Failed to render one-off template")),
    }
}

// ---------------------------------------------------------------------------
// The builder
// ---------------------------------------------------------------------------

/// Fills a system prompt section by section; a section never set is empty,
/// and the template never set is the harness's.
pub struct SystemPromptBuilder {
    pub role: Option<Option<String>>,
    pub skills_available: Option<Option<String>>,
    pub memory: Option<Option<String>>,
    pub claude_md: Option<Option<String>>,
    pub dynamic_context: Option<Option<String>>,
    pub memory_guidance: Option<Option<String>>,
    pub guidelines: Option<Vec<String>>,
    pub constraints: Option<Vec<String>>,
    pub additional: Option<Option<String>>,
    pub template: Option<String>,
}

pub open spec fn set_text(o: Option<Option<String>>) -> Option<Seq<char>> {
    match o {
        Some(Some(s)) => Some(s@),
        _ => None,
    }
}

pub open spec fn set_list(o: Option<Vec<String>>) -> Seq<Seq<char>> {
    match o {
        Some(v) => views(v@),
        None => Seq::empty(),
    }
}

fn built_text(o: &Option<Option<String>>) -> (r: Option<String>)
    ensures
        opt_text(r) == set_text(*o),
{
    match o {
        Some(Some(s)) => Some(s.clone()),
        _ => None,
    }
}

fn built_list(o: &Option<Vec<String>>) -> (r: Vec<String>)
    ensures
        views(r@) == set_list(*o),
{
    match o {
        Some(v) => clone_strings(v),
        None => {
            let r: Vec<String> = Vec::new();
            assert(views(r@) =~= Seq::<Seq<char>>::empty());
            r
        },
    }
}

impl SystemPromptBuilder {
    /// A builder with nothing set.
    pub fn new() -> (r: SystemPromptBuilder)
        ensures
            r.is_empty(),
    {
        SystemPromptBuilder {
            role: None,
            skills_available: None,
            memory: None,
            claude_md: None,
            dynamic_context: None,
            memory_guidance: None,
            guidelines: None,
            constraints: None,
            additional: None,
            template: None,
        }
    }

    /// Nothing is set.
    pub open spec fn is_empty(&self) -> bool {
        &&& self.role is None
        &&& self.skills_available is None
        &&& self.memory is None
        &&& self.claude_md is None
        &&& self.dynamic_context is None
        &&& self.memory_guidance is None
        &&& self.guidelines is None
        &&& self.constraints is None
        &&& self.additional is None
        &&& self.template is None
    }

    /// The prompt that `build` makes, as values.
    pub open spec fn build_spec(&self) -> PromptValue {
        PromptValue {
            role: set_text(self.role),
            skills_available: set_text(self.skills_available),
            memory: set_text(self.memory),
            claude_md: set_text(self.claude_md),
            dynamic_context: set_text(self.dynamic_context),
            memory_guidance: set_text(self.memory_guidance),
            guidelines: set_list(self.guidelines),
            constraints: set_list(self.constraints),
            additional: set_text(self.additional),
            template: match self.template {
                Some(t) => t@,
                None => DEFAULT_PROMPT_TEMPLATE@,
            },
        }
    }

    /// Adds a guideline at the end of those set so far.
    pub fn add_guideline(&mut self, guideline: &str) -> (r: &mut SystemPromptBuilder)
        ensures
            set_list(r.guidelines) == set_list(old(self).guidelines).push(guideline@),
            r.guidelines is Some,
            set_list(r.constraints) == set_list(old(self).constraints),
            *r == (SystemPromptBuilder { guidelines: r.guidelines, ..*old(self) }),
            *final(self) == *final(r),
    {
        let mut v: Vec<String> = match self.guidelines.take() {
            Some(v) => v,
            None => Vec::new(),
        };
        let ghost before = views(v@);
        v.push(owned(guideline));
        assert(views(v@) =~= before.push(guideline@));
        self.guidelines = Some(v);
        self
    }

    /// Adds a constraint at the end of those set so far.
    pub fn add_constraint(&mut self, constraint: &str) -> (r: &mut SystemPromptBuilder)
        ensures
            set_list(r.constraints) == set_list(old(self).constraints).push(constraint@),
            r.constraints is Some,
            set_list(r.guidelines) == set_list(old(self).guidelines),
            *r == (SystemPromptBuilder { constraints: r.constraints, ..*old(self) }),
            *final(self) == *final(r),
    {
        let mut v: Vec<String> = match self.constraints.take() {
            Some(v) => v,
            None => Vec::new(),
        };
        let ghost before = views(v@);
        v.push(owned(constraint));
        assert(views(v@) =~= before.push(constraint@));
        self.constraints = Some(v);
        self
    }

    /// Sets the guidelines.
    pub fn guidelines(&mut self, guidelines: Vec<String>) -> (r: &mut SystemPromptBuilder)
        ensures
            set_list(r.guidelines) == views(guidelines@),
            r.guidelines is Some,
            set_list(r.constraints) == set_list(old(self).constraints),
            *r == (SystemPromptBuilder { guidelines: r.guidelines, ..*old(self) }),
            *final(self) == *final(r),
    {
        self.guidelines = Some(guidelines);
        self
    }

    /// Sets the constraints.
    pub fn constraints(&mut self, constraints: Vec<String>) -> (r: &mut SystemPromptBuilder)
        ensures
            set_list(r.constraints) == views(constraints@),
            r.constraints is Some,
            set_list(r.guidelines) == set_list(old(self).guidelines),
            *r == (SystemPromptBuilder { constraints: r.constraints, ..*old(self) }),
            *final(self) == *final(r),
    {
        self.constraints = Some(constraints);
        self
    }

    /// Sets the role.
    pub fn role(&mut self, role: &str) -> (r: &mut SystemPromptBuilder)
        ensures
            set_text(r.role) == Some(role@),
            *r == (SystemPromptBuilder { role: r.role, ..*old(self) }),
            *final(self) == *final(r),
    {
        self.role = Some(Some(owned(role)));
        self
    }

    /// Sets the skills section.
    pub fn skills_available(&mut self, text: &str) -> (r: &mut SystemPromptBuilder)
        ensures
            set_text(r.skills_available) == Some(text@),
            *r == (SystemPromptBuilder { skills_available: r.skills_available, ..*old(self) }),
            *final(self) == *final(r),
    {
        self.skills_available = Some(Some(owned(text)));
        self
    }

    /// Sets the memory section.
    pub fn memory(&mut self, text: &str) -> (r: &mut SystemPromptBuilder)
        ensures
            set_text(r.memory) == Some(text@),
            *r == (SystemPromptBuilder { memory: r.memory, ..*old(self) }),
            *final(self) == *final(r),
    {
        self.memory = Some(Some(owned(text)));
        self
    }

    /// Sets the project-instructions section.
    pub fn claude_md(&mut self, text: &str) -> (r: &mut SystemPromptBuilder)
        ensures
            set_text(r.claude_md) == Some(text@),
            *r == (SystemPromptBuilder { claude_md: r.claude_md, ..*old(self) }),
            *final(self) == *final(r),
    {
        self.claude_md = Some(Some(owned(text)));
        self
    }

    /// Sets the dynamic-context section.
    pub fn dynamic_context(&mut self, text: &str) -> (r: &mut SystemPromptBuilder)
        ensures
            set_text(r.dynamic_context) == Some(text@),
            *r == (SystemPromptBuilder { dynamic_context: r.dynamic_context, ..*old(self) }),
            *final(self) == *final(r),
    {
        self.dynamic_context = Some(Some(owned(text)));
        self
    }

    /// Sets the memory-guidance section.
    pub fn memory_guidance(&mut self, text: &str) -> (r: &mut SystemPromptBuilder)
        ensures
            set_text(r.memory_guidance) == Some(text@),
            *r == (SystemPromptBuilder { memory_guidance: r.memory_guidance, ..*old(self) }),
            *final(self) == *final(r),
    {
        self.memory_guidance = Some(Some(owned(text)));
        self
    }

    /// Sets the additional markdown.
    pub fn additional(&mut self, text: &str) -> (r: &mut SystemPromptBuilder)
        ensures
            set_text(r.additional) == Some(text@),
            *r == (SystemPromptBuilder { additional: r.additional, ..*old(self) }),
            *final(self) == *final(r),
    {
        self.additional = Some(Some(owned(text)));
        self
    }

    /// Sets the template.
    pub fn template(&mut self, template: &str) -> (r: &mut SystemPromptBuilder)
        ensures
            r.template matches Some(t) && t@ == template@,
            *r == (SystemPromptBuilder { template: r.template, ..*old(self) }),
            *final(self) == *final(r),
    {
        self.template = Some(owned(template));
        self
    }

    /// The prompt: each section as set, or empty.
    pub fn build(&self) -> (r: SystemPrompt)
        ensures
            r.spec_copy() == self.build_spec(),
    {
        SystemPrompt {
            role: built_text(&self.role),
            skills_available: built_text(&self.skills_available),
            memory: built_text(&self.memory),
            claude_md: built_text(&self.claude_md),
            dynamic_context: built_text(&self.dynamic_context),
            memory_guidance: built_text(&self.memory_guidance),
            guidelines: built_list(&self.guidelines),
            constraints: built_list(&self.constraints),
            additional: built_text(&self.additional),
            template: match &self.template {
                Some(t) => t.clone(),
                None => owned(DEFAULT_PROMPT_TEMPLATE),
            },
        }
    }
}

// ---------------------------------------------------------------------------
// Sections
// ---------------------------------------------------------------------------

/// The role of the harness's coding agent working in `workdir`.
pub fn agent_role(workdir: &str) -> (r: String)
    ensures
        r@ == "You are a coding agent operating in "@ + workdir@ + "."@,
{
    concat(concat(owned("You are a coding agent operating in "), workdir), ".")
}

/// The project-instruction files found, as `(label, content)`, laid out as
/// one section under a heading that names the instruction file `file_name`:
/// per file a sub-heading, a blank line, the trimmed content and a blank
/// line; all trimmed. Empty where there are none.
pub open spec fn instructions_section_spec(file_name: Seq<char>, sources: Seq<(Seq<char>, Seq<char>)>) -> Seq<char> {
    if sources.len() == 0 {
        Seq::empty()
    } else {
        trim_spec(join_spec(seq!["# "@ + file_name + " instructions"@, Seq::empty()] + instruction_lines(sources), "\n"@))
    }
}

/// The lines of the project-instruction files.
pub open spec fn instruction_lines(sources: Seq<(Seq<char>, Seq<char>)>) -> Seq<Seq<char>>
    decreases sources.len(),
{
    if sources.len() == 0 {
        Seq::empty()
    } else {
        instruction_lines(sources.drop_last()) + seq![
            "## From "@ + sources.last().0,
            Seq::empty(),
            trim_spec(sources.last().1),
            Seq::empty(),
        ]
    }
}

/// The project-instructions section made of the files found, as
/// `(label, content)` pairs, for the instruction file `file_name`.
pub fn instructions_section(file_name: &str, sources: &Vec<(String, String)>) -> (r: String)
    ensures
        r@ == instructions_section_spec(file_name@, sources@.map_values(|s: (String, String)| (s.0@, s.1@))),
{
    let ghost sv = sources@.map_values(|s: (String, String)| (s.0@, s.1@));
    if sources.len() == 0 {
        return String::new();
    }
    let heading = concat(concat(owned("# "), file_name), " instructions");
    let ghost h = heading@;
    let mut lines: Vec<String> = Vec::new();
    lines.push(heading);
    lines.push(String::new());
    let mut i: usize = 0;
    while i < sources.len()
        invariant
            i <= sources.len(),
            sv == sources@.map_values(|s: (String, String)| (s.0@, s.1@)),
            h == "# "@ + file_name@ + " instructions"@,
            views(lines@) == seq![h, Seq::<char>::empty()] + instruction_lines(sv.take(i as int)),
        decreases sources.len() - i,
    {
        assert(sv.take(i + 1).drop_last() =~= sv.take(i as int));
        assert(sv.take(i + 1).last() == sv[i as int]);
        let ghost before = views(lines@);
        lines.push(concat(owned("## From "), sources[i].0.as_str()));
        lines.push(String::new());
        lines.push(trim(sources[i].1.as_str()));
        lines.push(String::new());
        assert(views(lines@) =~= before + seq![
            "## From "@ + sv[i as int].0,
            Seq::<char>::empty(),
            trim_spec(sv[i as int].1),
            Seq::<char>::empty(),
        ]);
        i = i + 1;
    }
    assert(sv.take(i as int) =~= sv);
    let joined = join(&lines, "\n");
    trim(joined.as_str())
}

/// The label of the user's own instruction file at `path` (as shown).
pub fn user_instructions_label(path: &str) -> (r: String)
    ensures
        r@ == "user global ("@ + path@ + ")"@,
{
    concat(concat(owned("user global ("), path), ")")
}

/// The label of the project's instruction file `file_name`.
pub fn project_instructions_label(file_name: &str) -> (r: String)
    ensures
        r@ == "project root ("@ + file_name@ + ")"@,
{
    concat(concat(owned("project root ("), file_name), ")")
}

/// The label of the instruction file `file_name` in the current subdirectory
/// `cwd`.
pub fn subdir_instructions_label(cwd: &str, file_name: &str) -> (r: String)
    ensures
        r@ == "subdir ("@ + cwd@ + "/"@ + file_name@ + ")"@,
{
    concat(concat(concat(concat(owned("subdir ("), cwd), "/"), file_name), ")")
}

/// The dynamic-context section: the date, the working directory, the model
/// and the platform, one per line under a heading.
pub fn dynamic_context_section(date: &str, workdir: &str, model: &str, platform: &str) -> (r: String)
    ensures
        r@ == "# Dynamic context\nCurrent date: "@ + date@ + "\nWorking directory: "@ + workdir@
            + "\nModel: "@ + model@ + "\nPlatform: "@ + platform@,
{
    let a = concat(concat(owned("# Dynamic context\nCurrent date: "), date), "\nWorking directory: ");
    let b = concat(concat(concat(a, workdir), "\nModel: "), model);
    concat(concat(b, "\nPlatform: "), platform)
}

/// A system prompt of three parts: the agent's line, the memory prompt
/// where there is one, and the trimmed guidance, separated by blank lines.
pub fn memory_system_prompt(workdir: &str, memory_prompt: &str, guidance: &str) -> (r: String)
    ensures
        r@ == "You are a coding agent at "@ + workdir@ + ". Use tools to solve tasks."@ + (if memory_prompt@.len() == 0 {
            Seq::<char>::empty()
        } else {
            "\n\n"@ + memory_prompt@
        }) + "\n\n"@ + trim_spec(guidance@),
{
    let head = concat(concat(owned("You are a coding agent at "), workdir), ". Use tools to solve tasks.");
    let with_memory = if crate::text::char_count(memory_prompt) == 0 {
        head
    } else {
        concat(concat(head, "\n\n"), memory_prompt)
    };
    concat(concat(with_memory, "\n\n"), trim(guidance).as_str())
}

} // verus!
