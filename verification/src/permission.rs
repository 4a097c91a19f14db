//! Permission decisions for tool calls: a bash command screen, deny and allow
//! rules with glob patterns, and the three permission modes.
use vstd::prelude::*;

use crate::message::{field_or_empty, ToolInput, ToolInputView};
use crate::text::{
    char_count, concat, decimal, join, join_spec, owned, split_whitespace, str_eq, take_chars,
    take_chars_spec, usize_to_decimal, views, words,
};

verus! {

// ---------------------------------------------------------------------------
// Outside matchers
// ---------------------------------------------------------------------------

/// Whether `pattern` is a regular expression that the `regex` crate compiles.
pub uninterp spec fn regex_compiles(pattern: Seq<char>) -> bool;

/// Whether the compiled regular expression `pattern` matches somewhere in
/// `text` (`regex::Regex::is_match`).
pub uninterp spec fn regex_is_match(pattern: Seq<char>, text: Seq<char>) -> bool;

#[verifier::external_type_specification]
#[verifier::external_body]
pub struct ExRegexError(regex::Error);

/// Compiles `pattern` with `regex::Regex::new` and keeps only whether that
/// worked. The contract claims nothing beyond naming the outcome.
#[verifier::external_body]
fn regex_compile(pattern: &str) -> (r: Result<(), regex::Error>)
    ensures
        r is Ok <==> regex_compiles(pattern@),
{
    match regex::Regex::new(pattern) {
        Ok(_) => Ok(()),
        Err(e) => Err(e),
    }
}

/// `regex::Regex::new(pattern)` followed by `is_match(text)`; the pattern is
/// known to compile, so the construction cannot fail.
#[verifier::external_body]
fn regex_find(pattern: &str, text: &str) -> (r: bool)
    requires
        regex_compiles(pattern@),
    ensures
        r == regex_is_match(pattern@, text@),
{
    regex::Regex::new(pattern).unwrap().is_match(text)
}

/// Glob matching of a whole text: `?` matches any one character, `*` any run
/// of characters (none included), and every other character itself.
pub open spec fn wildcard_matches(pattern: Seq<char>, text: Seq<char>) -> bool
    decreases pattern.len() + text.len(),
{
    if pattern.len() == 0 {
        text.len() == 0
    } else if pattern[0] == '*' {
        wildcard_matches(pattern.drop_first(), text) || (text.len() > 0 && wildcard_matches(
            pattern,
            text.drop_first(),
        ))
    } else {
        text.len() > 0 && (pattern[0] == '?' || pattern[0] == text[0]) && wildcard_matches(
            pattern.drop_first(),
            text.drop_first(),
        )
    }
}

/// `wildmatch::WildMatch::new(pattern).matches(text)`, whose documented
/// behaviour is the glob matching of `wildcard_matches`.
#[verifier::external_body]
fn wild_match(pattern: &str, text: &str) -> (r: bool)
    ensures
        r == wildcard_matches(pattern@, text@),
{
    wildmatch::WildMatch::new(pattern).matches(text)
}

/// The `Debug` form of a string: quoted, with escapes.
pub uninterp spec fn debug_str(s: Seq<char>) -> Seq<char>;

/// `format!("{:?}", s)` for a string.
#[verifier::external_body]
fn debug_quoted(s: &str) -> (r: String)
    ensures
        r@ == debug_str(s@),
{
    format!("{:?}", s)
}

proof fn lemma_star_matches_all(text: Seq<char>)
    ensures
        wildcard_matches(seq!['*'], text),
    decreases text.len(),
{
    let p = seq!['*'];
    assert(p.len() == 1 && p[0] == '*');
    assert(p.drop_first() =~= Seq::<char>::empty());
    if text.len() > 0 {
        lemma_star_matches_all(text.drop_first());
        assert(wildcard_matches(p, text.drop_first()));
    } else {
        assert(wildcard_matches(p.drop_first(), text));
    }
}

// ---------------------------------------------------------------------------
// Bash command screen
// ---------------------------------------------------------------------------

/// A named pattern that flags a risky shell command.
pub struct ValidationRule {
    pub name: &'static str,
    pub pattern: &'static str,
}

/// A rule that a command matched.
#[derive(Debug, PartialEq, Eq)]
pub struct ValidationFailure {
    pub name: &'static str,
    pub pattern: &'static str,
}

/// The rules of the bash screen, as `(name, pattern)`, in checking order.
pub open spec fn bash_rules() -> Seq<(Seq<char>, Seq<char>)> {
    seq![
        ("shell_metachar"@, "[;&|`$]"@),
        ("sudo"@, "\\bsudo\\b"@),
        ("rm_rf"@, "\\brm\\s+(-[a-zA-Z]*)?r"@),
        ("cmd_substitution"@, "\\$\\("@),
        ("ifs_injection"@, "\\bIFS\\s*="@),
    ]
}

/// The rules among `rules` whose pattern matches `command`, in order.
pub open spec fn matching_rules(rules: Seq<(Seq<char>, Seq<char>)>, command: Seq<char>) -> Seq<
    (Seq<char>, Seq<char>),
>
    decreases rules.len(),
{
    if rules.len() == 0 {
        Seq::empty()
    } else {
        let rest = matching_rules(rules.drop_last(), command);
        if regex_is_match(rules.last().1, command) {
            rest.push(rules.last())
        } else {
            rest
        }
    }
}

/// The bash rules that flag `command`, in order.
pub open spec fn failures_spec(command: Seq<char>) -> Seq<(Seq<char>, Seq<char>)> {
    matching_rules(bash_rules(), command)
}

/// One flagged rule as `name (pattern: p)`.
pub open spec fn failure_text(f: (Seq<char>, Seq<char>)) -> Seq<char> {
    f.0 + " (pattern: "@ + f.1 + ")"@
}

/// The description of what the screen found in `command`.
pub open spec fn describe_failures_spec(command: Seq<char>) -> Seq<char> {
    let failures = failures_spec(command);
    if failures.len() == 0 {
        "No issues detected"@
    } else {
        "Security flags: "@ + join_spec(failures.map_values(|f: (Seq<char>, Seq<char>)| failure_text(f)), ", "@)
    }
}

pub open spec fn rule_pairs(v: Seq<ValidationRule>) -> Seq<(Seq<char>, Seq<char>)> {
    v.map_values(|r: ValidationRule| (r.name@, r.pattern@))
}

pub open spec fn failure_pairs(v: Seq<ValidationFailure>) -> Seq<(Seq<char>, Seq<char>)> {
    v.map_values(|f: ValidationFailure| (f.name@, f.pattern@))
}

/// Flags shell commands that use metacharacters, `sudo`, recursive `rm`,
/// command substitution or an `IFS` assignment.
pub struct BashSecurityValidator {
    validators: Vec<ValidationRule>,
}

impl BashSecurityValidator {
    #[verifier::type_invariant]
    spec fn inv(self) -> bool {
        &&& rule_pairs(self.validators@) == bash_rules()
        &&& forall|i: int| 0 <= i < bash_rules().len() ==> regex_compiles(#[trigger] bash_rules()[i].1)
    }

    fn rule(name: &'static str, pattern: &'static str, error: &str) -> (r: Result<ValidationRule, String>)
        ensures
            r matches Ok(rule) ==> rule.name == name && rule.pattern == pattern && regex_compiles(pattern@),
            r matches Err(e) ==> !regex_compiles(pattern@) && e@ == error@,
    {
        match regex_compile(pattern) {
            Ok(()) => Ok(ValidationRule { name, pattern }),
            Err(_) => Err(owned(error)),
        }
    }

    /// The screen with its five rules; fails, naming the rule, if a pattern
    /// does not compile.
    pub fn try_new() -> (r: Result<BashSecurityValidator, String>)
        ensures
            r is Ok <==> (forall|i: int| 0 <= i < bash_rules().len() ==> regex_compiles(#[trigger] bash_rules()[i].1)),
    {
        let mut validators: Vec<ValidationRule> = Vec::new();
        let names: [&'static str; 5] = ["shell_metachar", "sudo", "rm_rf", "cmd_substitution", "ifs_injection"];
        let patterns: [&'static str; 5] = ["[;&|`$]", "\\bsudo\\b", "\\brm\\s+(-[a-zA-Z]*)?r", "\\$\\(", "\\bIFS\\s*="];
        let errors: [&'static str; 5] = [
            "failed to compile shell_metachar regex",
            "failed to compile sudo regex",
            "failed to compile rm_rf regex",
            "failed to compile cmd_substitution regex",
            "failed to compile ifs_injection regex",
        ];
        assert(names@.len() == 5 && patterns@.len() == 5);
        assert forall|k: int| 0 <= k < 5 implies bash_rules()[k] == (#[trigger] names@[k]@, patterns@[k]@) by {}
        let mut i: usize = 0;
        while i < 5
            invariant
                i <= 5,
                names@.len() == 5,
                patterns@.len() == 5,
                errors@.len() == 5,
                forall|k: int| 0 <= k < 5 ==> bash_rules()[k] == (#[trigger] names@[k]@, patterns@[k]@),
                rule_pairs(validators@) == bash_rules().take(i as int),
                forall|k: int| 0 <= k < i ==> regex_compiles(#[trigger] bash_rules()[k].1),
            decreases 5 - i,
        {
            match Self::rule(names[i], patterns[i], errors[i]) {
                Ok(rule) => {
                    let ghost before = validators@;
                    validators.push(rule);
                    assert(rule_pairs(validators@) =~= rule_pairs(before).push((names@[i as int]@, patterns@[i as int]@)));
                    assert(bash_rules().take(i + 1) =~= bash_rules().take(i as int).push(bash_rules()[i as int]));
                },
                Err(e) => {
                    assert(!regex_compiles(bash_rules()[i as int].1));
                    return Err(e);
                },
            }
            i = i + 1;
        }
        assert(bash_rules().take(5) =~= bash_rules());
        assert(rule_pairs(validators@) =~= bash_rules());
        assert forall|i: int| 0 <= i < bash_rules().len() implies regex_compiles(#[trigger] bash_rules()[i].1) by {
            assert(bash_rules()[i] == rule_pairs(validators@)[i]);
        }
        Ok(BashSecurityValidator { validators })
    }

    /// The rules that flag `command`, in rule order.
    pub fn validate(&self, command: &str) -> (r: Vec<ValidationFailure>)
        ensures
            failure_pairs(r@) == failures_spec(command@),
    {
        proof {
            use_type_invariant(self);
        }
        let mut r: Vec<ValidationFailure> = Vec::new();
        let mut i: usize = 0;
        while i < self.validators.len()
            invariant
                i <= self.validators.len(),
                rule_pairs(self.validators@) == bash_rules(),
                forall|k: int| 0 <= k < bash_rules().len() ==> regex_compiles(#[trigger] bash_rules()[k].1),
                failure_pairs(r@) == matching_rules(rule_pairs(self.validators@.take(i as int)), command@),
            decreases self.validators.len() - i,
        {
            let rule = &self.validators[i];
            assert(rule_pairs(self.validators@.take(i + 1)) =~= rule_pairs(self.validators@.take(i as int)).push(
                (rule.name@, rule.pattern@),
            ));
            assert(rule_pairs(self.validators@.take(i + 1)).drop_last() =~= rule_pairs(self.validators@.take(i as int)));
            assert(bash_rules()[i as int] == (rule.name@, rule.pattern@));
            assert(regex_compiles(bash_rules()[i as int].1));
            if regex_find(rule.pattern, command) {
                let ghost before = r@;
                r.push(ValidationFailure { name: rule.name, pattern: rule.pattern });
                assert(failure_pairs(r@) =~= failure_pairs(before).push((rule.name@, rule.pattern@)));
            }
            i = i + 1;
        }
        assert(self.validators@.take(self.validators.len() as int) == self.validators@);
        r
    }

    /// Whether no rule flags `command`.
    pub fn is_safe(&self, command: &str) -> (r: bool)
        ensures
            r == (failures_spec(command@).len() == 0),
    {
        let failures = self.validate(command);
        failures.len() == 0
    }

    /// A description of every rule that flags `command`.
    pub fn describe_failures(&self, command: &str) -> (r: String)
        ensures
            r@ == describe_failures_spec(command@),
    {
        let failures = self.validate(command);
        describe_failure_list(&failures)
    }
}

/// `Security flags: ...` for a non-empty list, `No issues detected` for none.
fn describe_failure_list(failures: &Vec<ValidationFailure>) -> (r: String)
    ensures
        r@ == (if failures@.len() == 0 {
            "No issues detected"@
        } else {
            "Security flags: "@ + join_spec(
                failure_pairs(failures@).map_values(|f: (Seq<char>, Seq<char>)| failure_text(f)),
                ", "@,
            )
        }),
{
    if failures.len() == 0 {
        return owned("No issues detected");
    }
    let mut parts: Vec<String> = Vec::new();
    let mut i: usize = 0;
    while i < failures.len()
        invariant
            i <= failures.len(),
            views(parts@) == failure_pairs(failures@.take(i as int)).map_values(
                |f: (Seq<char>, Seq<char>)| failure_text(f),
            ),
        decreases failures.len() - i,
    {
        let f = &failures[i];
        let part = concat(concat(concat(owned(f.name), " (pattern: "), f.pattern), ")");
        let ghost before = parts@;
        parts.push(part);
        assert(views(parts@) =~= views(before).push(part@));
        assert(failure_pairs(failures@.take(i + 1)).map_values(|f: (Seq<char>, Seq<char>)| failure_text(f))
            =~= failure_pairs(failures@.take(i as int)).map_values(|f: (Seq<char>, Seq<char>)| failure_text(f)).push(
            failure_text((f.name@, f.pattern@)),
        ));
        i = i + 1;
    }
    assert(failures@.take(failures.len() as int) == failures@);
    let joined = join(&parts, ", ");
    concat(owned("Security flags: "), joined.as_str())
}

// ---------------------------------------------------------------------------
// Modes, rules and decisions
// ---------------------------------------------------------------------------

/// How the harness decides tool calls that no rule settles.
#[derive(Clone, Copy, Debug, PartialEq, Eq, Structural)]
pub enum PermissionMode {
    /// Ask by default.
    Default,
    /// Read only: writes are blocked, reads allowed.
    Plan,
    /// Reads are allowed, writes go through the rules.
    Auto,
}

impl PermissionMode {
    /// The mode named `s` in snake case (`default`, `plan`, `auto`).
    pub fn parse(s: &str) -> (r: Option<PermissionMode>)
        ensures
            r == (if s@ == "default"@ {
                Some(PermissionMode::Default)
            } else if s@ == "plan"@ {
                Some(PermissionMode::Plan)
            } else if s@ == "auto"@ {
                Some(PermissionMode::Auto)
            } else {
                None
            }),
    {
        if str_eq(s, "default") {
            Some(PermissionMode::Default)
        } else if str_eq(s, "plan") {
            Some(PermissionMode::Plan)
        } else if str_eq(s, "auto") {
            Some(PermissionMode::Auto)
        } else {
            None
        }
    }

    /// The label shown when the mode is chosen or reported.
    pub fn label(&self) -> (r: String)
        ensures
            r@ == (match *self {
                PermissionMode::Default => "default - ask by default"@,
                PermissionMode::Plan => "plan - read only"@,
                PermissionMode::Auto => "auto - allow reads, ask for writes"@,
            }),
    {
        match self {
            PermissionMode::Default => owned("default - ask by default"),
            PermissionMode::Plan => owned("plan - read only"),
            PermissionMode::Auto => owned("auto - allow reads, ask for writes"),
        }
    }
}

/// What a decision or a rule says about a tool call.
#[derive(Clone, Copy, Debug, PartialEq, Eq, Structural)]
pub enum PermissionBehavior {
    Allow,
    Deny,
    Ask,
}

/// The decision on one tool call, with its reason.
pub struct PermissionDecision {
    pub behavior: PermissionBehavior,
    pub reason: String,
}

/// What the user answered when asked about a tool call.
#[derive(Clone, Copy, Debug, PartialEq, Eq, Structural)]
pub enum UserPermissionChoice {
    AllowOnce,
    Deny,
    AlwaysAllow,
}

impl UserPermissionChoice {
    /// The label shown in the prompt.
    pub fn label(&self) -> (r: String)
        ensures
            r@ == (match *self {
                UserPermissionChoice::AllowOnce => "allow once"@,
                UserPermissionChoice::Deny => "deny"@,
                UserPermissionChoice::AlwaysAllow => "always allow this tool"@,
            }),
    {
        match self {
            UserPermissionChoice::AllowOnce => owned("allow once"),
            UserPermissionChoice::Deny => owned("deny"),
            UserPermissionChoice::AlwaysAllow => owned("always allow this tool"),
        }
    }
}

/// A rule on a tool (or `*` for every tool), with optional glob patterns on
/// the call's `path` and `command` fields.
pub struct PermissionRule {
    pub tool: String,
    pub path: Option<String>,
    pub content: Option<String>,
    pub behavior: PermissionBehavior,
}

pub struct RuleView {
    pub tool: Seq<char>,
    pub path: Option<Seq<char>>,
    pub content: Option<Seq<char>>,
    pub behavior: PermissionBehavior,
}

pub open spec fn opt_view(o: Option<String>) -> Option<Seq<char>> {
    match o {
        Some(s) => Some(s@),
        None => None,
    }
}

impl View for PermissionRule {
    type V = RuleView;

    open spec fn view(&self) -> RuleView {
        RuleView {
            tool: self.tool@,
            path: opt_view(self.path),
            content: opt_view(self.content),
            behavior: self.behavior,
        }
    }
}

pub open spec fn rule_views(v: Seq<PermissionRule>) -> Seq<RuleView> {
    v.map_values(|r: PermissionRule| r@)
}

/// A rule applies to a call when its tool is `*` or the call's tool, and each
/// pattern it has matches the call's `path` (resp. `command`) field, a missing
/// field counting as empty text.
pub open spec fn rule_matches(rule: RuleView, tool: Seq<char>, input: ToolInputView) -> bool {
    &&& (rule.tool == "*"@ || rule.tool == tool)
    &&& (rule.path matches Some(p) ==> wildcard_matches(p, field_or_empty(input, "path"@)))
    &&& (rule.content matches Some(c) ==> wildcard_matches(c, field_or_empty(input, "command"@)))
}

pub open spec fn behavior_name(b: PermissionBehavior) -> Seq<char> {
    match b {
        PermissionBehavior::Allow => "allow"@,
        PermissionBehavior::Deny => "deny"@,
        PermissionBehavior::Ask => "ask"@,
    }
}

pub open spec fn behavior_debug(b: PermissionBehavior) -> Seq<char> {
    match b {
        PermissionBehavior::Allow => "Allow"@,
        PermissionBehavior::Deny => "Deny"@,
        PermissionBehavior::Ask => "Ask"@,
    }
}

/// `Option<String>` as `Debug` writes it.
pub open spec fn opt_debug(o: Option<Seq<char>>) -> Seq<char> {
    match o {
        Some(s) => "Some("@ + debug_str(s) + ")"@,
        None => "None"@,
    }
}

/// A rule as `Debug` writes it.
pub open spec fn rule_debug(rule: RuleView) -> Seq<char> {
    "PermissionRule { tool: "@ + debug_str(rule.tool) + ", path: "@ + opt_debug(rule.path)
        + ", content: "@ + opt_debug(rule.content) + ", behavior: "@ + behavior_debug(rule.behavior)
        + " }"@
}

/// A rule as listed to the user: `tool=..., path=..., content=..., behavior=...`.
pub open spec fn rule_display(rule: RuleView) -> Seq<char> {
    let with_path = match rule.path {
        Some(p) => "tool="@ + rule.tool + ", path="@ + p,
        None => "tool="@ + rule.tool,
    };
    let with_content = match rule.content {
        Some(c) => with_path + ", content="@ + c,
        None => with_path,
    };
    with_content + ", behavior="@ + behavior_name(rule.behavior)
}

fn opt_debug_exec(o: &Option<String>) -> (r: String)
    ensures
        r@ == opt_debug(opt_view(*o)),
{
    match o {
        Some(s) => concat(concat(owned("Some("), debug_quoted(s.as_str()).as_str()), ")"),
        None => owned("None"),
    }
}

impl PermissionRule {
    /// A rule that allows every call of `tool`.
    pub fn allow_tool(tool: &str) -> (r: PermissionRule)
        ensures
            r@ == (RuleView { tool: tool@, path: None, content: None, behavior: PermissionBehavior::Allow }),
    {
        PermissionRule { tool: owned(tool), path: None, content: None, behavior: PermissionBehavior::Allow }
    }

    /// A rule that denies the calls of `tool` whose command matches `content`.
    pub fn deny_tool_content(tool: &str, content: &str) -> (r: PermissionRule)
        ensures
            r@ == (RuleView {
                tool: tool@,
                path: None,
                content: Some(content@),
                behavior: PermissionBehavior::Deny,
            }),
    {
        PermissionRule {
            tool: owned(tool),
            path: None,
            content: Some(owned(content)),
            behavior: PermissionBehavior::Deny,
        }
    }

    /// The rule, restricted to calls whose path matches `path`.
    pub fn with_path(self, path: &str) -> (r: PermissionRule)
        ensures
            r@ == (RuleView { path: Some(path@), ..self@ }),
    {
        let mut r = self;
        r.path = Some(owned(path));
        r
    }

    /// The rule, restricted to calls whose command matches `content`.
    pub fn with_content(self, content: &str) -> (r: PermissionRule)
        ensures
            r@ == (RuleView { content: Some(content@), ..self@ }),
    {
        let mut r = self;
        r.content = Some(owned(content));
        r
    }

    /// Whether the rule applies to a call of `tool_name` with `tool_input`.
    pub fn matches(&self, tool_name: &str, tool_input: &ToolInput) -> (r: bool)
        ensures
            r == rule_matches(self@, tool_name@, tool_input@),
    {
        if !str_eq(self.tool.as_str(), "*") && !str_eq(self.tool.as_str(), tool_name) {
            return false;
        }
        if let Some(path_pattern) = &self.path {
            let path = field_value(tool_input, "path");
            if !wild_match(path_pattern.as_str(), path.as_str()) {
                return false;
            }
        }
        if let Some(content_pattern) = &self.content {
            let command = field_value(tool_input, "command");
            if !wild_match(content_pattern.as_str(), command.as_str()) {
                return false;
            }
        }
        true
    }

    /// The rule as `Debug` writes it.
    pub fn debug_text(&self) -> (r: String)
        ensures
            r@ == rule_debug(self@),
    {
        let r = concat(owned("PermissionRule { tool: "), debug_quoted(self.tool.as_str()).as_str());
        let r = concat(r, ", path: ");
        let r = concat(r, opt_debug_exec(&self.path).as_str());
        let r = concat(r, ", content: ");
        let r = concat(r, opt_debug_exec(&self.content).as_str());
        let r = concat(r, ", behavior: ");
        let b = match self.behavior {
            PermissionBehavior::Allow => "Allow",
            PermissionBehavior::Deny => "Deny",
            PermissionBehavior::Ask => "Ask",
        };
        let r = concat(r, b);
        concat(r, " }")
    }

    /// The rule as listed to the user.
    pub fn describe(&self) -> (r: String)
        ensures
            r@ == rule_display(self@),
    {
        let mut r = concat(owned("tool="), self.tool.as_str());
        if let Some(p) = &self.path {
            r = concat(concat(r, ", path="), p.as_str());
        }
        if let Some(c) = &self.content {
            r = concat(concat(r, ", content="), c.as_str());
        }
        r = concat(r, ", behavior=");
        let b = match self.behavior {
            PermissionBehavior::Allow => "allow",
            PermissionBehavior::Deny => "deny",
            PermissionBehavior::Ask => "ask",
        };
        concat(r, b)
    }
}

/// The string field `key` of a tool input, or empty text.
pub fn field_value(input: &ToolInput, key: &str) -> (r: String)
    ensures
        r@ == field_or_empty(input@, key@),
{
    match input.get_str(key) {
        Some(v) => v,
        None => String::new(),
    }
}

/// The rules the harness starts with: deny `rm -rf /` and `sudo *` in bash,
/// allow reading any file.
pub open spec fn default_rules_spec() -> Seq<RuleView> {
    seq![
        RuleView { tool: "bash"@, path: None, content: Some("rm -rf /"@), behavior: PermissionBehavior::Deny },
        RuleView { tool: "bash"@, path: None, content: Some("sudo *"@), behavior: PermissionBehavior::Deny },
        RuleView { tool: "read_file"@, path: Some("*"@), content: None, behavior: PermissionBehavior::Allow },
    ]
}

/// The rules the harness starts with.
pub fn default_rules() -> (r: Vec<PermissionRule>)
    ensures
        rule_views(r@) == default_rules_spec(),
{
    let mut r: Vec<PermissionRule> = Vec::new();
    r.push(PermissionRule::deny_tool_content("bash", "rm -rf /"));
    r.push(PermissionRule::deny_tool_content("bash", "sudo *"));
    r.push(PermissionRule::allow_tool("read_file").with_path("*"));
    assert(rule_views(r@) =~= default_rules_spec());
    r
}

/// Tools that only read.
pub open spec fn read_only_tool(name: Seq<char>) -> bool {
    name == "read_file"@ || name == "bash_readonly"@
}

/// Tools that write.
pub open spec fn write_tool(name: Seq<char>) -> bool {
    name == "write_file"@ || name == "edit_file"@ || name == "bash"@
}

/// Whether `tool_name` only reads.
pub fn is_read_only_tool(tool_name: &str) -> (r: bool)
    ensures
        r == read_only_tool(tool_name@),
{
    str_eq(tool_name, "read_file") || str_eq(tool_name, "bash_readonly")
}

/// Whether `tool_name` writes.
pub fn is_write_tool(tool_name: &str) -> (r: bool)
    ensures
        r == write_tool(tool_name@),
{
    str_eq(tool_name, "write_file") || str_eq(tool_name, "edit_file") || str_eq(tool_name, "bash")
}

/// The tool input as shown in a permission prompt: at most `limit`
/// characters, with `...` when it was cut.
pub fn truncate_for_prompt(text: &str, limit: usize) -> (r: String)
    ensures
        r@ == (if text@.len() <= limit {
            text@
        } else {
            take_chars_spec(text@, limit as nat) + "..."@
        }),
{
    if char_count(text) <= limit {
        return owned(text);
    }
    concat(take_chars(text, limit), "...")
}

// ---------------------------------------------------------------------------
// The permission manager
// ---------------------------------------------------------------------------

/// A decision as a pair of behaviour and reason text.
pub struct DecisionView {
    pub behavior: PermissionBehavior,
    pub reason: Seq<char>,
}

impl View for PermissionDecision {
    type V = DecisionView;

    open spec fn view(&self) -> DecisionView {
        DecisionView { behavior: self.behavior, reason: self.reason@ }
    }
}

/// The flags that make the bash screen deny outright rather than ask.
pub open spec fn severe_rule(name: Seq<char>) -> bool {
    name == "sudo"@ || name == "rm_rf"@
}

/// What the bash screen decides about a call, if anything: a command that a
/// rule flags is denied when `sudo` or `rm_rf` is among the flags, and
/// otherwise needs the user's approval.
pub open spec fn bash_screen(tool: Seq<char>, input: ToolInputView) -> Option<DecisionView> {
    let command = field_or_empty(input, "command"@);
    let failures = failures_spec(command);
    if tool != "bash"@ || failures.len() == 0 {
        None
    } else if exists|k: int| 0 <= k < failures.len() && severe_rule(#[trigger] failures[k].0) {
        Some(DecisionView {
            behavior: PermissionBehavior::Deny,
            reason: "Bash validator: "@ + describe_failures_spec(command),
        })
    } else {
        Some(DecisionView {
            behavior: PermissionBehavior::Ask,
            reason: "Bash validator flagged: "@ + describe_failures_spec(command),
        })
    }
}

/// The index of the first rule from `k` on with behaviour `b` that applies.
pub open spec fn first_rule_from(
    rules: Seq<RuleView>,
    b: PermissionBehavior,
    tool: Seq<char>,
    input: ToolInputView,
    k: int,
) -> Option<int>
    decreases rules.len() - k,
{
    if k < 0 || k >= rules.len() {
        None
    } else if rules[k].behavior == b && rule_matches(rules[k], tool, input) {
        Some(k)
    } else {
        first_rule_from(rules, b, tool, input, k + 1)
    }
}

/// The index of the first rule with behaviour `b` that applies to the call.
pub open spec fn first_rule(rules: Seq<RuleView>, b: PermissionBehavior, tool: Seq<char>, input: ToolInputView) -> Option<int> {
    first_rule_from(rules, b, tool, input, 0)
}

/// What the mode decides about a call, if anything.
pub open spec fn mode_decision(mode: PermissionMode, tool: Seq<char>) -> Option<DecisionView> {
    match mode {
        PermissionMode::Default => None,
        PermissionMode::Plan => if write_tool(tool) {
            Some(DecisionView { behavior: PermissionBehavior::Deny, reason: "Plan mode: write operations are blocked"@ })
        } else {
            Some(DecisionView { behavior: PermissionBehavior::Allow, reason: "Plan mode: read-only allowed"@ })
        },
        PermissionMode::Auto => if read_only_tool(tool) || tool == "read_file"@ {
            Some(DecisionView {
                behavior: PermissionBehavior::Allow,
                reason: "Auto mode: read-only tool auto-approved"@,
            })
        } else {
            None
        },
    }
}

/// The decision on a call: the bash screen first, then the deny rules, then
/// the mode, then the allow rules; a call that none of them settles is asked
/// about.
pub open spec fn check_spec(mode: PermissionMode, rules: Seq<RuleView>, tool: Seq<char>, input: ToolInputView) -> DecisionView {
    match bash_screen(tool, input) {
        Some(d) => d,
        None => match first_rule(rules, PermissionBehavior::Deny, tool, input) {
            Some(k) => DecisionView { behavior: PermissionBehavior::Deny, reason: "Blocked by deny rule: "@ + rule_debug(rules[k]) },
            None => match mode_decision(mode, tool) {
                Some(d) => d,
                None => match first_rule(rules, PermissionBehavior::Allow, tool, input) {
                    Some(k) => DecisionView { behavior: PermissionBehavior::Allow, reason: "Matched allow rule: "@ + rule_debug(rules[k]) },
                    None => DecisionView {
                        behavior: PermissionBehavior::Ask,
                        reason: "No rule matched for "@ + tool + ", asking user"@,
                    },
                },
            },
        },
    }
}

/// Whether a call is settled by an allow rule, which resets the count of
/// consecutive denials.
pub open spec fn check_resets_denials(mode: PermissionMode, rules: Seq<RuleView>, tool: Seq<char>, input: ToolInputView) -> bool {
    &&& bash_screen(tool, input) is None
    &&& first_rule(rules, PermissionBehavior::Deny, tool, input) is None
    &&& mode_decision(mode, tool) is None
    &&& first_rule(rules, PermissionBehavior::Allow, tool, input) is Some
}

/// Decides tool calls from the mode, the rules and the bash screen, and
/// counts how often in a row the user denied a call.
pub struct PermissionManager {
    pub mode: PermissionMode,
    pub rules: Vec<PermissionRule>,
    pub bash_validator: BashSecurityValidator,
    pub consecutive_denials: usize,
    pub max_consecutive_denials: usize,
}

impl PermissionManager {
    /// A manager with the default rules.
    pub fn try_new(mode: PermissionMode) -> (r: Result<PermissionManager, String>)
        ensures
            r matches Ok(m) ==> m.mode() == mode && rule_views(m.rules@) == default_rules_spec()
                && m.consecutive_denials == 0 && m.max_consecutive_denials == 3,
            r is Ok <==> (forall|i: int| 0 <= i < bash_rules().len() ==> regex_compiles(#[trigger] bash_rules()[i].1)),
    {
        Self::try_new_with_rules(mode, default_rules())
    }

    /// A manager with the given rules.
    pub fn try_new_with_rules(mode: PermissionMode, rules: Vec<PermissionRule>) -> (r: Result<PermissionManager, String>)
        ensures
            r matches Ok(m) ==> m.mode() == mode && m.rules == rules && m.consecutive_denials == 0
                && m.max_consecutive_denials == 3,
            r is Ok <==> (forall|i: int| 0 <= i < bash_rules().len() ==> regex_compiles(#[trigger] bash_rules()[i].1)),
    {
        let bash_validator = BashSecurityValidator::try_new()?;
        Ok(PermissionManager { mode, rules, bash_validator, consecutive_denials: 0, max_consecutive_denials: 3 })
    }

    pub open spec fn spec_mode(&self) -> PermissionMode {
        self.mode
    }

    /// The current mode.
    #[verifier::when_used_as_spec(spec_mode)]
    pub fn mode(&self) -> (r: PermissionMode)
        ensures
            r == self.mode,
    {
        self.mode
    }

    /// Switches to `mode`.
    pub fn set_mode(&mut self, mode: PermissionMode)
        ensures
            final(self).mode == mode,
            final(self).rules == old(self).rules,
            final(self).consecutive_denials == old(self).consecutive_denials,
            final(self).max_consecutive_denials == old(self).max_consecutive_denials,
            final(self).bash_validator == old(self).bash_validator,
    {
        self.mode = mode;
    }

    /// The rules, in order.
    pub fn rules(&self) -> (r: &Vec<PermissionRule>)
        ensures
            r == &self.rules,
    {
        &self.rules
    }

    /// The index of the first rule with behaviour `b` that applies to the call.
    fn find_rule(&self, tool_name: &str, tool_input: &ToolInput, b: PermissionBehavior) -> (r: Option<usize>)
        ensures
            match r {
                Some(k) => first_rule(rule_views(self.rules@), b, tool_name@, tool_input@) == Some(k as int)
                    && k < self.rules@.len(),
                None => first_rule(rule_views(self.rules@), b, tool_name@, tool_input@) is None,
            },
    {
        let ghost rv = rule_views(self.rules@);
        let mut k: usize = 0;
        while k < self.rules.len()
            invariant
                k <= self.rules.len(),
                rv == rule_views(self.rules@),
                first_rule(rv, b, tool_name@, tool_input@) == first_rule_from(rv, b, tool_name@, tool_input@, k as int),
            decreases self.rules.len() - k,
        {
            assert(rv[k as int] == self.rules@[k as int]@);
            if self.rules[k].behavior == b && self.rules[k].matches(tool_name, tool_input) {
                return Some(k);
            }
            k = k + 1;
        }
        None
    }

    /// What the bash screen decides about the call, if anything.
    fn check_bash_security(&self, tool_name: &str, tool_input: &ToolInput) -> (r: Option<PermissionDecision>)
        ensures
            match r {
                Some(d) => bash_screen(tool_name@, tool_input@) == Some(d@),
                None => bash_screen(tool_name@, tool_input@) is None,
            },
    {
        if !str_eq(tool_name, "bash") {
            return None;
        }
        let command = field_value(tool_input, "command");
        let failures = self.bash_validator.validate(command.as_str());
        if failures.len() == 0 {
            return None;
        }
        let ghost fs = failures_spec(command@);
        let mut severe = false;
        let mut i: usize = 0;
        while i < failures.len()
            invariant
                i <= failures.len(),
                failure_pairs(failures@) == fs,
                severe == exists|k: int| 0 <= k < i && severe_rule(#[trigger] fs[k].0),
            decreases failures.len() - i,
        {
            assert(fs[i as int].0 == failures@[i as int].name@);
            if str_eq(failures[i].name, "sudo") || str_eq(failures[i].name, "rm_rf") {
                severe = true;
            }
            i = i + 1;
        }
        let summary = self.bash_validator.describe_failures(command.as_str());
        if severe {
            Some(PermissionDecision {
                behavior: PermissionBehavior::Deny,
                reason: concat(owned("Bash validator: "), summary.as_str()),
            })
        } else {
            Some(PermissionDecision {
                behavior: PermissionBehavior::Ask,
                reason: concat(owned("Bash validator flagged: "), summary.as_str()),
            })
        }
    }

    /// What the mode decides about a call of `tool_name`, if anything.
    fn check_mode(&self, tool_name: &str) -> (r: Option<PermissionDecision>)
        ensures
            match r {
                Some(d) => mode_decision(self.mode, tool_name@) == Some(d@),
                None => mode_decision(self.mode, tool_name@) is None,
            },
    {
        match self.mode {
            PermissionMode::Default => None,
            PermissionMode::Plan => {
                if is_write_tool(tool_name) {
                    Some(PermissionDecision {
                        behavior: PermissionBehavior::Deny,
                        reason: owned("Plan mode: write operations are blocked"),
                    })
                } else {
                    Some(PermissionDecision {
                        behavior: PermissionBehavior::Allow,
                        reason: owned("Plan mode: read-only allowed"),
                    })
                }
            },
            PermissionMode::Auto => {
                if is_read_only_tool(tool_name) || str_eq(tool_name, "read_file") {
                    Some(PermissionDecision {
                        behavior: PermissionBehavior::Allow,
                        reason: owned("Auto mode: read-only tool auto-approved"),
                    })
                } else {
                    None
                }
            },
        }
    }

    /// Decides a tool call. A call settled by an allow rule resets the count
    /// of consecutive denials.
    pub fn check(&mut self, tool_name: &str, tool_input: &ToolInput) -> (d: PermissionDecision)
        ensures
            d@ == check_spec(old(self).mode, rule_views(old(self).rules@), tool_name@, tool_input@),
            final(self).consecutive_denials == if check_resets_denials(
                old(self).mode,
                rule_views(old(self).rules@),
                tool_name@,
                tool_input@,
            ) {
                0
            } else {
                old(self).consecutive_denials
            },
            final(self).mode == old(self).mode,
            final(self).rules == old(self).rules,
            final(self).max_consecutive_denials == old(self).max_consecutive_denials,
            final(self).bash_validator == old(self).bash_validator,
    {
        if let Some(decision) = self.check_bash_security(tool_name, tool_input) {
            return decision;
        }
        if let Some(k) = self.find_rule(tool_name, tool_input, PermissionBehavior::Deny) {
            let reason = concat(owned("Blocked by deny rule: "), self.rules[k].debug_text().as_str());
            assert(rule_views(self.rules@)[k as int] == self.rules@[k as int]@);
            return PermissionDecision { behavior: PermissionBehavior::Deny, reason };
        }
        if let Some(decision) = self.check_mode(tool_name) {
            return decision;
        }
        if let Some(k) = self.find_rule(tool_name, tool_input, PermissionBehavior::Allow) {
            self.consecutive_denials = 0;
            let reason = concat(owned("Matched allow rule: "), self.rules[k].debug_text().as_str());
            assert(rule_views(self.rules@)[k as int] == self.rules@[k as int]@);
            return PermissionDecision { behavior: PermissionBehavior::Allow, reason };
        }
        PermissionDecision {
            behavior: PermissionBehavior::Ask,
            reason: concat(concat(owned("No rule matched for "), tool_name), ", asking user"),
        }
    }

    /// Records the user's answer to a permission prompt and returns whether
    /// the call may run. "Always allow" adds an allow rule for the tool on any
    /// path.
    pub fn apply_user_choice(&mut self, choice: UserPermissionChoice, tool_name: &str) -> (approved: bool)
        requires
            choice == UserPermissionChoice::Deny ==> old(self).consecutive_denials < usize::MAX,
        ensures
            approved == (choice != UserPermissionChoice::Deny),
            final(self).consecutive_denials == if choice == UserPermissionChoice::Deny {
                old(self).consecutive_denials + 1
            } else {
                0
            },
            rule_views(final(self).rules@) == if choice == UserPermissionChoice::AlwaysAllow {
                rule_views(old(self).rules@).push(always_allow_rule(tool_name@))
            } else {
                rule_views(old(self).rules@)
            },
            final(self).mode == old(self).mode,
            final(self).max_consecutive_denials == old(self).max_consecutive_denials,
            final(self).bash_validator == old(self).bash_validator,
    {
        match choice {
            UserPermissionChoice::AllowOnce => {
                self.consecutive_denials = 0;
                true
            },
            UserPermissionChoice::Deny => {
                self.consecutive_denials = self.consecutive_denials + 1;
                false
            },
            UserPermissionChoice::AlwaysAllow => {
                let ghost before = self.rules@;
                self.rules.push(PermissionRule::allow_tool(tool_name).with_path("*"));
                assert(rule_views(self.rules@) =~= rule_views(before).push(always_allow_rule(tool_name@)));
                self.consecutive_denials = 0;
                true
            },
        }
    }

    /// Whether the user has denied enough calls in a row that plan mode
    /// should be suggested.
    pub fn should_suggest_plan_mode(&self) -> (r: bool)
        ensures
            r == (self.consecutive_denials >= self.max_consecutive_denials),
    {
        self.consecutive_denials >= self.max_consecutive_denials
    }
}

/// The rule that "always allow this tool" adds.
pub open spec fn always_allow_rule(tool: Seq<char>) -> RuleView {
    RuleView { tool, path: Some("*"@), content: None, behavior: PermissionBehavior::Allow }
}

// ---------------------------------------------------------------------------
// What the decisions guarantee
// ---------------------------------------------------------------------------

proof fn lemma_first_rule_found(
    rules: Seq<RuleView>,
    b: PermissionBehavior,
    tool: Seq<char>,
    input: ToolInputView,
    k: int,
    j: int,
)
    requires
        0 <= k <= j < rules.len(),
        rules[j].behavior == b,
        rule_matches(rules[j], tool, input),
    ensures
        first_rule_from(rules, b, tool, input, k) is Some,
    decreases j - k,
{
    if k < j && !(rules[k].behavior == b && rule_matches(rules[k], tool, input)) {
        lemma_first_rule_found(rules, b, tool, input, k + 1, j);
    }
}

proof fn lemma_first_rule_push(
    rules: Seq<RuleView>,
    extra: RuleView,
    b: PermissionBehavior,
    tool: Seq<char>,
    input: ToolInputView,
    k: int,
)
    requires
        0 <= k <= rules.len(),
    ensures
        first_rule_from(rules.push(extra), b, tool, input, k) == match first_rule_from(rules, b, tool, input, k) {
            Some(i) => Some(i),
            None => if extra.behavior == b && rule_matches(extra, tool, input) {
                Some(rules.len() as int)
            } else {
                None
            },
        },
    decreases rules.len() - k,
{
    let pushed = rules.push(extra);
    if k < rules.len() {
        assert(pushed[k] == rules[k]);
        lemma_first_rule_push(rules, extra, b, tool, input, k + 1);
    } else {
        assert(pushed[k] == extra);
        assert(first_rule_from(pushed, b, tool, input, k + 1) is None);
    }
}

/// A call that a deny rule matches is never allowed, whatever the mode and
/// the other rules.
pub proof fn law_deny_rule_never_allows(
    mode: PermissionMode,
    rules: Seq<RuleView>,
    tool: Seq<char>,
    input: ToolInputView,
    j: int,
)
    requires
        0 <= j < rules.len(),
        rules[j].behavior == PermissionBehavior::Deny,
        rule_matches(rules[j], tool, input),
    ensures
        check_spec(mode, rules, tool, input).behavior != PermissionBehavior::Allow,
{
    lemma_first_rule_found(rules, PermissionBehavior::Deny, tool, input, 0, j);
}

/// In plan mode a tool that writes is never allowed.
pub proof fn law_plan_mode_never_allows_writes(rules: Seq<RuleView>, tool: Seq<char>, input: ToolInputView)
    requires
        write_tool(tool),
    ensures
        check_spec(PermissionMode::Plan, rules, tool, input).behavior != PermissionBehavior::Allow,
{
}

/// A bash command that uses `sudo` or a recursive `rm` is denied in every mode
/// and under every rule set.
pub proof fn law_severe_bash_denied(mode: PermissionMode, rules: Seq<RuleView>, input: ToolInputView, k: int)
    requires
        0 <= k < failures_spec(field_or_empty(input, "command"@)).len(),
        severe_rule(failures_spec(field_or_empty(input, "command"@))[k].0),
    ensures
        check_spec(mode, rules, "bash"@, input).behavior == PermissionBehavior::Deny,
{
}

/// Once the user chose "always allow" for a tool, a call of that tool that
/// neither the bash screen, a deny rule nor the mode settles is allowed.
pub proof fn law_always_allow_allows(
    mode: PermissionMode,
    rules: Seq<RuleView>,
    tool: Seq<char>,
    input: ToolInputView,
)
    requires
        bash_screen(tool, input) is None,
        first_rule(rules, PermissionBehavior::Deny, tool, input) is None,
        mode_decision(mode, tool) is None,
    ensures
        check_spec(mode, rules.push(always_allow_rule(tool)), tool, input).behavior == PermissionBehavior::Allow,
{
    let extra = always_allow_rule(tool);
    lemma_star_matches_all(field_or_empty(input, "path"@));
    assert("*"@ =~= seq!['*']) by {
        reveal_strlit("*");
    }
    assert(rule_matches(extra, tool, input));
    lemma_first_rule_push(rules, extra, PermissionBehavior::Deny, tool, input, 0);
    lemma_first_rule_push(rules, extra, PermissionBehavior::Allow, tool, input, 0);
}


/// What a `/mode` command asks for: a named mode, a name that is no mode
/// (with the error to show), or a choice to be asked of the user.
pub enum ModeCommand {
    Switch(PermissionMode),
    Unknown(String),
    Ask,
}

/// The mode named `s`, as `PermissionMode::parse` says.
pub open spec fn mode_named(s: Seq<char>) -> Option<PermissionMode> {
    if s == "default"@ {
        Some(PermissionMode::Default)
    } else if s == "plan"@ {
        Some(PermissionMode::Plan)
    } else if s == "auto"@ {
        Some(PermissionMode::Auto)
    } else {
        None
    }
}

/// Reads a `/mode` command: with exactly one argument it names the mode;
/// otherwise the user is asked to choose.
pub fn mode_command(query: &str) -> (r: ModeCommand)
    ensures
        words(query@).len() == 2 ==> match mode_named(words(query@)[1]) {
            Some(m) => r matches ModeCommand::Switch(x) && x == m,
            None => r matches ModeCommand::Unknown(e) && e@ == "unknown mode: "@ + words(query@)[1]
                + ". Usage: /mode <default|plan|auto>"@,
        },
        words(query@).len() != 2 ==> r is Ask,
{
    let parts = split_whitespace(query);
    if parts.len() == 2 {
        match PermissionMode::parse(parts[1].as_str()) {
            Some(m) => ModeCommand::Switch(m),
            None => ModeCommand::Unknown(
                concat(concat(owned("unknown mode: "), parts[1].as_str()), ". Usage: /mode <default|plan|auto>"),
            ),
        }
    } else {
        ModeCommand::Ask
    }
}

/// The line printed once the mode changed.
pub fn switched_message(mode: PermissionMode) -> (r: String)
    ensures
        r@ == "[Switched to "@ + (match mode {
            PermissionMode::Default => "default - ask by default"@,
            PermissionMode::Plan => "plan - read only"@,
            PermissionMode::Auto => "auto - allow reads, ask for writes"@,
        }) + "]"@,
{
    concat(concat(owned("[Switched to "), mode.label().as_str()), "]")
}


/// What a denied tool call answers.
pub fn denied_output(reason: &str) -> (r: String)
    ensures
        r@ == "Permission denied: "@ + reason@,
{
    concat(owned("Permission denied: "), reason)
}

/// What a tool call that the user refused answers.
pub fn user_denied_output(tool_name: &str) -> (r: String)
    ensures
        r@ == "Permission denied by user for "@ + tool_name@,
{
    concat(owned("Permission denied by user for "), tool_name)
}

/// The question put to the user about a tool call with the JSON input
/// `input_text`: the tool and at most 200 characters of the input.
pub fn permission_prompt(tool_name: &str, input_text: &str) -> (r: String)
    ensures
        r@ == "[Permission] "@ + tool_name@ + ": "@ + (if input_text@.len() <= 200 {
            input_text@
        } else {
            take_chars_spec(input_text@, 200) + "..."@
        }),
{
    concat(concat(concat(owned("[Permission] "), tool_name), ": "), truncate_for_prompt(input_text, 200).as_str())
}

/// The hint printed after a run of refusals.
pub fn denial_streak_notice(denials: usize) -> (r: String)
    ensures
        r@ == "["@ + decimal(denials as nat) + " consecutive denials -- consider switching to plan mode]"@,
{
    concat(concat(owned("["), usize_to_decimal(denials).as_str()), " consecutive denials -- consider switching to plan mode]")
}


proof fn lemma_first_rule_none(
    rules: Seq<RuleView>,
    b: PermissionBehavior,
    tool: Seq<char>,
    input: ToolInputView,
    k: int,
)
    requires
        0 <= k,
        forall|j: int| k <= j < rules.len() && rules[j].behavior == b ==> !rule_matches(rules[j], tool, input),
    ensures
        first_rule_from(rules, b, tool, input, k) is None,
    decreases rules.len() - k,
{
    if k < rules.len() {
        lemma_first_rule_none(rules, b, tool, input, k + 1);
    }
}

/// In auto mode a tool that writes is never allowed by the mode itself: unless
/// an allow rule matches the call, the user is asked (or the call is denied).
pub proof fn law_auto_mode_asks_before_writes(rules: Seq<RuleView>, tool: Seq<char>, input: ToolInputView)
    requires
        write_tool(tool),
        forall|j: int| 0 <= j < rules.len() && rules[j].behavior == PermissionBehavior::Allow ==> !rule_matches(rules[j], tool, input),
    ensures
        check_spec(PermissionMode::Auto, rules, tool, input).behavior != PermissionBehavior::Allow,
{
    reveal_strlit("read_file");
    reveal_strlit("bash_readonly");
    reveal_strlit("write_file");
    reveal_strlit("edit_file");
    reveal_strlit("bash");
    assert("edit_file"@[0] != "read_file"@[0]);
    assert(!read_only_tool(tool));
    lemma_first_rule_none(rules, PermissionBehavior::Allow, tool, input, 0);
}

/// In auto mode a tool that only reads is allowed, unless the bash screen or
/// a deny rule settles the call first.
pub proof fn law_auto_mode_allows_reads(rules: Seq<RuleView>, tool: Seq<char>, input: ToolInputView)
    requires
        tool == "read_file"@ || tool == "bash_readonly"@,
        forall|j: int| 0 <= j < rules.len() && rules[j].behavior == PermissionBehavior::Deny ==> !rule_matches(rules[j], tool, input),
    ensures
        check_spec(PermissionMode::Auto, rules, tool, input).behavior == PermissionBehavior::Allow,
{
    reveal_strlit("read_file");
    reveal_strlit("bash_readonly");
    reveal_strlit("bash");
    lemma_first_rule_none(rules, PermissionBehavior::Deny, tool, input, 0);
}


/// In plan mode a tool that does not write is allowed, unless the bash screen
/// or a deny rule settles the call first.
pub proof fn law_plan_mode_allows_reads(rules: Seq<RuleView>, tool: Seq<char>, input: ToolInputView)
    requires
        tool != "write_file"@ && tool != "edit_file"@ && tool != "bash"@,
        forall|j: int| 0 <= j < rules.len() && rules[j].behavior == PermissionBehavior::Deny ==> !rule_matches(rules[j], tool, input),
    ensures
        check_spec(PermissionMode::Plan, rules, tool, input).behavior == PermissionBehavior::Allow,
{
    lemma_first_rule_none(rules, PermissionBehavior::Deny, tool, input, 0);
}

/// In default mode the mode settles nothing: a call that no rule matches and
/// the bash screen lets through is asked about.
pub proof fn law_default_mode_asks_unmatched(rules: Seq<RuleView>, tool: Seq<char>, input: ToolInputView)
    requires
        tool != "bash"@,
        forall|j: int| 0 <= j < rules.len() ==> !rule_matches(rules[j], tool, input),
    ensures
        check_spec(PermissionMode::Default, rules, tool, input).behavior == PermissionBehavior::Ask,
{
    lemma_first_rule_none(rules, PermissionBehavior::Deny, tool, input, 0);
    lemma_first_rule_none(rules, PermissionBehavior::Allow, tool, input, 0);
}

} // verus!
