//! The tool completion registry: which command prints a tool's completions for
//! each shell.
//!
//! A registry file names a schema version, a set of patterns (command
//! templates in which `{}` stands for the tool's name) and a set of tools, each
//! of which either names a pattern or spells its commands out. Resolving the
//! file replaces every pattern reference by the pattern with the tool's name
//! filled in.

use vstd::prelude::*;

use crate::shells::{bash_name, fish_name, is_supported_shell, zsh_name};
use crate::sync::{join_path, joined_path, Error};
use crate::text::str_eq;

verus! {

/// The schema version of registry files that this library reads.
pub const CURRENT_SCHEMA_VERSION: u32 = 1;

/// The completion commands of one tool, one per shell; a shell without a
/// command gets no completions for the tool.
#[derive(Debug, Clone)]
pub struct ToolCompletions {
    pub zsh: Option<String>,
    pub bash: Option<String>,
    pub fish: Option<String>,
}

/// The text of the completion commands of one tool.
pub struct CommandTexts {
    pub zsh: Option<Seq<char>>,
    pub bash: Option<Seq<char>>,
    pub fish: Option<Seq<char>>,
}

/// The text of an optional string.
pub open spec fn text_of(s: Option<String>) -> Option<Seq<char>> {
    match s {
        Some(s) => Some(s@),
        None => None,
    }
}

impl View for ToolCompletions {
    type V = CommandTexts;

    open spec fn view(&self) -> CommandTexts {
        CommandTexts { zsh: text_of(self.zsh), bash: text_of(self.bash), fish: text_of(self.fish) }
    }
}

/// `template` with every `{}`, read from left to right, replaced by `name`.
pub open spec fn fill_placeholders(template: Seq<char>, name: Seq<char>) -> Seq<char>
    decreases template.len(),
{
    if template.len() == 0 {
        Seq::empty()
    } else if template.len() >= 2 && template[0] == '{' && template[1] == '}' {
        name + fill_placeholders(template.skip(2), name)
    } else {
        seq![template[0]] + fill_placeholders(template.skip(1), name)
    }
}

/// `s` holds a placeholder `{}`.
pub open spec fn has_placeholder(s: Seq<char>) -> bool {
    exists|i: int| 0 <= i < s.len() - 1 && #[trigger] s[i] == '{' && s[i + 1] == '}'
}

/// `s` holds no brace.
pub open spec fn has_no_brace(s: Seq<char>) -> bool {
    forall|i: int| 0 <= i < s.len() ==> #[trigger] s[i] != '{' && s[i] != '}'
}

/// Two texts without placeholders make one without placeholder when the
/// seam does not form one.
proof fn lemma_concat_without_placeholder(a: Seq<char>, b: Seq<char>)
    requires
        !has_placeholder(a),
        !has_placeholder(b),
        a.len() == 0 || b.len() == 0 || a.last() != '{' || b[0] != '}',
    ensures
        !has_placeholder(a + b),
{
    let c = a + b;
    assert forall|i: int| 0 <= i < c.len() - 1 && #[trigger] c[i] == '{' implies c[i + 1] != '}' by {
        if i + 1 < a.len() {
            assert(c[i] == a[i] && c[i + 1] == a[i + 1]);
        } else if i >= a.len() {
            assert(c[i] == b[i - a.len()] && c[i + 1] == b[i + 1 - a.len()]);
        } else {
            assert(c[i] == a.last() && c[i + 1] == b[0]);
        }
    }
}

/// A template without placeholder is left as it is.
pub proof fn lemma_fill_without_placeholder(template: Seq<char>, name: Seq<char>)
    requires
        !has_placeholder(template),
    ensures
        fill_placeholders(template, name) == template,
    decreases template.len(),
{
    if template.len() > 0 {
        let rest = template.skip(1);
        assert(!has_placeholder(rest)) by {
            assert forall|i: int| 0 <= i < rest.len() - 1 && #[trigger] rest[i] == '{' implies rest[i + 1]
                != '}' by {
                assert(template[i + 1] == rest[i] && template[i + 2] == rest[i + 1]);
            }
        }
        lemma_fill_without_placeholder(rest, name);
        assert(template =~= seq![template[0]] + rest);
    }
}

/// Filling every placeholder with a nonempty name that holds no brace leaves
/// no placeholder behind, and the filled text starts as the name does when
/// the template starts with a placeholder, and as the template does otherwise.
pub proof fn lemma_fill_leaves_no_placeholder(template: Seq<char>, name: Seq<char>)
    requires
        name.len() > 0,
        has_no_brace(name),
    ensures
        !has_placeholder(fill_placeholders(template, name)),
        fill_placeholders(template, name).len() == 0 <==> template.len() == 0,
        template.len() >= 2 && template[0] == '{' && template[1] == '}' ==> fill_placeholders(
            template,
            name,
        )[0] == name[0],
        template.len() > 0 && !(template.len() >= 2 && template[0] == '{' && template[1] == '}')
            ==> fill_placeholders(template, name)[0] == template[0],
    decreases template.len(),
{
    assert(!has_placeholder(name)) by {
        assert forall|i: int| 0 <= i < name.len() - 1 && #[trigger] name[i] == '{' implies name[i + 1]
            != '}' by {}
    }
    if template.len() == 0 {
        assert(!has_placeholder(Seq::<char>::empty()));
    } else if template.len() >= 2 && template[0] == '{' && template[1] == '}' {
        let rest = template.skip(2);
        lemma_fill_leaves_no_placeholder(rest, name);
        assert(name.last() != '{');
        lemma_concat_without_placeholder(name, fill_placeholders(rest, name));
    } else {
        let rest = template.skip(1);
        lemma_fill_leaves_no_placeholder(rest, name);
        let head = seq![template[0]];
        assert(!has_placeholder(head));
        let tail = fill_placeholders(rest, name);
        if template[0] == '{' && tail.len() > 0 {
            if rest.len() >= 2 && rest[0] == '{' && rest[1] == '}' {
                assert(tail[0] == name[0]);
            } else {
                assert(tail[0] == rest[0]);
                assert(rest[0] == template[1]);
            }
        }
        lemma_concat_without_placeholder(head, tail);
    }
}

/// An optional template with its placeholders filled.
pub open spec fn fill_optional(template: Option<Seq<char>>, name: Seq<char>) -> Option<Seq<char>> {
    match template {
        Some(t) => Some(fill_placeholders(t, name)),
        None => None,
    }
}

impl CommandTexts {
    /// The command for `shell`, if `shell` is supported and has one.
    pub open spec fn command_for(self, shell: Seq<char>) -> Option<Seq<char>> {
        if shell == zsh_name() {
            self.zsh
        } else if shell == bash_name() {
            self.bash
        } else if shell == fish_name() {
            self.fish
        } else {
            None
        }
    }

    /// These commands as templates, with `name` filled in.
    pub open spec fn filled(self, name: Seq<char>) -> CommandTexts {
        CommandTexts {
            zsh: fill_optional(self.zsh, name),
            bash: fill_optional(self.bash, name),
            fish: fill_optional(self.fish, name),
        }
    }
}

/// `template` with every `{}` replaced by `name`.
pub fn fill_template(template: &str, name: &str) -> (r: String)
    ensures
        r@ == fill_placeholders(template@, name@),
{
    let n = template.unicode_len();
    let mut out = String::new();
    let mut seg: usize = 0;
    let mut i: usize = 0;
    proof {
        assert(template@.skip(0) =~= template@);
        assert(template@.subrange(0, 0) =~= Seq::<char>::empty());
    }
    while i < n
        invariant
            n == template@.len(),
            seg <= i <= n,
            fill_placeholders(template@, name@) == out@ + template@.subrange(seg as int, i as int)
                + fill_placeholders(template@.skip(i as int), name@),
        decreases n - i,
    {
        let ghost rest = template@.skip(i as int);
        if i + 1 < n && template.get_char(i) == '{' && template.get_char(i + 1) == '}' {
            let piece = template.substring_char(seg, i);
            out.append(piece);
            out.append(name);
            proof {
                assert(rest[0] == '{' && rest[1] == '}');
                assert(rest.skip(2) =~= template@.skip(i + 2));
                assert(template@.subrange((i + 2) as int, (i + 2) as int) =~= Seq::<char>::empty());
            }
            i = i + 2;
            seg = i;
        } else {
            proof {
                assert(rest[0] == template@[i as int]);
                assert(rest.skip(1) =~= template@.skip(i + 1));
                assert(template@.subrange(seg as int, i as int) + seq![template@[i as int]]
                    =~= template@.subrange(seg as int, i + 1));
            }
            i = i + 1;
        }
    }
    let piece = template.substring_char(seg, n);
    out.append(piece);
    proof {
        assert(template@.skip(n as int) =~= Seq::<char>::empty());
    }
    out
}

/// Copy of an optional string.
fn copy_text(s: &Option<String>) -> (r: Option<String>)
    ensures
        text_of(r) == text_of(*s),
{
    match s {
        Some(s) => Some(s.clone()),
        None => None,
    }
}

/// An optional template with `name` filled in.
fn fill_optional_template(template: &Option<String>, name: &str) -> (r: Option<String>)
    ensures
        text_of(r) == fill_optional(text_of(*template), name@),
{
    match template {
        Some(t) => Some(fill_template(t.as_str(), name)),
        None => None,
    }
}

impl ToolCompletions {
    /// The command that prints the completions for `shell`, if `shell` is
    /// `zsh`, `bash` or `fish` and the tool has a command for it.
    pub fn get(&self, shell: &str) -> (r: Option<&String>)
        ensures
            match r {
                Some(c) => self@.command_for(shell@) == Some(c@),
                None => self@.command_for(shell@) is None,
            },
    {
        proof {
            reveal_strlit("zsh");
            reveal_strlit("bash");
            reveal_strlit("fish");
            assert("zsh"@ =~= zsh_name());
            assert("bash"@ =~= bash_name());
            assert("fish"@ =~= fish_name());
        }
        if str_eq(shell, "zsh") {
            self.zsh.as_ref()
        } else if str_eq(shell, "bash") {
            self.bash.as_ref()
        } else if str_eq(shell, "fish") {
            self.fish.as_ref()
        } else {
            None
        }
    }

    /// These commands as templates, with every `{}` replaced by `tool_name`.
    pub fn expand(&self, tool_name: &str) -> (r: Self)
        ensures
            r@ == self@.filled(tool_name@),
    {
        ToolCompletions {
            zsh: fill_optional_template(&self.zsh, tool_name),
            bash: fill_optional_template(&self.bash, tool_name),
            fish: fill_optional_template(&self.fish, tool_name),
        }
    }

    /// A copy of these commands.
    fn copied(&self) -> (r: Self)
        ensures
            r@ == self@,
    {
        ToolCompletions {
            zsh: copy_text(&self.zsh),
            bash: copy_text(&self.bash),
            fish: copy_text(&self.fish),
        }
    }
}

/// How a registry file lists one tool: by the name of a pattern, or with its
/// commands spelled out.
#[derive(Debug)]
pub enum ToolEntry {
    Pattern(String),
    Explicit(ToolCompletions),
}

/// The text of a tool entry.
pub enum EntryTexts {
    Pattern(Seq<char>),
    Explicit(CommandTexts),
}

impl View for ToolEntry {
    type V = EntryTexts;

    open spec fn view(&self) -> EntryTexts {
        match self {
            ToolEntry::Pattern(p) => EntryTexts::Pattern(p@),
            ToolEntry::Explicit(c) => EntryTexts::Explicit(c@),
        }
    }
}

/// A registry file as it was read, before patterns are resolved.
#[derive(Debug)]
pub struct RawRegistry {
    pub schema_version: Option<u32>,
    pub patterns: Vec<(String, ToolCompletions)>,
    pub tools: Vec<(String, ToolEntry)>,
}

/// The registry with every pattern reference resolved: the completion
/// commands of each tool, by tool name.
#[derive(Debug)]
pub struct Registry {
    pub tools: Vec<(String, ToolCompletions)>,
}

/// The commands named in `pairs`, by name; where a name occurs more than once,
/// its last occurrence counts.
pub open spec fn named_commands(pairs: Seq<(String, ToolCompletions)>) -> Map<Seq<char>, CommandTexts>
    decreases pairs.len(),
{
    if pairs.len() == 0 {
        Map::empty()
    } else {
        named_commands(pairs.drop_last()).insert(pairs.last().0@, pairs.last().1@)
    }
}

/// No name occurs twice in `pairs`.
pub open spec fn names_distinct(pairs: Seq<(String, ToolCompletions)>) -> bool {
    forall|i: int, j: int| 0 <= i < j < pairs.len() ==> pairs[i].0@ != pairs[j].0@
}

/// What a tool entry resolves to, given the patterns of its registry file:
/// a pattern reference resolves to the pattern with the tool's name filled in,
/// spelled-out commands to themselves, and a reference to an undefined pattern
/// to nothing.
pub open spec fn resolve_entry(
    patterns: Map<Seq<char>, CommandTexts>,
    tool: Seq<char>,
    entry: EntryTexts,
) -> Option<CommandTexts> {
    match entry {
        EntryTexts::Pattern(p) => if patterns.contains_key(p) {
            Some(patterns[p].filled(tool))
        } else {
            None
        },
        EntryTexts::Explicit(c) => Some(c),
    }
}

impl RawRegistry {
    /// The patterns of the file, by name.
    pub open spec fn pattern_texts(&self) -> Map<Seq<char>, CommandTexts> {
        named_commands(self.patterns@)
    }

    /// The tool listed at `i` resolves.
    pub open spec fn tool_resolves(&self, i: int) -> bool {
        resolve_entry(self.pattern_texts(), self.tools@[i].0@, self.tools@[i].1@) is Some
    }

    /// Every tool listed resolves.
    pub open spec fn all_tools_resolve(&self) -> bool {
        forall|i: int| 0 <= i < self.tools@.len() ==> #[trigger] self.tool_resolves(i)
    }

    /// The tool listed at `i` is the first one that names an undefined pattern.
    pub open spec fn is_first_unknown_pattern(&self, i: int) -> bool {
        &&& 0 <= i < self.tools@.len()
        &&& !self.tool_resolves(i)
        &&& forall|j: int| 0 <= j < i ==> #[trigger] self.tool_resolves(j)
    }

    /// The resolved commands of the first `n` tools listed, by tool name.
    pub open spec fn resolved_prefix(&self, n: int) -> Map<Seq<char>, CommandTexts>
        decreases n,
    {
        if n <= 0 {
            Map::empty()
        } else {
            self.resolved_prefix(n - 1).insert(
                self.tools@[n - 1].0@,
                resolve_entry(self.pattern_texts(), self.tools@[n - 1].0@, self.tools@[n - 1].1@)->0,
            )
        }
    }

    /// The resolved commands of all tools listed, by tool name.
    pub open spec fn resolved_tools(&self) -> Map<Seq<char>, CommandTexts> {
        self.resolved_prefix(self.tools@.len() as int)
    }
}

impl View for Registry {
    type V = Map<Seq<char>, CommandTexts>;

    open spec fn view(&self) -> Map<Seq<char>, CommandTexts> {
        named_commands(self.tools@)
    }
}

impl Registry {
    /// Each tool occurs once.
    pub open spec fn wf(&self) -> bool {
        names_distinct(self.tools@)
    }

    /// The completion commands of the tool `name`, if the registry has it.
    pub fn get(&self, name: &str) -> (r: Option<&ToolCompletions>)
        ensures
            match r {
                Some(c) => self@.contains_key(name@) && self@[name@] == c@,
                None => !self@.contains_key(name@),
            },
    {
        match last_position(&self.tools, name) {
            Some(i) => Some(&self.tools[i].1),
            None => None,
        }
    }

    /// Whether the registry has the tool `name`.
    pub fn contains_key(&self, name: &str) -> (r: bool)
        ensures
            r == self@.contains_key(name@),
    {
        last_position(&self.tools, name).is_some()
    }
}

/// The last position of `name` in `pairs`.
fn last_position(pairs: &Vec<(String, ToolCompletions)>, name: &str) -> (r: Option<usize>)
    ensures
        match r {
            Some(i) => {
                &&& i < pairs@.len()
                &&& pairs@[i as int].0@ == name@
                &&& forall|j: int| i < j < pairs@.len() ==> #[trigger] pairs@[j].0@ != name@
                &&& named_commands(pairs@).contains_key(name@)
                &&& named_commands(pairs@)[name@] == pairs@[i as int].1@
            },
            None => {
                &&& forall|j: int| 0 <= j < pairs@.len() ==> #[trigger] pairs@[j].0@ != name@
                &&& !named_commands(pairs@).contains_key(name@)
            },
        },
{
    let mut j: usize = pairs.len();
    proof {
        assert(pairs@.take(j as int) =~= pairs@);
    }
    while j > 0
        invariant
            j <= pairs@.len(),
            forall|k: int| j <= k < pairs@.len() ==> #[trigger] pairs@[k].0@ != name@,
            named_commands(pairs@).contains_key(name@) == named_commands(
                pairs@.take(j as int),
            ).contains_key(name@),
            named_commands(pairs@).contains_key(name@) ==> named_commands(pairs@)[name@]
                == named_commands(pairs@.take(j as int))[name@],
        decreases j,
    {
        proof {
            assert(pairs@.take(j as int).drop_last() =~= pairs@.take(j - 1));
        }
        if str_eq(pairs[j - 1].0.as_str(), name) {
            return Some(j - 1);
        }
        j = j - 1;
    }
    None
}

/// Replacing the last occurrence of a name updates the named commands.
proof fn lemma_named_commands_update(
    pairs: Seq<(String, ToolCompletions)>,
    i: int,
    p: (String, ToolCompletions),
)
    requires
        0 <= i < pairs.len(),
        pairs[i].0@ == p.0@,
        forall|j: int| i < j < pairs.len() ==> #[trigger] pairs[j].0@ != p.0@,
    ensures
        named_commands(pairs.update(i, p)) == named_commands(pairs).insert(p.0@, p.1@),
    decreases pairs.len(),
{
    let u = pairs.update(i, p);
    if i == pairs.len() - 1 {
        assert(u.drop_last() =~= pairs.drop_last());
        assert(named_commands(u) =~= named_commands(pairs).insert(p.0@, p.1@));
    } else {
        assert(u.drop_last() =~= pairs.drop_last().update(i, p));
        lemma_named_commands_update(pairs.drop_last(), i, p);
        assert(pairs.last().0@ != p.0@);
        assert(named_commands(u) =~= named_commands(pairs).insert(p.0@, p.1@));
    }
}

/// Adds or replaces the commands of `name`.
fn insert_named(pairs: &mut Vec<(String, ToolCompletions)>, name: String, c: ToolCompletions)
    ensures
        named_commands(final(pairs)@) == named_commands(old(pairs)@).insert(name@, c@),
        names_distinct(old(pairs)@) ==> names_distinct(final(pairs)@),
{
    match last_position(pairs, name.as_str()) {
        Some(i) => {
            proof {
                lemma_named_commands_update(pairs@, i as int, (name, c));
            }
            pairs.set(i, (name, c));
        },
        None => {
            pairs.push((name, c));
            proof {
                assert(pairs@.drop_last() =~= old(pairs)@);
            }
        },
    }
}

/// Resolves a registry file: checks its schema version, then replaces every
/// pattern reference by the pattern with the tool's name filled in.
///
/// A file without a schema version, or with another one than
/// `CURRENT_SCHEMA_VERSION`, is refused; so is one in which a tool names a
/// pattern that the file does not define (the first such tool is reported).
pub fn resolve_registry(raw: &RawRegistry) -> (r: Result<Registry, Error>)
    ensures
        raw.schema_version is None ==> r matches Err(Error::MissingSchemaVersion),
        raw.schema_version is Some && raw.schema_version->0 != CURRENT_SCHEMA_VERSION ==> r == Err::<
            Registry,
            Error,
        >(Error::IncompatibleSchema { found: raw.schema_version->0, expected: CURRENT_SCHEMA_VERSION }),
        raw.schema_version == Some(CURRENT_SCHEMA_VERSION) ==> (r is Ok <==> raw.all_tools_resolve()),
        raw.schema_version == Some(CURRENT_SCHEMA_VERSION) && !raw.all_tools_resolve() ==> r matches Err(
            Error::UnknownPattern(_, _),
        ),
        r matches Err(Error::UnknownPattern(tool, pattern)) ==> exists|i: int|
            #[trigger] raw.is_first_unknown_pattern(i) && raw.tools@[i].0@ == tool@
                && raw.tools@[i].1@ == EntryTexts::Pattern(pattern@),
        r matches Ok(reg) ==> reg@ == raw.resolved_tools() && reg.wf(),
{
    match raw.schema_version {
        None => {
            return Err(Error::MissingSchemaVersion);
        },
        Some(v) => {
            if v != CURRENT_SCHEMA_VERSION {
                return Err(Error::IncompatibleSchema { found: v, expected: CURRENT_SCHEMA_VERSION });
            }
        },
    }
    let mut tools: Vec<(String, ToolCompletions)> = Vec::new();
    let n = raw.tools.len();
    proof {
        assert(named_commands(tools@) =~= raw.resolved_prefix(0));
    }
    for i in 0..n
        invariant
            n == raw.tools@.len(),
            raw.schema_version == Some(CURRENT_SCHEMA_VERSION),
            forall|j: int| 0 <= j < i ==> #[trigger] raw.tool_resolves(j),
            named_commands(tools@) == raw.resolved_prefix(i as int),
            names_distinct(tools@),
    {
        let entry = &raw.tools[i];
        let completions = match &entry.1 {
            ToolEntry::Pattern(p) => match last_position(&raw.patterns, p.as_str()) {
                Some(k) => raw.patterns[k].1.expand(entry.0.as_str()),
                None => {
                    proof {
                        assert(raw.is_first_unknown_pattern(i as int));
                    }
                    return Err(Error::UnknownPattern(entry.0.clone(), p.clone()));
                },
            },
            ToolEntry::Explicit(c) => c.copied(),
        };
        insert_named(&mut tools, entry.0.clone(), completions);
        proof {
            assert(raw.tool_resolves(i as int));
        }
    }
    Ok(Registry { tools })
}
/// The registry files to look for, in order: `registry.toml` beside the
/// executable, then `mise-completions-sync/registry.toml` in the user's data
/// directory; a directory that is unknown contributes no file.
pub open spec fn registry_candidates(exe_dir: Option<Seq<char>>, data_dir: Option<Seq<char>>) -> Seq<Seq<char>> {
    let beside = match exe_dir {
        Some(e) => seq![joined_path(e, "registry.toml"@)],
        None => Seq::empty(),
    };
    let user = match data_dir {
        Some(d) => seq![joined_path(joined_path(d, "mise-completions-sync"@), "registry.toml"@)],
        None => Seq::empty(),
    };
    beside + user
}

/// The registry files to look for, in the order in which the first one that
/// exists is read; when none exists, the registry built into the program is
/// used.
pub fn registry_file_candidates(exe_dir: Option<&str>, data_dir: Option<&str>) -> (r: Vec<String>)
    ensures
        r@.map_values(|s: String| s@) == registry_candidates(
            match exe_dir {
                Some(e) => Some(e@),
                None => None,
            },
            match data_dir {
                Some(d) => Some(d@),
                None => None,
            },
        ),
{
    let mut r: Vec<String> = Vec::new();
    if let Some(e) = exe_dir {
        r.push(join_path(e, "registry.toml"));
    }
    if let Some(d) = data_dir {
        let dir = join_path(d, "mise-completions-sync");
        r.push(join_path(dir.as_str(), "registry.toml"));
    }
    proof {
        let ev = match exe_dir {
            Some(e) => Some(e@),
            None => None,
        };
        let dv = match data_dir {
            Some(d) => Some(d@),
            None => None,
        };
        assert(r@.map_values(|s: String| s@) =~= registry_candidates(ev, dv));
    }
    r
}

/// A tool has a completion command only for a supported shell: whatever its
/// commands, the command for a shell other than `zsh`, `bash` and `fish` is
/// absent.
pub proof fn lemma_commands_only_for_supported_shells(c: CommandTexts, shell: Seq<char>)
    ensures
        c.command_for(shell) is Some ==> is_supported_shell(shell),
{
}

/// The names that the first `n` tools of a registry file resolve to are
/// exactly their listed names, and a name's commands are those its last
/// listing resolves to.
proof fn lemma_resolved_prefix_names(raw: &RawRegistry, n: int, name: Seq<char>)
    requires
        0 <= n <= raw.tools@.len(),
    ensures
        raw.resolved_prefix(n).contains_key(name) <==> exists|i: int|
            0 <= i < n && #[trigger] raw.tools@[i].0@ == name,
        forall|i: int|
            0 <= i < n && #[trigger] raw.tools@[i].0@ == name && (forall|j: int|
                i < j < n ==> raw.tools@[j].0@ != name) ==> raw.resolved_prefix(n)[name]
                == resolve_entry(raw.pattern_texts(), name, raw.tools@[i].1@)->0,
    decreases n,
{
    if n > 0 {
        lemma_resolved_prefix_names(raw, n - 1, name);
        if raw.tools@[n - 1].0@ != name {
            assert forall|i: int| 0 <= i < n && #[trigger] raw.tools@[i].0@ == name implies i < n - 1 by {}
        }
    }
}

/// Every tool listed in a registry file is in the resolved registry, and
/// nothing else is: when every tool resolves, the resolved registry has
/// exactly the listed tool names, and each name has the commands that its
/// (last) listing resolves to — the pattern with the tool's name filled in,
/// or the commands spelled out.
pub proof fn lemma_resolved_registry_covers_listed_tools(raw: &RawRegistry, name: Seq<char>)
    requires
        raw.all_tools_resolve(),
    ensures
        raw.resolved_tools().contains_key(name) <==> exists|i: int|
            0 <= i < raw.tools@.len() && #[trigger] raw.tools@[i].0@ == name,
        forall|i: int|
            0 <= i < raw.tools@.len() && #[trigger] raw.tools@[i].0@ == name && (forall|j: int|
                i < j < raw.tools@.len() ==> raw.tools@[j].0@ != name) ==> resolve_entry(
                raw.pattern_texts(),
                name,
                raw.tools@[i].1@,
            ) == Some(raw.resolved_tools()[name]),
{
    lemma_resolved_prefix_names(raw, raw.tools@.len() as int, name);
    assert forall|i: int|
        0 <= i < raw.tools@.len() && #[trigger] raw.tools@[i].0@ == name && (forall|j: int|
            i < j < raw.tools@.len() ==> raw.tools@[j].0@ != name) implies resolve_entry(
        raw.pattern_texts(),
        name,
        raw.tools@[i].1@,
    ) == Some(raw.resolved_tools()[name]) by {
        assert(raw.tool_resolves(i));
    }
}

/// Each shell gets its own command and no other: the command of a tool for
/// `zsh` is its `zsh` field, for `bash` its `bash` field, for `fish` its `fish`
/// field, and any other shell has none.
pub proof fn lemma_each_shell_gets_its_own_command(c: ToolCompletions, shell: Seq<char>)
    ensures
        c@.command_for(seq!['z', 's', 'h']) == match c.zsh {
            Some(t) => Some(t@),
            None => None::<Seq<char>>,
        },
        c@.command_for(seq!['b', 'a', 's', 'h']) == match c.bash {
            Some(t) => Some(t@),
            None => None::<Seq<char>>,
        },
        c@.command_for(seq!['f', 'i', 's', 'h']) == match c.fish {
            Some(t) => Some(t@),
            None => None::<Seq<char>>,
        },
        shell != seq!['z', 's', 'h'] && shell != seq!['b', 'a', 's', 'h'] && shell != seq![
            'f',
            'i',
            's',
            'h',
        ] ==> c@.command_for(shell) is None,
{
    assert(zsh_name() =~= seq!['z', 's', 'h']);
    assert(bash_name() =~= seq!['b', 'a', 's', 'h']);
    assert(fish_name() =~= seq!['f', 'i', 's', 'h']);
}

/// Filling replaces placeholders from the left: a template made of a text `a`
/// without placeholder (and not ending in `{`), a placeholder, and a rest `b`
/// is filled as `a`, then the name, then `b` filled.
pub proof fn lemma_fill_replaces_the_first_placeholder(a: Seq<char>, b: Seq<char>, name: Seq<char>)
    requires
        forall|i: int| 0 <= i < a.len() - 1 ==> !(#[trigger] a[i] == '{' && a[i + 1] == '}'),
        a.len() == 0 || a[a.len() - 1] != '{',
    ensures
        fill_placeholders(a + seq!['{', '}'] + b, name) == a + name + fill_placeholders(b, name),
    decreases a.len(),
{
    let t = a + seq!['{', '}'] + b;
    if a.len() == 0 {
        assert(t.skip(2) =~= b);
        assert(a + name =~= name);
    } else {
        let a1 = a.skip(1);
        assert forall|i: int| 0 <= i < a1.len() - 1 implies !(#[trigger] a1[i] == '{' && a1[i + 1]
            == '}') by {
            assert(a1[i] == a[i + 1] && a1[i + 1] == a[i + 2]);
        }
        if a.len() >= 2 {
            assert(!(a[0] == '{' && a[1] == '}'));
            assert(t[1] == a[1]);
        } else {
            assert(t[1] == '{');
        }
        lemma_fill_replaces_the_first_placeholder(a1, b, name);
        assert(t.skip(1) =~= a1 + seq!['{', '}'] + b);
        assert(seq![a[0]] + (a1 + name + fill_placeholders(b, name)) =~= a + name + fill_placeholders(
            b,
            name,
        ));
    }
}

/// Expanding a tool's commands fills each shell's own command with the name,
/// and leaves an absent command absent.
pub proof fn lemma_expansion_fills_each_shell_command(c: ToolCompletions, name: Seq<char>)
    ensures
        c@.filled(name).zsh == match c.zsh {
            Some(t) => Some(fill_placeholders(t@, name)),
            None => None::<Seq<char>>,
        },
        c@.filled(name).bash == match c.bash {
            Some(t) => Some(fill_placeholders(t@, name)),
            None => None::<Seq<char>>,
        },
        c@.filled(name).fish == match c.fish {
            Some(t) => Some(fill_placeholders(t@, name)),
            None => None::<Seq<char>>,
        },
{
}

/// A tool entry resolves as the registry format says: a reference to a
/// defined pattern gives that pattern with every placeholder filled with the
/// tool's name (not the pattern's), a reference to an undefined pattern gives
/// nothing, and spelled-out commands are taken as they are.
pub proof fn lemma_entries_resolve_to_filled_patterns_or_themselves(
    patterns: Map<Seq<char>, CommandTexts>,
    tool: Seq<char>,
    pattern: Seq<char>,
    commands: CommandTexts,
)
    ensures
        patterns.contains_key(pattern) ==> resolve_entry(patterns, tool, EntryTexts::Pattern(pattern))
            == Some(
            CommandTexts {
                zsh: fill_optional(patterns[pattern].zsh, tool),
                bash: fill_optional(patterns[pattern].bash, tool),
                fish: fill_optional(patterns[pattern].fish, tool),
            },
        ),
        !patterns.contains_key(pattern) ==> resolve_entry(patterns, tool, EntryTexts::Pattern(pattern))
            is None,
        resolve_entry(patterns, tool, EntryTexts::Explicit(commands)) == Some(commands),
{
}

/// The schema version this library reads is 1.
pub proof fn lemma_current_schema_version_is_one()
    ensures
        CURRENT_SCHEMA_VERSION == 1,
{
}

} // verus!
