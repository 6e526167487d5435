//! The errors of a sync, and the decisions a sync makes: where completions of a
//! shell go, which tools mise reports as installed, which tools and commands a
//! sync covers, and which completion files are stale.

use vstd::prelude::*;

use crate::registry::{CommandTexts, Registry};
use crate::shells::{completion_file_name, completion_filename, is_supported_shell, supported_shell, tool_of_file_name, tool_from_filename};
use crate::text::str_eq;
use crate::tool_id::{extract_tool_name, tool_name_of};

verus! {

/// What can go wrong while loading the registry or syncing completions.
#[derive(Debug)]
pub enum Error {
    /// The registry file at the path could not be read.
    RegistryRead(std::path::PathBuf, std::io::Error),
    /// The registry at the path is not valid TOML of the registry's shape.
    RegistryParse(std::path::PathBuf, toml::de::Error),
    /// mise could not list the installed tools; the message says why.
    MiseList(String),
    /// The completions directory could not be created or read.
    CreateDir(std::path::PathBuf, std::io::Error),
    /// A completion file could not be written.
    WriteFile(std::path::PathBuf, std::io::Error),
    /// The completion command of a tool failed; tool name and message.
    Generate(String, String),
    /// The shell is none of `zsh`, `bash` and `fish`.
    UnsupportedShell(String),
    /// A tool names a pattern that the registry does not define;
    /// tool name and pattern name.
    UnknownPattern(String, String),
    /// The registry's schema version is not the one this library reads.
    IncompatibleSchema { found: u32, expected: u32 },
    /// The registry does not say which schema version it follows.
    MissingSchemaVersion,
}

/// The path `base` with `part` appended as a further component, in Unix form
/// (as std's `Path::join` makes it on Unix): an absolute `part` (one that
/// starts with `/`) replaces `base`; otherwise `part` follows `base`, with a
/// `/` between them unless `base` is empty or already ends in `/`.
pub open spec fn joined_path(base: Seq<char>, part: Seq<char>) -> Seq<char> {
    if part.len() > 0 && part[0] == '/' {
        part
    } else if base.len() == 0 || base.last() == '/' {
        base + part
    } else {
        base + seq!['/'] + part
    }
}

/// The path `base` joined with `part` (see `joined_path`).
pub fn join_path(base: &str, part: &str) -> (r: String)
    ensures
        r@ == joined_path(base@, part@),
{
    proof {
        reveal_strlit("/");
        assert("/"@ =~= seq!['/']);
    }
    let part_len = part.unicode_len();
    if part_len > 0 && part.get_char(0) == '/' {
        return part.to_owned();
    }
    let base_len = base.unicode_len();
    let mut r = base.to_owned();
    if base_len > 0 && base.get_char(base_len - 1) != '/' {
        r.append("/");
    }
    r.append(part);
    r
}

/// The directory under which completions of every shell go: `mise-completions`
/// in `$XDG_DATA_HOME` if it is set, else in `~/.local/share` (relative to the
/// current directory when the home directory is unknown).
pub open spec fn completions_base_dir(xdg_data_home: Option<Seq<char>>, home: Option<Seq<char>>) -> Seq<char> {
    let data = match xdg_data_home {
        Some(x) => x,
        None => joined_path(
            joined_path(
                match home {
                    Some(h) => h,
                    None => Seq::empty(),
                },
                ".local"@,
            ),
            "share"@,
        ),
    };
    joined_path(data, "mise-completions"@)
}

/// The base directory for completions, given the value of `XDG_DATA_HOME`
/// (if it is set and valid text) and the user's home directory (if known).
pub fn get_completions_base_dir(xdg_data_home: Option<&str>, home: Option<&str>) -> (r: String)
    ensures
        r@ == completions_base_dir(
            match xdg_data_home {
                Some(x) => Some(x@),
                None => None,
            },
            match home {
                Some(h) => Some(h@),
                None => None,
            },
        ),
{
    let data = match xdg_data_home {
        Some(x) => x.to_owned(),
        None => {
            let home_dir = match home {
                Some(h) => h.to_owned(),
                None => String::new(),
            };
            let local = join_path(home_dir.as_str(), ".local");
            join_path(local.as_str(), "share")
        },
    };
    join_path(data.as_str(), "mise-completions")
}

/// The directory for `shell`'s completions under the base directory `base`;
/// refused for shells other than `zsh`, `bash` and `fish`.
pub fn get_completions_dir(base: &str, shell: &str) -> (r: Result<String, Error>)
    ensures
        is_supported_shell(shell@) ==> (r matches Ok(dir) && dir@ == joined_path(base@, shell@)),
        !is_supported_shell(shell@) ==> (r matches Err(Error::UnsupportedShell(s)) && s@ == shell@),
{
    if supported_shell(shell) {
        Ok(join_path(base, shell))
    } else {
        Err(Error::UnsupportedShell(shell.to_owned()))
    }
}

/// The text that std's `String::from_utf8_lossy` makes of `bytes`.
pub uninterp spec fn lossy_text(bytes: Seq<u8>) -> Seq<char>;

/// std's `String::from_utf8_lossy`: `bytes` decoded as UTF-8, with each
/// invalid sequence replaced by U+FFFD. The contract names the result
/// (`lossy_text`), and states, as std documents, that valid UTF-8 is decoded
/// as it stands; how invalid sequences are replaced is left unsaid.
#[verifier::external_body]
fn text_from_bytes(bytes: &[u8]) -> (r: String)
    ensures
        r@ == lossy_text(bytes@),
        vstd::utf8::valid_utf8(bytes@) ==> r@ == vstd::utf8::decode_utf8(bytes@),
{
    String::from_utf8_lossy(bytes).into_owned()
}

/// What serde_json makes of the JSON document `text`, reduced to what the
/// library reads of it: `Err` with the message that serde_json's error prints
/// (what went wrong, with line and column) if it is not valid JSON, `Ok(None)`
/// if it is valid but its top level is no object, and `Ok(Some(keys))` with the
/// keys of the top-level object otherwise.
pub uninterp spec fn json_object_keys(text: Seq<char>) -> Result<Option<Seq<Seq<char>>>, Seq<char>>;

/// The texts of a sequence of strings.
pub open spec fn texts(v: Seq<String>) -> Seq<Seq<char>> {
    v.map_values(|s: String| s@)
}

/// serde_json's `from_str` into a `serde_json::Value`, followed by taking the
/// keys of the value if it is an object, or the message (`Display`) of the
/// parse error. The contract ties the result, message included, to the name
/// `json_object_keys` of the text.
#[verifier::external_body]
fn parse_object_keys(text: &str) -> (r: Result<Option<Vec<String>>, String>)
    ensures
        match r {
            Ok(Some(keys)) => json_object_keys(text@) == Ok::<_, Seq<char>>(Some(texts(keys@))),
            Ok(None) => json_object_keys(text@) == Ok::<_, Seq<char>>(None::<Seq<Seq<char>>>),
            Err(m) => json_object_keys(text@) == Err::<Option<Seq<Seq<char>>>, _>(m@),
        },
{
    match serde_json::from_str::<serde_json::Value>(text) {
        Ok(serde_json::Value::Object(map)) => Ok(Some(map.into_iter().map(|(k, _)| k).collect())),
        Ok(_) => Ok(None),
        Err(e) => Err(e.to_string()),
    }
}

/// The identifiers of the installed tools, from the outcome of
/// `mise ls --installed --json`: whether it succeeded, and what it wrote to
/// stdout and stderr. A failed run is reported with its stderr, and output
/// that is not JSON with serde_json's message; a JSON document whose top level is no
/// object lists no tools.
pub fn installed_tool_ids(succeeded: bool, stdout: &[u8], stderr: &[u8]) -> (r: Result<Vec<String>, Error>)
    ensures
        !succeeded ==> (r matches Err(Error::MiseList(m)) && m@ == lossy_text(stderr@)),
        succeeded ==> match json_object_keys(lossy_text(stdout@)) {
            Err(message) => r matches Err(Error::MiseList(m)) && m@ == message,
            Ok(None) => r matches Ok(ids) && ids@.len() == 0,
            Ok(Some(keys)) => r matches Ok(ids) && texts(ids@) == keys,
        },
{
    if !succeeded {
        return Err(Error::MiseList(text_from_bytes(stderr)));
    }
    let text = text_from_bytes(stdout);
    match parse_object_keys(text.as_str()) {
        Ok(Some(keys)) => Ok(keys),
        Ok(None) => Ok(Vec::new()),
        Err(message) => Err(Error::MiseList(message)),
    }
}

/// The texts of a sequence of name pairs.
pub open spec fn pair_texts(v: Seq<(String, String)>) -> Seq<(Seq<char>, Seq<char>)> {
    v.map_values(|p: (String, String)| (p.0@, p.1@))
}

/// Some pair of `pairs` has the first component `key`.
pub open spec fn has_key(pairs: Seq<(Seq<char>, Seq<char>)>, key: Seq<char>) -> bool {
    exists|k: int| 0 <= k < pairs.len() && #[trigger] pairs[k].0 == key
}

/// The installed tools by short name, from the first `n` identifiers: each
/// identifier whose short name resolves to a binary (`found`) is kept under
/// that short name, unless an earlier identifier already has it.
pub open spec fn installed_entries(ids: Seq<Seq<char>>, found: Seq<bool>, n: int) -> Seq<(Seq<char>, Seq<char>)>
    decreases n,
{
    if n <= 0 {
        Seq::empty()
    } else {
        let prev = installed_entries(ids, found, n - 1);
        let short = tool_name_of(ids[n - 1]);
        if found[n - 1] && !has_key(prev, short) {
            prev.push((short, ids[n - 1]))
        } else {
            prev
        }
    }
}

/// Whether some pair of `pairs` has the first component `key`.
fn contains_name(pairs: &Vec<(String, String)>, key: &str) -> (r: bool)
    ensures
        r == has_key(pair_texts(pairs@), key@),
{
    let n = pairs.len();
    let mut k: usize = 0;
    while k < n
        invariant
            n == pairs@.len(),
            k <= n,
            forall|j: int| 0 <= j < k ==> #[trigger] pairs@[j].0@ != key@,
        decreases n - k,
    {
        if str_eq(pairs[k].0.as_str(), key) {
            assert(pair_texts(pairs@)[k as int].0 == key@);
            return true;
        }
        k = k + 1;
    }
    assert forall|j: int| 0 <= j < pair_texts(pairs@).len() implies #[trigger] pair_texts(pairs@)[j].0
        != key@ by {
        assert(pair_texts(pairs@)[j].0 == pairs@[j].0@);
    }
    false
}

/// The installed tools as pairs of short name and identifier, given the
/// identifiers that mise lists and, for each, whether `mise which` finds a
/// binary of its short name. The first identifier of a short name wins.
pub fn installed_tool_map(tool_ids: &Vec<String>, found: &Vec<bool>) -> (r: Vec<(String, String)>)
    requires
        tool_ids@.len() == found@.len(),
    ensures
        pair_texts(r@) == installed_entries(texts(tool_ids@), found@, tool_ids@.len() as int),
{
    let n = tool_ids.len();
    let mut r: Vec<(String, String)> = Vec::new();
    proof {
        assert(pair_texts(r@) =~= installed_entries(texts(tool_ids@), found@, 0));
    }
    for i in 0..n
        invariant
            n == tool_ids@.len(),
            n == found@.len(),
            pair_texts(r@) == installed_entries(texts(tool_ids@), found@, i as int),
    {
        let short = extract_tool_name(tool_ids[i].as_str());
        assert(texts(tool_ids@)[i as int] == tool_ids@[i as int]@);
        if found[i] && !contains_name(&r, short.as_str()) {
            let ghost before = r@;
            r.push((short, tool_ids[i].clone()));
            assert(pair_texts(r@) =~= pair_texts(before).push((short@, tool_ids@[i as int]@)));
        }
    }
    r
}

/// The tools named on the command line, each as its own short name and
/// identifier, from the first `n` names; a name given twice is kept once.
pub open spec fn named_entries(names: Seq<Seq<char>>, n: int) -> Seq<(Seq<char>, Seq<char>)>
    decreases n,
{
    if n <= 0 {
        Seq::empty()
    } else {
        let prev = named_entries(names, n - 1);
        let t = names[n - 1];
        if has_key(prev, t) {
            prev
        } else {
            prev.push((t, t))
        }
    }
}

/// The tools named on the command line, as pairs of short name and
/// identifier: a named tool is its own identifier.
pub fn specific_tool_map(tools: &Vec<String>) -> (r: Vec<(String, String)>)
    ensures
        pair_texts(r@) == named_entries(texts(tools@), tools@.len() as int),
{
    let n = tools.len();
    let mut r: Vec<(String, String)> = Vec::new();
    proof {
        assert(pair_texts(r@) =~= named_entries(texts(tools@), 0));
    }
    for i in 0..n
        invariant
            n == tools@.len(),
            pair_texts(r@) == named_entries(texts(tools@), i as int),
    {
        assert(texts(tools@)[i as int] == tools@[i as int]@);
        if !contains_name(&r, tools[i].as_str()) {
            let ghost before = r@;
            r.push((tools[i].clone(), tools[i].clone()));
            assert(pair_texts(r@) =~= pair_texts(before).push((tools@[i as int]@, tools@[i as int]@)));
        }
    }
    r
}

/// The pairs among the first `n` of `pairs` whose short name the registry has.
pub open spec fn registered_entries(
    registry: Map<Seq<char>, CommandTexts>,
    pairs: Seq<(Seq<char>, Seq<char>)>,
    n: int,
) -> Seq<(Seq<char>, Seq<char>)>
    decreases n,
{
    if n <= 0 {
        Seq::empty()
    } else {
        let prev = registered_entries(registry, pairs, n - 1);
        if registry.contains_key(pairs[n - 1].0) {
            prev.push(pairs[n - 1])
        } else {
            prev
        }
    }
}

/// The tools of `tools` (pairs of short name and identifier) that the
/// registry has completion commands for, in their order.
pub fn tools_in_registry(registry: &Registry, tools: &Vec<(String, String)>) -> (r: Vec<(String, String)>)
    ensures
        pair_texts(r@) == registered_entries(registry@, pair_texts(tools@), tools@.len() as int),
{
    let n = tools.len();
    let mut r: Vec<(String, String)> = Vec::new();
    proof {
        assert(pair_texts(r@) =~= registered_entries(registry@, pair_texts(tools@), 0));
    }
    for i in 0..n
        invariant
            n == tools@.len(),
            pair_texts(r@) == registered_entries(registry@, pair_texts(tools@), i as int),
    {
        assert(pair_texts(tools@)[i as int] == (tools@[i as int].0@, tools@[i as int].1@));
        if registry.contains_key(tools[i].0.as_str()) {
            let ghost before = r@;
            r.push((tools[i].0.clone(), tools[i].1.clone()));
            assert(pair_texts(r@) =~= pair_texts(before).push(pair_texts(tools@)[i as int]));
        }
    }
    r
}

/// The shell command that runs a completion command through mise, so that the
/// tool `tool_id` is available: `mise x <tool_id> -- <command>`.
pub open spec fn mise_exec_script(tool_id: Seq<char>, command: Seq<char>) -> Seq<char> {
    "mise x "@ + tool_id + " -- "@ + command
}

/// The shell command `mise x <tool_id> -- <command>`.
pub fn mise_exec_command(tool_id: &str, command: &str) -> (r: String)
    ensures
        r@ == mise_exec_script(tool_id@, command@),
{
    let mut r = "mise x ".to_owned();
    r.append(tool_id);
    r.append(" -- ");
    r.append(command);
    r
}

/// One completion file to generate: the tool (by identifier and short name),
/// the shell command that prints the completions, and the name of the file,
/// inside the shell's completion directory, that they go to.
#[derive(Debug)]
pub struct CompletionJob {
    pub tool_id: String,
    pub tool_name: String,
    pub script: String,
    pub file_name: String,
}

/// The text of a completion job.
pub struct JobTexts {
    pub tool_id: Seq<char>,
    pub tool_name: Seq<char>,
    pub script: Seq<char>,
    pub file_name: Seq<char>,
}

impl View for CompletionJob {
    type V = JobTexts;

    open spec fn view(&self) -> JobTexts {
        JobTexts {
            tool_id: self.tool_id@,
            tool_name: self.tool_name@,
            script: self.script@,
            file_name: self.file_name@,
        }
    }
}

/// The jobs for `shell` of the first `n` of `tools`: one for each tool that
/// the registry has a command for `shell` for.
pub open spec fn shell_jobs(
    registry: Map<Seq<char>, CommandTexts>,
    tools: Seq<(Seq<char>, Seq<char>)>,
    shell: Seq<char>,
    n: int,
) -> Seq<JobTexts>
    decreases n,
{
    if n <= 0 {
        Seq::empty()
    } else {
        let prev = shell_jobs(registry, tools, shell, n - 1);
        let (name, id) = tools[n - 1];
        if registry.contains_key(name) && registry[name].command_for(shell) is Some {
            prev.push(
                JobTexts {
                    tool_id: id,
                    tool_name: name,
                    script: mise_exec_script(id, registry[name].command_for(shell)->0),
                    file_name: completion_file_name(shell, name),
                },
            )
        } else {
            prev
        }
    }
}

/// The texts of a sequence of jobs.
pub open spec fn job_texts(jobs: Seq<CompletionJob>) -> Seq<JobTexts> {
    jobs.map_values(|j: CompletionJob| j@)
}

/// What a sync does for `shell`: the shell's completion directory under
/// `base`, and the completion files to generate there for `tools` (pairs of
/// short name and identifier). A shell other than `zsh`, `bash` and `fish` is
/// refused.
pub fn plan_shell(registry: &Registry, tools: &Vec<(String, String)>, shell: &str, base: &str) -> (r: Result<
    (String, Vec<CompletionJob>),
    Error,
>)
    ensures
        !is_supported_shell(shell@) ==> (r matches Err(Error::UnsupportedShell(s)) && s@ == shell@),
        is_supported_shell(shell@) ==> (r matches Ok((dir, jobs)) && dir@ == joined_path(base@, shell@)
            && job_texts(jobs@) == shell_jobs(registry@, pair_texts(tools@), shell@, tools@.len() as int)),
{
    let dir = get_completions_dir(base, shell)?;
    let n = tools.len();
    let mut jobs: Vec<CompletionJob> = Vec::new();
    proof {
        assert(job_texts(jobs@) =~= shell_jobs(registry@, pair_texts(tools@), shell@, 0));
    }
    for i in 0..n
        invariant
            n == tools@.len(),
            job_texts(jobs@) == shell_jobs(registry@, pair_texts(tools@), shell@, i as int),
    {
        let name = &tools[i].0;
        let id = &tools[i].1;
        assert(pair_texts(tools@)[i as int] == (name@, id@));
        if let Some(completions) = registry.get(name.as_str()) {
            if let Some(command) = completions.get(shell) {
                let job = CompletionJob {
                    tool_id: id.clone(),
                    tool_name: name.clone(),
                    script: mise_exec_command(id.as_str(), command.as_str()),
                    file_name: completion_filename(shell, name.as_str()),
                };
                let ghost before = jobs@;
                jobs.push(job);
                assert(job_texts(jobs@) =~= job_texts(before).push(job@));
            }
        }
    }
    Ok((dir, jobs))
}

/// What a sync does for one shell: the shell, its completion directory and
/// the completion files to generate there.
#[derive(Debug)]
pub struct ShellPlan {
    pub shell: String,
    pub dir: String,
    pub jobs: Vec<CompletionJob>,
}

/// What a sync does, decided before any completion command runs, so that a
/// job that fails changes nothing of the rest: the tools it covers, the shells
/// whose completions it generates, in order, and how it ends.
#[derive(Debug)]
pub struct SyncPlan {
    pub tools: Vec<(String, String)>,
    pub shells: Vec<ShellPlan>,
    pub outcome: Result<(), Error>,
}

/// The plan of a sync of `shells` for `tools` (pairs of short name and
/// identifier) under the base directory `base`.
///
/// It covers the tools that the registry has. With none, it generates nothing
/// and ends well, whatever the shells. Otherwise it goes through the shells in
/// order: each supported shell gets its directory and jobs, and the first
/// unsupported shell ends the sync with `UnsupportedShell`, after the shells
/// before it.
pub fn plan_sync(registry: &Registry, tools: &Vec<(String, String)>, shells: &Vec<String>, base: &str) -> (r:
    SyncPlan)
    ensures
        pair_texts(r.tools@) == registered_entries(registry@, pair_texts(tools@), tools@.len() as int),
        r.tools@.len() == 0 ==> r.shells@.len() == 0 && r.outcome is Ok,
        r.shells@.len() <= shells@.len(),
        forall|i: int|
            0 <= i < r.shells@.len() ==> {
                let plan = #[trigger] r.shells@[i];
                &&& plan.shell@ == shells@[i]@
                &&& is_supported_shell(shells@[i]@)
                &&& plan.dir@ == joined_path(base@, shells@[i]@)
                &&& job_texts(plan.jobs@) == shell_jobs(
                    registry@,
                    pair_texts(r.tools@),
                    shells@[i]@,
                    r.tools@.len() as int,
                )
            },
        r.tools@.len() > 0 && r.shells@.len() < shells@.len() ==> !is_supported_shell(
            shells@[r.shells@.len() as int]@,
        ) && (r.outcome matches Err(Error::UnsupportedShell(s)) && s@ == shells@[r.shells@.len() as int]@),
        r.tools@.len() > 0 && r.shells@.len() == shells@.len() ==> r.outcome is Ok,
{
    let covered = tools_in_registry(registry, tools);
    let mut plans: Vec<ShellPlan> = Vec::new();
    if covered.len() == 0 {
        return SyncPlan { tools: covered, shells: plans, outcome: Ok(()) };
    }
    let n = shells.len();
    let mut i: usize = 0;
    while i < n
        invariant
            n == shells@.len(),
            i <= n,
            covered@.len() > 0,
            pair_texts(covered@) == registered_entries(registry@, pair_texts(tools@), tools@.len() as int),
            plans@.len() == i,
            forall|k: int|
                0 <= k < i ==> {
                    let plan = #[trigger] plans@[k];
                    &&& plan.shell@ == shells@[k]@
                    &&& is_supported_shell(shells@[k]@)
                    &&& plan.dir@ == joined_path(base@, shells@[k]@)
                    &&& job_texts(plan.jobs@) == shell_jobs(
                        registry@,
                        pair_texts(covered@),
                        shells@[k]@,
                        covered@.len() as int,
                    )
                },
        decreases n - i,
    {
        match plan_shell(registry, &covered, shells[i].as_str(), base) {
            Ok((dir, jobs)) => {
                plans.push(ShellPlan { shell: shells[i].clone(), dir, jobs });
            },
            Err(e) => {
                return SyncPlan { tools: covered, shells: plans, outcome: Err(e) };
            },
        }
        i = i + 1;
    }
    SyncPlan { tools: covered, shells: plans, outcome: Ok(()) }
}

/// The file `file_name` of `shell`'s completion directory is stale: it holds
/// the completions of a tool that the registry has but that is not installed.
pub open spec fn is_stale_file(
    registry: Map<Seq<char>, CommandTexts>,
    installed: Seq<(Seq<char>, Seq<char>)>,
    shell: Seq<char>,
    file_name: Seq<char>,
) -> bool {
    match tool_of_file_name(shell, file_name) {
        Some(tool) => registry.contains_key(tool) && !has_key(installed, tool),
        None => false,
    }
}

/// The tool whose completion file `filename` in `shell`'s completion
/// directory is stale, if it is; `installed` holds the installed tools as
/// pairs of short name and identifier.
pub fn stale_completion(
    registry: &Registry,
    installed: &Vec<(String, String)>,
    shell: &str,
    filename: &str,
) -> (r: Option<String>)
    ensures
        r is Some <==> is_stale_file(registry@, pair_texts(installed@), shell@, filename@),
        r matches Some(tool) ==> tool_of_file_name(shell@, filename@) == Some(tool@),
{
    match tool_from_filename(shell, filename) {
        Some(tool) => {
            if registry.contains_key(tool.as_str()) && !contains_name(installed, tool.as_str()) {
                Some(tool)
            } else {
                None
            }
        },
        None => None,
    }
}

/// The installed tools are keyed by short name: no short name occurs twice,
/// each entry's short name is the short name of its identifier, and each
/// identifier is one that mise listed and whose binary was found.
pub proof fn lemma_installed_entries_keyed_by_short_name(ids: Seq<Seq<char>>, found: Seq<bool>, n: int)
    requires
        0 <= n <= ids.len(),
        ids.len() == found.len(),
    ensures
        forall|a: int, b: int|
            0 <= a < b < installed_entries(ids, found, n).len() ==> #[trigger] installed_entries(
                ids,
                found,
                n,
            )[a].0 != #[trigger] installed_entries(ids, found, n)[b].0,
        forall|k: int|
            0 <= k < installed_entries(ids, found, n).len() ==> #[trigger] installed_entries(
                ids,
                found,
                n,
            )[k].0 == tool_name_of(installed_entries(ids, found, n)[k].1),
        forall|k: int|
            0 <= k < installed_entries(ids, found, n).len() ==> exists|i: int|
                0 <= i < n && found[i] && ids[i] == #[trigger] installed_entries(ids, found, n)[k].1,
    decreases n,
{
    if n > 0 {
        lemma_installed_entries_keyed_by_short_name(ids, found, n - 1);
        let prev = installed_entries(ids, found, n - 1);
        let cur = installed_entries(ids, found, n);
        let short = tool_name_of(ids[n - 1]);
        if found[n - 1] && !has_key(prev, short) {
            assert forall|a: int, b: int| 0 <= a < b < cur.len() implies #[trigger] cur[a].0
                != #[trigger] cur[b].0 by {
                if b == cur.len() - 1 {
                    assert(cur[a] == prev[a]);
                    if cur[a].0 == short {
                        assert(has_key(prev, short));
                    }
                } else {
                    assert(cur[a] == prev[a] && cur[b] == prev[b]);
                }
            }
            assert forall|k: int| 0 <= k < cur.len() implies exists|i: int|
                0 <= i < n && found[i] && ids[i] == #[trigger] cur[k].1 by {
                if k == cur.len() - 1 {
                    assert(found[n - 1] && ids[n - 1] == cur[k].1);
                } else {
                    assert(cur[k] == prev[k]);
                    let i = choose|i: int| 0 <= i < n - 1 && found[i] && ids[i] == #[trigger] prev[k].1;
                    assert(0 <= i < n && found[i] && ids[i] == cur[k].1);
                }
            }
        } else {
            assert forall|k: int| 0 <= k < cur.len() implies exists|i: int|
                0 <= i < n && found[i] && ids[i] == #[trigger] cur[k].1 by {
                let i = choose|i: int| 0 <= i < n - 1 && found[i] && ids[i] == #[trigger] prev[k].1;
                assert(0 <= i < n && found[i] && ids[i] == cur[k].1);
            }
        }
    }
}

/// Tools named on the command line are kept once each, as their own
/// identifiers.
pub proof fn lemma_named_entries_distinct(names: Seq<Seq<char>>, n: int)
    requires
        0 <= n <= names.len(),
    ensures
        forall|a: int, b: int|
            0 <= a < b < named_entries(names, n).len() ==> #[trigger] named_entries(names, n)[a].0
                != #[trigger] named_entries(names, n)[b].0,
        forall|k: int|
            0 <= k < named_entries(names, n).len() ==> #[trigger] named_entries(names, n)[k].0
                == named_entries(names, n)[k].1,
        forall|i: int| 0 <= i < n ==> has_key(named_entries(names, n), #[trigger] names[i]),
    decreases n,
{
    if n > 0 {
        lemma_named_entries_distinct(names, n - 1);
        let prev = named_entries(names, n - 1);
        let cur = named_entries(names, n);
        let t = names[n - 1];
        if !has_key(prev, t) {
            assert forall|a: int, b: int| 0 <= a < b < cur.len() implies #[trigger] cur[a].0
                != #[trigger] cur[b].0 by {
                if b == cur.len() - 1 {
                    assert(cur[a] == prev[a]);
                    if cur[a].0 == t {
                        assert(has_key(prev, t));
                    }
                } else {
                    assert(cur[a] == prev[a] && cur[b] == prev[b]);
                }
            }
            assert forall|i: int| 0 <= i < n implies has_key(cur, #[trigger] names[i]) by {
                if i == n - 1 {
                    assert(cur[cur.len() - 1].0 == t);
                } else {
                    let k = choose|k: int| 0 <= k < prev.len() && #[trigger] prev[k].0 == names[i];
                    assert(cur[k] == prev[k]);
                }
            }
        }
    }
}

/// Cleaning never removes what a sync writes for an installed tool: the
/// completion file of an installed tool is never stale, whatever the registry.
pub proof fn lemma_installed_tool_files_are_not_stale(
    registry: Map<Seq<char>, CommandTexts>,
    installed: Seq<(Seq<char>, Seq<char>)>,
    shell: Seq<char>,
    tool: Seq<char>,
)
    requires
        is_supported_shell(shell),
        has_key(installed, tool),
    ensures
        !is_stale_file(registry, installed, shell, completion_file_name(shell, tool)),
{
    crate::shells::lemma_completion_file_names_round_trip(shell, tool);
}

/// Every completion file that a sync plans for a shell belongs to a tool that
/// was asked for and that the registry has a command for, and its name leads
/// back to that tool, so that cleaning recognises it.
pub proof fn lemma_shell_jobs_belong_to_registered_tools(
    registry: Map<Seq<char>, CommandTexts>,
    tools: Seq<(Seq<char>, Seq<char>)>,
    shell: Seq<char>,
    n: int,
)
    requires
        is_supported_shell(shell),
        0 <= n <= tools.len(),
    ensures
        forall|k: int|
            0 <= k < shell_jobs(registry, tools, shell, n).len() ==> {
                let job = #[trigger] shell_jobs(registry, tools, shell, n)[k];
                &&& registry.contains_key(job.tool_name)
                &&& registry[job.tool_name].command_for(shell) is Some
                &&& tool_of_file_name(shell, job.file_name) == Some(job.tool_name)
                &&& exists|i: int| 0 <= i < n && #[trigger] tools[i] == (job.tool_name, job.tool_id)
            },
    decreases n,
{
    if n > 0 {
        lemma_shell_jobs_belong_to_registered_tools(registry, tools, shell, n - 1);
        let prev = shell_jobs(registry, tools, shell, n - 1);
        let cur = shell_jobs(registry, tools, shell, n);
        crate::shells::lemma_completion_file_names_round_trip(shell, tools[n - 1].0);
        assert forall|k: int| 0 <= k < cur.len() implies {
            let job = #[trigger] cur[k];
            &&& registry.contains_key(job.tool_name)
            &&& registry[job.tool_name].command_for(shell) is Some
            &&& tool_of_file_name(shell, job.file_name) == Some(job.tool_name)
            &&& exists|i: int| 0 <= i < n && #[trigger] tools[i] == (job.tool_name, job.tool_id)
        } by {
            if k < prev.len() {
                assert(cur[k] == prev[k]);
                let job = prev[k];
                let i = choose|i: int| 0 <= i < n - 1 && #[trigger] tools[i] == (job.tool_name, job.tool_id);
                assert(0 <= i < n && tools[i] == (job.tool_name, job.tool_id));
            } else {
                assert(tools[n - 1] == (cur[k].tool_name, cur[k].tool_id));
            }
        }
    }
}

/// Picking the tools a sync covers keeps exactly the pairs whose short name
/// the registry has, each as it was given and in the order given: every kept
/// pair is a given pair with a registered short name, every given pair with a
/// registered short name is kept, and the kept pairs come in their given order.
pub proof fn lemma_registered_entries_keep_exactly_the_registered_pairs(
    registry: Map<Seq<char>, CommandTexts>,
    pairs: Seq<(Seq<char>, Seq<char>)>,
    n: int,
)
    requires
        0 <= n <= pairs.len(),
    ensures
        registered_entries(registry, pairs, n).len() <= n,
        forall|k: int|
            0 <= k < registered_entries(registry, pairs, n).len() ==> registry.contains_key(
                #[trigger] registered_entries(registry, pairs, n)[k].0,
            ) && exists|i: int| 0 <= i < n && pairs[i] == registered_entries(registry, pairs, n)[k],
        forall|i: int|
            0 <= i < n && registry.contains_key(#[trigger] pairs[i].0) ==> exists|k: int|
                0 <= k < registered_entries(registry, pairs, n).len() && registered_entries(
                    registry,
                    pairs,
                    n,
                )[k] == pairs[i],
    decreases n,
{
    if n > 0 {
        lemma_registered_entries_keep_exactly_the_registered_pairs(registry, pairs, n - 1);
        let prev = registered_entries(registry, pairs, n - 1);
        let cur = registered_entries(registry, pairs, n);
        assert forall|k: int| 0 <= k < cur.len() implies registry.contains_key(#[trigger] cur[k].0)
            && exists|i: int| 0 <= i < n && pairs[i] == cur[k] by {
            if k < prev.len() {
                assert(cur[k] == prev[k]);
                assert(registry.contains_key(prev[k].0));
                let i = choose|i: int| 0 <= i < n - 1 && pairs[i] == prev[k];
                assert(0 <= i < n && pairs[i] == cur[k]);
            } else {
                assert(cur[k] == pairs[n - 1]);
            }
        }
        assert forall|i: int| 0 <= i < n && registry.contains_key(#[trigger] pairs[i].0) implies exists|
            k: int,
        | 0 <= k < cur.len() && cur[k] == pairs[i] by {
            if i < n - 1 {
                let k = choose|k: int| 0 <= k < prev.len() && prev[k] == pairs[i];
                assert(cur[k] == prev[k]);
            } else {
                assert(cur[cur.len() - 1] == pairs[n - 1]);
            }
        }
    }
}

/// Every shell runs a tool through mise under the tool's identifier: each job
/// planned for a shell is for a given pair (short name, identifier) whose short
/// name the registry has with a command for the shell, its script is exactly
/// `mise x <identifier> -- <that command>`, and its file is the tool's
/// completion file for the shell; and every given pair with such a command
/// gets a job.
pub proof fn lemma_jobs_run_each_tool_under_its_identifier(
    registry: Map<Seq<char>, CommandTexts>,
    tools: Seq<(Seq<char>, Seq<char>)>,
    shell: Seq<char>,
    n: int,
)
    requires
        0 <= n <= tools.len(),
    ensures
        shell_jobs(registry, tools, shell, n).len() <= n,
        forall|k: int|
            0 <= k < shell_jobs(registry, tools, shell, n).len() ==> {
                let job = #[trigger] shell_jobs(registry, tools, shell, n)[k];
                &&& registry.contains_key(job.tool_name)
                &&& registry[job.tool_name].command_for(shell) is Some
                &&& job.script == "mise x "@ + job.tool_id + " -- "@ + registry[job.tool_name].command_for(
                    shell,
                )->0
                &&& job.file_name == completion_file_name(shell, job.tool_name)
                &&& exists|i: int| 0 <= i < n && tools[i].0 == job.tool_name && tools[i].1 == job.tool_id
            },
        forall|i: int|
            0 <= i < n && registry.contains_key(#[trigger] tools[i].0) && registry[tools[i].0].command_for(
                shell,
            ) is Some ==> exists|k: int|
                0 <= k < shell_jobs(registry, tools, shell, n).len() && shell_jobs(
                    registry,
                    tools,
                    shell,
                    n,
                )[k].tool_name == tools[i].0 && shell_jobs(registry, tools, shell, n)[k].tool_id
                    == tools[i].1,
    decreases n,
{
    if n > 0 {
        lemma_jobs_run_each_tool_under_its_identifier(registry, tools, shell, n - 1);
        let prev = shell_jobs(registry, tools, shell, n - 1);
        let cur = shell_jobs(registry, tools, shell, n);
        assert forall|k: int| 0 <= k < cur.len() implies {
            let job = #[trigger] cur[k];
            &&& registry.contains_key(job.tool_name)
            &&& registry[job.tool_name].command_for(shell) is Some
            &&& job.script == "mise x "@ + job.tool_id + " -- "@ + registry[job.tool_name].command_for(
                shell,
            )->0
            &&& job.file_name == completion_file_name(shell, job.tool_name)
            &&& exists|i: int| 0 <= i < n && tools[i].0 == job.tool_name && tools[i].1 == job.tool_id
        } by {
            if k < prev.len() {
                assert(cur[k] == prev[k]);
                let job = prev[k];
                let i = choose|i: int|
                    0 <= i < n - 1 && tools[i].0 == job.tool_name && tools[i].1 == job.tool_id;
                assert(0 <= i < n && tools[i].0 == job.tool_name && tools[i].1 == job.tool_id);
            } else {
                assert(tools[n - 1].0 == cur[k].tool_name && tools[n - 1].1 == cur[k].tool_id);
            }
        }
        assert forall|i: int|
            0 <= i < n && registry.contains_key(#[trigger] tools[i].0) && registry[tools[i].0].command_for(
                shell,
            ) is Some implies exists|k: int|
            0 <= k < cur.len() && cur[k].tool_name == tools[i].0 && cur[k].tool_id == tools[i].1 by {
            if i < n - 1 {
                let k = choose|k: int|
                    0 <= k < prev.len() && prev[k].tool_name == tools[i].0 && prev[k].tool_id
                        == tools[i].1;
                assert(cur[k] == prev[k]);
            } else {
                assert(cur[cur.len() - 1].tool_name == tools[i].0);
            }
        }
    }
}

/// Cleaning removes exactly the completion files of registered tools that are
/// no longer installed, in every shell: the zsh file `_<tool>`, the bash file
/// `<tool>` and the fish file `<tool>.fish` are stale, and lead back to the
/// tool, exactly when the registry has the tool and no installed pair has it
/// as short name.
pub proof fn lemma_stale_files_are_those_of_uninstalled_registered_tools(
    registry: Map<Seq<char>, CommandTexts>,
    installed: Seq<(Seq<char>, Seq<char>)>,
    tool: Seq<char>,
)
    ensures
        tool_of_file_name(seq!['z', 's', 'h'], seq!['_'] + tool) == Some(tool),
        tool_of_file_name(seq!['b', 'a', 's', 'h'], tool) == Some(tool),
        tool_of_file_name(seq!['f', 'i', 's', 'h'], tool + seq!['.', 'f', 'i', 's', 'h']) == Some(tool),
        is_stale_file(registry, installed, seq!['z', 's', 'h'], seq!['_'] + tool) <==> (
        registry.contains_key(tool) && !exists|k: int| 0 <= k < installed.len() && #[trigger] installed[k].0
            == tool),
        is_stale_file(registry, installed, seq!['b', 'a', 's', 'h'], tool) <==> (registry.contains_key(
            tool,
        ) && !exists|k: int| 0 <= k < installed.len() && #[trigger] installed[k].0 == tool),
        is_stale_file(registry, installed, seq!['f', 'i', 's', 'h'], tool + seq!['.', 'f', 'i', 's', 'h'])
            <==> (registry.contains_key(tool) && !exists|k: int|
            0 <= k < installed.len() && #[trigger] installed[k].0 == tool),
{
    assert(crate::shells::zsh_name() =~= seq!['z', 's', 'h']);
    assert(crate::shells::bash_name() =~= seq!['b', 'a', 's', 'h']);
    assert(crate::shells::fish_name() =~= seq!['f', 'i', 's', 'h']);
    crate::shells::lemma_completion_file_names_round_trip(seq!['z', 's', 'h'], tool);
    crate::shells::lemma_completion_file_names_round_trip(seq!['b', 'a', 's', 'h'], tool);
    crate::shells::lemma_completion_file_names_round_trip(seq!['f', 'i', 's', 'h'], tool);
}

/// Every found tool is installed under its short name: for each identifier
/// whose binary was found, some entry has its short name.
pub proof fn lemma_installed_entries_cover_every_found_tool(ids: Seq<Seq<char>>, found: Seq<bool>, n: int)
    requires
        0 <= n <= ids.len(),
        ids.len() == found.len(),
    ensures
        forall|i: int|
            0 <= i < n && #[trigger] found[i] ==> has_key(installed_entries(ids, found, n), tool_name_of(ids[i])),
    decreases n,
{
    if n > 0 {
        lemma_installed_entries_cover_every_found_tool(ids, found, n - 1);
        let prev = installed_entries(ids, found, n - 1);
        let cur = installed_entries(ids, found, n);
        let short = tool_name_of(ids[n - 1]);
        assert forall|i: int| 0 <= i < n && #[trigger] found[i] implies has_key(cur, tool_name_of(ids[i])) by {
            let key = tool_name_of(ids[i]);
            if i < n - 1 || has_key(prev, key) {
                assert(has_key(prev, key));
                let k = choose|k: int| 0 <= k < prev.len() && #[trigger] prev[k].0 == key;
                assert(cur[k] == prev[k]);
            } else {
                assert(cur[cur.len() - 1].0 == short);
            }
        }
    }
}

/// The first found identifier of a short name wins: each entry's identifier
/// was found, has the entry's short name, and no earlier found identifier has
/// that short name.
#[verifier::rlimit(40)]
pub proof fn lemma_installed_entries_keep_the_first_found_identifier(
    ids: Seq<Seq<char>>,
    found: Seq<bool>,
    n: int,
)
    requires
        0 <= n <= ids.len(),
        ids.len() == found.len(),
    ensures
        forall|k: int|
            0 <= k < installed_entries(ids, found, n).len() ==> exists|j: int|
                0 <= j < n && found[j] && ids[j] == #[trigger] installed_entries(ids, found, n)[k].1
                    && tool_name_of(ids[j]) == installed_entries(ids, found, n)[k].0 && forall|i: int|
                    0 <= i < j && #[trigger] found[i] ==> tool_name_of(ids[i]) != installed_entries(
                        ids,
                        found,
                        n,
                    )[k].0,
    decreases n,
{
    if n > 0 {
        lemma_installed_entries_keep_the_first_found_identifier(ids, found, n - 1);
        lemma_installed_entries_cover_every_found_tool(ids, found, n - 1);
        let prev = installed_entries(ids, found, n - 1);
        let cur = installed_entries(ids, found, n);
        let short = tool_name_of(ids[n - 1]);
        assert forall|k: int| 0 <= k < cur.len() implies exists|j: int|
            0 <= j < n && found[j] && ids[j] == #[trigger] cur[k].1 && tool_name_of(ids[j]) == cur[k].0
                && forall|i: int| 0 <= i < j && #[trigger] found[i] ==> tool_name_of(ids[i]) != cur[k].0 by {
            if k < prev.len() {
                assert(cur[k] == prev[k]);
                let j = choose|j: int|
                    0 <= j < n - 1 && found[j] && ids[j] == #[trigger] prev[k].1 && tool_name_of(ids[j])
                        == prev[k].0 && forall|i: int|
                        0 <= i < j && #[trigger] found[i] ==> tool_name_of(ids[i]) != prev[k].0;
                assert(0 <= j < n && found[j] && ids[j] == cur[k].1);
            } else {
                assert(found[n - 1] && !has_key(prev, short));
                assert(cur[k] == (short, ids[n - 1]));
                assert forall|i: int| 0 <= i < n - 1 && #[trigger] found[i] implies tool_name_of(ids[i])
                    != short by {}
            }
        }
    }
}

/// Each shell's completions go into the subdirectory named after the shell:
/// under a base directory that is nonempty and does not end in `/`, the
/// directory of shell `s` is `base/s`.
pub proof fn lemma_shell_directories_are_subdirectories(base: Seq<char>, shell: Seq<char>)
    requires
        base.len() > 0,
        base[base.len() - 1] != '/',
        shell.len() > 0,
        shell[0] != '/',
    ensures
        joined_path(base, shell) == base + seq!['/'] + shell,
{
}

} // verus!
