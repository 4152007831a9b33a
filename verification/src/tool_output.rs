//! What tools did, in a form that fits the conversation.
use crate::json;
use crate::plan_model;
use crate::process_output;
use crate::process_output::PreviewSource;
use crate::provider_overlay;
use crate::text;
use crate::timeline::{
    CommandFailure, CommandView, Elapsed, FinishedCommand, ProcessOutputPreview, TimelineItem,
};
use crate::words;
use vstd::prelude::*;

verus! {

/// How many lines of a file the conversation shows.
pub const READ_FILE_PREVIEW_MAX_LINES: usize = 120;

/// How many characters it shows of each of them.
pub const READ_FILE_PREVIEW_MAX_CHARS: usize = 180;

/// How many characters it shows of any other output.
pub const TOOL_OUTPUT_MAX_CHARS: usize = 600;

/// What a tool is called by, and what it was called with.
pub open spec fn titled(title: Seq<char>, detail: Seq<char>) -> Seq<char> {
    if detail.len() == 0 {
        title
    } else {
        title + " "@ + detail
    }
}

pub fn expanded_tool_title(title: &str, detail: &str) -> (r: String)
    ensures
        r@ == titled(title@, detail@),
{
    if detail.is_empty() {
        title.to_owned()
    } else {
        text::cat3(title, " ", detail)
    }
}

pub fn completed_tool_title(title: &str, detail: &str, status: &str) -> (r: String)
    ensures
        r@ == titled(title@, detail@) + " -> "@ + status@,
{
    text::cat3(expanded_tool_title(title, detail).as_str(), " -> ", status)
}

/// What a tool gave back.
#[derive(Debug, PartialEq, Eq)]
pub enum ToolOutput {
    Text(String),
    Json(String),
}

pub open spec fn output_text(output: Option<ToolOutput>) -> Seq<char> {
    match output {
        Some(ToolOutput::Text(t)) => t@,
        Some(ToolOutput::Json(t)) => t@,
        None => Seq::empty(),
    }
}

pub fn tool_output_text(output: Option<ToolOutput>) -> (r: String)
    ensures
        r@ == output_text(output),
{
    match output {
        Some(ToolOutput::Text(t)) => t,
        Some(ToolOutput::Json(t)) => t,
        None => String::new(),
    }
}

/// A tool's output in short: its first characters without the blanks around it, and dots
/// where there are more. `clean` is the output without blanks around it and without control
/// characters other than line breaks.
pub open spec fn compacted(output: Seq<char>, clean: Seq<char>) -> Seq<char> {
    let whole = text::trimmed(output);
    let head = if clean.len() > TOOL_OUTPUT_MAX_CHARS {
        clean.take(TOOL_OUTPUT_MAX_CHARS as int)
    } else {
        clean
    };
    if whole.len() == 0 {
        Seq::empty()
    } else if whole.len() > TOOL_OUTPUT_MAX_CHARS {
        head + "..."@
    } else {
        head
    }
}

/// Shortens the output of a tool. `clean` is the trimmed output without its control characters
/// but for line breaks, as the caller has cleaned it; what a control character is, is not said
/// here.
pub fn compact_tool_output(output: &str, clean: &str) -> (r: String)
    ensures
        r@ == compacted(output@, clean@),
{
    let whole = text::chars_of(text::trim(output).as_str());
    if whole.len() == 0 {
        return String::new();
    }
    let v = text::chars_of(clean);
    let end: usize = if v.len() > TOOL_OUTPUT_MAX_CHARS {
        TOOL_OUTPUT_MAX_CHARS
    } else {
        v.len()
    };
    let head = text::text_of(&v, 0, end);
    proof {
        if clean@.len() > TOOL_OUTPUT_MAX_CHARS {
            assert(head@ =~= clean@.take(TOOL_OUTPUT_MAX_CHARS as int));
        } else {
            assert(head@ =~= clean@);
        }
    }
    if whole.len() > TOOL_OUTPUT_MAX_CHARS {
        text::cat2(head.as_str(), "...")
    } else {
        head
    }
}

/// What is told of a tool that failed: the short account of its error where there is one,
/// else its output.
pub fn failed_tool_body(account: Option<&str>, output: &str, clean: &str) -> (r: String)
    ensures
        r@ == failure_text(provider_overlay::opt_str(account), output@, clean@),
{
    match account {
        Some(a) => a.to_owned(),
        None => compact_tool_output(output, clean),
    }
}

pub open spec fn failure_text(
    account: Option<Seq<char>>,
    output: Seq<char>,
    clean: Seq<char>,
) -> Seq<char> {
    match account {
        Some(a) => a,
        None => compacted(output, clean),
    }
}

/// The place of the first occurrence of a character, from `i` on; the length where there is
/// none.
pub open spec fn place_of_char(s: Seq<char>, c: char, i: int) -> int
    decreases s.len() - i,
{
    if i < 0 || i >= s.len() {
        s.len() as int
    } else if s[i] == c {
        i
    } else {
        place_of_char(s, c, i + 1)
    }
}

pub fn find_char(v: &Vec<char>, c: char, from: usize) -> (r: usize)
    requires
        from <= v@.len(),
    ensures
        r == place_of_char(v@, c, from as int),
        from <= r <= v@.len(),
        r < v@.len() ==> v@[r as int] == c,
{
    let mut i: usize = from;
    while i < v.len() && v[i] != c
        invariant
            from <= i <= v@.len(),
            place_of_char(v@, c, from as int) == place_of_char(v@, c, i as int),
        decreases v@.len() - i,
    {
        i = i + 1;
    }
    i
}

/// The server and the tool in the name of a tool that a server brings: `mcp_`, the server,
/// an underscore, and the tool.
pub open spec fn mcp_name(name: Seq<char>) -> Option<(Seq<char>, Seq<char>)> {
    if !text::stands_at(name, "mcp_"@, 0) {
        None
    } else {
        let rest = name.skip(4);
        let p = place_of_char(rest, '_', 0);
        if p == 0 || p >= rest.len() - 1 {
            None
        } else {
            Some((rest.take(p), rest.skip(p + 1)))
        }
    }
}

pub open spec fn opt_pair(p: Option<(String, String)>) -> Option<(Seq<char>, Seq<char>)> {
    match p {
        Some((a, b)) => Some((a@, b@)),
        None => None,
    }
}

pub fn parse_mcp_tool_name(name: &str) -> (r: Option<(String, String)>)
    ensures
        opt_pair(r) == mcp_name(name@),
{
    proof {
        reveal_strlit("mcp_");
    }
    if !text::begins_with(name, "mcp_") {
        return None;
    }
    let v = text::chars_of(name);
    let rest = text::chars_of(text::text_of(&v, 4, v.len()).as_str());
    proof {
        assert(rest@ =~= name@.skip(4));
    }
    let p = find_char(&rest, '_', 0);
    if p == 0 || p == rest.len() || p == rest.len() - 1 {
        return None;
    }
    let server = text::text_of(&rest, 0, p);
    let tool = text::text_of(&rest, p + 1, rest.len());
    proof {
        assert(server@ =~= rest@.take(p as int));
        assert(tool@ =~= rest@.skip(p + 1));
    }
    Some((server, tool))
}

/// The word for what a tool does.
pub open spec fn tool_word(name: Seq<char>) -> Seq<char> {
    if mcp_name(name) is Some {
        "MCP"@
    } else if name == "run_process"@ {
        "Ran"@
    } else if name == "read_text"@ {
        "Read"@
    } else if name == "request_permissions"@ {
        "Permission"@
    } else if name == "merry_read_checkpoint_ref"@ {
        "Retrieved"@
    } else if name == "spawn_subagents"@ {
        "Delegated"@
    } else if name == "wait_subagents"@ {
        "Waited"@
    } else if name == "cancel_subagents"@ {
        "Cancelled"@
    } else if name == "apply_patch"@ {
        "Patch"@
    } else {
        "Tool"@
    }
}

pub fn tui_tool_title(name: &str) -> (r: &'static str)
    ensures
        r@ == tool_word(name@),
{
    if parse_mcp_tool_name(name).is_some() {
        "MCP"
    } else if text::same(name, "run_process") {
        "Ran"
    } else if text::same(name, "read_text") {
        "Read"
    } else if text::same(name, "request_permissions") {
        "Permission"
    } else if text::same(name, "merry_read_checkpoint_ref") {
        "Retrieved"
    } else if text::same(name, "spawn_subagents") {
        "Delegated"
    } else if text::same(name, "wait_subagents") {
        "Waited"
    } else if text::same(name, "cancel_subagents") {
        "Cancelled"
    } else if text::same(name, "apply_patch") {
        "Patch"
    } else {
        "Tool"
    }
}

/// A name with what follows it, if anything does.
pub open spec fn followed(name: Seq<char>, detail: Option<Seq<char>>) -> Seq<char> {
    match detail {
        Some(d) => titled(name, d),
        None => name,
    }
}

/// What a tool was called with: for a command its own line, for others the name and the
/// arguments in short. `call` is the short form of the arguments.
pub open spec fn tool_detail(name: Seq<char>, call: Option<Seq<char>>) -> Seq<char> {
    match mcp_name(name) {
        Some((server, tool)) => followed(server + "/"@ + tool, call),
        None => if name == "run_process"@ {
            match call {
                Some(d) => if d.len() > 0 {
                    d
                } else {
                    name
                },
                None => name,
            }
        } else {
            followed(name, call)
        },
    }
}

pub fn tui_tool_detail(name: &str, call: Option<&str>) -> (r: String)
    ensures
        r@ == tool_detail(name@, provider_overlay::opt_str(call)),
{
    match parse_mcp_tool_name(name) {
        Some((server, tool)) => {
            let whole = text::cat3(server.as_str(), "/", tool.as_str());
            match call {
                Some(d) => expanded_tool_title(whole.as_str(), d),
                None => whole,
            }
        },
        None => if text::same(name, "run_process") {
            match call {
                Some(d) => if d.is_empty() {
                    name.to_owned()
                } else {
                    d.to_owned()
                },
                None => name.to_owned(),
            }
        } else {
            match call {
                Some(d) => expanded_tool_title(name, d),
                None => name.to_owned(),
            }
        },
    }
}

pub fn started_tool_title_and_detail(name: &str, call: Option<&str>) -> (r: (String, String))
    ensures
        r.0@ == tool_word(name@),
        r.1@ == tool_detail(name@, provider_overlay::opt_str(call)),
{
    (tui_tool_title(name).to_owned(), tui_tool_detail(name, call))
}

/// What a document says of a permission.
#[derive(Debug, PartialEq, Eq)]
pub struct PermissionDocument {
    pub ok: Option<bool>,
    pub kind: Option<String>,
    pub rationale: Option<String>,
    pub profile: Option<String>,
}

pub open spec fn granted(
    ok: Option<bool>,
    kind: Option<Seq<char>>,
    rationale: Option<Seq<char>>,
    profile: Option<Seq<char>>,
) -> Option<Seq<char>> {
    if ok != Some(true) || kind != Some("process_action"@) {
        None
    } else {
        Some(
            "allowed: "@ + (match rationale {
                Some(r) => r,
                None => "permission request was admitted"@,
            }) + "\nprofile: "@ + (match profile {
                Some(p) => p,
                None => "unknown"@,
            }),
        )
    }
}

impl PermissionDocument {
    /// Reads a document.
    pub fn read(output: &str) -> (r: PermissionDocument)
        ensures
            r.ok == json::json_bool_at(output@, "/ok"@),
            plan_model::opt(r.kind) == json::json_text_at(output@, "/kind"@),
            plan_model::opt(r.rationale) == json::json_text_at(
                output@,
                "/permission_review/rationale"@,
            ),
            plan_model::opt(r.profile) == json::json_text_at(output@, "/permission_profile_id"@),
    {
        PermissionDocument {
            ok: json::bool_at(output, "/ok"),
            kind: json::text_at(output, "/kind"),
            rationale: json::text_at(output, "/permission_review/rationale"),
            profile: json::text_at(output, "/permission_profile_id"),
        }
    }

    /// What is told of a permission that was granted.
    pub fn body(&self) -> (r: Option<String>)
        ensures
            plan_model::opt(r) == granted(
                self.ok,
                plan_model::opt(self.kind),
                plan_model::opt(self.rationale),
                plan_model::opt(self.profile),
            ),
    {
        if self.ok != Some(true) || !plan_model::opt_is(&self.kind, "process_action") {
            return None;
        }
        let rationale = match &self.rationale {
            Some(r) => r.as_str(),
            None => "permission request was admitted",
        };
        let profile = match &self.profile {
            Some(p) => p.as_str(),
            None => "unknown",
        };
        Some(text::cat4("allowed: ", rationale, "\nprofile: ", profile))
    }
}

/// What is told of a permission, as a document says it.
pub open spec fn permission_text(output: Seq<char>) -> Option<Seq<char>> {
    granted(
        json::json_bool_at(output, "/ok"@),
        json::json_text_at(output, "/kind"@),
        json::json_text_at(output, "/permission_review/rationale"@),
        json::json_text_at(output, "/permission_profile_id"@),
    )
}

pub fn permission_output_bodies(output: &str) -> (r: Option<String>)
    ensures
        plan_model::opt(r) == permission_text(output@),
{
    PermissionDocument::read(output).body()
}

/// What the reading of a file gave.
#[derive(Debug, PartialEq, Eq)]
pub struct WorkspaceReadTextOutput {
    pub ok: bool,
    pub tool: Option<String>,
    pub path: String,
    pub content: String,
    pub truncated: bool,
}

/// The first lines of a file, as many as are shown.
pub open spec fn first_lines(content: Seq<char>) -> Seq<Seq<char>> {
    let all = words::lines(content);
    if all.len() > READ_FILE_PREVIEW_MAX_LINES {
        all.take(READ_FILE_PREVIEW_MAX_LINES as int)
    } else {
        all
    }
}

impl WorkspaceReadTextOutput {
    /// The lines that are shown; each is still to be cut to the length that is shown.
    pub fn preview_lines(&self) -> (r: Vec<String>)
        ensures
            text::views(r@) == first_lines(self.content@),
    {
        let mut all = words::lines_of(self.content.as_str());
        proof {
            assert(text::views(all@).len() == all@.len());
        }
        if all.len() > READ_FILE_PREVIEW_MAX_LINES {
            let ghost before = all@;
            all.truncate(READ_FILE_PREVIEW_MAX_LINES);
            proof {
                assert(text::views(all@) =~= text::views(before).take(
                    READ_FILE_PREVIEW_MAX_LINES as int,
                ));
            }
        }
        all
    }
}

/// What is shown of a file: these lines, and a word where it goes on or has none.
pub open spec fn file_text(
    output: WorkspaceReadTextOutput,
    shown: Seq<Seq<char>>,
) -> Option<Seq<char>> {
    if !output.ok || plan_model::opt(output.tool) != Some("read_text"@) {
        None
    } else {
        Some(
            text::join(
                if output.truncated {
                    shown.push("... truncated"@)
                } else if shown.len() == 0 {
                    seq![output.path@ + " is empty"@]
                } else {
                    shown
                },
                "\n"@,
            ),
        )
    }
}

/// What is shown of a file that was read. `shown` are its lines as they were cut.
pub fn read_text_output_bodies(output: &WorkspaceReadTextOutput, shown: Vec<String>) -> (r: Option<
    String,
>)
    ensures
        plan_model::opt(r) == file_text(*output, text::views(shown@)),
{
    if !output.ok || !plan_model::opt_is(&output.tool, "read_text") {
        return None;
    }
    let ghost given = shown@;
    let mut lines = shown;
    proof {
        assert(text::views(given).len() == given.len());
    }
    if output.truncated {
        let note = "... truncated".to_owned();
        lines.push(note);
        proof {
            assert(text::views(lines@) =~= text::views(given).push(note@));
        }
    } else if lines.len() == 0 {
        let note = text::cat2(output.path.as_str(), " is empty");
        lines.push(note);
        proof {
            assert(text::views(lines@) =~= seq![note@]);
        }
    }
    Some(text::join_texts(&lines, "\n"))
}

/// What the reading of a file gave, and its lines as they were cut.
#[derive(Debug, PartialEq, Eq)]
pub struct ReadText {
    pub output: WorkspaceReadTextOutput,
    pub shown: Vec<String>,
}

/// What is told of a tool that succeeded, for the tools that have a form of their own.
/// `permission` is what the output says of a permission, `read` what it says of a file.
pub open spec fn success_of(
    name: Seq<char>,
    permission: Option<Seq<char>>,
    read: Option<ReadText>,
) -> Option<Seq<char>> {
    if name == "request_permissions"@ {
        permission
    } else if name == "read_text"@ {
        match read {
            Some(f) => file_text(f.output, text::views(f.shown@)),
            None => None,
        }
    } else {
        None
    }
}

pub fn success_body(name: &str, permission: Option<String>, read: Option<ReadText>) -> (r: Option<
    String,
>)
    ensures
        plan_model::opt(r) == success_of(name@, plan_model::opt(permission), read),
{
    if text::same(name, "request_permissions") {
        permission
    } else if text::same(name, "read_text") {
        match read {
            Some(f) => read_text_output_bodies(&f.output, f.shown),
            None => None,
        }
    } else {
        None
    }
}

/// What is told of a tool that succeeded, as its output says it.
pub fn success_tool_bodies(name: &str, output: &str, read: Option<ReadText>) -> (r: Option<String>)
    ensures
        plan_model::opt(r) == success_of(name@, permission_text(output@), read),
{
    let permission = if text::same(name, "request_permissions") {
        permission_output_bodies(output)
    } else {
        None
    };
    success_body(name, permission, read)
}

/// A command at its end, before the lines of its output are laid out.
#[derive(Debug, PartialEq, Eq)]
pub struct CompletedProcess {
    pub detail: String,
    pub exit_code: Option<i64>,
    pub failure: Option<CommandFailure>,
    pub preview: PreviewSource,
    pub command: String,
    pub cwd: String,
    pub artifact_id: String,
    pub elapsed: Option<Elapsed>,
}

/// A command at its end.
pub struct CompletedView {
    pub detail: Seq<char>,
    pub exit_code: Option<i64>,
    pub failure: Option<CommandFailure>,
    pub preview: process_output::PreviewView,
    pub command: Seq<char>,
    pub cwd: Seq<char>,
    pub artifact_id: Seq<char>,
    pub elapsed: Option<Elapsed>,
}

impl View for CompletedProcess {
    type V = CompletedView;

    open spec fn view(&self) -> CompletedView {
        CompletedView {
            detail: self.detail@,
            exit_code: self.exit_code,
            failure: self.failure,
            preview: self.preview@,
            command: self.command@,
            cwd: self.cwd@,
            artifact_id: self.artifact_id@,
            elapsed: self.elapsed,
        }
    }
}

impl CompletedProcess {
    /// The item, with the lines of the output.
    pub fn with_lines(self, lines: Vec<String>) -> (r: TimelineItem)
        ensures
            r == (TimelineItem::Command {
                view: CommandView::Finished(
                    FinishedCommand {
                        detail: self.detail,
                        exit_code: self.exit_code,
                        failure: self.failure,
                        preview: ProcessOutputPreview { lines, truncated: self.preview.truncated },
                        command: self.command,
                        cwd: self.cwd,
                        artifact_id: self.artifact_id,
                        elapsed: self.elapsed,
                    },
                ),
            }),
    {
        TimelineItem::Command {
            view: CommandView::Finished(
                FinishedCommand {
                    detail: self.detail,
                    exit_code: self.exit_code,
                    failure: self.failure,
                    preview: ProcessOutputPreview { lines, truncated: self.preview.truncated },
                    command: self.command,
                    cwd: self.cwd,
                    artifact_id: self.artifact_id,
                    elapsed: self.elapsed,
                },
            ),
        }
    }
}

/// How a command went wrong, if it did. A command that ended with a code other than zero did
/// run; the code says enough.
pub open spec fn command_failure(cancelled: bool, failed: bool, exit_code: Option<i64>) -> Option<
    CommandFailure,
> {
    if cancelled {
        Some(CommandFailure::Cancelled)
    } else if failed && !(exit_code is Some && exit_code->0 != 0) {
        Some(CommandFailure::Failed)
    } else {
        None
    }
}

/// What a preview is made from: the two streams where the output tells of them, the output in
/// short where it does not, and the account of the error where the command failed to run.
pub open spec fn preview_source(
    failure: Option<CommandFailure>,
    process: Option<process_output::PreviewView>,
    account: Option<Seq<char>>,
    output: Seq<char>,
    clean: Seq<char>,
) -> process_output::PreviewView {
    let told = match process {
        Some(p) => p,
        None => process_output::PreviewView {
            stdout: compacted(output, clean),
            stderr: Seq::empty(),
            truncated: false,
        },
    };
    if failure == Some(CommandFailure::Failed) {
        process_output::PreviewView {
            stdout: failure_text(account, output, clean),
            stderr: Seq::empty(),
            truncated: told.truncated,
        }
    } else {
        told
    }
}

/// Makes the source of a preview.
pub fn preview_of_result(
    failure: Option<CommandFailure>,
    process: Option<PreviewSource>,
    account: Option<&str>,
    output: &str,
    clean: &str,
) -> (r: PreviewSource)
    ensures
        r@ == preview_source(
            failure,
            process_output::opt_preview(process),
            provider_overlay::opt_str(account),
            output@,
            clean@,
        ),
{
    let told = match process {
        Some(p) => p,
        None => {
            let stderr = String::new();
            proof {
                assert(stderr@ =~= Seq::empty());
            }
            PreviewSource { stdout: compact_tool_output(output, clean), stderr, truncated: false }
        },
    };
    let failed = match failure {
        Some(CommandFailure::Failed) => true,
        _ => false,
    };
    if failed {
        let stderr = String::new();
        proof {
            assert(stderr@ =~= Seq::empty());
        }
        PreviewSource {
            stdout: failed_tool_body(account, output, clean),
            stderr,
            truncated: told.truncated,
        }
    } else {
        told
    }
}

/// Decides how a command went wrong.
pub fn failure_of(cancelled: bool, failed: bool, exit_code: Option<i64>) -> (r: Option<
    CommandFailure,
>)
    ensures
        r == command_failure(cancelled, failed, exit_code),
{
    let ran = match exit_code {
        Some(code) => code != 0,
        None => false,
    };
    if cancelled {
        Some(CommandFailure::Cancelled)
    } else if failed && !ran {
        Some(CommandFailure::Failed)
    } else {
        None
    }
}

/// The shortened output of a tool is never longer than allowed, but for the dots that say that
/// there is more; a short one is not changed, and a blank one is empty.
pub proof fn outputs_are_shortened_to_the_limit(output: Seq<char>, clean: Seq<char>)
    ensures
        compacted(output, clean).len() <= TOOL_OUTPUT_MAX_CHARS + 3,
        text::trimmed(output).len() == 0 ==> compacted(output, clean).len() == 0,
        0 < text::trimmed(output).len() <= TOOL_OUTPUT_MAX_CHARS && clean.len()
            <= TOOL_OUTPUT_MAX_CHARS ==> compacted(output, clean) == clean,
        text::trimmed(output).len() > TOOL_OUTPUT_MAX_CHARS ==> "..."@.is_suffix_of(
            compacted(output, clean),
        ),
        text::trimmed(output).len() > TOOL_OUTPUT_MAX_CHARS && clean.len() >= TOOL_OUTPUT_MAX_CHARS
            ==> compacted(output, clean).take(TOOL_OUTPUT_MAX_CHARS as int) == clean.take(
            TOOL_OUTPUT_MAX_CHARS as int,
        ),
{
    reveal_strlit("...");
    let r = compacted(output, clean);
    if text::trimmed(output).len() > TOOL_OUTPUT_MAX_CHARS {
        assert("..."@ =~= r.subrange(r.len() - 3, r.len() as int));
        if clean.len() >= TOOL_OUTPUT_MAX_CHARS {
            assert(r.take(TOOL_OUTPUT_MAX_CHARS as int) =~= clean.take(
                TOOL_OUTPUT_MAX_CHARS as int,
            ));
        }
    }
}

proof fn lemma_place_of_char(s: Seq<char>, c: char, i: int)
    requires
        0 <= i <= s.len(),
    ensures
        i <= place_of_char(s, c, i) <= s.len(),
        place_of_char(s, c, i) < s.len() ==> s[place_of_char(s, c, i)] == c,
        forall|k: int| i <= k < place_of_char(s, c, i) ==> #[trigger] s[k] != c,
    decreases s.len() - i,
{
    if i < s.len() && s[i] != c {
        lemma_place_of_char(s, c, i + 1);
    }
}

/// The name of a tool that a server brings is taken apart at the first underscore behind the
/// server, and the parts make up the name again; neither is empty.
pub proof fn names_of_server_tools_are_taken_apart(
    name: Seq<char>,
    server: Seq<char>,
    tool: Seq<char>,
)
    ensures
        mcp_name(name) == Some((server, tool)) <==> name == "mcp_"@ + server + "_"@ + tool
            && server.len() > 0 && tool.len() > 0 && !server.contains('_'),
{
    reveal_strlit("mcp_");
    reveal_strlit("_");
    let whole = "mcp_"@ + server + "_"@ + tool;
    if mcp_name(name) == Some((server, tool)) {
        let rest = name.skip(4);
        let p = place_of_char(rest, '_', 0);
        lemma_place_of_char(rest, '_', 0);
        assert(name.subrange(0, 4) == "mcp_"@);
        assert(name =~= whole) by {
            assert(name =~= name.subrange(0, 4) + rest);
            assert(rest =~= server + "_"@ + tool);
        }
        if server.contains('_') {
            let k = choose|k: int| 0 <= k < server.len() && server[k] == '_';
            assert(rest[k] == '_');
        }
    }
    if name == whole && server.len() > 0 && tool.len() > 0 && !server.contains('_') {
        let rest = name.skip(4);
        assert(name.subrange(0, 4) =~= "mcp_"@);
        assert(rest =~= server + "_"@ + tool);
        let p = place_of_char(rest, '_', 0);
        lemma_place_of_char(rest, '_', 0);
        assert(rest[server.len() as int] == '_');
        if p < server.len() {
            assert(server[p] == '_');
            assert(server.contains('_'));
        }
        assert(p == server.len());
        assert(rest.take(p) =~= server);
        assert(rest.skip(p + 1) =~= tool);
    }
}

/// A command that was cancelled is told of as cancelled; one that failed is told of as failed,
/// unless its exit code says so itself; else nothing went wrong in the running of it.
pub proof fn failures_are_told_apart(cancelled: bool, failed: bool, exit_code: Option<i64>)
    ensures
        command_failure(cancelled, failed, exit_code) == Some(CommandFailure::Cancelled)
            <==> cancelled,
        command_failure(cancelled, failed, exit_code) == Some(CommandFailure::Failed)
            <==> !cancelled && failed && (exit_code is None || exit_code == Some(0i64)),
{
}

/// What is shown of a command is what it printed, and the account of the error in its place
/// where it failed to run.
pub proof fn failed_commands_show_the_account(
    failure: Option<CommandFailure>,
    process: process_output::PreviewView,
    account: Seq<char>,
    output: Seq<char>,
    clean: Seq<char>,
)
    ensures
        failure != Some(CommandFailure::Failed) ==> preview_source(
            failure,
            Some(process),
            Some(account),
            output,
            clean,
        ) == process,
        failure == Some(CommandFailure::Failed) ==> preview_source(
            failure,
            Some(process),
            Some(account),
            output,
            clean,
        ).stdout == account,
        failure_text(Some(account), output, clean) == account,
{
}

/// A title is the word for the tool and what it was called with, a blank between them where
/// there is the latter.
pub proof fn titles_name_the_tool_and_its_call(title: Seq<char>, detail: Seq<char>)
    ensures
        detail.len() == 0 ==> titled(title, detail) == title,
        detail.len() > 0 ==> titled(title, detail) == title.push(' ') + detail,
{
    reveal_strlit(" ");
    if detail.len() > 0 {
        assert(titled(title, detail) =~= title.push(' ') + detail);
    }
}

/// Of a file, no more lines are shown than allowed, from its first one on.
pub proof fn files_are_shown_from_their_first_line(content: Seq<char>)
    ensures
        first_lines(content).is_prefix_of(words::lines(content)),
        first_lines(content).len() <= READ_FILE_PREVIEW_MAX_LINES,
        words::lines(content).len() <= READ_FILE_PREVIEW_MAX_LINES ==> first_lines(content)
            == words::lines(content),
{
    let all = words::lines(content);
    assert(first_lines(content) =~= all.subrange(0, first_lines(content).len() as int));
}

/// A permission is told of as granted only where the output says that it was, and then with
/// the reasons and the profile that it gives.
pub proof fn only_granted_permissions_are_told_of(
    ok: Option<bool>,
    kind: Option<Seq<char>>,
    rationale: Seq<char>,
    profile: Seq<char>,
)
    ensures
        granted(ok, kind, Some(rationale), Some(profile)) is Some <==> ok == Some(true) && kind
            == Some("process_action"@),
        ok == Some(true) && kind == Some("process_action"@) ==> granted(
            ok,
            kind,
            Some(rationale),
            Some(profile),
        ) == Some("allowed: "@ + rationale + "\nprofile: "@ + profile) && granted(
            ok,
            kind,
            None,
            None,
        ) == Some(
            "allowed: "@ + "permission request was admitted"@ + "\nprofile: "@ + "unknown"@,
        ),
{
}

/// A file that was read is shown line by line; one that goes on says so in a last line, and an
/// empty one says that it is. What is not the reading of a file is not shown as one.
pub proof fn files_are_shown_line_by_line(output: WorkspaceReadTextOutput, shown: Seq<Seq<char>>)
    ensures
        file_text(output, shown) is Some <==> output.ok && plan_model::opt(output.tool) == Some(
            "read_text"@,
        ),
        file_text(output, shown) is Some && !output.truncated && shown.len() > 0 ==> file_text(
            output,
            shown,
        ) == Some(text::join(shown, "\n"@)),
        file_text(output, shown) is Some && output.truncated && shown.len() > 0 ==> file_text(
            output,
            shown,
        ) == Some(text::join(shown, "\n"@) + "\n"@ + "... truncated"@),
        file_text(output, shown) is Some && !output.truncated && shown.len() == 0 ==> file_text(
            output,
            shown,
        ) == Some(output.path@ + " is empty"@),
{
    assert(shown.push("... truncated"@).drop_last() =~= shown);
}

} // verus!
