//! What a command printed, as it was captured.
use crate::json;
use crate::plan_model;
use crate::text;
use vstd::prelude::*;

verus! {

/// One of the two streams that a command prints to.
#[derive(Debug, PartialEq, Eq)]
pub struct CapturedStream {
    pub text: String,
    pub truncated: bool,
    pub utf8: Option<bool>,
}

/// What a command printed. What is not in the known form stays as plain text.
#[derive(Debug, PartialEq, Eq)]
pub enum CapturedOutput {
    Process { stdout: CapturedStream, stderr: CapturedStream },
    Text(String),
}

/// What is stored of a tool's result.
#[derive(Debug, PartialEq, Eq)]
pub enum ArtifactContent {
    Text(String),
    Json(String),
    Binary,
}

pub open spec fn binary_artifact() -> Seq<char> {
    "This artifact contains binary data, not a text command output."@
}

impl CapturedOutput {
    /// What a stored result holds. `process` is what its text says of a command's two
    /// streams, if it is in the form that says so.
    pub fn from_artifact(
        content: ArtifactContent,
        process: Option<(CapturedStream, CapturedStream)>,
    ) -> (r: Result<CapturedOutput, String>)
        ensures
            match content {
                ArtifactContent::Binary => r is Err && r->Err_0@ == binary_artifact(),
                ArtifactContent::Text(t) => r is Ok && r->Ok_0 == (match process {
                    Some(p) => CapturedOutput::Process { stdout: p.0, stderr: p.1 },
                    None => CapturedOutput::Text(t),
                }),
                ArtifactContent::Json(t) => r is Ok && r->Ok_0 == (match process {
                    Some(p) => CapturedOutput::Process { stdout: p.0, stderr: p.1 },
                    None => CapturedOutput::Text(t),
                }),
            },
    {
        let text = match content {
            ArtifactContent::Text(t) => t,
            ArtifactContent::Json(t) => t,
            ArtifactContent::Binary => {
                return Err(
                    "This artifact contains binary data, not a text command output.".to_owned(),
                );
            },
        };
        match process {
            Some((stdout, stderr)) => Ok(CapturedOutput::Process { stdout, stderr }),
            None => Ok(CapturedOutput::Text(text)),
        }
    }

    /// What is copied: the text of both streams, the second one on a line of its own.
    pub open spec fn copied(self) -> Seq<char> {
        match self {
            CapturedOutput::Text(t) => t@,
            CapturedOutput::Process { stdout, stderr } => if stdout.text@.len() > 0
                && stdout.text@.last() != '\n' && stderr.text@.len() > 0 {
                stdout.text@.push('\n') + stderr.text@
            } else {
                stdout.text@ + stderr.text@
            },
        }
    }

    pub fn copy_text(&self) -> (r: String)
        ensures
            r@ == self.copied(),
    {
        match self {
            CapturedOutput::Text(t) => t.clone(),
            CapturedOutput::Process { stdout, stderr } => {
                let chars = text::chars_of(stdout.text.as_str());
                let n = chars.len();
                let mut r = stdout.text.clone();
                if n > 0 && chars[n - 1] != '\n' && !stderr.text.as_str().is_empty() {
                    r.push('\n');
                }
                r.append(stderr.text.as_str());
                r
            },
        }
    }
}

/// Copying keeps every character of both streams and adds at most one line break.
pub proof fn copying_keeps_both_streams(output: CapturedOutput)
    requires
        output is Process,
    ensures
        ({
            let out = output->stdout.text@;
            let err = output->stderr.text@;
            &&& out.is_prefix_of(output.copied())
            &&& output.copied().subrange(
                output.copied().len() - err.len(),
                output.copied().len() as int,
            ) == err
            &&& output.copied().len() <= out.len() + err.len() + 1
        }),
{
    let out = output->stdout.text@;
    let err = output->stderr.text@;
    let c = output.copied();
    assert(c.subrange(c.len() - err.len(), c.len() as int) =~= err);
    assert(c.take(out.len() as int) =~= out);
}

/// The texts that a preview of a command's output is made from.
#[derive(Debug, PartialEq, Eq)]
pub struct PreviewSource {
    pub stdout: String,
    pub stderr: String,
    pub truncated: bool,
}

/// The texts that a preview is made from.
pub struct PreviewView {
    pub stdout: Seq<char>,
    pub stderr: Seq<char>,
    pub truncated: bool,
}

impl View for PreviewSource {
    type V = PreviewView;

    open spec fn view(&self) -> PreviewView {
        PreviewView { stdout: self.stdout@, stderr: self.stderr@, truncated: self.truncated }
    }
}

/// What a document says of a command.
#[derive(Debug, PartialEq, Eq)]
pub struct ProcessDocument {
    pub kind: Option<String>,
    pub stdout: Option<String>,
    pub stderr: Option<String>,
    pub stdout_truncated: Option<bool>,
    pub stderr_truncated: Option<bool>,
    /// The status, where it is a number.
    pub status: Option<i64>,
    pub status_kind: Option<String>,
    pub status_code: Option<i64>,
}

/// Whether this is what a document says of a command.
pub open spec fn says(output: Seq<char>, d: ProcessDocument) -> bool {
    &&& plan_model::opt(d.kind) == json::json_text_at(output, "/kind"@)
    &&& plan_model::opt(d.stdout) == json::json_text_at(output, "/stdout/text"@)
    &&& plan_model::opt(d.stderr) == json::json_text_at(output, "/stderr/text"@)
    &&& d.stdout_truncated == json::json_bool_at(output, "/stdout/truncated"@)
    &&& d.stderr_truncated == json::json_bool_at(output, "/stderr/truncated"@)
    &&& d.status == json::json_integer_at(output, "/status"@)
    &&& plan_model::opt(d.status_kind) == json::json_text_at(output, "/status/kind"@)
    &&& d.status_code == json::json_integer_at(output, "/status/code"@)
}

pub open spec fn or_empty(t: Option<Seq<char>>) -> Seq<char> {
    match t {
        Some(t) => t,
        None => Seq::empty(),
    }
}

fn text_or_empty(t: Option<String>) -> (r: String)
    ensures
        r@ == or_empty(plan_model::opt(t)),
{
    match t {
        Some(t) => t,
        None => String::new(),
    }
}

impl ProcessDocument {
    /// Reads a document.
    pub fn read(output: &str) -> (r: ProcessDocument)
        ensures
            says(output@, r),
    {
        ProcessDocument {
            kind: json::text_at(output, "/kind"),
            stdout: json::text_at(output, "/stdout/text"),
            stderr: json::text_at(output, "/stderr/text"),
            stdout_truncated: json::bool_at(output, "/stdout/truncated"),
            stderr_truncated: json::bool_at(output, "/stderr/truncated"),
            status: json::integer_at(output, "/status"),
            status_kind: json::text_at(output, "/status/kind"),
            status_code: json::integer_at(output, "/status/code"),
        }
    }

    /// Whether the document tells of a command at all.
    pub open spec fn tells_of_a_process(self) -> bool {
        plan_model::opt(self.kind) == Some("process_action"@)
    }

    pub open spec fn preview_view(self) -> Option<PreviewView> {
        if self.tells_of_a_process() {
            Some(
                PreviewView {
                    stdout: or_empty(plan_model::opt(self.stdout)),
                    stderr: or_empty(plan_model::opt(self.stderr)),
                    truncated: self.stdout_truncated == Some(true) || self.stderr_truncated == Some(
                        true,
                    ),
                },
            )
        } else {
            None
        }
    }

    /// What a preview of the command's output is made from.
    pub fn preview(self) -> (r: Option<PreviewSource>)
        ensures
            opt_preview(r) == self.preview_view(),
    {
        if !plan_model::opt_is(&self.kind, "process_action") {
            return None;
        }
        Some(
            PreviewSource {
                stdout: text_or_empty(self.stdout),
                stderr: text_or_empty(self.stderr),
                truncated: self.stdout_truncated == Some(true) || self.stderr_truncated == Some(
                    true,
                ),
            },
        )
    }

    /// The code with which the command ended: its status itself, or the code of a status that
    /// says that it exited.
    pub fn exit_code(&self) -> (r: Option<i64>)
        ensures
            r == (if !self.tells_of_a_process() {
                None
            } else if self.status is Some {
                self.status
            } else if plan_model::opt(self.status_kind) == Some("exited"@) {
                self.status_code
            } else {
                None
            }),
    {
        if !plan_model::opt_is(&self.kind, "process_action") {
            return None;
        }
        match self.status {
            Some(code) => Some(code),
            None => if plan_model::opt_is(&self.status_kind, "exited") {
                self.status_code
            } else {
                None
            },
        }
    }
}

pub open spec fn opt_preview(p: Option<PreviewSource>) -> Option<PreviewView> {
    match p {
        Some(p) => Some(p@),
        None => None,
    }
}

/// What a document that tells of a command says of its output.
pub open spec fn preview_of(output: Seq<char>) -> Option<PreviewView> {
    if json::json_text_at(output, "/kind"@) == Some("process_action"@) {
        Some(
            PreviewView {
                stdout: or_empty(json::json_text_at(output, "/stdout/text"@)),
                stderr: or_empty(json::json_text_at(output, "/stderr/text"@)),
                truncated: json::json_bool_at(output, "/stdout/truncated"@) == Some(true)
                    || json::json_bool_at(output, "/stderr/truncated"@) == Some(true),
            },
        )
    } else {
        None
    }
}

/// What a preview of a command's output is made from.
pub fn process_output_preview(output: &str) -> (r: Option<PreviewSource>)
    ensures
        opt_preview(r) == preview_of(output@),
{
    ProcessDocument::read(output).preview()
}

/// The code with which a command ended, as a document tells it.
pub open spec fn exit_code_of(output: Seq<char>) -> Option<i64> {
    if json::json_text_at(output, "/kind"@) != Some("process_action"@) {
        None
    } else if json::json_integer_at(output, "/status"@) is Some {
        json::json_integer_at(output, "/status"@)
    } else if json::json_text_at(output, "/status/kind"@) == Some("exited"@) {
        json::json_integer_at(output, "/status/code"@)
    } else {
        None
    }
}

pub fn process_exit_code(output: &str) -> (r: Option<i64>)
    ensures
        r == exit_code_of(output@),
{
    ProcessDocument::read(output).exit_code()
}

} // verus!
