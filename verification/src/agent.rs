//! How an agent run is set up, how its output is gathered, and how the run
//! is recorded.

use vstd::prelude::*;
use vstd::utf8::{decode_utf8, valid_utf8};
use crate::paths::{components_prefix, relative_path, relative_text};
use crate::sessions::SessionEvent;
use crate::text::{string_views, trim, trimmed};

verus! {

/// The two ways the agent works on a vault.
#[derive(Clone, Copy, PartialEq, Eq, Structural, Debug)]
pub enum AgentMode {
    /// Audits the whole vault and writes a report.
    Bibliotecario,
    /// Rewrites one note.
    Escrivao,
}

/// The name under which a mode is logged.
pub open spec fn mode_name(mode: AgentMode) -> Seq<char> {
    match mode {
        AgentMode::Bibliotecario => "bibliotecario"@,
        AgentMode::Escrivao => "escrivao"@,
    }
}

impl AgentMode {
    /// The name under which this mode is logged.
    pub fn name(&self) -> (r: String)
        ensures
            r@ == mode_name(*self),
    {
        match self {
            AgentMode::Bibliotecario => String::from_str("bibliotecario"),
            AgentMode::Escrivao => String::from_str("escrivao"),
        }
    }
}

/// The request that starts an audit of the vault.
pub const AUDIT_REQUEST: &'static str = "Audite o vault e gere o relatório do bibliotecário.";

/// The system prompt of a run: the instructions shared by all modes, a blank
/// line, then those of the mode.
pub fn system_prompt(shared: &str, mode_prompt: &str) -> (r: String)
    ensures
        r@ == shared@ + "\n\n"@ + mode_prompt@,
{
    let mut r = shared.to_owned();
    r.append("\n\n");
    r.append(mode_prompt);
    r
}

/// The request to rewrite the note at `relative` (relative to the vault).
pub fn rewrite_request(relative: &str) -> (r: String)
    ensures
        r@ == "Reescreva a nota `"@ + relative@ + "` seguindo o modo escrivão."@,
{
    let mut r = String::from_str("Reescreva a nota `");
    r.append(relative);
    r.append("` seguindo o modo escrivão.");
    r
}

/// The note `note_abs` relative to the vault `vault_abs` (both canonical, as
/// components, or why that form could not be had); a note outside the vault
/// is refused.
pub fn relative_to_vault(
    vault_abs: Result<Vec<String>, String>,
    note_abs: Result<Vec<String>, String>,
) -> (r: Result<String, String>)
    ensures
        match r {
            Ok(rel) => vault_abs is Ok && note_abs is Ok && components_prefix(
                string_views(vault_abs->Ok_0@),
                string_views(note_abs->Ok_0@),
            ) && rel@ == relative_text(
                string_views(vault_abs->Ok_0@),
                string_views(note_abs->Ok_0@),
            ),
            Err(e) => if vault_abs is Err {
                e@ == vault_abs->Err_0@
            } else if note_abs is Err {
                e@ == note_abs->Err_0@
            } else {
                !components_prefix(string_views(vault_abs->Ok_0@), string_views(note_abs->Ok_0@))
                    && e@ == "A nota escolhida precisa estar dentro do vault selecionado."@
            },
        },
{
    let vault = match vault_abs {
        Ok(v) => v,
        Err(e) => return Err(e),
    };
    let note = match note_abs {
        Ok(n) => n,
        Err(e) => return Err(e),
    };
    match relative_path(&vault, &note) {
        Some(rel) => Ok(rel),
        None => Err(String::from_str("A nota escolhida precisa estar dentro do vault selecionado.")),
    }
}

/// The lower-case hexadecimal digit of `d` (0 to 15).
pub open spec fn hex_digit(d: int) -> char {
    if d < 10 {
        ('0' as int + d) as char
    } else {
        ('a' as int + d - 10) as char
    }
}

/// How one character is written inside a JSON string: the quote, the
/// backslash and the control characters are escaped (the five with a short
/// form by it, the others as `\u00` and two hexadecimal digits); every other
/// character stands for itself.
pub open spec fn json_char_text(c: char) -> Seq<char> {
    if c == '"' {
        seq!['\\', '"']
    } else if c == '\\' {
        seq!['\\', '\\']
    } else if c == '\u{8}' {
        seq!['\\', 'b']
    } else if c == '\t' {
        seq!['\\', 't']
    } else if c == '\n' {
        seq!['\\', 'n']
    } else if c == '\u{c}' {
        seq!['\\', 'f']
    } else if c == '\r' {
        seq!['\\', 'r']
    } else if (c as int) < 0x20 {
        seq!['\\', 'u', '0', '0', hex_digit((c as int) / 16), hex_digit((c as int) % 16)]
    } else {
        seq![c]
    }
}

/// The characters of `s`, each written as inside a JSON string.
pub open spec fn json_escaped(s: Seq<char>) -> Seq<char>
    decreases s.len(),
{
    if s.len() == 0 {
        Seq::empty()
    } else {
        json_escaped(s.drop_last()) + json_char_text(s.last())
    }
}

/// The JSON string literal of `s`, as serde_json writes it.
pub open spec fn json_string_text(s: Seq<char>) -> Seq<char> {
    seq!['"'] + json_escaped(s) + seq!['"']
}

/// `serde_json::Value::String(s).to_string()`: the JSON string literal of `s`
/// (serde_json's `format_escaped_str` with its escape table). Writing a
/// `Value` into a string cannot fail.
#[verifier::external_body]
fn json_string(s: &str) -> (r: String)
    ensures
        r@ == json_string_text(s@),
{
    serde_json::Value::String(s.to_owned()).to_string()
}

/// The tool-server configuration handed to the agent: one server,
/// `vault-tools`, run as `vault_mcp_bin` with the mirror and output
/// directories as arguments (keys in the order serde_json sorts them).
pub open spec fn mcp_config_text(vault_mcp_bin: Seq<char>, mirror: Seq<char>, out: Seq<char>) -> Seq<
    char,
> {
    "{\"mcpServers\":{\"vault-tools\":{\"args\":["@ + json_string_text(mirror) + ","@
        + json_string_text(out) + "],\"command\":"@ + json_string_text(vault_mcp_bin) + "}}}"@
}

/// The tool-server configuration for a run.
pub fn build_mcp_config(vault_mcp_bin: &str, mirror: &str, out: &str) -> (r: String)
    ensures
        r@ == mcp_config_text(vault_mcp_bin@, mirror@, out@),
{
    let mut r = String::from_str("{\"mcpServers\":{\"vault-tools\":{\"args\":[");
    r.append(json_string(mirror).as_str());
    r.append(",");
    r.append(json_string(out).as_str());
    r.append("],\"command\":");
    r.append(json_string(vault_mcp_bin).as_str());
    r.append("}}}");
    r
}

/// The command-line arguments of a run: the request, the system prompt, the
/// tool-server configuration (and no other servers), no built-in tools, and
/// no permission prompts.
pub open spec fn agent_arguments_spec(prompt: Seq<char>, system_prompt: Seq<char>, mcp_config: Seq<
    char,
>) -> Seq<Seq<char>> {
    seq![
        "-p"@,
        prompt,
        "--system-prompt"@,
        system_prompt,
        "--mcp-config"@,
        mcp_config,
        "--strict-mcp-config"@,
        "--tools"@,
        ""@,
        "--permission-mode"@,
        "bypassPermissions"@,
    ]
}

/// The command-line arguments of a run.
pub fn agent_arguments(prompt: &str, system_prompt: &str, mcp_config: &str) -> (r: Vec<String>)
    ensures
        string_views(r@) == agent_arguments_spec(prompt@, system_prompt@, mcp_config@),
{
    let mut r: Vec<String> = Vec::new();
    r.push(String::from_str("-p"));
    r.push(prompt.to_owned());
    r.push(String::from_str("--system-prompt"));
    r.push(system_prompt.to_owned());
    r.push(String::from_str("--mcp-config"));
    r.push(mcp_config.to_owned());
    r.push(String::from_str("--strict-mcp-config"));
    r.push(String::from_str("--tools"));
    r.push(String::from_str(""));
    r.push(String::from_str("--permission-mode"));
    r.push(String::from_str("bypassPermissions"));
    assert(string_views(r@) == agent_arguments_spec(prompt@, system_prompt@, mcp_config@));
    r
}

/// The text that `String::from_utf8_lossy` makes of `bytes`.
pub uninterp spec fn lossy_text(bytes: Seq<u8>) -> Seq<char>;

/// `String::from_utf8_lossy`: the text of `bytes`, with each invalid sequence
/// replaced by U+FFFD. Valid UTF-8 is decoded as it is; what it makes of
/// invalid bytes is only named.
#[verifier::external_body]
pub(crate) fn utf8_lossy(bytes: &[u8]) -> (r: String)
    ensures
        r@ == lossy_text(bytes@),
        valid_utf8(bytes@) ==> r@ == decode_utf8(bytes@),
{
    String::from_utf8_lossy(bytes).into_owned()
}

/// What the agent's process reports while it runs.
pub enum AgentEvent {
    /// Bytes written to its standard output.
    Stdout(Vec<u8>),
    /// Bytes written to its standard error.
    Stderr(Vec<u8>),
    /// Anything else (its end, an error of the pipe).
    Other,
}

/// What one event adds to the answer: the text of standard output, nothing
/// for anything else.
pub open spec fn stdout_chunk(event: AgentEvent) -> Seq<char> {
    match event {
        AgentEvent::Stdout(bytes) => lossy_text(bytes@),
        _ => Seq::empty(),
    }
}

/// The standard output of a whole run, in the order of its events.
pub open spec fn stdout_of(events: Seq<AgentEvent>) -> Seq<char>
    decreases events.len(),
{
    if events.len() == 0 {
        Seq::empty()
    } else {
        stdout_of(events.drop_last()) + stdout_chunk(events.last())
    }
}

/// Handling a run's events one after the other, from an empty transcript,
/// gathers exactly the run's standard output: `texts[k]` is the transcript
/// after `k` events, each step adding what `handle` adds.
pub proof fn lemma_transcript_is_stdout(events: Seq<AgentEvent>, texts: Seq<Seq<char>>)
    requires
        texts.len() == events.len() + 1,
        texts[0] == Seq::<char>::empty(),
        forall|k: int| 0 <= k < events.len() ==> #[trigger] texts[k + 1] == texts[k] + stdout_chunk(
            events[k],
        ),
    ensures
        texts[events.len() as int] == stdout_of(events),
    decreases events.len(),
{
    if events.len() > 0 {
        let n = events.len() - 1;
        assert forall|k: int| 0 <= k < events.drop_last().len() implies #[trigger] texts.drop_last()[k
            + 1] == texts.drop_last()[k] + stdout_chunk(events.drop_last()[k]) by {
            assert(texts[k + 1] == texts[k] + stdout_chunk(events[k]));
        }
        lemma_transcript_is_stdout(events.drop_last(), texts.drop_last());
        assert(texts[n + 1] == texts[n] + stdout_chunk(events[n]));
    }
}

/// The answer of an agent, gathered from its standard output.
pub struct AgentTranscript {
    output: String,
}

impl AgentTranscript {
    /// The standard output gathered so far, as text.
    pub closed spec fn text(&self) -> Seq<char> {
        self.output@
    }

    /// A transcript of a run that has printed nothing.
    pub fn new() -> (t: AgentTranscript)
        ensures
            t.text() == Seq::<char>::empty(),
    {
        AgentTranscript { output: String::new() }
    }

    /// Takes in one event of the run. Standard output is kept; standard error
    /// is not, and comes back, as text, to be reported.
    pub fn handle(&mut self, event: AgentEvent) -> (report: Option<String>)
        ensures
            final(self).text() == old(self).text() + stdout_chunk(event),
            match event {
                AgentEvent::Stdout(bytes) => final(self).text() == old(self).text() + lossy_text(
                    bytes@,
                ) && report is None,
                AgentEvent::Stderr(bytes) => final(self).text() == old(self).text() && (
                report matches Some(line) && line@ == lossy_text(bytes@)),
                AgentEvent::Other => final(self).text() == old(self).text() && report is None,
            },
    {
        match event {
            AgentEvent::Stdout(bytes) => {
                let chunk = utf8_lossy(bytes.as_slice());
                self.output.append(chunk.as_str());
                None
            },
            AgentEvent::Stderr(bytes) => {
                Some(utf8_lossy(bytes.as_slice()))
            },
            AgentEvent::Other => None,
        }
    }

    /// The agent's answer: everything it printed, without surrounding white
    /// space.
    pub fn finish(&self) -> (r: String)
        ensures
            r@ == trimmed(self.text()),
    {
        trim(self.output.as_str())
    }
}

/// The session-log entry of a run in `mode` on `note`, from its result.
pub fn agent_run_event(mode: AgentMode, note: Option<String>, result: &Result<String, String>) -> (e:
    SessionEvent)
    ensures
        e matches SessionEvent::AgentRun { mode: m, note: n, success, summary } && m@ == mode_name(
            mode,
        ) && n == note && match result {
            Ok(text) => success && summary@ == text@,
            Err(error) => !success && summary@ == error@,
        },
{
    let (success, summary) = match result {
        Ok(text) => (true, text.clone()),
        Err(error) => (false, error.clone()),
    };
    SessionEvent::AgentRun { mode: mode.name(), note, success, summary }
}

} // verus!
