//! A model that is reached through the `codex` program.

use crate::claude_lm::{gives_reply, text_or_printed};
use crate::cli::{
    format_messages, goes_on, judge, prompt_text, ran, system_text, CliCall, CliOutcome, CliStep,
};
use crate::error::{DspyError, Result};
use crate::json::{
    empty_object, json_list, lemma_json_list, member_of, new_object, parsed_json, printed_json, put,
    put_text, text_in, text_or_null, Json, JsonFloat, JsonSpec,
};
use crate::lm::{copy_float, opt_float, ConfigSpec, LMConfig};
use crate::message::{message_list, Message};
use crate::signature::opt_view;
use crate::text::{lines, lines_of, push_text, texts, trim, trim_of};
use vstd::prelude::*;

verus! {

/// The label of the model.
pub const LABEL: &'static str = "CodexLM";

/// How the program is used.
#[derive(Debug)]
pub struct CodexLMConfig {
    pub model: String,
    /// The program takes no heed of this.
    pub temperature: Option<JsonFloat>,
    pub max_tokens: Option<u32>,
    /// What the system says where no message does.
    pub system_prompt: Option<String>,
    pub skip_git_check: bool,
    pub sandbox: String,
    pub reasoning_effort: Option<String>,
    pub timeout_secs: u64,
    /// How many runs may fail before a call does.
    pub retries: u32,
    pub max_concurrent: usize,
}

impl Default for CodexLMConfig {
    fn default() -> (r: Self)
        ensures
            r.model@ == "gpt-5.2-codex"@,
            r.temperature is None,
            r.max_tokens is None,
            r.system_prompt is None,
            r.skip_git_check,
            r.sandbox@ == "read-only"@,
            r.reasoning_effort is None,
            r.timeout_secs == 120,
            r.retries == 2,
            r.max_concurrent == 4,
    {
        CodexLMConfig {
            model: "gpt-5.2-codex".to_string(),
            temperature: None,
            max_tokens: None,
            system_prompt: None,
            skip_git_check: true,
            sandbox: "read-only".to_string(),
            reasoning_effort: None,
            timeout_secs: 120,
            retries: 2,
            max_concurrent: 4,
        }
    }
}

/// A model that is reached through the program.
#[derive(Debug)]
pub struct CodexLM {
    pub lm_config: LMConfig,
    pub cli_config: CodexLMConfig,
    /// It was said already that the temperature has no effect.
    pub warned_temperature: bool,
}

/// What is said of a temperature.
pub open spec fn temperature_warning() -> Seq<char> {
    "CodexLM: Codex CLI does not support temperature control. Temperature setting is ignored."@
}

/// The arguments of the program.
pub open spec fn codex_args(
    skip_git_check: bool,
    sandbox: Seq<char>,
    system: Option<Seq<char>>,
    reasoning_effort: Option<Seq<char>>,
    prompt: Seq<char>,
) -> Seq<Seq<char>> {
    let a = seq!["exec"@];
    let a = if skip_git_check {
        a.push("--skip-git-repo-check"@)
    } else {
        a
    };
    let a = a.push("--sandbox"@).push(sandbox).push("--json"@);
    let a = match system {
        Some(s) => a.push("-c"@).push("developer_instructions="@ + s),
        None => a,
    };
    let a = match reasoning_effort {
        Some(s) => a.push("-c"@).push("reasoning_effort="@ + s),
        None => a,
    };
    a.push("--"@).push(prompt)
}

// ---------------------------------------------------------------------------
// The reply in what the program wrote
// ---------------------------------------------------------------------------

/// The text that a value is, or else its printed form.
pub open spec fn shown(j: JsonSpec) -> Seq<char> {
    match text_in(j) {
        Some(t) => t,
        None => printed_json(j),
    }
}

/// What an object holds under a key, where that is not null.
pub open spec fn present(j: JsonSpec, key: Seq<char>) -> Option<JsonSpec> {
    match member_of(j, key) {
        Some(v) => if v == JsonSpec::Null {
            None
        } else {
            Some(v)
        },
        None => None,
    }
}

/// What is present under the first of some keys.
pub open spec fn first_present(j: JsonSpec, keys: Seq<Seq<char>>) -> Option<JsonSpec>
    decreases keys.len(),
{
    if keys.len() == 0 {
        None
    } else {
        match first_present(j, keys.drop_last()) {
            Some(v) => Some(v),
            None => present(j, keys.last()),
        }
    }
}

/// The keys under which a reply stands, those that come first being tried first.
pub open spec fn reply_keys() -> Seq<Seq<char>> {
    seq!["output"@, "result"@, "text"@, "completion"@, "content"@]
}

/// The content of the message that an object holds.
pub open spec fn message_content(j: JsonSpec) -> Option<Seq<char>> {
    match member_of(j, "message"@) {
        Some(m) => match present(m, "content"@) {
            Some(c) => Some(shown(c)),
            None => None,
        },
        None => None,
    }
}

/// The reply in the first of the choices that an object holds.
pub open spec fn choice_text(j: JsonSpec) -> Option<Seq<char>> {
    match member_of(j, "choices"@) {
        Some(JsonSpec::Array(c)) => if c.len() == 0 {
            None
        } else {
            match message_content(c[0]) {
                Some(t) => Some(t),
                None => match present(c[0], "text"@) {
                    Some(t) => Some(printed_json(t)),
                    None => None,
                },
            }
        },
        _ => None,
    }
}

/// The reply in an object.
pub open spec fn object_text(j: JsonSpec) -> Option<Seq<char>> {
    match first_present(j, reply_keys()) {
        Some(v) => Some(shown(v)),
        None => match message_content(j) {
            Some(t) => Some(t),
            None => choice_text(j),
        },
    }
}

/// The reply in a value: in a list, that of the last item that has one.
pub open spec fn text_of(j: JsonSpec) -> Option<Seq<char>>
    decreases j,
{
    match j {
        JsonSpec::Array(v) => last_text(v),
        JsonSpec::Object(_) => object_text(j),
        _ => None,
    }
}

/// The reply in the last of some values that has one.
pub open spec fn last_text(v: Seq<JsonSpec>) -> Option<Seq<char>>
    decreases v,
{
    if v.len() == 0 {
        None
    } else {
        match text_of(v.last()) {
            Some(t) => Some(t),
            None => last_text(v.drop_last()),
        }
    }
}

/// The reply in a text that is JSON.
pub open spec fn json_reply(s: Seq<char>) -> Option<Seq<char>> {
    match parsed_json(s) {
        Ok(j) => text_of(j),
        Err(_) => None,
    }
}

/// The reply in the last of some lines that has one.
pub open spec fn last_line_reply(v: Seq<Seq<char>>) -> Option<Seq<char>>
    decreases v.len(),
{
    if v.len() == 0 {
        None
    } else {
        let line = trim_of(v.last());
        let here = if line.len() == 0 {
            None
        } else {
            json_reply(line)
        };
        match here {
            Some(t) => Some(t),
            None => last_line_reply(v.drop_last()),
        }
    }
}

/// The reply in what the program wrote: in the whole of it, or in the last line that
/// has one; and else all that it wrote.
pub open spec fn codex_output(stdout: Seq<char>) -> std::result::Result<Seq<char>, Seq<char>> {
    let text = trim_of(stdout);
    if text.len() == 0 {
        Err("Empty response from Codex CLI"@)
    } else {
        match json_reply(text) {
            Some(t) => Ok(t),
            None => match last_line_reply(lines_of(text)) {
                Some(t) => Ok(t),
                None => Ok(text),
            },
        }
    }
}

/// What an optional value says.
pub open spec fn opt_json(j: Option<&Json>) -> Option<JsonSpec> {
    match j {
        Some(x) => Some(x@),
        None => None,
    }
}

fn get_present<'a>(j: &'a Json, key: &str) -> (r: Option<&'a Json>)
    ensures
        opt_json(r) == present(j@, key@),
{
    match j.get(key) {
        Some(v) => if v.is_null() {
            None
        } else {
            Some(v)
        },
        None => None,
    }
}

fn get_first_present<'a>(j: &'a Json) -> (r: Option<&'a Json>)
    ensures
        opt_json(r) == first_present(j@, reply_keys()),
{
    proof {
        let k = reply_keys();
        assert(k.drop_last() =~= seq!["output"@, "result"@, "text"@, "completion"@]);
        assert(k.drop_last().drop_last() =~= seq!["output"@, "result"@, "text"@]);
        assert(k.drop_last().drop_last().drop_last() =~= seq!["output"@, "result"@]);
        assert(k.drop_last().drop_last().drop_last().drop_last() =~= seq!["output"@]);
        assert(k.drop_last().drop_last().drop_last().drop_last().drop_last() =~= Seq::<
            Seq<char>,
        >::empty());
        reveal_with_fuel(first_present, 6);
    }
    let a = get_present(j, "output");
    if a.is_some() {
        return a;
    }
    let b = get_present(j, "result");
    if b.is_some() {
        return b;
    }
    let c = get_present(j, "text");
    if c.is_some() {
        return c;
    }
    let d = get_present(j, "completion");
    if d.is_some() {
        return d;
    }
    get_present(j, "content")
}

fn message_content_in(j: &Json) -> (r: Option<String>)
    ensures
        opt_view(r) == message_content(j@),
{
    match j.get("message") {
        Some(m) => match get_present(m, "content") {
            Some(c) => Some(text_or_printed(c)),
            None => None,
        },
        None => None,
    }
}

fn choice_text_in(j: &Json) -> (r: Option<String>)
    ensures
        opt_view(r) == choice_text(j@),
{
    match j.get("choices") {
        Some(Json::Array(choices)) => {
            proof {
                lemma_json_list(choices@);
            }
            if choices.len() == 0 {
                return None;
            }
            let c = &choices[0];
            match message_content_in(c) {
                Some(t) => Some(t),
                None => match get_present(c, "text") {
                    Some(t) => Some(t.to_text()),
                    None => None,
                },
            }
        },
        _ => None,
    }
}

fn object_text_in(j: &Json) -> (r: Option<String>)
    ensures
        opt_view(r) == object_text(j@),
{
    match get_first_present(j) {
        Some(v) => Some(text_or_printed(v)),
        None => match message_content_in(j) {
            Some(t) => Some(t),
            None => choice_text_in(j),
        },
    }
}

/// The reply in a value.
pub fn extract_text(data: &Json) -> (r: Option<String>)
    ensures
        opt_view(r) == text_of(data@),
    decreases data,
{
    match data {
        Json::Array(v) => {
            let mut n: usize = v.len();
            let ghost all = json_list(v@);
            proof {
                lemma_json_list(v@);
                assert(all.take(n as int) =~= all);
            }
            while n > 0
                invariant
                    n <= v@.len(),
                    all == json_list(v@),
                    all.len() == v@.len(),
                    forall|k: int| 0 <= k < v@.len() ==> (#[trigger] all[k]) == v@[k]@,
                    data == Json::Array(*v),
                    last_text(all) == last_text(all.take(n as int)),
                decreases n,
            {
                proof {
                    assert(all.take(n as int).drop_last() =~= all.take(n - 1));
                    assert(all.take(n as int).last() == v@[n - 1]@);
                    assert(decreases_to!(data => v@[n - 1]));
                }
                if let Some(t) = extract_text(&v[n - 1]) {
                    return Some(t);
                }
                n -= 1;
            }
            proof {
                assert(all.take(0) =~= Seq::<JsonSpec>::empty());
            }
            None
        },
        Json::Object(_) => object_text_in(data),
        _ => None,
    }
}

fn json_reply_in(s: &str) -> (r: Option<String>)
    ensures
        opt_view(r) == json_reply(s@),
{
    match Json::parse(s) {
        Ok(j) => extract_text(&j),
        Err(_) => None,
    }
}

/// The reply in what the program wrote.
pub fn parse_codex_output(stdout: &str) -> (r: Result<String>)
    ensures
        gives_reply(r, codex_output(stdout@)),
{
    let trimmed = trim(stdout);
    if trimmed.as_str().unicode_len() == 0 {
        return Err(DspyError::Other("Empty response from Codex CLI".to_string()));
    }
    if let Some(t) = json_reply_in(trimmed.as_str()) {
        return Ok(t);
    }
    let all = lines(trimmed.as_str());
    let ghost want = texts(all@);
    let mut n: usize = all.len();
    proof {
        assert(want.take(n as int) =~= want);
    }
    while n > 0
        invariant
            n <= all@.len(),
            want == texts(all@),
            want == lines_of(trimmed@),
            trimmed@ == trim_of(stdout@),
            trimmed@.len() > 0,
            json_reply(trimmed@) is None,
            last_line_reply(want) == last_line_reply(want.take(n as int)),
        decreases n,
    {
        proof {
            assert(want.take(n as int).drop_last() =~= want.take(n - 1));
            assert(want.take(n as int).last() == all@[n - 1]@);
        }
        let line = trim(all[n - 1].as_str());
        if line.as_str().unicode_len() > 0 {
            if let Some(t) = json_reply_in(line.as_str()) {
                return Ok(t);
            }
        }
        n -= 1;
    }
    Ok(trimmed)
}

impl CodexLM {
    /// A model that is reached as a configuration says.
    pub fn new(config: CodexLMConfig) -> (r: Self)
        ensures
            r.cli_config == config,
            !r.warned_temperature,
            r.lm_config@ == (ConfigSpec {
                model: config.model@,
                temperature: opt_float(config.temperature),
                max_tokens: config.max_tokens,
                top_p: None,
                n: None,
            }),
    {
        let lm_config = LMConfig {
            model: config.model.clone(),
            temperature: copy_float(&config.temperature),
            max_tokens: config.max_tokens,
            top_p: None,
            n: None,
        };
        CodexLM { lm_config, cli_config: config, warned_temperature: false }
    }

    /// A model by its name.
    pub fn with_model(model: &str) -> (r: Self)
        ensures
            r.cli_config.model@ == model@,
            r.cli_config.temperature is None,
            r.cli_config.max_tokens is None,
            r.cli_config.system_prompt is None,
            r.cli_config.skip_git_check,
            r.cli_config.sandbox@ == "read-only"@,
            r.cli_config.reasoning_effort is None,
            r.cli_config.timeout_secs == 120,
            r.cli_config.retries == 2,
            r.cli_config.max_concurrent == 4,
            !r.warned_temperature,
            r.lm_config@ == (ConfigSpec {
                model: model@,
                temperature: None,
                max_tokens: None,
                top_p: None,
                n: None,
            }),
    {
        let mut config: CodexLMConfig = Default::default();
        config.model = model.to_owned();
        Self::new(config)
    }

    /// The name of the model.
    pub fn model(&self) -> (r: &str)
        ensures
            r@ == self.lm_config.model@,
    {
        self.lm_config.model.as_str()
    }

    /// How the model is called.
    pub fn config(&self) -> (r: &LMConfig)
        ensures
            *r == self.lm_config,
    {
        &self.lm_config
    }

    /// The model in JSON.
    pub fn dump_state(&self) -> (r: Json)
        ensures
            r@ == JsonSpec::Object(
                empty_object().insert("type"@, JsonSpec::Text(LABEL@)).insert(
                    "model"@,
                    JsonSpec::Text(self.lm_config.model@),
                ).insert("sandbox"@, JsonSpec::Text(self.cli_config.sandbox@)).insert(
                    "reasoning_effort"@,
                    text_or_null(opt_view(self.cli_config.reasoning_effort)),
                ),
            ),
    {
        let mut m = new_object();
        put_text(&mut m, "type", LABEL);
        put_text(&mut m, "model", self.lm_config.model.as_str());
        put_text(&mut m, "sandbox", self.cli_config.sandbox.as_str());
        put(&mut m, "reasoning_effort", Json::opt_text(&self.cli_config.reasoning_effort));
        Json::Object(m)
    }

    /// What is said, once, where a call sets a temperature other than zero.
    pub fn note_temperature(&mut self, is_set: bool) -> (r: Option<&'static str>)
        ensures
            match r {
                Some(t) => is_set && !old(self).warned_temperature && t@ == temperature_warning(),
                None => !is_set || old(self).warned_temperature,
            },
            *final(self) == (CodexLM {
                warned_temperature: is_set || old(self).warned_temperature,
                ..*old(self)
            }),
    {
        if is_set && !self.warned_temperature {
            self.warned_temperature = true;
            Some(
                "CodexLM: Codex CLI does not support temperature control. Temperature setting is ignored.",
            )
        } else {
            None
        }
    }

    /// The arguments that the program is run with.
    pub fn arguments(&self, messages: &Vec<Message>) -> (r: Vec<String>)
        ensures
            texts(r@) == codex_args(
                self.cli_config.skip_git_check,
                self.cli_config.sandbox@,
                system_text(message_list(messages@), opt_view(self.cli_config.system_prompt)),
                opt_view(self.cli_config.reasoning_effort),
                prompt_text(message_list(messages@)),
            ),
    {
        let default = match &self.cli_config.system_prompt {
            Some(s) => Some(s.as_str()),
            None => None,
        };
        let (system_prompt, prompt) = format_messages(messages, default);
        let mut args: Vec<String> = Vec::new();
        proof {
            assert(texts(args@) =~= Seq::<Seq<char>>::empty());
        }
        push_text(&mut args, "exec".to_string());
        if self.cli_config.skip_git_check {
            push_text(&mut args, "--skip-git-repo-check".to_string());
        }
        push_text(&mut args, "--sandbox".to_string());
        push_text(&mut args, self.cli_config.sandbox.clone());
        push_text(&mut args, "--json".to_string());
        if let Some(s) = system_prompt {
            push_text(&mut args, "-c".to_string());
            let mut t = "developer_instructions=".to_string();
            t.append(s.as_str());
            push_text(&mut args, t);
        }
        if let Some(s) = &self.cli_config.reasoning_effort {
            push_text(&mut args, "-c".to_string());
            let mut t = "reasoning_effort=".to_string();
            t.append(s.as_str());
            push_text(&mut args, t);
        }
        push_text(&mut args, "--".to_string());
        push_text(&mut args, prompt);
        args
    }

    /// Takes how a run of the program ended. An empty reply fails the call, and so does
    /// the run after which none may fail any more.
    pub fn on_outcome(&self, call: &mut CliCall, outcome: CliOutcome) -> (r: Result<()>)
        ensures
            ran(
                |t: Seq<char>| codex_output(t),
                LABEL@,
                self.cli_config.retries,
                self.cli_config.timeout_secs as nat,
                *old(call),
                outcome,
                *final(call),
                r,
            ),
    {
        proof {
            reveal_strlit("CodexLM");
        }
        let step = judge(
            outcome,
            call.attempt,
            self.cli_config.retries,
            LABEL,
            self.cli_config.timeout_secs,
        );
        let ghost s = step;
        let ghost read = |t: Seq<char>| codex_output(t);
        match step {
            CliStep::Output(stdout) => match parse_codex_output(stdout.as_str()) {
                Ok(text) => {
                    call.take_reply(text);
                    proof {
                        assert(goes_on(s, read, *old(call), *call, Ok(())));
                    }
                    Ok(())
                },
                Err(e) => {
                    proof {
                        assert(goes_on(s, read, *old(call), *call, Err(e)));
                    }
                    Err(e)
                },
            },
            CliStep::Again => {
                call.attempt = call.attempt + 1;
                proof {
                    assert(goes_on(s, read, *old(call), *call, Ok(())));
                }
                Ok(())
            },
            CliStep::Fail(e) => {
                proof {
                    assert(goes_on(s, read, *old(call), *call, Err(e)));
                }
                Err(e)
            },
        }
    }
}

} // verus!
