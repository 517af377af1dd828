//! A model that is reached through the program that [`ClaudeLM`] is named after.

use crate::cli::{
    format_messages, goes_on, judge, program_title, prompt_text, ran, system_text, title_of,
    CliCall, CliOutcome, CliStep,
};
use crate::error::{is_other_error, DspyError, Result};
use crate::json::{
    empty_object, member_of, member_text, new_object, parsed_json, printed_json, put, put_text,
    text_in, text_or_null, Json, JsonFloat, JsonSpec,
};
use crate::lm::{copy_float, opt_float, ConfigSpec, LMConfig};
use crate::message::{message_list, Message};
use crate::signature::opt_view;
use crate::text::{push_text, texts, trim, trim_of};
use vstd::prelude::*;

verus! {

/// The label of the model.
pub const LABEL: &'static str = "ClaudeLM";

/// The variable that tells the program what its arguments cannot.
pub const EXTRA_BODY_VARIABLE: &'static str = "CLAUDE_CODE_EXTRA_BODY";

/// How the program is used.
#[derive(Debug)]
pub struct ClaudeLMConfig {
    pub model: String,
    pub temperature: Option<JsonFloat>,
    pub max_tokens: Option<u32>,
    /// What the system says where no message does.
    pub system_prompt: Option<String>,
    pub disable_tools: bool,
    pub timeout_secs: u64,
    /// How many runs may fail before a call does.
    pub retries: u32,
    pub max_concurrent: usize,
}

impl Default for ClaudeLMConfig {
    fn default() -> (r: Self)
        ensures
            r.model@ == "sonnet"@,
            r.temperature is None,
            r.max_tokens is None,
            r.system_prompt is None,
            r.disable_tools,
            r.timeout_secs == 60,
            r.retries == 2,
            r.max_concurrent == 4,
    {
        ClaudeLMConfig {
            model: "sonnet".to_string(),
            temperature: None,
            max_tokens: None,
            system_prompt: None,
            disable_tools: true,
            timeout_secs: 60,
            retries: 2,
            max_concurrent: 4,
        }
    }
}

/// A model that is reached through the program.
#[derive(Debug)]
pub struct ClaudeLM {
    pub lm_config: LMConfig,
    pub cli_config: ClaudeLMConfig,
}

/// What the program is told beside its arguments.
pub open spec fn extra_of(c: ConfigSpec) -> Map<Seq<char>, JsonSpec> {
    let m = empty_object();
    let m = match c.temperature {
        Some(t) => m.insert("temperature"@, JsonSpec::Float(t)),
        None => m,
    };
    match c.top_p {
        Some(t) => m.insert("top_p"@, JsonSpec::Float(t)),
        None => m,
    }
}

/// The arguments of the program.
pub open spec fn claude_args(
    model: Seq<char>,
    disable_tools: bool,
    system: Option<Seq<char>>,
) -> Seq<Seq<char>> {
    let first = seq![
        "-p"@,
        "--print"@,
        "--output-format"@,
        "json"@,
        "--no-session-persistence"@,
        "--model"@,
        model,
    ];
    let tools = if disable_tools {
        first.push("--tools"@).push(Seq::<char>::empty())
    } else {
        first
    };
    match system {
        Some(s) => tools.push("--system-prompt"@).push(s),
        None => tools,
    }
}

/// The reply in a JSON value that the program wrote.
pub open spec fn claude_reply(j: JsonSpec) -> Option<Seq<char>> {
    match member_of(j, "structured_output"@) {
        Some(s) if s != JsonSpec::Null => match text_in(s) {
            Some(t) => Some(t),
            None => Some(printed_json(s)),
        },
        _ => match member_text(j, "result"@) {
            Some(t) if t.len() > 0 => Some(t),
            _ => None,
        },
    }
}

/// The reply in what the program wrote, or why there is none.
pub open spec fn claude_output(stdout: Seq<char>) -> std::result::Result<Seq<char>, Seq<char>> {
    let text = trim_of(stdout);
    if text.len() == 0 {
        Err("Empty response from "@ + title_of(LABEL@) + " CLI"@)
    } else {
        match parsed_json(text) {
            Err(e) => Err("Invalid JSON from "@ + title_of(LABEL@) + " CLI: "@ + e),
            Ok(j) => match claude_reply(j) {
                Some(t) => Ok(t),
                None => Err("Empty result in "@ + title_of(LABEL@) + " CLI response"@),
            },
        }
    }
}

/// A result gives a reply, or fails with a text.
pub open spec fn gives_reply(
    r: Result<String>,
    want: std::result::Result<Seq<char>, Seq<char>>,
) -> bool {
    match want {
        Ok(t) => r matches Ok(s) && s@ == t,
        Err(m) => r matches Err(e) && is_other_error(e, m),
    }
}

/// The text that a JSON value is, or else its printed form.
pub fn text_or_printed(j: &Json) -> (r: String)
    ensures
        r@ == match text_in(j@) {
            Some(t) => t,
            None => printed_json(j@),
        },
{
    match j.as_str() {
        Some(s) => s.to_owned(),
        None => j.to_text(),
    }
}

/// A text with the name of the program in it.
fn named_text(before: &str, after: &str) -> (r: String)
    ensures
        r@ == before@ + title_of(LABEL@) + after@,
{
    proof {
        reveal_strlit("ClaudeLM");
    }
    let mut r = before.to_owned();
    let title = program_title(LABEL);
    r.append(title.as_str());
    r.append(after);
    r
}

/// The reply in a JSON value that the program wrote.
pub fn claude_reply_in(data: &Json) -> (r: Result<String>)
    ensures
        gives_reply(
            r,
            match claude_reply(data@) {
                Some(t) => Ok(t),
                None => Err("Empty result in "@ + title_of(LABEL@) + " CLI response"@),
            },
        ),
{
    if let Some(so) = data.get("structured_output") {
        if !so.is_null() {
            return Ok(text_or_printed(so));
        }
    }
    match data.get_str("result") {
        Some(t) => {
            if t.unicode_len() > 0 {
                return Ok(t.to_owned());
            }
        },
        None => {},
    }
    Err(DspyError::Other(named_text("Empty result in ", " CLI response")))
}

/// The reply in what the program wrote.
pub fn parse_claude_output(stdout: &str) -> (r: Result<String>)
    ensures
        gives_reply(r, claude_output(stdout@)),
{
    let trimmed = trim(stdout);
    if trimmed.as_str().unicode_len() == 0 {
        return Err(DspyError::Other(named_text("Empty response from ", " CLI")));
    }
    match Json::parse(trimmed.as_str()) {
        Ok(data) => claude_reply_in(&data),
        Err(e) => {
            let mut m = named_text("Invalid JSON from ", " CLI: ");
            m.append(e.as_str());
            Err(DspyError::Other(m))
        },
    }
}

impl ClaudeLM {
    /// A model that is reached as a configuration says.
    pub fn new(config: ClaudeLMConfig) -> (r: Self)
        ensures
            r.cli_config == config,
            r.lm_config@ == (ConfigSpec {
                model: config.model@,
                temperature: opt_float(config.temperature),
                max_tokens: config.max_tokens,
                top_p: None,
                n: None,
            }),
    {
        let lm_config = LMConfig {
            model: config.model.clone(),
            temperature: copy_float(&config.temperature),
            max_tokens: config.max_tokens,
            top_p: None,
            n: None,
        };
        ClaudeLM { lm_config, cli_config: config }
    }

    /// A model by its name.
    pub fn with_model(model: &str) -> (r: Self)
        ensures
            r.cli_config.model@ == model@,
            r.cli_config.temperature is None,
            r.cli_config.max_tokens is None,
            r.cli_config.system_prompt is None,
            r.cli_config.disable_tools,
            r.cli_config.timeout_secs == 60,
            r.cli_config.retries == 2,
            r.cli_config.max_concurrent == 4,
            r.lm_config@ == (ConfigSpec {
                model: model@,
                temperature: None,
                max_tokens: None,
                top_p: None,
                n: None,
            }),
    {
        let mut config: ClaudeLMConfig = Default::default();
        config.model = model.to_owned();
        Self::new(config)
    }

    /// The name of the model.
    pub fn model(&self) -> (r: &str)
        ensures
            r@ == self.lm_config.model@,
    {
        self.lm_config.model.as_str()
    }

    /// How the model is called.
    pub fn config(&self) -> (r: &LMConfig)
        ensures
            *r == self.lm_config,
    {
        &self.lm_config
    }

    /// The model in JSON.
    pub fn dump_state(&self) -> (r: Json)
        ensures
            r@ == JsonSpec::Object(
                empty_object().insert("type"@, JsonSpec::Text(LABEL@)).insert(
                    "model"@,
                    JsonSpec::Text(self.lm_config.model@),
                ).insert(
                    "temperature"@,
                    match opt_float(self.lm_config.temperature) {
                        Some(t) => JsonSpec::Float(t),
                        None => JsonSpec::Null,
                    },
                ).insert("disable_tools"@, JsonSpec::Bool(self.cli_config.disable_tools)).insert(
                    "system_prompt"@,
                    text_or_null(opt_view(self.cli_config.system_prompt)),
                ),
            ),
    {
        let mut m = new_object();
        put_text(&mut m, "type", LABEL);
        put_text(&mut m, "model", self.lm_config.model.as_str());
        let temperature = match &self.lm_config.temperature {
            Some(t) => Json::Float(t.copy()),
            None => Json::Null,
        };
        put(&mut m, "temperature", temperature);
        put(&mut m, "disable_tools", Json::Bool(self.cli_config.disable_tools));
        put(&mut m, "system_prompt", Json::opt_text(&self.cli_config.system_prompt));
        Json::Object(m)
    }

    /// The arguments that the program is run with, and what it is given to read.
    pub fn arguments(&self, messages: &Vec<Message>, config: &LMConfig) -> (r: (
        Vec<String>,
        String,
    ))
        ensures
            texts(r.0@) == claude_args(
                config.model@,
                self.cli_config.disable_tools,
                system_text(message_list(messages@), opt_view(self.cli_config.system_prompt)),
            ),
            r.1@ == prompt_text(message_list(messages@)),
    {
        let default = match &self.cli_config.system_prompt {
            Some(s) => Some(s.as_str()),
            None => None,
        };
        let (system_prompt, prompt) = format_messages(messages, default);
        let mut args: Vec<String> = Vec::new();
        proof {
            assert(texts(args@) =~= Seq::<Seq<char>>::empty());
        }
        push_text(&mut args, "-p".to_string());
        push_text(&mut args, "--print".to_string());
        push_text(&mut args, "--output-format".to_string());
        push_text(&mut args, "json".to_string());
        push_text(&mut args, "--no-session-persistence".to_string());
        push_text(&mut args, "--model".to_string());
        push_text(&mut args, config.model.clone());
        if self.cli_config.disable_tools {
            push_text(&mut args, "--tools".to_string());
            let nothing = String::new();
            proof {
                assert(nothing@ =~= Seq::<char>::empty());
            }
            push_text(&mut args, nothing);
        }
        if let Some(s) = system_prompt {
            push_text(&mut args, "--system-prompt".to_string());
            push_text(&mut args, s);
        }
        (args, prompt)
    }

    /// What the variable [`EXTRA_BODY_VARIABLE`] holds while the program runs, where
    /// it is set.
    pub fn extra_body(&self, config: &LMConfig) -> (r: Option<String>)
        ensures
            match r {
                Some(t) => (config.temperature is Some || config.top_p is Some) && t@
                    == printed_json(JsonSpec::Object(extra_of(config@))),
                None => config.temperature is None && config.top_p is None,
            },
    {
        if config.temperature.is_none() && config.top_p.is_none() {
            return None;
        }
        let mut m = new_object();
        if let Some(t) = &config.temperature {
            put(&mut m, "temperature", Json::Float(t.copy()));
        }
        if let Some(t) = &config.top_p {
            put(&mut m, "top_p", Json::Float(t.copy()));
        }
        Some(Json::Object(m).to_text())
    }

    /// Takes how a run of the program ended. A reply that cannot be read fails the
    /// call, and so does the run after which none may fail any more.
    pub fn on_outcome(&self, call: &mut CliCall, outcome: CliOutcome) -> (r: Result<()>)
        ensures
            ran(
                |t: Seq<char>| claude_output(t),
                LABEL@,
                self.cli_config.retries,
                self.cli_config.timeout_secs as nat,
                *old(call),
                outcome,
                *final(call),
                r,
            ),
    {
        proof {
            reveal_strlit("ClaudeLM");
        }
        let step = judge(
            outcome,
            call.attempt,
            self.cli_config.retries,
            LABEL,
            self.cli_config.timeout_secs,
        );
        let ghost s = step;
        let ghost read = |t: Seq<char>| claude_output(t);
        match step {
            CliStep::Output(stdout) => match parse_claude_output(stdout.as_str()) {
                Ok(text) => {
                    call.take_reply(text);
                    proof {
                        assert(goes_on(s, read, *old(call), *call, Ok(())));
                    }
                    Ok(())
                },
                Err(e) => {
                    proof {
                        assert(goes_on(s, read, *old(call), *call, Err(e)));
                    }
                    Err(e)
                },
            },
            CliStep::Again => {
                call.attempt = call.attempt + 1;
                proof {
                    assert(goes_on(s, read, *old(call), *call, Ok(())));
                }
                Ok(())
            },
            CliStep::Fail(e) => {
                proof {
                    assert(goes_on(s, read, *old(call), *call, Err(e)));
                }
                Err(e)
            },
        }
    }
}

} // verus!
