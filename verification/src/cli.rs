//! Models that are reached through a command line program: the prompt that the
//! program is given, and what follows from how a run of it ends.

use crate::adapter_types::opt_str;
use crate::error::{is_other_error, DspyError, Result};
use crate::lm::{LMConfig, LMResponse};
use crate::message::{message_list, Message, MessageSpec};
use crate::signature::opt_view;
use crate::text::{
    chars_of, dec, dec_int, dec_of, dec_signed, join, join_of, push_text, same, slice_text, texts,
    trim, trim_of,
};
use crate::unicode::{ascii_lowered, lower_char, to_uppercase, upper_of};
use vstd::prelude::*;

verus! {

// ---------------------------------------------------------------------------
// Names
// ---------------------------------------------------------------------------

/// The name of the program that a model is reached through, as it stands in
/// messages: the model's label without the `LM` at its end.
pub open spec fn title_of(label: Seq<char>) -> Seq<char> {
    label.subrange(0, label.len() - 2)
}

/// The name of the program as it is run: in lower case.
pub open spec fn program_of(label: Seq<char>) -> Seq<char> {
    ascii_lowered(title_of(label))
}

/// The name of a model's program, as it stands in messages.
pub fn program_title(label: &str) -> (r: String)
    requires
        label@.len() >= 2,
    ensures
        r@ == title_of(label@),
{
    let v = chars_of(label);
    slice_text(&v, 0, v.len() - 2)
}

/// The name of a model's program, as it is run.
pub fn program_name(label: &str) -> (r: String)
    requires
        label@.len() >= 2,
    ensures
        r@ == program_of(label@),
{
    let v = chars_of(label);
    let n: usize = v.len() - 2;
    let mut r = String::new();
    let ghost want = program_of(label@);
    proof {
        assert(r@ =~= want.take(0));
    }
    let mut i: usize = 0;
    while i < n
        invariant
            i <= n,
            n == v@.len() - 2,
            v@ == label@,
            want == program_of(label@),
            r@ == want.take(i as int),
        decreases n - i,
    {
        r.push(lower_char(v[i]));
        proof {
            assert(want.take(i + 1) =~= want.take(i as int).push(want[i as int]));
        }
        i += 1;
    }
    proof {
        assert(want.take(n as int) =~= want);
    }
    r
}

// ---------------------------------------------------------------------------
// The prompt
// ---------------------------------------------------------------------------

/// The line that a message makes in a prompt.
pub open spec fn labelled(m: MessageSpec) -> Seq<char> {
    "["@ + upper_of(m.role) + "]: "@ + m.content
}

/// Where the first message of the system stands.
pub open spec fn first_system(m: Seq<MessageSpec>) -> Option<int>
    decreases m.len(),
{
    if m.len() == 0 {
        None
    } else {
        match first_system(m.drop_last()) {
            Some(i) => Some(i),
            None => if m.last().role == "system"@ {
                Some(m.len() - 1)
            } else {
                None
            },
        }
    }
}

/// The messages without the first of the system.
pub open spec fn after_system(m: Seq<MessageSpec>) -> Seq<MessageSpec> {
    match first_system(m) {
        Some(i) => m.remove(i),
        None => m,
    }
}

/// What the system says: its first message, or else what it says by default.
pub open spec fn system_text(m: Seq<MessageSpec>, default: Option<Seq<char>>) -> Option<Seq<char>> {
    match first_system(m) {
        Some(i) => Some(m[i].content),
        None => default,
    }
}

/// The prompt that messages make.
pub open spec fn prompt_text(m: Seq<MessageSpec>) -> Seq<char> {
    join_of(after_system(m).map_values(|x: MessageSpec| labelled(x)), "\n\n"@)
}

/// The first message of the system stands among the messages.
pub proof fn lemma_first_system(m: Seq<MessageSpec>)
    ensures
        match first_system(m) {
            Some(i) => 0 <= i < m.len() && m[i].role == "system"@ && forall|k: int|
                0 <= k < i ==> (#[trigger] m[k]).role != "system"@,
            None => forall|k: int| 0 <= k < m.len() ==> (#[trigger] m[k]).role != "system"@,
        },
    decreases m.len(),
{
    if m.len() > 0 {
        let d = m.drop_last();
        lemma_first_system(d);
        assert forall|k: int| 0 <= k < d.len() implies d[k] == m[k] by {}
        if first_system(d) is None {
            assert forall|k: int| 0 <= k < m.len() - 1 implies (#[trigger] m[k]).role
                != "system"@ by {
                assert(d[k] == m[k]);
            }
        } else {
            let i = first_system(d)->Some_0;
            assert forall|k: int| 0 <= k < i implies (#[trigger] m[k]).role != "system"@ by {
                assert(d[k] == m[k]);
            }
        }
    }
}

/// The line that a message makes in a prompt.
fn labelled_line(m: &Message) -> (r: String)
    ensures
        r@ == labelled(m@),
{
    let mut r = "[".to_string();
    let role = to_uppercase(m.role.as_str());
    r.append(role.as_str());
    r.append("]: ");
    r.append(m.content.as_str());
    r
}

/// What the system says, and the prompt that the other messages make.
pub fn format_messages(messages: &Vec<Message>, default_system_prompt: Option<&str>) -> (r: (
    Option<String>,
    String,
))
    ensures
        opt_view(r.0) == system_text(message_list(messages@), opt_str(default_system_prompt)),
        r.1@ == prompt_text(message_list(messages@)),
{
    let ghost all = message_list(messages@);
    let mut system_prompt: Option<String> = None;
    let mut parts: Vec<String> = Vec::new();
    let mut i: usize = 0;
    proof {
        assert(all.take(0) =~= Seq::<MessageSpec>::empty());
        assert(texts(parts@) =~= after_system(all.take(0)).map_values(
            |x: MessageSpec| labelled(x),
        ));
    }
    while i < messages.len()
        invariant
            all == message_list(messages@),
            i <= messages@.len(),
            match first_system(all.take(i as int)) {
                Some(k) => 0 <= k < i && opt_view(system_prompt) == Some(all[k].content),
                None => system_prompt is None,
            },
            texts(parts@) == after_system(all.take(i as int)).map_values(
                |x: MessageSpec| labelled(x),
            ),
        decreases messages@.len() - i,
    {
        let m = &messages[i];
        let ghost now = all.take(i as int);
        let ghost next = all.take(i + 1);
        proof {
            assert(next.drop_last() =~= now);
            assert(next.last() == m@);
            assert(next =~= now.push(m@));
            lemma_first_system(now);
        }
        if same(m.role.as_str(), "system") && system_prompt.is_none() {
            system_prompt = Some(m.content.clone());
            proof {
                assert(first_system(next) == Some(i as int));
                assert(next.remove(i as int) =~= now);
            }
        } else {
            push_text(&mut parts, labelled_line(m));
            proof {
                assert(first_system(next) == first_system(now));
                assert(after_system(next) =~= after_system(now).push(m@));
                assert(after_system(next).map_values(|x: MessageSpec| labelled(x))
                    =~= after_system(now).map_values(|x: MessageSpec| labelled(x)).push(
                    labelled(m@),
                ));
            }
        }
        i += 1;
    }
    proof {
        assert(all.take(i as int) =~= all);
    }
    let prompt = join(&parts, "\n\n");
    let system = match system_prompt {
        Some(s) => Some(s),
        None => match default_system_prompt {
            Some(s) => Some(s.to_owned()),
            None => None,
        },
    };
    (system, prompt)
}

/// All that is said goes to the program: the system's first message apart, and every
/// other message in the prompt, in order.
pub proof fn law_nothing_said_is_lost(m: Seq<MessageSpec>)
    ensures
        match first_system(m) {
            Some(i) => after_system(m).insert(i, m[i]) == m && system_text(m, None) == Some(
                m[i].content,
            ),
            None => after_system(m) == m && forall|k: int|
                0 <= k < m.len() ==> (#[trigger] m[k]).role != "system"@,
        },
{
    lemma_first_system(m);
    if let Some(i) = first_system(m) {
        assert(after_system(m).insert(i, m[i]) =~= m);
    }
}

// ---------------------------------------------------------------------------
// Runs of the program
// ---------------------------------------------------------------------------

/// How a run of the program ended.
#[derive(Debug)]
pub enum CliOutcome {
    /// It ran to its end.
    Exited { success: bool, code: Option<i32>, stdout: String, stderr: String },
    /// It could not be started.
    NotStarted(String),
    /// Its output could not be read.
    Broken(String),
    /// It took too long.
    TimedOut,
}

/// How an optional exit code is shown.
pub open spec fn code_text(code: Option<i32>) -> Seq<char> {
    match code {
        Some(n) => "Some("@ + dec_int(n as int) + ")"@,
        None => "None"@,
    }
}

/// Why a run of a model's program gave no reply.
pub open spec fn failure_text(o: CliOutcome, label: Seq<char>, timeout_secs: nat) -> Seq<char> {
    let title = title_of(label);
    match o {
        CliOutcome::Exited { success, code, stdout, stderr } => title + " CLI exited with code "@
            + code_text(code) + ": "@ + trim_of(stderr@),
        CliOutcome::NotStarted(e) => "Failed to spawn "@ + program_of(label) + " CLI: "@ + e@,
        CliOutcome::Broken(e) => title + " CLI error: "@ + e@,
        CliOutcome::TimedOut => title + " CLI timed out after "@ + dec_of(timeout_secs) + "s"@,
    }
}

/// A run ended well.
pub open spec fn ended_well(o: CliOutcome) -> bool {
    match o {
        CliOutcome::Exited { success, code, stdout, stderr } => success,
        _ => false,
    }
}

fn show_code(code: Option<i32>) -> (r: String)
    ensures
        r@ == code_text(code),
{
    match code {
        Some(n) => {
            let mut r = "Some(".to_string();
            let d = dec_signed(n as i64);
            r.append(d.as_str());
            r.append(")");
            r
        },
        None => "None".to_string(),
    }
}

/// Why a run gave no reply.
pub fn failure_message(o: &CliOutcome, label: &str, timeout_secs: u64) -> (r: String)
    requires
        label@.len() >= 2,
    ensures
        r@ == failure_text(*o, label@, timeout_secs as nat),
{
    let title = program_title(label);
    match o {
        CliOutcome::Exited { success: _, code, stdout: _, stderr } => {
            let mut r = title;
            r.append(" CLI exited with code ");
            let c = show_code(*code);
            r.append(c.as_str());
            r.append(": ");
            let t = trim(stderr.as_str());
            r.append(t.as_str());
            r
        },
        CliOutcome::NotStarted(e) => {
            let mut r = "Failed to spawn ".to_string();
            let program = program_name(label);
            r.append(program.as_str());
            r.append(" CLI: ");
            r.append(e.as_str());
            r
        },
        CliOutcome::Broken(e) => {
            let mut r = title;
            r.append(" CLI error: ");
            r.append(e.as_str());
            r
        },
        CliOutcome::TimedOut => {
            let mut r = title;
            r.append(" CLI timed out after ");
            let d = dec(timeout_secs);
            r.append(d.as_str());
            r.append("s");
            r
        },
    }
}

/// What follows from a run.
#[derive(Debug)]
pub enum CliStep {
    /// The program wrote this.
    Output(String),
    /// The program is to be run again.
    Again,
    /// The call fails.
    Fail(DspyError),
}

/// What follows from the run after `attempt` others, of which `retries` may fail.
pub open spec fn follows(
    r: CliStep,
    o: CliOutcome,
    attempt: u32,
    retries: u32,
    label: Seq<char>,
    timeout_secs: nat,
) -> bool {
    if ended_well(o) {
        r matches CliStep::Output(s) && s == o->stdout
    } else if attempt < retries {
        r is Again
    } else {
        r matches CliStep::Fail(e) && is_other_error(e, failure_text(o, label, timeout_secs))
    }
}

/// What follows from a run.
pub fn judge(
    o: CliOutcome,
    attempt: u32,
    retries: u32,
    label: &str,
    timeout_secs: u64,
) -> (r: CliStep)
    requires
        label@.len() >= 2,
    ensures
        follows(r, o, attempt, retries, label@, timeout_secs as nat),
{
    let well = match &o {
        CliOutcome::Exited { success, code: _, stdout: _, stderr: _ } => *success,
        _ => false,
    };
    if well {
        match o {
            CliOutcome::Exited { success: _, code: _, stdout, stderr: _ } => CliStep::Output(stdout),
            _ => CliStep::Again,
        }
    } else if attempt < retries {
        CliStep::Again
    } else {
        CliStep::Fail(DspyError::Other(failure_message(&o, label, timeout_secs)))
    }
}

/// A call of the model on its way: one run of the program for each reply, and more
/// where a run fails.
#[derive(Debug)]
pub struct CliCall {
    /// How many replies are wanted.
    pub wanted: u32,
    /// How many runs have failed since the last reply.
    pub attempt: u32,
    /// The replies that have come.
    pub results: Vec<LMResponse>,
}

impl CliCall {
    /// A call that has not begun.
    pub fn new(config: &LMConfig) -> (r: Self)
        ensures
            r.wanted == match config.n {
                Some(n) => n,
                None => 1,
            },
            r.attempt == 0,
            r.results@ == Seq::<LMResponse>::empty(),
    {
        let wanted: u32 = match config.n {
            Some(n) => n,
            None => 1,
        };
        CliCall { wanted, attempt: 0, results: Vec::new() }
    }

    /// Whether the program is to be run once more.
    pub fn wants_more(&self) -> (r: bool)
        ensures
            r == (self.results@.len() < self.wanted),
    {
        self.results.len() < self.wanted as usize
    }

    /// The call after a reply.
    pub open spec fn replied(self, before: Self, text: Seq<char>) -> bool {
        &&& self.wanted == before.wanted
        &&& self.attempt == 0
        &&& self.results@.len() == before.results@.len() + 1
        &&& self.results@.drop_last() == before.results@
        &&& self.results@.last().text@ == text
        &&& self.results@.last().usage is None
    }

    /// Takes a reply.
    pub(crate) fn take_reply(&mut self, text: String)
        ensures
            final(self).replied(*old(self), text@),
    {
        self.attempt = 0;
        self.results.push(LMResponse::new(text, None));
        proof {
            assert(self.results@.drop_last() =~= old(self).results@);
        }
    }
}

/// How a call goes on after a step, where `read` finds the reply in an output.
pub open spec fn goes_on(
    step: CliStep,
    read: spec_fn(Seq<char>) -> std::result::Result<Seq<char>, Seq<char>>,
    before: CliCall,
    after: CliCall,
    r: Result<()>,
) -> bool {
    match step {
        CliStep::Output(s) => match read(s@) {
            Ok(t) => r is Ok && after.replied(before, t),
            Err(m) => after == before && match r {
                Ok(_) => false,
                Err(e) => is_other_error(e, m),
            },
        },
        CliStep::Again => r is Ok && after == (CliCall {
            attempt: (before.attempt + 1) as u32,
            ..before
        }),
        CliStep::Fail(e) => r == Err::<(), DspyError>(e) && after == before,
    }
}

/// How a call goes on after a run that ended with `outcome`, where `retries` runs may
/// fail before the call does.
pub open spec fn ran(
    read: spec_fn(Seq<char>) -> std::result::Result<Seq<char>, Seq<char>>,
    label: Seq<char>,
    retries: u32,
    timeout_secs: nat,
    before: CliCall,
    outcome: CliOutcome,
    after: CliCall,
    r: Result<()>,
) -> bool {
    exists|s: CliStep|
        #[trigger] follows(s, outcome, before.attempt, retries, label, timeout_secs) && goes_on(
            s,
            read,
            before,
            after,
            r,
        )
}

/// A call from its beginning: what it was before each run of the program and after the
/// last, how the runs ended, and what came of each. The program is run only while a
/// reply is wanted, and not after a run that failed the call.
pub open spec fn call_so_far(
    read: spec_fn(Seq<char>) -> std::result::Result<Seq<char>, Seq<char>>,
    label: Seq<char>,
    retries: u32,
    timeout_secs: nat,
    calls: Seq<CliCall>,
    outcomes: Seq<CliOutcome>,
    came: Seq<Result<()>>,
) -> bool {
    &&& calls.len() == outcomes.len() + 1
    &&& came.len() == outcomes.len()
    &&& calls[0].attempt == 0
    &&& calls[0].results@.len() == 0
    &&& forall|i: int|
        0 <= i < outcomes.len() ==> {
            &&& (#[trigger] calls[i]).results@.len() < calls[i].wanted
            &&& ran(
                read,
                label,
                retries,
                timeout_secs,
                calls[i],
                outcomes[i],
                calls[i + 1],
                came[i],
            )
            &&& i + 1 < outcomes.len() ==> came[i] is Ok
        }
}

proof fn lemma_before_a_run(
    read: spec_fn(Seq<char>) -> std::result::Result<Seq<char>, Seq<char>>,
    label: Seq<char>,
    retries: u32,
    timeout_secs: nat,
    calls: Seq<CliCall>,
    outcomes: Seq<CliOutcome>,
    came: Seq<Result<()>>,
    i: int,
)
    requires
        call_so_far(read, label, retries, timeout_secs, calls, outcomes, came),
        0 <= i < outcomes.len(),
    ensures
        calls[i].wanted == calls[0].wanted,
        calls[i].attempt <= retries,
        i <= calls[i].results@.len() * (retries + 1) + calls[i].attempt,
    decreases i,
{
    if i > 0 {
        let p = i - 1;
        lemma_before_a_run(read, label, retries, timeout_secs, calls, outcomes, came, p);
        assert(calls[p].results@.len() < calls[p].wanted && came[p] is Ok);
        let before = calls[p].results@.len() as int;
        let after = calls[i].results@.len() as int;
        if after == before + 1 {
            assert(after * (retries + 1) == before * (retries + 1) + (retries + 1))
                by (nonlinear_arith)
                requires
                    after == before + 1,
            ;
        }
    } else {
        assert(calls[0].results@.len() * (retries + 1) == 0) by (nonlinear_arith)
            requires
                calls[0].results@.len() == 0,
        ;
    }
}

proof fn lemma_runs_for_one_reply(
    read: spec_fn(Seq<char>) -> std::result::Result<Seq<char>, Seq<char>>,
    label: Seq<char>,
    retries: u32,
    timeout_secs: nat,
    calls: Seq<CliCall>,
    outcomes: Seq<CliOutcome>,
    came: Seq<Result<()>>,
    i: int,
    j: int,
)
    requires
        call_so_far(read, label, retries, timeout_secs, calls, outcomes, came),
        0 <= i <= j < outcomes.len(),
    ensures
        calls[i].results@.len() <= calls[j].results@.len(),
        calls[i].results@.len() == calls[j].results@.len() ==> calls[j].attempt
            == calls[i].attempt + (j - i),
    decreases j - i,
{
    if i < j {
        let p = j - 1;
        lemma_runs_for_one_reply(
            read,
            label,
            retries,
            timeout_secs,
            calls,
            outcomes,
            came,
            i,
            p,
        );
        assert(calls[p].results@.len() < calls[p].wanted && came[p] is Ok);
    }
}

/// For one reply a call runs the program once and then at most `retries` times more,
/// and so for all its replies at most `retries + 1` times as often as there are replies
/// wanted. A run that fails the call for want of a reply is the last of those.
pub proof fn law_runs_are_bounded(
    read: spec_fn(Seq<char>) -> std::result::Result<Seq<char>, Seq<char>>,
    label: Seq<char>,
    retries: u32,
    timeout_secs: nat,
    calls: Seq<CliCall>,
    outcomes: Seq<CliOutcome>,
    came: Seq<Result<()>>,
)
    requires
        call_so_far(read, label, retries, timeout_secs, calls, outcomes, came),
    ensures
        outcomes.len() <= calls[0].wanted * (retries + 1),
        forall|i: int, j: int|
            0 <= i <= j < outcomes.len() && (#[trigger] calls[i]).results@.len() == (
            #[trigger] calls[j]).results@.len() ==> j - i <= retries,
        forall|i: int|
            0 <= i < outcomes.len() && (#[trigger] came[i]) is Err && !ended_well(outcomes[i])
                ==> calls[i].attempt == retries,
{
    let n = outcomes.len() as int;
    if n > 0 {
        let p = n - 1;
        lemma_before_a_run(read, label, retries, timeout_secs, calls, outcomes, came, p);
        let got = calls[p].results@.len() as int;
        let wanted = calls[0].wanted as int;
        assert(got < wanted);
        assert((got + 1) * (retries + 1) <= wanted * (retries + 1)) by (nonlinear_arith)
            requires
                got + 1 <= wanted,
        ;
        assert((got + 1) * (retries + 1) == got * (retries + 1) + (retries + 1))
            by (nonlinear_arith);
    } else {
        assert(0 <= calls[0].wanted * (retries + 1)) by (nonlinear_arith);
    }
    assert forall|i: int, j: int|
        0 <= i <= j < outcomes.len() && (#[trigger] calls[i]).results@.len() == (
        #[trigger] calls[j]).results@.len() implies j - i <= retries by {
        lemma_runs_for_one_reply(
            read,
            label,
            retries,
            timeout_secs,
            calls,
            outcomes,
            came,
            i,
            j,
        );
        lemma_before_a_run(read, label, retries, timeout_secs, calls, outcomes, came, j);
    }
    assert forall|i: int|
        0 <= i < outcomes.len() && (#[trigger] came[i]) is Err && !ended_well(
            outcomes[i],
        ) implies calls[i].attempt == retries by {
        assert(calls[i].results@.len() < calls[i].wanted);
        lemma_before_a_run(read, label, retries, timeout_secs, calls, outcomes, came, i);
    }
}

} // verus!
