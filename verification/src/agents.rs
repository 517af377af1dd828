//! What agents are told and what they keep: their tools, their steps so far, and the
//! outputs that they hand in.

use crate::code_act::{
    agent_text, code_act_parts, code_act_sig, code_extract_sig, function_lines, input_texts,
    shown_trajectory, trajectory_field,
};
use crate::example::ExampleSpec;
use crate::json::{pretty_json, printed_json, JsonSpec};
use crate::multi_chain_comparison::{attempt_text, first_line_of, with_attempt_texts};
use crate::program_of_thought::{generated_code_field, program_fields, program_sig, ProgramMode};
use crate::prompt::{
    asked_fields, given_fields, lemma_fields, lemma_joined_say, lemma_part_says, lemma_parts_say,
    lemma_says_both, lemma_says_itself, lemma_says_nothing, lemma_says_within, lemma_ticked, says,
    ticked_name, told,
};
use crate::react::{
    bare_fields, named_args, react_extract_sig, react_parts, react_sig, tool_lines, tool_names,
    tools_by_name, with_call,
};
use crate::repl_types::{
    entry_text, entry_texts, history_text, shown_output, variable_lines, EntrySpec, REPLVariable,
};
use crate::rlm::{
    action_fields, action_inputs, action_sig, extract_fields_of, extract_inputs, extract_sig,
    final_outcome, missing_names, variables_text,
};
use crate::signature::{
    distinct, lemma_name_index, lemma_upsert_all_fresh, name_index, names, of_type, upsert_all,
    FieldSpec, FieldType, SigSpec,
};
use crate::text::{
    byte_len_of, byte_prefix_of, cuts_cleanly, dec_of, join_of, lemma_clean_cut, lemma_dec_reads,
};
use crate::tool::{quoted_list, tool_text, Tool};
use crate::trajectory::texts_object;
use crate::value::{shown, ValueSpec};
use vstd::prelude::*;

verus! {

// ---------------------------------------------------------------------------
// Steps in a session
// ---------------------------------------------------------------------------

/// What is said of a step: its number, its reasoning where it has any, its code, and its
/// output or as much of it as may be shown.
pub open spec fn step_told(e: EntrySpec, i: int, max: nat) -> Seq<Seq<char>> {
    seq!["=== Step "@ + dec_of((i + 1) as nat) + " ==="@] + (if e.reasoning.len() > 0 {
        seq![e.reasoning]
    } else {
        Seq::empty()
    }) + seq![
        e.code,
        if byte_len_of(e.output) > max {
            byte_prefix_of(e.output, max as int)
        } else {
            e.output
        },
    ]
}

/// What is said of steps, one after the other.
pub open spec fn steps_told(h: Seq<EntrySpec>, max: nat) -> Seq<Seq<char>>
    decreases h.len(),
{
    if h.len() == 0 {
        Seq::empty()
    } else {
        steps_told(h.drop_last(), max) + step_told(h.last(), h.len() - 1, max)
    }
}

proof fn lemma_entry_says(e: EntrySpec, i: int, max: nat)
    requires
        0 <= i,
    ensures
        says(entry_text(e, i as nat, max), step_told(e, i, max)),
{
    reveal_strlit(" ===\n");
    reveal_strlit(" ===");
    let none = Seq::<char>::empty();
    let head = "=== Step "@ + dec_of((i + 1) as nat) + " ==="@;
    let reasoning: Seq<Seq<char>> = if e.reasoning.len() > 0 {
        seq![e.reasoning]
    } else {
        Seq::empty()
    };
    let reasoning_text = if e.reasoning.len() > 0 {
        "Reasoning: "@ + e.reasoning + "\n"@
    } else {
        none
    };
    let code_text = "Code:\n```python\n"@ + e.code + "\n```\nOutput ("@;
    let middle = dec_of(byte_len_of(e.output)) + " chars):\n"@;
    let cut = if byte_len_of(e.output) > max {
        byte_prefix_of(e.output, max as int)
    } else {
        e.output
    };
    let note = if byte_len_of(e.output) > max {
        "\n... (truncated to "@ + dec_of(max) + "/"@ + dec_of(byte_len_of(e.output)) + " chars)"@
    } else {
        none
    };
    lemma_says_itself(head);
    lemma_says_within(none, head, seq![head], seq!['\n']);
    let a = none + head + seq!['\n'];
    if e.reasoning.len() > 0 {
        lemma_says_itself(e.reasoning);
        lemma_says_within("Reasoning: "@, e.reasoning, reasoning, "\n"@);
    } else {
        lemma_says_nothing(reasoning_text);
    }
    lemma_says_both(a, seq![head], reasoning_text, reasoning);
    lemma_says_itself(e.code);
    lemma_says_within("Code:\n```python\n"@, e.code, seq![e.code], "\n```\nOutput ("@);
    lemma_says_both(a + reasoning_text, seq![head] + reasoning, code_text, seq![e.code]);
    lemma_says_itself(cut);
    lemma_says_within(middle, cut, seq![cut], note);
    lemma_says_both(
        a + reasoning_text + code_text,
        seq![head] + reasoning + seq![e.code],
        middle + cut + note,
        seq![cut],
    );
    assert(shown_output(e.output, max) =~= cut + note);
    assert(a + reasoning_text + code_text + (middle + cut + note) =~= entry_text(
        e,
        i as nat,
        max,
    ));
    assert(seq![head] + reasoning + seq![e.code] + seq![cut] =~= step_told(e, i, max));
}

proof fn lemma_entries_say(h: Seq<EntrySpec>, max: nat)
    ensures
        says(join_of(entry_texts(h, max), "\n"@), steps_told(h, max)),
    decreases h.len(),
{
    let sep = "\n"@;
    if h.len() == 0 {
        lemma_says_nothing(join_of(entry_texts(h, max), sep));
    } else {
        let d = h.drop_last();
        let n = h.len() - 1;
        lemma_entries_say(d, max);
        lemma_entry_says(h.last(), n, max);
        let last = entry_text(h.last(), n as nat, max);
        lemma_part_says(last, step_told(h.last(), n, max), sep);
        lemma_joined_say(
            entry_texts(d, max),
            steps_told(d, max),
            seq![last],
            step_told(h.last(), n, max),
            sep,
        );
        assert(entry_texts(d, max) + seq![last] =~= entry_texts(h, max));
    }
}

/// The history of a session shows every step in order: its number, its reasoning, its code
/// and its output, or as much of it as may be shown. Without steps it says that there are
/// none.
pub proof fn law_every_step_is_shown(h: Seq<EntrySpec>, max: nat)
    ensures
        h.len() > 0 ==> says(history_text(h, max), steps_told(h, max)),
        h.len() == 0 ==> history_text(h, max)
            == "You have not interacted with the REPL environment yet."@,
{
    if h.len() > 0 {
        lemma_entries_say(h, max);
    }
}

/// What is said of a variable: its name, its type, its description where it has one, and
/// its preview.
pub open spec fn variable_told(v: REPLVariable) -> Seq<Seq<char>> {
    seq!["`"@ + v.name@ + "`"@, v.type_label@] + (if v.desc@.len() > 0 {
        seq![v.desc@]
    } else {
        Seq::empty()
    }) + seq![dec_of(v.total_length as nat), v.preview@]
}

/// What is said of variables, one after the other.
pub open spec fn variables_told(v: Seq<REPLVariable>) -> Seq<Seq<char>>
    decreases v.len(),
{
    if v.len() == 0 {
        Seq::empty()
    } else {
        variables_told(v.drop_last()) + variable_told(v.last())
    }
}

proof fn lemma_variable_says(v: REPLVariable)
    ensures
        says(join_of(variable_lines(v), "\n"@), variable_told(v)),
{
    let sep = "\n"@;
    let none = Seq::<char>::empty();
    let lines = variable_lines(v);
    reveal_strlit("Variable: `");
    reveal_strlit("Variable: ");
    reveal_strlit("` (access it in your code)");
    reveal_strlit(" (access it in your code)");
    reveal_strlit("`");
    let name = "`"@ + v.name@ + "`"@;
    lemma_says_itself(name);
    lemma_says_within("Variable: "@, name, seq![name], " (access it in your code)"@);
    assert(lines[0] =~= "Variable: "@ + name + " (access it in your code)"@);
    lemma_part_says(lines[0], seq![name], sep);
    lemma_says_itself(v.type_label@);
    lemma_says_within("Type: "@, v.type_label@, seq![v.type_label@], none);
    assert(lines[1] =~= "Type: "@ + v.type_label@ + none);
    lemma_part_says(lines[1], seq![v.type_label@], sep);
    let head = seq![lines[0]] + seq![lines[1]];
    let told_head = seq![name] + seq![v.type_label@];
    lemma_joined_say(seq![lines[0]], seq![name], seq![lines[1]], seq![v.type_label@], sep);
    let desc: Seq<Seq<char>> = if v.desc@.len() > 0 {
        seq!["Description: "@ + v.desc@]
    } else {
        Seq::empty()
    };
    let told_desc: Seq<Seq<char>> = if v.desc@.len() > 0 {
        seq![v.desc@]
    } else {
        Seq::empty()
    };
    if v.desc@.len() > 0 {
        lemma_says_itself(v.desc@);
        lemma_says_within("Description: "@, v.desc@, told_desc, none);
        assert("Description: "@ + v.desc@ + none =~= "Description: "@ + v.desc@);
        lemma_part_says("Description: "@ + v.desc@, told_desc, sep);
    } else {
        lemma_says_nothing(join_of(desc, sep));
    }
    lemma_joined_say(head, told_head, desc, told_desc, sep);
    let constraints: Seq<Seq<char>> = if v.constraints@.len() > 0 {
        seq!["Constraints: "@ + v.constraints@]
    } else {
        Seq::empty()
    };
    lemma_says_nothing(join_of(constraints, sep));
    lemma_joined_say(head + desc, told_head + told_desc, constraints, Seq::empty(), sep);
    let total = dec_of(v.total_length as nat);
    let total_line = "Total length: "@ + total + " characters"@;
    lemma_says_itself(total);
    lemma_says_within("Total length: "@, total, seq![total], " characters"@);
    lemma_part_says(total_line, seq![total], sep);
    let preview_line = "Preview:\n```\n"@ + v.preview@ + "\n```"@;
    lemma_says_itself(v.preview@);
    lemma_says_within("Preview:\n```\n"@, v.preview@, seq![v.preview@], "\n```"@);
    lemma_part_says(preview_line, seq![v.preview@], sep);
    lemma_joined_say(seq![total_line], seq![total], seq![preview_line], seq![v.preview@], sep);
    lemma_joined_say(
        head + desc + constraints,
        told_head + told_desc + Seq::empty(),
        seq![total_line] + seq![preview_line],
        seq![total] + seq![v.preview@],
        sep,
    );
    assert(head + desc + constraints + (seq![total_line] + seq![preview_line]) =~= lines);
    assert(told_head + told_desc + Seq::<Seq<char>>::empty() + (seq![total] + seq![v.preview@])
        =~= variable_told(v));
}

/// Every variable of a session is shown, in order: its name, its type, its description, its
/// length and its preview.
pub proof fn law_every_variable_is_shown(v: Seq<REPLVariable>)
    ensures
        says(variables_text(v), variables_told(v)),
    decreases v.len(),
{
    let sep = "\n\n"@;
    let shown = v.map_values(|x: REPLVariable| join_of(variable_lines(x), "\n"@));
    if v.len() == 0 {
        lemma_says_nothing(variables_text(v));
    } else {
        let d = v.drop_last();
        law_every_variable_is_shown(d);
        lemma_variable_says(v.last());
        let last = join_of(variable_lines(v.last()), "\n"@);
        lemma_part_says(last, variable_told(v.last()), sep);
        let front = d.map_values(|x: REPLVariable| join_of(variable_lines(x), "\n"@));
        lemma_joined_say(front, variables_told(d), seq![last], variable_told(v.last()), sep);
        assert(front + seq![last] =~= shown);
    }
}

// ---------------------------------------------------------------------------
// Tools
// ---------------------------------------------------------------------------

/// What is said of a tool: its number, its name, its description where it has one, and its
/// arguments.
pub open spec fn tool_told(t: Tool, i: int) -> Seq<Seq<char>> {
    seq!["("@ + dec_of((i + 1) as nat) + ") "@, t.name@] + (if t.desc@.len() > 0 {
        seq![t.desc@]
    } else {
        Seq::empty()
    }) + seq![quoted_list(t.args.keys())]
}

/// What is said of tools in an order, one after the other.
pub open spec fn tools_told(tools: Map<Seq<char>, Tool>, order: Seq<Seq<char>>) -> Seq<Seq<char>>
    decreases order.len(),
{
    if order.len() == 0 {
        Seq::empty()
    } else {
        tools_told(tools, order.drop_last()) + tool_told(tools[order.last()], order.len() - 1)
    }
}

proof fn lemma_tool_says(t: Tool, i: int)
    ensures
        says(
            "("@ + dec_of((i + 1) as nat) + ") "@ + tool_text(t.name@, t.desc@, t.args.keys()),
            tool_told(t, i),
        ),
{
    let none = Seq::<char>::empty();
    let number = "("@ + dec_of((i + 1) as nat) + ") "@;
    let args = quoted_list(t.args.keys());
    let x = seq![number] + seq![t.name@];
    lemma_says_itself(number);
    lemma_says_itself(t.name@);
    lemma_says_both(number, seq![number], t.name@, seq![t.name@]);
    lemma_says_itself(args);
    if t.desc@.len() == 0 {
        lemma_says_within(". It takes arguments "@, args, seq![args], "."@);
        let more = ". It takes arguments "@ + args + "."@;
        lemma_says_both(number + t.name@, x, more, seq![args]);
        assert(number + t.name@ + more =~= number + tool_text(t.name@, t.desc@, t.args.keys()));
        assert(x + seq![args] =~= tool_told(t, i));
    } else {
        lemma_says_itself(t.desc@);
        lemma_says_within(", whose description is <desc>"@, t.desc@, seq![t.desc@], none);
        let middle = ", whose description is <desc>"@ + t.desc@ + none;
        lemma_says_both(number + t.name@, x, middle, seq![t.desc@]);
        lemma_says_within("</desc>. It takes arguments "@, args, seq![args], "."@);
        let more = "</desc>. It takes arguments "@ + args + "."@;
        lemma_says_both(number + t.name@ + middle, x + seq![t.desc@], more, seq![args]);
        assert(number + t.name@ + middle + more =~= number + tool_text(
            t.name@,
            t.desc@,
            t.args.keys(),
        ));
        assert(x + seq![t.desc@] + seq![args] =~= tool_told(t, i));
    }
}

proof fn lemma_tool_lines_say(tools: Map<Seq<char>, Tool>, order: Seq<Seq<char>>)
    ensures
        says(join_of(tool_lines(tools, order), "\n"@), tools_told(tools, order)),
    decreases order.len(),
{
    let sep = "\n"@;
    if order.len() == 0 {
        lemma_says_nothing(join_of(tool_lines(tools, order), sep));
    } else {
        let d = order.drop_last();
        let n = order.len() - 1;
        let t = tools[order.last()];
        lemma_tool_lines_say(tools, d);
        lemma_tool_says(t, n);
        let line = "("@ + dec_of((n + 1) as nat) + ") "@ + tool_text(
            t.name@,
            t.desc@,
            t.args.keys(),
        );
        lemma_part_says(line, tool_told(t, n), sep);
        lemma_joined_say(
            tool_lines(tools, d),
            tools_told(tools, d),
            seq![line],
            tool_told(t, n),
            sep,
        );
        assert(tool_lines(tools, d) + seq![line] =~= tool_lines(tools, order));
    }
}

/// What the instructions of a task say at the beginning of those of an agent.
spec fn task_told(s: SigSpec) -> Seq<Seq<char>> {
    if s.instructions.len() > 0 {
        seq![s.instructions]
    } else {
        Seq::empty()
    }
}

proof fn lemma_task_says(s: SigSpec)
    ensures
        says(
            join_of(
                if s.instructions.len() > 0 {
                    seq![s.instructions + "\n"@]
                } else {
                    Seq::empty()
                },
                "\n"@,
            ),
            task_told(s),
        ),
{
    if s.instructions.len() > 0 {
        lemma_says_itself(s.instructions);
        lemma_says_within(Seq::empty(), s.instructions, task_told(s), "\n"@);
        assert(Seq::<char>::empty() + s.instructions + "\n"@ =~= s.instructions + "\n"@);
        lemma_part_says(s.instructions + "\n"@, task_told(s), "\n"@);
    } else {
        lemma_says_nothing(join_of(Seq::empty(), "\n"@));
    }
}

/// The instructions of an agent that calls tools give those of the task, name every input
/// and every output, and offer every tool with its name, its description and its arguments.
pub proof fn law_every_tool_is_offered(
    s: SigSpec,
    tools: Map<Seq<char>, Tool>,
    order: Seq<Seq<char>>,
)
    ensures
        says(
            react_sig(s, tools, order).instructions,
            (if s.instructions.len() > 0 {
                seq![s.instructions]
            } else {
                Seq::empty()
            }) + told(given_fields(s), ticked_name()) + told(
                asked_fields(s, Seq::empty()),
                ticked_name(),
            ) + tools_told(tools, order),
        ),
{
    lemma_fields(s, Seq::empty());
    let sep = "\n"@;
    let none = Seq::<Seq<char>>::empty();
    let parts = react_parts(s, tools, order);
    let first: Seq<Seq<char>> = if s.instructions.len() > 0 {
        seq![s.instructions + "\n"@]
    } else {
        Seq::empty()
    };
    let k = first.len() as int;
    lemma_task_says(s);
    lemma_ticked(s.inputs());
    lemma_ticked(s.outputs());
    let ins = told(s.inputs(), ticked_name());
    let outs = told(s.outputs(), ticked_name());
    lemma_parts_say(ins, ", "@);
    lemma_parts_say(outs, ", "@);
    lemma_says_within(
        "You are an Agent. In each episode, you will be given the fields "@,
        join_of(ins, ", "@),
        ins,
        " as input. And you can see your past trajectory so far."@,
    );
    lemma_part_says(parts[k], ins, sep);
    lemma_says_within(
        "Your goal is to use one or more of the supplied tools to collect any necessary information for producing "@,
        join_of(outs, ", "@),
        outs,
        ".\n"@,
    );
    lemma_part_says(parts[k + 1], outs, sep);
    let rest = parts.subrange(k + 2, k + 6);
    lemma_says_nothing(join_of(rest, sep));
    let last = seq![
        "When providing `next_tool_args`, the value inside the field must be in JSON format"@,
    ];
    lemma_says_nothing(join_of(last, sep));
    lemma_tool_lines_say(tools, order);
    lemma_joined_say(first, task_told(s), seq![parts[k]], ins, sep);
    lemma_joined_say(first + seq![parts[k]], task_told(s) + ins, seq![parts[k + 1]], outs, sep);
    let a = first + seq![parts[k]] + seq![parts[k + 1]];
    let x = task_told(s) + ins + outs;
    lemma_joined_say(a, x, rest, none, sep);
    lemma_joined_say(
        a + rest,
        x + none,
        tool_lines(tools, order),
        tools_told(tools, order),
        sep,
    );
    lemma_joined_say(
        a + rest + tool_lines(tools, order),
        x + none + tools_told(tools, order),
        last,
        none,
        sep,
    );
    assert(a + rest + tool_lines(tools, order) + last =~= parts);
    assert(x + none + tools_told(tools, order) + none =~= x + tools_told(tools, order));
}

/// Of the tools of a list every one is known by its name, the last of those with one name,
/// and no other is. Each name is listed once.
pub proof fn law_tools_are_known_by_name(tools: Seq<Tool>)
    ensures
        forall|i: int|
            #![trigger tools[i]]
            0 <= i < tools.len() ==> tools_by_name(tools).contains_key(tools[i].name@)
                && tool_names(tools).contains(tools[i].name@),
        forall|i: int|
            #![trigger tools[i]]
            0 <= i < tools.len() && (forall|j: int|
                i < j < tools.len() ==> (#[trigger] tools[j]).name@ != tools[i].name@)
                ==> tools_by_name(tools)[tools[i].name@] == tools[i],
        forall|k: Seq<char>| #[trigger]
            tools_by_name(tools).contains_key(k) ==> exists|i: int|
                0 <= i < tools.len() && (#[trigger] tools[i]).name@ == k,
        tool_names(tools).no_duplicates(),
    decreases tools.len(),
{
    if tools.len() > 0 {
        let d = tools.drop_last();
        let n = tools.len() - 1;
        law_tools_are_known_by_name(d);
        let name = tools.last().name@;
        let all = tool_names(tools);
        let before = tool_names(d);
        assert(before.push(name)[before.len() as int] == name);
        assert forall|k: Seq<char>| before.contains(k) implies all.contains(k) by {
            let p = choose|p: int| 0 <= p < before.len() && before[p] == k;
            assert(all[p] == k);
        }
        assert forall|i: int| #![trigger tools[i]] 0 <= i < tools.len() implies tools_by_name(
            tools,
        ).contains_key(tools[i].name@) && tool_names(tools).contains(tools[i].name@) by {
            if i < n {
                assert(d[i] == tools[i]);
            }
        }
        assert forall|i: int|
            #![trigger tools[i]]
            0 <= i < tools.len() && (forall|j: int|
                i < j < tools.len() ==> (#[trigger] tools[j]).name@
                    != tools[i].name@) implies tools_by_name(tools)[tools[i].name@] == tools[i] by {
            if i < n {
                assert(tools[n].name@ != tools[i].name@);
                assert(d[i] == tools[i]);
                assert forall|j: int| i < j < d.len() implies (#[trigger] d[j]).name@
                    != d[i].name@ by {
                    assert(d[j] == tools[j]);
                }
            }
        }
        assert forall|k: Seq<char>| #[trigger]
            tools_by_name(tools).contains_key(k) implies exists|i: int|
            0 <= i < tools.len() && (#[trigger] tools[i]).name@ == k by {
            if k == name {
                assert(tools[n].name@ == k);
            } else {
                assert(tools_by_name(d).contains_key(k));
                let i = choose|i: int| 0 <= i < d.len() && (#[trigger] d[i]).name@ == k;
                assert(tools[i].name@ == k);
            }
        }
    }
}

/// What is said of a function that code may call: its number, its name, and its description
/// where it has one.
pub open spec fn function_told(t: Tool, i: int) -> Seq<Seq<char>> {
    seq!["("@ + dec_of((i + 1) as nat) + ") "@ + t.name@ + ": "@] + (if t.desc@.len() > 0 {
        seq![t.desc@]
    } else {
        Seq::empty()
    })
}

/// What is said of functions, one after the other.
pub open spec fn functions_told(tools: Seq<Tool>) -> Seq<Seq<char>>
    decreases tools.len(),
{
    if tools.len() == 0 {
        Seq::empty()
    } else {
        functions_told(tools.drop_last()) + function_told(tools.last(), tools.len() - 1)
    }
}

proof fn lemma_function_lines_say(tools: Seq<Tool>)
    ensures
        says(join_of(function_lines(tools), "\n"@), functions_told(tools)),
    decreases tools.len(),
{
    let sep = "\n"@;
    if tools.len() == 0 {
        lemma_says_nothing(join_of(function_lines(tools), sep));
    } else {
        let d = tools.drop_last();
        let n = tools.len() - 1;
        let t = tools.last();
        lemma_function_lines_say(d);
        let line = function_lines(tools)[n];
        let head = "("@ + dec_of((n + 1) as nat) + ") "@ + t.name@ + ": "@;
        let own = function_told(t, n);
        lemma_says_itself(head);
        if t.desc@.len() > 0 {
            lemma_says_itself(t.desc@);
            lemma_says_both(head, seq![head], t.desc@, seq![t.desc@]);
        } else {
            lemma_says_within(Seq::empty(), head, seq![head], "No description"@);
            assert(Seq::<char>::empty() + head + "No description"@ =~= line);
            assert(own =~= seq![head]);
        }
        lemma_part_says(line, own, sep);
        lemma_joined_say(function_lines(d), functions_told(d), seq![line], own, sep);
        assert(function_lines(d) + seq![line] =~= function_lines(tools));
    }
}

/// The instructions of an agent that acts by code give those of the task, name every input
/// and every output, and offer every function with its name and its description.
pub proof fn law_every_function_is_offered(s: SigSpec, tools: Seq<Tool>)
    ensures
        says(
            code_act_sig(s, tools).instructions,
            (if s.instructions.len() > 0 {
                seq![s.instructions]
            } else {
                Seq::empty()
            }) + told(given_fields(s), ticked_name()) + told(
                asked_fields(s, Seq::empty()),
                ticked_name(),
            ) + functions_told(tools),
        ),
{
    lemma_fields(s, Seq::empty());
    let sep = "\n"@;
    let first: Seq<Seq<char>> = if s.instructions.len() > 0 {
        seq![s.instructions + "\n"@]
    } else {
        Seq::empty()
    };
    lemma_task_says(s);
    lemma_ticked(s.inputs());
    lemma_ticked(s.outputs());
    let ins = told(s.inputs(), ticked_name());
    let outs = told(s.outputs(), ticked_name());
    let i = join_of(ins, ", "@);
    let o = join_of(outs, ", "@);
    lemma_parts_say(ins, ", "@);
    lemma_parts_say(outs, ", "@);
    let begin = "You are an intelligent agent. For each episode, you will receive the fields "@;
    let middle =
        " as input.\nYour goal is to generate executable Python code that collects any necessary information for producing "@;
    let again =
        ".\nFor each iteration, you will generate a code snippet that either solves the task or progresses towards the solution.\nEnsure any output you wish to extract from the code is printed to the console. The code should be enclosed in a fenced code block.\nWhen all information for producing the outputs ("@;
    let end =
        ") are available to be extracted, mark `finished=True` besides the final Python code.\nYou have access to the Python Standard Library and the following functions:"@;
    lemma_says_within(begin, i, ins, middle);
    lemma_says_within(Seq::empty(), o, outs, again + o + end);
    lemma_says_both(
        begin + i + middle,
        ins,
        Seq::<char>::empty() + o + (again + o + end),
        outs,
    );
    assert(begin + i + middle + (Seq::<char>::empty() + o + (again + o + end)) =~= agent_text(s));
    lemma_part_says(agent_text(s), ins + outs, sep);
    lemma_joined_say(first, task_told(s), seq![agent_text(s)], ins + outs, sep);
    lemma_function_lines_say(tools);
    lemma_joined_say(
        first + seq![agent_text(s)],
        task_told(s) + (ins + outs),
        function_lines(tools),
        functions_told(tools),
        sep,
    );
    assert(first + seq![agent_text(s)] + function_lines(tools) =~= code_act_parts(s, tools));
    assert(task_told(s) + (ins + outs) + functions_told(tools) =~= task_told(s) + ins + outs
        + functions_told(tools));
}

// ---------------------------------------------------------------------------
// Signatures of agents
// ---------------------------------------------------------------------------

proof fn lemma_put_in(more: Seq<FieldSpec>)
    ensures
        distinct(more) ==> upsert_all(Seq::empty(), more) == more,
        forall|i: int|
            0 <= i < more.len() ==> names(upsert_all(Seq::empty(), more)).contains(
                (#[trigger] more[i]).name,
            ),
    decreases more.len(),
{
    let none = Seq::<FieldSpec>::empty();
    assert(none + more =~= more);
    if distinct(more) {
        lemma_upsert_all_fresh(none, more);
    }
    if more.len() > 0 {
        let d = more.drop_last();
        lemma_put_in(d);
        let before = upsert_all(none, d);
        let all = upsert_all(none, more);
        let f = more.last();
        lemma_name_index(before, f.name);
        assert forall|i: int| 0 <= i < more.len() implies names(all).contains(
            (#[trigger] more[i]).name,
        ) by {
            if i < d.len() {
                assert(d[i] == more[i]);
                let k = choose|k: int|
                    0 <= k < names(before).len() && names(before)[k] == more[i].name;
                assert(names(all)[k] == more[i].name);
            } else {
                match name_index(before, f.name) {
                    Some(k) => {
                        assert(names(all)[k] == f.name);
                    },
                    None => {
                        assert(names(all)[before.len() as int] == f.name);
                    },
                }
            }
        }
    }
}

/// A signature is given fields of some names and asked for others: where no name comes
/// twice, it has exactly these as its inputs and its outputs, in order, and in any case it
/// has a field of each name.
pub open spec fn asks(sig: SigSpec, given: Seq<Seq<char>>, asked: Seq<Seq<char>>) -> bool {
    let both = given + asked;
    &&& forall|i: int| 0 <= i < both.len() ==> names(sig.fields).contains(#[trigger] both[i])
    &&& both.no_duplicates() ==> names(given_fields(sig)) == given && names(
        asked_fields(sig, Seq::empty()),
    ) == asked
}

/// Fields that are all of a type, or none of them, and what is left of them by it.
pub proof fn lemma_all_of_type(fields: Seq<FieldSpec>, t: FieldType)
    ensures
        (forall|i: int| 0 <= i < fields.len() ==> (#[trigger] fields[i]).field_type == t)
            ==> of_type(fields, t) == fields,
        (forall|i: int| 0 <= i < fields.len() ==> (#[trigger] fields[i]).field_type != t)
            ==> of_type(fields, t) == Seq::<FieldSpec>::empty(),
        forall|i: int|
            0 <= i < of_type(fields, t).len() ==> (#[trigger] of_type(fields, t)[i]).field_type
                == t,
    decreases fields.len(),
{
    if fields.len() > 0 {
        let d = fields.drop_last();
        lemma_all_of_type(d, t);
        if forall|i: int| 0 <= i < fields.len() ==> (#[trigger] fields[i]).field_type == t {
            assert forall|i: int| 0 <= i < d.len() implies (#[trigger] d[i]).field_type == t by {
                assert(d[i] == fields[i]);
            }
            assert(fields.last().field_type == t);
            assert(of_type(fields, t) =~= fields);
        }
        if forall|i: int| 0 <= i < fields.len() ==> (#[trigger] fields[i]).field_type != t {
            assert forall|i: int| 0 <= i < d.len() implies (#[trigger] d[i]).field_type != t by {
                assert(d[i] == fields[i]);
            }
            assert(fields[fields.len() - 1].field_type != t);
        }
    } else {
        assert(of_type(fields, t) =~= fields);
    }
}

/// The fields of a type in two lists are those of the one and then those of the other.
pub proof fn lemma_of_type_both(a: Seq<FieldSpec>, b: Seq<FieldSpec>, t: FieldType)
    ensures
        of_type(a + b, t) == of_type(a, t) + of_type(b, t),
    decreases b.len(),
{
    if b.len() == 0 {
        assert(a + b =~= a);
        assert(of_type(a, t) + of_type(b, t) =~= of_type(a, t));
    } else {
        lemma_of_type_both(a, b.drop_last(), t);
        assert((a + b).drop_last() =~= a + b.drop_last());
        assert(of_type(a + b, t) =~= of_type(a, t) + of_type(b, t));
    }
}

proof fn lemma_asks(sig: SigSpec, a: Seq<FieldSpec>, b: Seq<FieldSpec>)
    requires
        sig.fields == upsert_all(Seq::empty(), a + b),
        forall|i: int| 0 <= i < a.len() ==> (#[trigger] a[i]).field_type == FieldType::Input,
        forall|i: int| 0 <= i < b.len() ==> (#[trigger] b[i]).field_type == FieldType::Output,
    ensures
        asks(sig, names(a), names(b)),
{
    let more = a + b;
    let both = names(a) + names(b);
    assert(names(more) =~= both);
    lemma_put_in(more);
    assert forall|i: int| 0 <= i < both.len() implies names(sig.fields).contains(
        #[trigger] both[i],
    ) by {
        assert(more[i].name == both[i]);
    }
    if both.no_duplicates() {
        lemma_fields(sig, Seq::empty());
        lemma_of_type_both(a, b, FieldType::Input);
        lemma_of_type_both(a, b, FieldType::Output);
        lemma_all_of_type(a, FieldType::Input);
        lemma_all_of_type(b, FieldType::Input);
        lemma_all_of_type(a, FieldType::Output);
        lemma_all_of_type(b, FieldType::Output);
        assert(of_type(a, FieldType::Input) + of_type(b, FieldType::Input) =~= a);
        assert(of_type(a, FieldType::Output) + of_type(b, FieldType::Output) =~= b);
    }
}

/// A step of an agent that calls tools is given the inputs of the task and the trajectory,
/// and asked for a thought, a tool and its arguments.
pub proof fn law_react_asks_for_a_step(
    s: SigSpec,
    tools: Map<Seq<char>, Tool>,
    order: Seq<Seq<char>>,
)
    ensures
        asks(
            react_sig(s, tools, order),
            names(given_fields(s)).push("trajectory"@),
            seq!["next_thought"@, "next_tool_name"@, "next_tool_args"@],
        ),
{
    lemma_fields(s, Seq::empty());
    let ins = bare_fields(names(s.inputs()), FieldType::Input);
    let a = ins.push(FieldSpec::bare("trajectory"@, FieldType::Input));
    let b = seq![
        FieldSpec::bare("next_thought"@, FieldType::Output),
        FieldSpec::bare("next_tool_name"@, FieldType::Output),
        FieldSpec::bare("next_tool_args"@, FieldType::Output),
    ];
    assert(a + b =~= ins + seq![
        FieldSpec::bare("trajectory"@, FieldType::Input),
        FieldSpec::bare("next_thought"@, FieldType::Output),
        FieldSpec::bare("next_tool_name"@, FieldType::Output),
        FieldSpec::bare("next_tool_args"@, FieldType::Output),
    ]);
    lemma_asks(react_sig(s, tools, order), a, b);
    assert(names(a) =~= names(s.inputs()).push("trajectory"@));
    assert(names(b) =~= seq!["next_thought"@, "next_tool_name"@, "next_tool_args"@]);
}

/// In the end an agent that calls tools is given the inputs of the task and the trajectory,
/// and asked for the outputs, with the instructions of the task.
pub proof fn law_react_asks_for_the_outputs(s: SigSpec)
    ensures
        asks(
            react_extract_sig(s),
            names(given_fields(s)).push("trajectory"@),
            names(asked_fields(s, Seq::empty())),
        ),
        react_extract_sig(s).instructions == s.instructions,
{
    lemma_fields(s, Seq::empty());
    let a = bare_fields(names(s.inputs()), FieldType::Input).push(
        FieldSpec::bare("trajectory"@, FieldType::Input),
    );
    let b = bare_fields(names(s.outputs()), FieldType::Output);
    lemma_asks(react_extract_sig(s), a, b);
    assert(names(a) =~= names(s.inputs()).push("trajectory"@));
    assert(names(b) =~= names(s.outputs()));
}

/// A step of an agent that acts by code is given the inputs of the task and the trajectory,
/// and asked for code and whether it is done.
pub proof fn law_code_act_asks_for_a_step(s: SigSpec, tools: Seq<Tool>)
    ensures
        asks(
            code_act_sig(s, tools),
            names(given_fields(s)).push("trajectory"@),
            seq!["generated_code"@, "finished"@],
        ),
{
    lemma_fields(s, Seq::empty());
    lemma_all_of_type(s.fields, FieldType::Input);
    let a = s.inputs().push(trajectory_field());
    let b = seq![
        FieldSpec::bare("generated_code"@, FieldType::Output).desc(
            "Python code that when executed, produces output relevant to answering the question"@,
        ),
        FieldSpec::bare("finished"@, FieldType::Output).desc(
            "a boolean flag to determine if the process is done"@,
        ),
    ];
    assert(a + b =~= s.inputs() + seq![trajectory_field(), b[0], b[1]]);
    lemma_asks(code_act_sig(s, tools), a, b);
    assert(names(a) =~= names(s.inputs()).push("trajectory"@));
    assert(names(b) =~= seq!["generated_code"@, "finished"@]);
}

/// In the end an agent that acts by code is given the inputs of the task and the trajectory,
/// and asked for the outputs, with the instructions of the task.
pub proof fn law_code_act_asks_for_the_outputs(s: SigSpec)
    ensures
        asks(
            code_extract_sig(s),
            names(given_fields(s)).push("trajectory"@),
            names(asked_fields(s, Seq::empty())),
        ),
        code_extract_sig(s).instructions == s.instructions,
{
    lemma_fields(s, Seq::empty());
    lemma_all_of_type(s.fields, FieldType::Input);
    lemma_all_of_type(s.fields, FieldType::Output);
    let a = s.inputs().push(trajectory_field());
    lemma_asks(code_extract_sig(s), a, s.outputs());
    assert(names(a) =~= names(s.inputs()).push("trajectory"@));
}

/// What a program of thought is given, besides the inputs of the task: nothing at first,
/// then the code that failed and its error, and in the end the code and what it put out.
pub open spec fn program_given(mode: ProgramMode) -> Seq<Seq<char>> {
    match mode {
        ProgramMode::Generate => Seq::empty(),
        ProgramMode::Regenerate => seq!["previous_code"@, "error"@],
        ProgramMode::Answer => seq!["final_generated_code"@, "code_output"@],
    }
}

/// A program of thought is given the inputs of the task and what its predictor works on. It
/// is asked for code, and in the end for the outputs of the task.
pub proof fn law_program_asks_for_code_and_outputs(s: SigSpec, mode: ProgramMode)
    ensures
        asks(
            program_sig(s, mode),
            names(given_fields(s)) + program_given(mode),
            if mode == ProgramMode::Answer {
                names(asked_fields(s, Seq::empty()))
            } else {
                seq!["generated_code"@]
            },
        ),
{
    lemma_fields(s, Seq::empty());
    lemma_all_of_type(s.fields, FieldType::Input);
    lemma_all_of_type(s.fields, FieldType::Output);
    let more = program_fields(s, mode);
    let n = s.inputs().len() as int;
    let k = n + program_given(mode).len();
    let a = more.take(k);
    let b = more.skip(k);
    assert(a + b =~= more);
    assert forall|i: int| 0 <= i < a.len() implies (#[trigger] a[i]).field_type
        == FieldType::Input by {
        if i < n {
            assert(a[i] == s.inputs()[i]);
        }
    }
    assert(mode != ProgramMode::Answer ==> b =~= seq![generated_code_field()]);
    assert(mode == ProgramMode::Answer ==> b =~= s.outputs());
    lemma_asks(program_sig(s, mode), a, b);
    assert(names(a) =~= names(s.inputs()) + program_given(mode));
    assert(mode != ProgramMode::Answer ==> names(b) =~= seq!["generated_code"@]);
}

/// A step in a session is asked for reasoning and code, given the variables, the steps so
/// far and how far it is.
pub proof fn law_session_asks_for_a_step(s: SigSpec, max_llm_calls: nat)
    ensures
        asks(
            action_sig(s, max_llm_calls),
            seq!["variables_info"@, "repl_history"@, "iteration"@],
            seq!["reasoning"@, "code"@],
        ),
{
    let more = action_fields();
    let a = more.take(3);
    let b = more.skip(3);
    assert(a + b =~= more);
    lemma_asks(action_sig(s, max_llm_calls), a, b);
    assert(names(a) =~= seq!["variables_info"@, "repl_history"@, "iteration"@]);
    assert(names(b) =~= seq!["reasoning"@, "code"@]);
}

/// In the end a session is asked for the outputs of the task, given the variables and the
/// steps.
pub proof fn law_session_asks_for_the_outputs(s: SigSpec)
    ensures
        asks(
            extract_sig(s),
            seq!["variables_info"@, "repl_history"@],
            names(asked_fields(s, Seq::empty())),
        ),
{
    lemma_fields(s, Seq::empty());
    lemma_all_of_type(s.fields, FieldType::Output);
    let more = extract_fields_of(s);
    let a = more.take(2);
    assert(a + s.outputs() =~= more);
    lemma_asks(extract_sig(s), a, s.outputs());
    assert(names(a) =~= seq!["variables_info"@, "repl_history"@]);
}

/// The inputs of a step in a session are the variables, the steps so far and how far it is;
/// those of the end are the first two.
pub proof fn law_session_is_given_its_state(
    v: Seq<REPLVariable>,
    h: Seq<EntrySpec>,
    iteration: nat,
    max: nat,
)
    ensures
        action_inputs(v, h, iteration, max).keys == seq![
            "variables_info"@,
            "repl_history"@,
            "iteration"@,
        ],
        action_inputs(v, h, iteration, max).store["variables_info"@] == ValueSpec::Text(
            variables_text(v),
        ),
        action_inputs(v, h, iteration, max).store["repl_history"@] == ValueSpec::Text(
            history_text(h, 5000),
        ),
        action_inputs(v, h, iteration, max).store["iteration"@] == ValueSpec::Text(
            dec_of(iteration + 1) + "/"@ + dec_of(max),
        ),
        extract_inputs(v, h).keys == seq!["variables_info"@, "repl_history"@],
        extract_inputs(v, h).store["variables_info"@] == ValueSpec::Text(variables_text(v)),
        extract_inputs(v, h).store["repl_history"@] == ValueSpec::Text(history_text(h, 5000)),
{
    reveal_strlit("variables_info");
    reveal_strlit("repl_history");
    reveal_strlit("iteration");
    assert("variables_info"@.len() == 14 && "repl_history"@.len() == 12 && "iteration"@.len()
        == 9);
    assert(action_inputs(v, h, iteration, max).keys =~= seq![
        "variables_info"@,
        "repl_history"@,
        "iteration"@,
    ]);
    assert(extract_inputs(v, h).keys =~= seq!["variables_info"@, "repl_history"@]);
}

// ---------------------------------------------------------------------------
// Steps that are kept
// ---------------------------------------------------------------------------

proof fn lemma_step_keys(idx: nat)
    ensures
        "thought_"@ + dec_of(idx) != "tool_name_"@ + dec_of(idx),
        "thought_"@ + dec_of(idx) != "tool_args_"@ + dec_of(idx),
        "tool_name_"@ + dec_of(idx) != "tool_args_"@ + dec_of(idx),
{
    reveal_strlit("thought_");
    reveal_strlit("tool_name_");
    reveal_strlit("tool_args_");
    assert(("thought_"@ + dec_of(idx))[1] == 'h');
    assert(("tool_name_"@ + dec_of(idx))[1] == 'o' && ("tool_name_"@ + dec_of(idx))[5] == 'n');
    assert(("tool_args_"@ + dec_of(idx))[1] == 'o' && ("tool_args_"@ + dec_of(idx))[5] == 'a');
}

/// A step of an agent that calls tools is kept: its thought, the name of its tool, or the
/// one that ends the task where it names none, and the arguments, each under a key with the
/// number of the step. Nothing else in the trajectory changes.
pub proof fn law_call_is_kept(t: Map<Seq<char>, Seq<char>>, idx: nat, p: ExampleSpec)
    ensures
        ({
            let after = with_call(t, idx, p);
            let thought = "thought_"@ + dec_of(idx);
            let name = "tool_name_"@ + dec_of(idx);
            let args = "tool_args_"@ + dec_of(idx);
            &&& after.dom() == t.dom().insert(thought).insert(name).insert(args)
            &&& p.store.contains_key("next_thought"@) ==> (p.store["next_thought"@] matches
                ValueSpec::Text(x) ==> after[thought] == x)
            &&& p.store.contains_key("next_tool_name"@) ==> (p.store["next_tool_name"@] matches
                ValueSpec::Text(x) ==> after[name] == x)
            &&& !p.store.contains_key("next_tool_name"@) ==> after[name] == "finish"@
            &&& after[args] == printed_json(JsonSpec::Object(named_args(p)))
            &&& forall|k: Seq<char>|
                k != thought && k != name && k != args && t.contains_key(k) ==> #[trigger] after[k]
                    == t[k]
        }),
{
    lemma_step_keys(idx);
    let after = with_call(t, idx, p);
    let thought = "thought_"@ + dec_of(idx);
    let name = "tool_name_"@ + dec_of(idx);
    let args = "tool_args_"@ + dec_of(idx);
    assert(after.dom() =~= t.dom().insert(thought).insert(name).insert(args));
}

/// A trajectory of texts is shown in JSON with every entry: whole where it takes at most
/// 50000 bytes, and else its first 50000 bytes with a note.
pub proof fn law_trajectory_is_shown_in_json(t: Map<Seq<char>, Seq<char>>)
    ensures
        texts_object(t).dom() == t.dom(),
        forall|k: Seq<char>| #[trigger]
            t.contains_key(k) ==> texts_object(t)[k] == JsonSpec::Text(t[k]),
        ({
            let text = pretty_json(JsonSpec::Object(texts_object(t)));
            &&& byte_len_of(text) <= 50000 ==> shown_trajectory(t) == text
            &&& byte_len_of(text) > 50000 && cuts_cleanly(text, 50000) ==> exists|n: int|
                0 <= n <= text.len() && byte_len_of(#[trigger] text.take(n)) == 50000
                    && shown_trajectory(t) == text.take(n) + "\n... (truncated)"@
        }),
{
    assert(texts_object(t).dom() =~= t.dom());
    let text = pretty_json(JsonSpec::Object(texts_object(t)));
    if byte_len_of(text) > 50000 && cuts_cleanly(text, 50000) {
        let n = lemma_clean_cut(text, 50000);
        assert(byte_len_of(text.take(n)) == 50000);
    }
}

/// The inputs of a task that an example has are handed on as texts, under their names, and
/// nothing else is.
pub proof fn law_inputs_are_handed_on(s: SigSpec, e: ExampleSpec)
    ensures
        forall|i: int|
            #![trigger given_fields(s)[i]]
            0 <= i < given_fields(s).len() && e.store.contains_key(given_fields(s)[i].name)
                ==> input_texts(s.inputs(), e).store.contains_key(given_fields(s)[i].name),
        forall|k: Seq<char>| #[trigger]
            input_texts(s.inputs(), e).store.contains_key(k) ==> names(given_fields(s)).contains(k)
                && e.store.contains_key(k) && input_texts(s.inputs(), e).store[k]
                == ValueSpec::Text(shown(e.store[k])),
{
    lemma_fields(s, Seq::empty());
    lemma_input_texts(s.inputs(), e);
}

proof fn lemma_input_texts(fields: Seq<FieldSpec>, e: ExampleSpec)
    ensures
        forall|i: int|
            #![trigger fields[i]]
            0 <= i < fields.len() && e.store.contains_key(fields[i].name) ==> input_texts(
                fields,
                e,
            ).store.contains_key(fields[i].name),
        forall|k: Seq<char>| #[trigger]
            input_texts(fields, e).store.contains_key(k) ==> names(fields).contains(k)
                && e.store.contains_key(k) && input_texts(fields, e).store[k] == ValueSpec::Text(
                shown(e.store[k]),
            ),
    decreases fields.len(),
{
    if fields.len() > 0 {
        let d = fields.drop_last();
        lemma_input_texts(d, e);
        assert forall|i: int|
            #![trigger fields[i]]
            0 <= i < fields.len() && e.store.contains_key(fields[i].name) implies input_texts(
            fields,
            e,
        ).store.contains_key(fields[i].name) by {
            if i < d.len() {
                assert(d[i] == fields[i]);
            }
        }
        assert forall|k: Seq<char>| #[trigger]
            input_texts(fields, e).store.contains_key(k) implies names(fields).contains(k)
            && e.store.contains_key(k) && input_texts(fields, e).store[k] == ValueSpec::Text(
            shown(e.store[k]),
        ) by {
            let name = fields.last().name;
            if k == name {
                assert(names(fields)[fields.len() - 1] == k);
            }
            if input_texts(d, e).store.contains_key(k) {
                let i = choose|i: int| 0 <= i < names(d).len() && names(d)[i] == k;
                assert(names(fields)[i] == k);
            }
        }
    }
}

// ---------------------------------------------------------------------------
// Outputs that are handed in
// ---------------------------------------------------------------------------

proof fn lemma_missing<V>(want: Seq<Seq<char>>, m: Map<Seq<char>, V>)
    ensures
        missing_names(want, m).len() == 0 <==> forall|i: int|
            0 <= i < want.len() ==> m.contains_key(#[trigger] want[i]),
        forall|k: Seq<char>| #[trigger]
            missing_names(want, m).contains(k) <==> want.contains(k) && !m.contains_key(k),
    decreases want.len(),
{
    if want.len() > 0 {
        let d = want.drop_last();
        lemma_missing(d, m);
        let before = missing_names(d, m);
        let all = missing_names(want, m);
        assert forall|k: Seq<char>| #[trigger] all.contains(k) <==> want.contains(k)
            && !m.contains_key(k) by {
            if all.contains(k) {
                let i = choose|i: int| 0 <= i < all.len() && all[i] == k;
                if i < before.len() {
                    assert(before[i] == k);
                    assert(before.contains(k));
                    let j = choose|j: int| 0 <= j < d.len() && d[j] == k;
                    assert(want[j] == k);
                } else {
                    assert(want[want.len() - 1] == k);
                }
            }
            if want.contains(k) && !m.contains_key(k) {
                let j = choose|j: int| 0 <= j < want.len() && want[j] == k;
                if j < d.len() {
                    assert(d[j] == k);
                    assert(before.contains(k));
                    let i = choose|i: int| 0 <= i < before.len() && before[i] == k;
                    assert(all[i] == k);
                } else {
                    assert(all[all.len() - 1] == k);
                }
            }
        }
        if all.len() == 0 {
            assert forall|i: int| 0 <= i < want.len() implies m.contains_key(
                #[trigger] want[i],
            ) by {
                if !m.contains_key(want[i]) {
                    assert(want.contains(want[i]));
                    assert(all.contains(want[i]));
                }
            }
        } else {
            assert(all.contains(all[0]));
            let j = choose|j: int| 0 <= j < want.len() && want[j] == all[0];
            assert(!m.contains_key(want[j]));
        }
    }
}

/// Outputs are taken exactly where an object is handed in that has all that are wanted;
/// then they are the wanted members of the object, as they were handed in.
pub proof fn law_complete_outputs_are_taken(j: JsonSpec, want: Seq<Seq<char>>)
    ensures
        final_outcome(j, want) is Ok <==> (j matches JsonSpec::Object(m) && forall|i: int|
            0 <= i < want.len() ==> m.contains_key(#[trigger] want[i])),
        final_outcome(j, want) matches Ok(r) ==> {
            &&& forall|k: Seq<char>| #[trigger] r.contains_key(k) <==> want.contains(k)
            &&& j matches JsonSpec::Object(m) && forall|k: Seq<char>| #[trigger]
                r.contains_key(k) ==> r[k] == m[k]
        },
{
    if let JsonSpec::Object(m) = j {
        lemma_missing(want, m);
        if let Ok(r) = final_outcome(j, want) {
            assert forall|k: Seq<char>| #[trigger] r.contains_key(k) <==> want.contains(k) by {
                if want.contains(k) {
                    let i = choose|i: int| 0 <= i < want.len() && want[i] == k;
                    assert(m.contains_key(want[i]));
                }
            }
        }
    }
}

// ---------------------------------------------------------------------------
// Attempts that are compared
// ---------------------------------------------------------------------------

proof fn lemma_attempt_keys(a: nat, b: nat)
    requires
        "reasoning_attempt_"@ + dec_of(a) == "reasoning_attempt_"@ + dec_of(b),
    ensures
        a == b,
{
    let p = "reasoning_attempt_"@;
    assert((p + dec_of(a)).skip(p.len() as int) =~= dec_of(a));
    assert((p + dec_of(b)).skip(p.len() as int) =~= dec_of(b));
    lemma_dec_reads(a);
    lemma_dec_reads(b);
}

/// Every attempt is shown to the comparison, under a key with its number: the first line of
/// its reasoning, then the first line of its answer. The other inputs stay as they are.
pub proof fn law_every_attempt_is_compared(
    kwargs: ExampleSpec,
    completions: Seq<ExampleSpec>,
    last_key: Seq<char>,
)
    ensures
        ({
            let r = with_attempt_texts(kwargs, completions, last_key).store;
            &&& forall|i: int|
                #![trigger completions[i]]
                0 <= i < completions.len() ==> says_under(
                    r,
                    "reasoning_attempt_"@ + dec_of((i + 1) as nat),
                    attempt_told(completions[i], last_key),
                )
            &&& forall|k: Seq<char>|
                #![trigger r.contains_key(k)]
                !is_attempt_key(k, completions.len()) ==> r.contains_key(k)
                    == kwargs.store.contains_key(k) && r[k] == kwargs.store[k]
        }),
    decreases completions.len(),
{
    if completions.len() > 0 {
        let d = completions.drop_last();
        let n = completions.len();
        law_every_attempt_is_compared(kwargs, d, last_key);
        let before = with_attempt_texts(kwargs, d, last_key).store;
        let r = with_attempt_texts(kwargs, completions, last_key).store;
        let last = "reasoning_attempt_"@ + dec_of(n);
        lemma_attempt_says(completions.last(), last_key);
        assert forall|i: int| #![trigger completions[i]] 0 <= i < n implies says_under(
            r,
            "reasoning_attempt_"@ + dec_of((i + 1) as nat),
            attempt_told(completions[i], last_key),
        ) by {
            let key = "reasoning_attempt_"@ + dec_of((i + 1) as nat);
            if i < n - 1 {
                assert(d[i] == completions[i]);
                if key == last {
                    lemma_attempt_keys((i + 1) as nat, n);
                }
            }
        }
        assert forall|k: Seq<char>|
            #![trigger r.contains_key(k)]
            !is_attempt_key(k, n) implies r.contains_key(k) == kwargs.store.contains_key(k) && r[k]
            == kwargs.store[k] by {
            assert(!is_attempt_key(k, (n - 1) as nat));
            assert(k != last);
            assert(before.contains_key(k) == r.contains_key(k));
        }
    }
}

/// Under a key there is a text that says things.
pub open spec fn says_under(
    store: Map<Seq<char>, ValueSpec>,
    key: Seq<char>,
    wanted: Seq<Seq<char>>,
) -> bool {
    store.contains_key(key) && (store[key] matches ValueSpec::Text(t) && says(t, wanted))
}

/// A key of one of the first `n` attempts.
pub open spec fn is_attempt_key(k: Seq<char>, n: nat) -> bool {
    exists|c: nat| 1 <= c <= n && k == "reasoning_attempt_"@ + #[trigger] dec_of(c)
}

/// The text of a field, or nothing.
pub open spec fn said_in(e: ExampleSpec, key: Seq<char>) -> Seq<char> {
    if e.store.contains_key(key) {
        match e.store[key] {
            ValueSpec::Text(t) => t,
            _ => Seq::empty(),
        }
    } else {
        Seq::empty()
    }
}

/// What is said of an attempt: the first line of its reasoning and of its answer.
pub open spec fn attempt_told(c: ExampleSpec, last_key: Seq<char>) -> Seq<Seq<char>> {
    seq![
        first_line_of(
            if c.store.contains_key("rationale"@) {
                said_in(c, "rationale"@)
            } else {
                said_in(c, "reasoning"@)
            },
        ),
        first_line_of(said_in(c, last_key)),
    ]
}

proof fn lemma_attempt_says(c: ExampleSpec, last_key: Seq<char>)
    ensures
        says(attempt_text(c, last_key), attempt_told(c, last_key)),
{
    let x = attempt_told(c, last_key);
    let a = "«I'm trying to "@;
    let b = " I'm not sure but my prediction is "@;
    lemma_says_itself(x[0]);
    lemma_says_itself(x[1]);
    lemma_says_within(a, x[0], seq![x[0]], b);
    lemma_says_within(Seq::empty(), x[1], seq![x[1]], "»"@);
    lemma_says_both(
        a + x[0] + b,
        seq![x[0]],
        Seq::<char>::empty() + x[1] + "»"@,
        seq![x[1]],
    );
    assert(seq![x[0]] + seq![x[1]] =~= x);
    assert(a + x[0] + b + (Seq::<char>::empty() + x[1] + "»"@) =~= attempt_text(c, last_key));
}

} // verus!
