//! Tools that a model can call.

use crate::error::{is_other_error, DspyError, Result};
use crate::json::{
    copy_object, empty_object, json_list, json_object, lemma_json_list, lemma_json_object,
    new_object, push_json, put, put_text, Json, JsonSpec,
};
use crate::prediction::keys_of;
use crate::signature::opt_view;
use crate::strmap::StrMap;
use crate::text::{join, join_of, push_text, same, texts};
use crate::unicode::{quote, quoted_of};
use vstd::prelude::*;

verus! {

/// The schema of a tool's argument.
#[derive(Debug)]
pub struct ToolArg {
    pub arg_type: String,
    pub description: Option<String>,
    pub default: Option<Json>,
}

/// What the schema of an argument says.
pub struct ArgSpec {
    pub arg_type: Seq<char>,
    pub description: Option<Seq<char>>,
    pub default: Option<JsonSpec>,
}

impl View for ToolArg {
    type V = ArgSpec;

    open spec fn view(&self) -> ArgSpec {
        ArgSpec {
            arg_type: self.arg_type@,
            description: opt_view(self.description),
            default: match self.default {
                Some(j) => Some(j@),
                None => None,
            },
        }
    }
}

/// A tool: its name, what it is for, and its arguments.
#[derive(Debug)]
pub struct Tool {
    pub name: String,
    pub desc: String,
    pub args: StrMap<ToolArg>,
}

/// The schema of an argument in JSON: what is not there is left out.
pub open spec fn arg_json(a: ArgSpec) -> JsonSpec {
    let m = empty_object().insert("type"@, JsonSpec::Text(a.arg_type));
    let with_description = match a.description {
        Some(d) => m.insert("description"@, JsonSpec::Text(d)),
        None => m,
    };
    JsonSpec::Object(
        match a.default {
            Some(j) => with_description.insert("default"@, j),
            None => with_description,
        },
    )
}

/// Texts in JSON.
pub open spec fn texts_json(v: Seq<Seq<char>>) -> JsonSpec {
    JsonSpec::Array(v.map_values(|t: Seq<char>| JsonSpec::Text(t)))
}

/// A function in JSON.
pub open spec fn function_json(name: Seq<char>, rest: Map<Seq<char>, JsonSpec>) -> JsonSpec {
    JsonSpec::Object(
        empty_object().insert("type"@, JsonSpec::Text("function"@)).insert(
            "function"@,
            JsonSpec::Object(rest.insert("name"@, JsonSpec::Text(name))),
        ),
    )
}

/// A tool in JSON, as models take it.
pub open spec fn tool_json(
    name: Seq<char>,
    desc: Seq<char>,
    args: Map<Seq<char>, ArgSpec>,
    keys: Seq<Seq<char>>,
) -> JsonSpec {
    let parameters = JsonSpec::Object(
        empty_object().insert("type"@, JsonSpec::Text("object"@)).insert(
            "properties"@,
            JsonSpec::Object(args.map_values(|a: ArgSpec| arg_json(a))),
        ).insert("required"@, texts_json(keys)),
    );
    function_json(
        name,
        empty_object().insert("description"@, JsonSpec::Text(desc)).insert(
            "parameters"@,
            parameters,
        ),
    )
}

/// Quoted texts in brackets.
pub open spec fn quoted_list(v: Seq<Seq<char>>) -> Seq<char> {
    "["@ + join_of(v.map_values(|t: Seq<char>| quoted_of(t)), ", "@) + "]"@
}

/// The text that shows a tool.
pub open spec fn tool_text(name: Seq<char>, desc: Seq<char>, keys: Seq<Seq<char>>) -> Seq<char> {
    if desc.len() == 0 {
        name + ". It takes arguments "@ + quoted_list(keys) + "."@
    } else {
        name + ", whose description is <desc>"@ + desc + "</desc>. It takes arguments "@
            + quoted_list(keys) + "."@
    }
}

/// What the schemas of arguments say.
pub open spec fn arg_map(m: StrMap<ToolArg>) -> Map<Seq<char>, ArgSpec> {
    m@.map_values(|a: ToolArg| a@)
}

fn arg_to_json(a: &ToolArg) -> (r: Json)
    ensures
        r@ == arg_json(a@),
{
    let mut m = new_object();
    put_text(&mut m, "type", a.arg_type.as_str());
    if let Some(d) = &a.description {
        put_text(&mut m, "description", d.as_str());
    }
    if let Some(j) = &a.default {
        put(&mut m, "default", j.copy());
    }
    Json::Object(m)
}

/// Texts in JSON.
pub fn texts_to_json(v: &Vec<String>) -> (r: Json)
    ensures
        r@ == texts_json(texts(v@)),
{
    let ghost want = texts(v@).map_values(|t: Seq<char>| JsonSpec::Text(t));
    let mut items: Vec<Json> = Vec::new();
    let mut i: usize = 0;
    proof {
        lemma_json_list(items@);
        assert(json_list(items@) =~= want.take(0));
    }
    while i < v.len()
        invariant
            i <= v.len(),
            want == texts(v@).map_values(|t: Seq<char>| JsonSpec::Text(t)),
            json_list(items@) == want.take(i as int),
        decreases v.len() - i,
    {
        push_json(&mut items, Json::text(v[i].as_str()));
        proof {
            assert(want.take(i + 1) =~= want.take(i as int).push(want[i as int]));
        }
        i = i + 1;
    }
    proof {
        assert(want.take(i as int) =~= want);
    }
    Json::Array(items)
}

/// Quoted texts in brackets.
pub fn quote_list(v: &Vec<String>) -> (r: String)
    ensures
        r@ == quoted_list(texts(v@)),
{
    let ghost want = texts(v@).map_values(|t: Seq<char>| quoted_of(t));
    let mut parts: Vec<String> = Vec::new();
    let mut i: usize = 0;
    proof {
        assert(texts(parts@) =~= want.take(0));
    }
    while i < v.len()
        invariant
            i <= v.len(),
            want == texts(v@).map_values(|t: Seq<char>| quoted_of(t)),
            texts(parts@) == want.take(i as int),
        decreases v.len() - i,
    {
        push_text(&mut parts, quote(v[i].as_str()));
        proof {
            assert(want.take(i + 1) =~= want.take(i as int).push(want[i as int]));
        }
        i = i + 1;
    }
    proof {
        assert(want.take(i as int) =~= want);
    }
    let mut r = "[".to_string();
    r.append(join(&parts, ", ").as_str());
    r.append("]");
    r
}

fn args_to_json(args: &StrMap<ToolArg>) -> (r: StrMap<Json>)
    ensures
        json_object(r) == arg_map(*args).map_values(|a: ArgSpec| arg_json(a)),
{
    let ghost keys = args.keys();
    let n: usize = args.len();
    let mut out: Vec<(String, Json)> = Vec::new();
    let mut i: usize = 0;
    proof {
        use_type_invariant(args);
        args.lemma_shape();
    }
    while i < n
        invariant
            n == keys.len(),
            i <= n,
            keys == args.keys(),
            n == args.list().len(),
            out@.len() == i,
            forall|k: int|
                0 <= k < i ==> (#[trigger] out@[k]).0@ == keys[k] && out@[k].1@ == arg_json(
                    args.list()[k].1@,
                ),
        decreases n - i,
    {
        out.push((args.key_at(i).clone(), arg_to_json(args.value_at(i))));
        i = i + 1;
    }
    proof {
        assert(crate::strmap::entry_keys(out@) =~= keys);
    }
    let r = StrMap::from_entries(out);
    proof {
        use_type_invariant(&r);
        use_type_invariant(args);
        r.lemma_shape();
        args.lemma_shape();
        lemma_json_object(r);
        let want = arg_map(*args).map_values(|a: ArgSpec| arg_json(a));
        assert forall|k: Seq<char>| #[trigger] want.contains_key(k) implies json_object(r)[k]
            == want[k] by {
            let j = choose|j: int| 0 <= j < keys.len() && keys[j] == k;
            assert(r.list()[j] == out@[j]);
            assert(r@[k] == out@[j].1);
            assert(args@[keys[j]] == args.list()[j].1);
        }
        assert(json_object(r) =~= want);
    }
    r
}

/// The first key of a call that a tool does not take.
pub open spec fn unknown_arg(
    keys: Seq<Seq<char>>,
    args: Map<Seq<char>, ToolArg>,
) -> Option<Seq<char>>
    decreases keys.len(),
{
    if keys.len() == 0 {
        None
    } else {
        match unknown_arg(keys.drop_last(), args) {
            Some(k) => Some(k),
            None => if args.contains_key(keys.last()) {
                None
            } else {
                Some(keys.last())
            },
        }
    }
}

impl Tool {
    /// A tool.
    pub fn new(name: &str, desc: &str, args: StrMap<ToolArg>) -> (r: Self)
        ensures
            r.name@ == name@,
            r.desc@ == desc@,
            r.args == args,
    {
        Tool { name: name.to_owned(), desc: desc.to_owned(), args }
    }

    /// Checks that a call gives the tool no argument that it does not take.
    pub fn validate_args(&self, kwargs: &StrMap<Json>) -> (r: Result<()>)
        ensures
            match unknown_arg(kwargs.keys(), self.args@) {
                None => r is Ok && forall|k: Seq<char>| #[trigger]
                    kwargs@.contains_key(k) ==> self.args@.contains_key(k),
                Some(k) => r matches Err(e) && is_other_error(
                    e,
                    "Arg '"@ + k + "' is not in the tool's args"@,
                ) && kwargs@.contains_key(k) && !self.args@.contains_key(k),
            },
    {
        let ghost keys = kwargs.keys();
        let n: usize = kwargs.len();
        let mut i: usize = 0;
        proof {
            use_type_invariant(kwargs);
            kwargs.lemma_shape();
            assert(keys.take(0) =~= Seq::<Seq<char>>::empty());
        }
        while i < n
            invariant
                n == keys.len(),
                i <= n,
                keys == kwargs.keys(),
                unknown_arg(keys.take(i as int), self.args@) is None,
                forall|k: int| 0 <= k < i ==> self.args@.contains_key(#[trigger] keys[k]),
            decreases n - i,
        {
            proof {
                assert(keys.take(i + 1).drop_last() =~= keys.take(i as int));
                assert(keys.take(i + 1).last() == keys[i as int]);
            }
            let key = kwargs.key_at(i);
            if !self.args.contains_key(key.as_str()) {
                let mut m = "Arg '".to_string();
                m.append(key.as_str());
                m.append("' is not in the tool's args");
                proof {
                    lemma_unknown(keys, self.args@, i + 1);
                    use_type_invariant(kwargs);
                    kwargs.lemma_shape();
                    assert(keys.contains(keys[i as int]));
                }
                return Err(DspyError::Other(m));
            }
            i = i + 1;
        }
        proof {
            assert(keys.take(i as int) =~= keys);
            use_type_invariant(kwargs);
            kwargs.lemma_shape();
            assert forall|k: Seq<char>| #[trigger]
                kwargs@.contains_key(k) implies self.args@.contains_key(k) by {
                let j = choose|j: int| 0 <= j < keys.len() && keys[j] == k;
                assert(self.args@.contains_key(keys[j]));
            }
        }
        Ok(())
    }

    /// The tool in JSON, as models take it.
    pub fn format_as_function(&self) -> (r: Json)
        ensures
            r@ == tool_json(self.name@, self.desc@, arg_map(self.args), self.args.keys()),
    {
        let mut parameters = new_object();
        put_text(&mut parameters, "type", "object");
        put(&mut parameters, "properties", Json::Object(args_to_json(&self.args)));
        put(&mut parameters, "required", texts_to_json(&keys_of(&self.args)));
        let mut function = new_object();
        put_text(&mut function, "description", self.desc.as_str());
        put(&mut function, "parameters", Json::Object(parameters));
        put_text(&mut function, "name", self.name.as_str());
        let mut m = new_object();
        put_text(&mut m, "type", "function");
        put(&mut m, "function", Json::Object(function));
        Json::Object(m)
    }

    /// The text that shows the tool.
    pub fn to_text(&self) -> (r: String)
        ensures
            r@ == tool_text(self.name@, self.desc@, self.args.keys()),
    {
        let list = quote_list(&keys_of(&self.args));
        let mut r = self.name.clone();
        if self.desc.as_str().is_empty() {
            r.append(". It takes arguments ");
        } else {
            r.append(", whose description is <desc>");
            r.append(self.desc.as_str());
            r.append("</desc>. It takes arguments ");
        }
        r.append(list.as_str());
        r.append(".");
        r
    }
}

proof fn lemma_unknown(keys: Seq<Seq<char>>, args: Map<Seq<char>, ToolArg>, n: int)
    requires
        0 <= n <= keys.len(),
        unknown_arg(keys.take(n), args) is Some,
    ensures
        unknown_arg(keys, args) == unknown_arg(keys.take(n), args),
    decreases keys.len() - n,
{
    if n < keys.len() {
        assert(keys.take(n + 1).drop_last() =~= keys.take(n));
        lemma_unknown(keys, args, n + 1);
    } else {
        assert(keys.take(n) =~= keys);
    }
}

/// A call of a tool.
#[derive(Debug)]
pub struct ToolCall {
    pub name: String,
    pub args: StrMap<Json>,
}

/// A call in JSON.
pub open spec fn call_json(name: Seq<char>, args: Map<Seq<char>, JsonSpec>) -> JsonSpec {
    function_json(name, empty_object().insert("arguments"@, JsonSpec::Object(args)))
}

/// The first tool of a name.
pub open spec fn tool_index(tools: Seq<&Tool>, name: Seq<char>) -> Option<int>
    decreases tools.len(),
{
    if tools.len() == 0 {
        None
    } else {
        match tool_index(tools.drop_last(), name) {
            Some(i) => Some(i),
            None => if tools.last().name@ == name {
                Some(tools.len() - 1)
            } else {
                None
            },
        }
    }
}

impl ToolCall {
    /// A call of a tool with arguments.
    pub fn new(name: &str, args: StrMap<Json>) -> (r: Self)
        ensures
            r.name@ == name@,
            r.args == args,
    {
        ToolCall { name: name.to_owned(), args }
    }

    /// The tool that the call goes to, with its arguments checked.
    pub fn resolve<'a>(&self, tools: &Vec<&'a Tool>) -> (r: Result<&'a Tool>)
        ensures
            match tool_index(tools@, self.name@) {
                None => r matches Err(e) && is_other_error(
                    e,
                    "Tool function '"@ + self.name@ + "' not found"@,
                ),
                Some(i) => 0 <= i < tools@.len() && match unknown_arg(
                    self.args.keys(),
                    tools@[i].args@,
                ) {
                    None => r matches Ok(t) && *t == *tools@[i],
                    Some(k) => r matches Err(e) && is_other_error(
                        e,
                        "Arg '"@ + k + "' is not in the tool's args"@,
                    ),
                },
            },
    {
        let ghost all = tools@;
        let mut i: usize = 0;
        proof {
            assert(all.take(0) =~= Seq::<&Tool>::empty());
        }
        while i < tools.len()
            invariant
                i <= tools.len(),
                all == tools@,
                tool_index(all.take(i as int), self.name@) is None,
            decreases tools.len() - i,
        {
            proof {
                assert(all.take(i + 1).drop_last() =~= all.take(i as int));
                assert(all.take(i + 1).last() == tools@[i as int]);
            }
            let tool = tools[i];
            if same(tool.name.as_str(), self.name.as_str()) {
                proof {
                    lemma_first_tool(all, self.name@, i + 1);
                }
                return match tool.validate_args(&self.args) {
                    Ok(_) => Ok(tool),
                    Err(e) => Err(e),
                };
            }
            i = i + 1;
        }
        proof {
            assert(all.take(i as int) =~= all);
        }
        let mut m = "Tool function '".to_string();
        m.append(self.name.as_str());
        m.append("' not found");
        Err(DspyError::Other(m))
    }

    /// The call in JSON.
    pub fn format(&self) -> (r: Json)
        ensures
            r@ == call_json(self.name@, json_object(self.args)),
    {
        let mut function = new_object();
        put(&mut function, "arguments", Json::Object(copy_object(&self.args)));
        put_text(&mut function, "name", self.name.as_str());
        let mut m = new_object();
        put_text(&mut m, "type", "function");
        put(&mut m, "function", Json::Object(function));
        Json::Object(m)
    }
}

proof fn lemma_first_tool(tools: Seq<&Tool>, name: Seq<char>, n: int)
    requires
        0 <= n <= tools.len(),
        tool_index(tools.take(n), name) is Some,
    ensures
        tool_index(tools, name) == tool_index(tools.take(n), name),
    decreases tools.len() - n,
{
    if n < tools.len() {
        assert(tools.take(n + 1).drop_last() =~= tools.take(n));
        lemma_first_tool(tools, name, n + 1);
    } else {
        assert(tools.take(n) =~= tools);
    }
}

/// Calls of tools.
#[derive(Debug)]
pub struct ToolCalls {
    pub tool_calls: Vec<ToolCall>,
}

impl ToolCalls {
    /// Calls of tools.
    pub fn new(tool_calls: Vec<ToolCall>) -> (r: Self)
        ensures
            r.tool_calls == tool_calls,
    {
        ToolCalls { tool_calls }
    }

    /// The calls in JSON.
    pub fn format(&self) -> (r: Json)
        ensures
            r@ == JsonSpec::Object(
                empty_object().insert(
                    "tool_calls"@,
                    JsonSpec::Array(
                        self.tool_calls@.map_values(
                            |c: ToolCall| call_json(c.name@, json_object(c.args)),
                        ),
                    ),
                ),
            ),
    {
        let ghost want = self.tool_calls@.map_values(
            |c: ToolCall| call_json(c.name@, json_object(c.args)),
        );
        let mut items: Vec<Json> = Vec::new();
        let mut i: usize = 0;
        proof {
            lemma_json_list(items@);
            assert(json_list(items@) =~= want.take(0));
        }
        while i < self.tool_calls.len()
            invariant
                i <= self.tool_calls.len(),
                want == self.tool_calls@.map_values(
                    |c: ToolCall| call_json(c.name@, json_object(c.args)),
                ),
                json_list(items@) == want.take(i as int),
            decreases self.tool_calls.len() - i,
        {
            push_json(&mut items, self.tool_calls[i].format());
            proof {
                assert(want.take(i + 1) =~= want.take(i as int).push(want[i as int]));
            }
            i = i + 1;
        }
        proof {
            assert(want.take(i as int) =~= want);
        }
        let mut m = new_object();
        put(&mut m, "tool_calls", Json::Array(items));
        Json::Object(m)
    }
}

} // verus!
