//! Code in the replies of a model, and what running it gave.

use crate::interpreter::{CodeInterpreterError, ExecutionResult};
use crate::json::{printed_json, Json, JsonSpec};
use crate::text::{
    before, before_of, chars_of, matches_at, occurs_at, replace, replace_of, slice_text, trim,
    trim_of,
};
use vstd::prelude::*;

verus! {

/// The part of a reply that may hold code: what stands before dashes or two blank
/// lines.
pub open spec fn raw_code_of(full: Seq<char>) -> Seq<char> {
    before_of(before_of(full, "---"@), "\n\n\n"@)
}

/// A space or a line break.
pub open spec fn is_gap(c: char) -> bool {
    c == ' ' || c == '\n'
}

/// The gap after the name of the language at `p`, if there is one.
pub open spec fn gap_after_name(s: Seq<char>, p: int) -> Option<int> {
    if occurs_at(s, "python"@, p) && p + 6 < s.len() && is_gap(s[p + 6]) {
        Some(p + 6)
    } else if occurs_at(s, "py"@, p) && p + 2 < s.len() && is_gap(s[p + 2]) {
        Some(p + 2)
    } else if 0 <= p < s.len() && is_gap(s[p]) {
        Some(p)
    } else {
        None
    }
}

/// Where the line of code that begins at `q` ends: at a gap before two backquotes.
pub open spec fn line_end(s: Seq<char>, q: int) -> Option<int>
    decreases s.len() - q,
{
    if q < 0 || q + 2 >= s.len() {
        None
    } else if is_gap(s[q]) && s[q + 1] == '`' && s[q + 2] == '`' {
        Some(q)
    } else if s[q] == '\n' {
        None
    } else {
        line_end(s, q + 1)
    }
}

/// The line of code in the block that opens at `p`.
pub open spec fn block_at(s: Seq<char>, p: int) -> Option<Seq<char>> {
    if occurs_at(s, "```"@, p) {
        match gap_after_name(s, p + 3) {
            Some(e) => match line_end(s, e + 1) {
                Some(q) => Some(s.subrange(e + 1, q)),
                None => None,
            },
            None => None,
        }
    } else {
        None
    }
}

/// The line of code in the first block from `p` on.
pub open spec fn first_block(s: Seq<char>, p: int) -> Option<Seq<char>>
    decreases s.len() - p,
{
    if p < 0 || p >= s.len() {
        None
    } else {
        match block_at(s, p) {
            Some(t) => Some(t),
            None => first_block(s, p + 1),
        }
    }
}

/// The code in a part of a reply: the line in its first block, or else all of it.
/// Line breaks that were written as escapes become line breaks.
pub open spec fn code_block_of(raw: Seq<char>) -> Seq<char> {
    replace_of(
        match first_block(raw, 0) {
            Some(t) => t,
            None => raw,
        },
        "\\n"@,
        "\n"@,
    )
}

fn find_gap(v: &Vec<char>, p: usize) -> (r: Option<usize>)
    requires
        p <= v@.len(),
    ensures
        match r {
            Some(e) => gap_after_name(v@, p as int) == Some(e as int) && e < v@.len(),
            None => gap_after_name(v@, p as int) is None,
        },
{
    proof {
        reveal_strlit("python");
        reveal_strlit("py");
    }
    let n: usize = v.len();
    let python = chars_of("python");
    if matches_at(v, &python, p) && n - p > 6 && (v[p + 6] == ' ' || v[p + 6] == '\n') {
        return Some(p + 6);
    }
    let py = chars_of("py");
    if matches_at(v, &py, p) && n - p > 2 && (v[p + 2] == ' ' || v[p + 2] == '\n') {
        return Some(p + 2);
    }
    if p < n && (v[p] == ' ' || v[p] == '\n') {
        return Some(p);
    }
    None
}

fn find_line_end(v: &Vec<char>, from: usize) -> (r: Option<usize>)
    requires
        from <= v@.len(),
    ensures
        match r {
            Some(q) => line_end(v@, from as int) == Some(q as int) && from <= q < v@.len(),
            None => line_end(v@, from as int) is None,
        },
{
    let n: usize = v.len();
    let mut q: usize = from;
    while q < n && n - q > 2
        invariant
            n == v@.len(),
            from <= q <= n,
            line_end(v@, from as int) == line_end(v@, q as int),
        decreases n - q,
    {
        if (v[q] == ' ' || v[q] == '\n') && v[q + 1] == '`' && v[q + 2] == '`' {
            return Some(q);
        }
        if v[q] == '\n' {
            return None;
        }
        q = q + 1;
    }
    None
}

fn find_block(v: &Vec<char>) -> (r: Option<String>)
    ensures
        match r {
            Some(t) => first_block(v@, 0) == Some(t@),
            None => first_block(v@, 0) is None,
        },
{
    proof {
        reveal_strlit("```");
    }
    let n: usize = v.len();
    let open = chars_of("```");
    let mut p: usize = 0;
    while p < n
        invariant
            n == v@.len(),
            p <= n,
            open@ == "```"@,
            "```"@.len() == 3,
            first_block(v@, 0) == first_block(v@, p as int),
        decreases n - p,
    {
        if matches_at(v, &open, p) {
            if let Some(e) = find_gap(v, p + 3) {
                if let Some(q) = find_line_end(v, e + 1) {
                    return Some(slice_text(v, e + 1, q));
                }
            }
        }
        p = p + 1;
    }
    None
}

/// The part of a reply that may hold code.
pub fn raw_code(full: &str) -> (r: String)
    ensures
        r@ == raw_code_of(full@),
{
    before(before(full, "---").as_str(), "\n\n\n")
}

/// The code in a part of a reply.
pub fn code_block(raw: &str) -> (r: String)
    ensures
        r@ == code_block_of(raw@),
{
    proof {
        reveal_strlit("\\n");
    }
    let v = chars_of(raw);
    match find_block(&v) {
        Some(t) => replace(t.as_str(), "\\n", "\n"),
        None => replace(raw, "\\n", "\n"),
    }
}

/// Whether a text is empty or all white space.
pub fn is_blank(s: &str) -> (r: bool)
    ensures
        r == (trim_of(s@).len() == 0),
{
    trim(s).as_str().is_empty()
}

/// The text of a final output: a text as it is, and anything else in JSON.
pub open spec fn final_text(j: JsonSpec) -> Seq<char> {
    match j {
        JsonSpec::Text(s) => s,
        _ => printed_json(j),
    }
}

/// What running code gave: its output, or the error.
pub open spec fn ran(
    r: std::result::Result<ExecutionResult, CodeInterpreterError>,
) -> std::result::Result<Seq<char>, Seq<char>> {
    match r {
        Ok(ExecutionResult::Final(f)) => Ok(final_text(f.output@)),
        Ok(ExecutionResult::Output(Some(s))) => Ok(s@),
        Ok(ExecutionResult::Output(None)) => Ok(Seq::empty()),
        Err(e) => Err(e.message@),
    }
}

/// A result says what is wanted.
pub open spec fn says(
    r: std::result::Result<String, String>,
    want: std::result::Result<Seq<char>, Seq<char>>,
) -> bool {
    match (r, want) {
        (Ok(a), Ok(b)) => a@ == b,
        (Err(a), Err(b)) => a@ == b,
        _ => false,
    }
}

/// What running code gave: its output, or the error.
pub fn run_output(r: std::result::Result<ExecutionResult, CodeInterpreterError>) -> (o:
    std::result::Result<String, String>)
    ensures
        says(o, ran(r)),
{
    match r {
        Ok(ExecutionResult::Final(f)) => match f.output {
            Json::Text(s) => Ok(s),
            other => Ok(other.to_text()),
        },
        Ok(ExecutionResult::Output(Some(s))) => Ok(s),
        Ok(ExecutionResult::Output(None)) => {
            let s = String::new();
            proof {
                assert(s@ =~= Seq::<char>::empty());
            }
            Ok(s)
        },
        Err(e) => Err(e.message),
    }
}

} // verus!
