//! Goals, and how a language model breaks them into tasks.
use vstd::prelude::*;
use crate::agent_rt::types::{IoOp, IoOpV};
use crate::json;
use crate::json::{Json, JsonV, ObjectBuilder};
use crate::util::text;
use crate::util::text::{chars_of, concat2, find_char, find_in, rfind_char, string_of, trim};

verus! {

/// The provider that breaks goals into tasks where none is named.
pub const DEFAULT_DECOMPOSE_PROVIDER: &'static str = "openrouter";

/// What the model is told to do.
pub const DECOMPOSE_SYSTEM_PROMPT: &'static str = "You are a task decomposition engine. Given a goal, break it into independent sub-tasks that can be executed in parallel by AI agents. Respond ONLY with a JSON object: {\"tasks\": [{\"task_id\": \"t1\", \"goal\": \"...\", \"depends_on\": []}, ...]}. Each task needs a unique task_id, a goal description, and an optional depends_on array of task_ids it must wait for. Keep tasks atomic and actionable. Aim for 2-6 tasks.";

/// The text of a goal: a string as it stands, any other value printed.
pub open spec fn goal_text(goal: JsonV) -> Seq<char> {
    match goal {
        JsonV::Str(s) => s,
        _ => json::json_pretty(goal),
    }
}

/// What the model is asked.
pub open spec fn user_prompt(goal: JsonV) -> Seq<char> {
    "Decompose this goal into sub-tasks:\n\n"@ + goal_text(goal)
}

/// The prompts for a goal: what the model is told to do, and what it is asked.
pub fn build_decomposition_prompt(goal: &Json) -> (r: (String, String))
    ensures
        r.0@ == DECOMPOSE_SYSTEM_PROMPT@,
        r.1@ == user_prompt(goal@),
{
    let shown: String = match goal {
        Json::Str(s) => s.clone(),
        _ => goal.to_pretty(),
    };
    (
        DECOMPOSE_SYSTEM_PROMPT.to_owned(),
        concat2("Decompose this goal into sub-tasks:\n\n", shown.as_str()),
    )
}

/// A text, or a default.
pub open spec fn text_or(o: Option<&str>, default: Seq<char>) -> Seq<char> {
    match o {
        Some(s) => s@,
        None => default,
    }
}

/// The conversation that breaks a goal into tasks. The default model is used where no other one is
/// named.
pub fn build_decomposition_chat_op(
    goal: &Json,
    provider: Option<&str>,
    model: Option<&str>,
    default_model: &str,
) -> (r: IoOp)
    ensures
        r@ == (IoOpV::AgentChat {
            provider: text_or(provider, DEFAULT_DECOMPOSE_PROVIDER@),
            model: Some(text_or(model, default_model@)),
            system_prompt: Some(DECOMPOSE_SYSTEM_PROMPT@),
            prompt: user_prompt(goal@),
            tools: None,
            max_iterations: Some(1),
            timeout_ms: Some(60_000),
        }),
{
    let (system, user) = build_decomposition_prompt(goal);
    IoOp::AgentChat {
        provider: match provider {
            Some(p) => p.to_owned(),
            None => DEFAULT_DECOMPOSE_PROVIDER.to_owned(),
        },
        model: Some(
            match model {
                Some(m) => m.to_owned(),
                None => default_model.to_owned(),
            },
        ),
        system_prompt: Some(system),
        prompt: user,
        tools: None,
        max_iterations: Some(1),
        timeout_ms: Some(60_000),
    }
}

// ---------------------------------------------------------------------------
// The JSON in an answer
// ---------------------------------------------------------------------------
/// What stands between an opening fence and the next fence, without white space around it.
pub open spec fn fenced(s: Seq<char>, fence: Seq<char>) -> Option<Seq<char>> {
    match text::find(s, fence) {
        None => None,
        Some(start) => {
            let after = s.skip(start + fence.len());
            match text::find(after, "```"@) {
                Some(end) => Some(text::trimmed(after.take(end))),
                None => None,
            }
        },
    }
}

/// Where an opening character first stands, and where the closing one last stands after it.
pub open spec fn span(s: Seq<char>, open: char, close: char) -> Option<(int, int)> {
    match (text::first_of(s, open), text::last_of(s, close)) {
        (Some(i), Some(j)) => if j > i {
            Some((i, j))
        } else {
            None
        },
        _ => None,
    }
}

/// The part of an answer that should be JSON: what a fence marks as such, else what stands
/// between fences, else the object or array that starts first, else all of it.
pub open spec fn json_block(s: Seq<char>) -> Seq<char> {
    match fenced(s, "```json"@) {
        Some(b) => b,
        None => match fenced(s, "```"@) {
            Some(b) => b,
            None => match (span(s, '{', '}'), span(s, '[', ']')) {
                (Some(o), Some(a)) => if a.0 < o.0 {
                    s.subrange(a.0, a.1 + 1)
                } else {
                    s.subrange(o.0, o.1 + 1)
                },
                (Some(o), None) => s.subrange(o.0, o.1 + 1),
                (None, Some(a)) => s.subrange(a.0, a.1 + 1),
                (None, None) => text::trimmed(s),
            },
        },
    }
}

fn find_fenced(cs: &Vec<char>, fence: &str) -> (r: Option<String>)
    ensures
        r is Some <==> fenced(cs@, fence@) is Some,
        r matches Some(b) ==> fenced(cs@, fence@) == Some(b@),
{
    assert(cs@.skip(0) =~= cs@);
    let len: usize = cs.len();
    match find_in(cs, fence, 0) {
        Some(start) => {
            let n: usize = fence.unicode_len();
            let from: usize = start + n;
            match find_in(cs, "```", from) {
                Some(end) => {
                    let inner: String = string_of(cs, from, from + end);
                    assert(inner@ =~= cs@.skip(from as int).take(end as int));
                    Some(trim(inner.as_str()))
                },
                None => None,
            }
        },
        None => None,
    }
}

fn find_span(cs: &Vec<char>, open: char, close: char) -> (r: Option<(usize, usize)>)
    ensures
        r is Some <==> span(cs@, open, close) is Some,
        r matches Some(p) ==> p.0 <= p.1 < cs@.len() && span(cs@, open, close) == Some(
            (p.0 as int, p.1 as int),
        ),
{
    match (find_char(cs, open), rfind_char(cs, close)) {
        (Some(i), Some(j)) => if j > i {
            Some((i, j))
        } else {
            None
        },
        _ => None,
    }
}

/// The part of an answer that should be JSON.
pub fn extract_json_block(s: &str) -> (r: String)
    ensures
        r@ == json_block(s@),
{
    let cs: Vec<char> = chars_of(s);
    let len: usize = cs.len();
    if let Some(b) = find_fenced(&cs, "```json") {
        return b;
    }
    if let Some(b) = find_fenced(&cs, "```") {
        return b;
    }
    match (find_span(&cs, '{', '}'), find_span(&cs, '[', ']')) {
        (Some(o), Some(a)) => if a.0 < o.0 {
            string_of(&cs, a.0, a.1 + 1)
        } else {
            string_of(&cs, o.0, o.1 + 1)
        },
        (Some(o), None) => string_of(&cs, o.0, o.1 + 1),
        (None, Some(a)) => string_of(&cs, a.0, a.1 + 1),
        (None, None) => trim(s),
    }
}

/// An object with one member, `tasks`.
pub open spec fn task_object(tasks: JsonV) -> JsonV {
    JsonV::Object(seq![("tasks"@, tasks)])
}

/// An array that is not empty.
pub open spec fn some_items(v: JsonV) -> bool {
    v.items() matches Some(a) && a.len() > 0
}

/// One task that is the whole goal.
pub open spec fn whole_goal(goal: JsonV) -> JsonV {
    JsonV::Array(
        seq![JsonV::Object(seq![("task_id"@, JsonV::Str("task-0"@)), ("goal"@, goal)])],
    )
}

/// The tasks in an answer that was read: its member `tasks` or itself, where that is an array
/// that is not empty; else the whole goal as one task.
pub open spec fn tasks_in(answer: Result<JsonV, Seq<char>>, goal: JsonV) -> JsonV {
    match answer {
        Ok(v) => match v.get("tasks"@) {
            Some(t) => if some_items(t) {
                task_object(t)
            } else {
                task_object(whole_goal(goal))
            },
            None => if some_items(v) {
                task_object(v)
            } else {
                task_object(whole_goal(goal))
            },
        },
        Err(_) => task_object(whole_goal(goal)),
    }
}

fn has_items(v: &Json) -> (r: bool)
    ensures
        r == some_items(v@),
{
    match v.as_array() {
        Some(a) => a.len() > 0,
        None => false,
    }
}

fn with_tasks(tasks: Json) -> (r: Json)
    ensures
        r@ == task_object(tasks@),
{
    let mut o = ObjectBuilder::new();
    o.put("tasks", tasks);
    assert(o@ =~= task_object(tasks@)->Object_0);
    o.build()
}

/// The tasks in an answer that was read.
pub fn tasks_from_answer(answer: Result<Json, String>, goal: &Json) -> (r: Json)
    ensures
        r@ == tasks_in(json::parse_view(answer), goal@),
{
    if let Ok(v) = answer {
        match v.get("tasks") {
            Some(t) => {
                if has_items(t) {
                    return with_tasks(t.dup());
                }
            },
            None => {
                if has_items(&v) {
                    return with_tasks(v);
                }
            },
        }
    }
    let mut t = ObjectBuilder::new();
    t.put_str("task_id", "task-0");
    t.put("goal", goal.dup());
    let task: Json = t.build();
    let mut list: Vec<Json> = Vec::new();
    list.push(task);
    proof {
        json::lemma_array_tree(list);
        assert(json::array_view(list@) =~= whole_goal(goal@)->Array_0) by {
            assert(task@->Object_0 =~= seq![
                ("task_id"@, JsonV::Str("task-0"@)),
                ("goal"@, goal@),
            ]);
        }
    }
    with_tasks(Json::Array(list))
}

/// The tasks in the text of an answer.
pub fn parse_decomposition_response(response: &str, goal: &Json) -> (r: Json)
    ensures
        r@ == tasks_in(json::json_parsed(json_block(response@)), goal@),
{
    let block: String = extract_json_block(response);
    tasks_from_answer(Json::parse(block.as_str()), goal)
}

/// Whatever the answer is, there is at least one task.
pub proof fn law_some_task(answer: Result<JsonV, Seq<char>>, goal: JsonV)
    ensures
        tasks_in(answer, goal).get("tasks"@) matches Some(t) && some_items(t),
{
    let o = tasks_in(answer, goal)->Object_0;
    assert(o[0].0 == "tasks"@);
}

/// What a fence marks as JSON is found, wherever it stands in an answer, and the white space around
/// it does not count.
pub proof fn law_marked_json_is_found(before: Seq<char>, inner: Seq<char>, after: Seq<char>)
    requires
        text::find(before + "```json"@ + inner + "```"@ + after, "```json"@) == Some(
            before.len() as int,
        ),
        text::find(inner + "```"@ + after, "```"@) == Some(inner.len() as int),
    ensures
        json_block(before + "```json"@ + inner + "```"@ + after) == text::trimmed(inner),
{
    let s = before + "```json"@ + inner + "```"@ + after;
    let n = before.len() + "```json"@.len();
    assert(s.skip(n as int) =~= inner + "```"@ + after);
    assert((inner + "```"@ + after).take(inner.len() as int) =~= inner);
}

/// Where no fence marks it, the object from the first opening to the last closing bracket is found,
/// without what is said around it.
pub proof fn law_bare_object_is_found(before: Seq<char>, inner: Seq<char>, after: Seq<char>)
    requires
        ({
            let s = before.push('{') + inner.push('}') + after;
            &&& text::find(s, "```json"@) is None
            &&& text::find(s, "```"@) is None
            &&& text::first_of(s, '{') == Some(before.len() as int)
            &&& text::last_of(s, '}') == Some((before.len() + 1 + inner.len()) as int)
            &&& text::first_of(s, '[') matches Some(i) ==> i > before.len()
        }),
    ensures
        json_block(before.push('{') + inner.push('}') + after) == seq!['{'] + inner.push('}'),
{
    let s = before.push('{') + inner.push('}') + after;
    let b = before.len() as int;
    assert(s.subrange(b, b + 2 + inner.len()) =~= seq!['{'] + inner.push('}'));
}

/// The tasks of an answer are taken as they are: those under their name, or the answer itself where it
/// is a list; without any, the one task is the goal.
pub proof fn law_tasks_are_taken(v: JsonV, a: Seq<JsonV>, goal: JsonV, e: Seq<char>)
    ensures
        v.get("tasks"@) == Some(JsonV::Array(a)) && a.len() > 0 ==> tasks_in(Ok(v), goal).get(
            "tasks"@,
        ) == Some(JsonV::Array(a)),
        a.len() > 0 ==> tasks_in(Ok(JsonV::Array(a)), goal).get("tasks"@) == Some(JsonV::Array(a)),
        tasks_in(Err(e), goal).get("tasks"@) matches Some(JsonV::Array(b)) && b.len() == 1
            && b[0].get("goal"@) == Some(goal) && b[0].get_text("task_id"@) == Some("task-0"@),
        v.get("tasks"@) == Some(JsonV::Array(Seq::empty())) ==> tasks_in(Ok(v), goal) == tasks_in(
            Err(e),
            goal,
        ),
{
    reveal_strlit("task_id");
    reveal_strlit("goal");
    assert("task_id"@.len() == 7 && "goal"@.len() == 4);
    let m = seq![("task_id"@, JsonV::Str("task-0"@)), ("goal"@, goal)];
    json::lemma_member_at(m, 0);
    json::lemma_member_at(m, 1);
    json::lemma_member_at(seq![("tasks"@, whole_goal(goal))], 0);
    json::lemma_member_at(seq![("tasks"@, JsonV::Array(a))], 0);
}

/// The model is asked about the goal: the text of it stands at the end of what it is asked.
pub proof fn law_goal_is_asked(goal: Seq<char>)
    ensures
        exists|n: int|
            0 <= n <= user_prompt(JsonV::Str(goal)).len() && #[trigger] user_prompt(
                JsonV::Str(goal),
            ).skip(n) == goal,
{
    let p = "Decompose this goal into sub-tasks:\n\n"@;
    assert(user_prompt(JsonV::Str(goal)).skip(p.len() as int) =~= goal);
}

} // verus!
