use vstd::prelude::*;
use vstd::string::*;

use crate::json::JsonValue;
use crate::laya::{Question, SystemOneRequest};
use crate::pattern::{compile_pattern, pattern_is_match, regex_compiles, regex_is_match};
use crate::text::{all_ws, is_blank, join, str_eq};

verus! {

broadcast use vstd::string::group_string_axioms;

/// The option name that stands for "answer in plain text".
pub const NO_TOOL: &'static str = "__no_tool__";

/// Requests with more tools than this are not routed.
pub const MAX_TOOLS: usize = 32;

/// The pattern that a tool name must match to be routed.
pub const TOOL_NAME_PATTERN: &'static str = "^[\\p{L}\\p{N}_.:/-]{1,128}$";

/// A tool that the agent offers the model.
#[derive(Debug, Clone)]
pub struct ToolInfo {
    pub name: String,
    pub description: String,
}

/// What the routing decision reads from a chat request.
#[derive(Debug, Clone)]
pub struct DecideInput {
    pub system: String,
    pub last_user: String,
    pub tools: Vec<ToolInfo>,
    pub tool_choice_decided: bool,
}

/// Why a request is passed through without asking System One.
#[derive(Debug, Clone, Copy, PartialEq, Eq, Structural)]
pub enum SkipReason {
    ToolChoiceAlreadyDecided,
    NoTools,
    TooManyTools,
    NoMessages,
    UnsafeToolName,
    ReservedToolName,
    DuplicateToolNames,
}

impl SkipReason {
    pub open spec fn spec_text(self) -> Seq<char> {
        match self {
            SkipReason::ToolChoiceAlreadyDecided => "tool_choice_already_decided"@,
            SkipReason::NoTools => "no_tools"@,
            SkipReason::TooManyTools => "too_many_tools"@,
            SkipReason::NoMessages => "no_messages"@,
            SkipReason::UnsafeToolName => "unsafe_tool_name"@,
            SkipReason::ReservedToolName => "reserved_tool_name"@,
            SkipReason::DuplicateToolNames => "duplicate_tool_names"@,
        }
    }

    /// The reason as it is reported and counted.
    pub fn as_str(&self) -> (s: &'static str)
        ensures
            s@ == self.spec_text(),
    {
        match self {
            SkipReason::ToolChoiceAlreadyDecided => "tool_choice_already_decided",
            SkipReason::NoTools => "no_tools",
            SkipReason::TooManyTools => "too_many_tools",
            SkipReason::NoMessages => "no_messages",
            SkipReason::UnsafeToolName => "unsafe_tool_name",
            SkipReason::ReservedToolName => "reserved_tool_name",
            SkipReason::DuplicateToolNames => "duplicate_tool_names",
        }
    }
}

/// A tool name that may be routed: the name pattern compiles and matches it.
pub open spec fn safe_tool_name(name: Seq<char>) -> bool {
    regex_compiles(TOOL_NAME_PATTERN@) && regex_is_match(TOOL_NAME_PATTERN@, name)
}

/// Whether `name` is a tool name that may be routed.
pub fn is_safe_tool_name(name: &str) -> (r: bool)
    ensures
        r == safe_tool_name(name@),
{
    match compile_pattern(TOOL_NAME_PATTERN) {
        Some(p) => pattern_is_match(&p, name),
        None => false,
    }
}

/// For each tool, whether its name is safe.
pub open spec fn safe_flags(tools: Seq<ToolInfo>) -> Seq<bool> {
    tools.map_values(|t: ToolInfo| safe_tool_name(t.name@))
}

/// The names of `tools`.
pub open spec fn tool_names(tools: Seq<ToolInfo>) -> Seq<Seq<char>> {
    tools.map_values(|t: ToolInfo| t.name@)
}

/// The first tool (in order) that is unsafe or reserved decides: an unsafe
/// name is reported before a reserved one.
pub open spec fn first_bad_tool(names: Seq<Seq<char>>, safe: Seq<bool>) -> Option<SkipReason>
    decreases names.len(),
{
    if names.len() == 0 || safe.len() == 0 {
        None
    } else if !safe[0] {
        Some(SkipReason::UnsafeToolName)
    } else if names[0] == NO_TOOL@ {
        Some(SkipReason::ReservedToolName)
    } else {
        first_bad_tool(names.drop_first(), safe.drop_first())
    }
}

/// Two tools share a name.
pub open spec fn has_duplicate(names: Seq<Seq<char>>) -> bool {
    exists|i: int, j: int| 0 <= i < j < names.len() && names[i] == names[j]
}

/// Why a request with these tools is not routed, given for each tool
/// whether its name is safe.
pub open spec fn skip_outcome(input: DecideInput, safe: Seq<bool>) -> Option<SkipReason> {
    let names = tool_names(input.tools@);
    if input.tool_choice_decided {
        Some(SkipReason::ToolChoiceAlreadyDecided)
    } else if input.tools@.len() == 0 {
        Some(SkipReason::NoTools)
    } else if input.tools@.len() > MAX_TOOLS {
        Some(SkipReason::TooManyTools)
    } else if all_ws(input.last_user@) && all_ws(input.system@) {
        Some(SkipReason::NoMessages)
    } else if first_bad_tool(names, safe) is Some {
        first_bad_tool(names, safe)
    } else if has_duplicate(names) {
        Some(SkipReason::DuplicateToolNames)
    } else {
        None
    }
}

/// When every name is safe and none is the reserved one, no tool is bad.
pub proof fn lemma_no_bad_tool(names: Seq<Seq<char>>, safe: Seq<bool>)
    requires
        names.len() == safe.len(),
        forall|i: int| 0 <= i < names.len() ==> #[trigger] safe[i] && names[i] != NO_TOOL@,
    ensures
        first_bad_tool(names, safe) is None,
    decreases names.len(),
{
    if names.len() > 0 {
        assert(safe[0] && names[0] != NO_TOOL@);
        let n1 = names.drop_first();
        let s1 = safe.drop_first();
        assert forall|i: int| 0 <= i < n1.len() implies #[trigger] s1[i] && n1[i] != NO_TOOL@ by {
            assert(s1[i] == safe[i + 1] && n1[i] == names[i + 1]);
        }
        lemma_no_bad_tool(n1, s1);
    }
}

/// The first tool that is unsafe or reserved is the one reported: an unsafe
/// name at `k` (all earlier tools fine) gives `unsafe_tool_name`, a safe but
/// reserved one gives `reserved_tool_name`.
pub proof fn lemma_first_bad_tool_at(names: Seq<Seq<char>>, safe: Seq<bool>, k: int)
    requires
        names.len() == safe.len(),
        0 <= k < names.len(),
        forall|i: int| 0 <= i < k ==> #[trigger] safe[i] && names[i] != NO_TOOL@,
        !safe[k] || names[k] == NO_TOOL@,
    ensures
        first_bad_tool(names, safe) == if !safe[k] {
            Some(SkipReason::UnsafeToolName)
        } else {
            Some(SkipReason::ReservedToolName)
        },
    decreases k,
{
    if k > 0 {
        assert(safe[0] && names[0] != NO_TOOL@);
        let n1 = names.drop_first();
        let s1 = safe.drop_first();
        assert forall|i: int| 0 <= i < k - 1 implies #[trigger] s1[i] && n1[i] != NO_TOOL@ by {
            assert(s1[i] == safe[i + 1] && n1[i] == names[i + 1]);
        }
        assert(s1[k - 1] == safe[k] && n1[k - 1] == names[k]);
        lemma_first_bad_tool_at(n1, s1, k - 1);
    }
}

/// Every tool name is safe and none is the reserved plain-text option.
pub open spec fn names_usable(tools: Seq<ToolInfo>, safe: Seq<bool>) -> bool {
    forall|i: int| 0 <= i < safe.len() ==> #[trigger] safe[i] && tools[i].name@ != NO_TOOL@
}

/// Two tools, at any positions, share a name.
pub open spec fn name_shared(tools: Seq<ToolInfo>) -> bool {
    exists|i: int, j: int| 0 <= i < j < tools.len() && #[trigger] tools[i].name@ == #[trigger] tools[j].name@
}

/// An earlier check (decided `tool_choice`, no tools, too many tools, only
/// blank messages) applies.
pub open spec fn decided_early(input: DecideInput) -> bool {
    ||| input.tool_choice_decided
    ||| input.tools@.len() == 0
    ||| input.tools@.len() > MAX_TOOLS
    ||| (all_ws(input.last_user@) && all_ws(input.system@))
}

/// The checks apply in order: an already decided `tool_choice`, no tools,
/// more than `MAX_TOOLS` tools, only blank messages; then the first unsafe or
/// reserved tool name; then two tools (at any positions) sharing a name. A
/// request is routed only when all names are safe, none is reserved and all
/// are pairwise distinct.
pub proof fn lemma_skip_outcome_law(input: DecideInput, safe: Seq<bool>)
    requires
        safe.len() == input.tools@.len(),
    ensures
        input.tool_choice_decided ==> skip_outcome(input, safe) == Some(
            SkipReason::ToolChoiceAlreadyDecided,
        ),
        !input.tool_choice_decided && input.tools@.len() == 0 ==> skip_outcome(input, safe) == Some(
            SkipReason::NoTools,
        ),
        !input.tool_choice_decided && input.tools@.len() > MAX_TOOLS ==> skip_outcome(input, safe)
            == Some(SkipReason::TooManyTools),
        !input.tool_choice_decided && 0 < input.tools@.len() <= MAX_TOOLS && all_ws(input.last_user@)
            && all_ws(input.system@) ==> skip_outcome(input, safe) == Some(SkipReason::NoMessages),
        !decided_early(input) && names_usable(input.tools@, safe) && name_shared(input.tools@)
            ==> skip_outcome(input, safe) == Some(SkipReason::DuplicateToolNames),
        !decided_early(input) && names_usable(input.tools@, safe) && !name_shared(input.tools@)
            ==> skip_outcome(input, safe) is None,
        skip_outcome(input, safe) is None ==> !decided_early(input) && names_usable(input.tools@, safe)
            && !name_shared(input.tools@),
{
    let names = tool_names(input.tools@);
    if names_usable(input.tools@, safe) {
        assert forall|i: int| 0 <= i < names.len() implies #[trigger] safe[i] && names[i] != NO_TOOL@ by {
            assert(names[i] == input.tools@[i].name@);
        }
        lemma_no_bad_tool(names, safe);
        if has_duplicate(names) {
            let (i, j) = choose|i: int, j: int| 0 <= i < j < names.len() && names[i] == names[j];
            assert(input.tools@[i].name@ == names[i] && input.tools@[j].name@ == names[j]);
        }
        if name_shared(input.tools@) {
            let (i, j) = choose|i: int, j: int|
                0 <= i < j < input.tools@.len() && #[trigger] input.tools@[i].name@
                    == #[trigger] input.tools@[j].name@;
            assert(names[i] == names[j]);
        }
    } else {
        let k0 = choose|k: int| 0 <= k < safe.len() && !(#[trigger] safe[k] && input.tools@[k].name@ != NO_TOOL@);
        lemma_first_bad_index(names, safe, input.tools@, k0);
    }
}

/// Some tool is bad, so the first bad one is reported.
proof fn lemma_first_bad_index(names: Seq<Seq<char>>, safe: Seq<bool>, tools: Seq<ToolInfo>, k0: int)
    requires
        names == tool_names(tools),
        safe.len() == tools.len(),
        0 <= k0 < safe.len(),
        !(safe[k0] && tools[k0].name@ != NO_TOOL@),
    ensures
        first_bad_tool(names, safe) is Some,
    decreases k0,
{
    if forall|i: int| 0 <= i < k0 ==> #[trigger] safe[i] && names[i] != NO_TOOL@ {
        assert(names[k0] == tools[k0].name@);
        lemma_first_bad_tool_at(names, safe, k0);
    } else {
        let k1 = choose|i: int| 0 <= i < k0 && !(#[trigger] safe[i] && names[i] != NO_TOOL@);
        assert(names[k1] == tools[k1].name@);
        lemma_first_bad_index(names, safe, tools, k1);
    }
}

/// Why the request is not routed, if it is not: the whole decision after the
/// name pattern has been tried on each tool (`name_is_safe[i]` for
/// `input.tools[i]`).
#[verifier::loop_isolation(false)]
pub fn skip_reason_given(input: &DecideInput, name_is_safe: &Vec<bool>) -> (r: Option<SkipReason>)
    requires
        name_is_safe@.len() == input.tools@.len(),
    ensures
        r == skip_outcome(*input, name_is_safe@),
{
    if input.tool_choice_decided {
        return Some(SkipReason::ToolChoiceAlreadyDecided);
    }
    let n = input.tools.len();
    if n == 0 {
        return Some(SkipReason::NoTools);
    }
    if n > MAX_TOOLS {
        return Some(SkipReason::TooManyTools);
    }
    if is_blank(input.last_user.as_str()) && is_blank(input.system.as_str()) {
        return Some(SkipReason::NoMessages);
    }
    let ghost names = tool_names(input.tools@);
    let ghost safe = name_is_safe@;
    assert(names.skip(0) == names && safe.skip(0) == safe);
    for i in 0..n
        invariant
            n == input.tools@.len(),
            names == tool_names(input.tools@),
            safe == name_is_safe@,
            safe.len() == n,
            first_bad_tool(names, safe) == first_bad_tool(names.skip(i as int), safe.skip(i as int)),
    {
        let ghost ns = names.skip(i as int);
        let ghost ss = safe.skip(i as int);
        assert(ns[0] == input.tools@[i as int].name@);
        assert(ss[0] == name_is_safe@[i as int]);
        if !name_is_safe[i] {
            return Some(SkipReason::UnsafeToolName);
        }
        if str_eq(input.tools[i].name.as_str(), NO_TOOL) {
            return Some(SkipReason::ReservedToolName);
        }
        assert(ns.drop_first() == names.skip(i + 1));
        assert(ss.drop_first() == safe.skip(i + 1));
    }
    assert(names.skip(n as int).len() == 0);
    for i in 0..n
        invariant
            n == input.tools@.len(),
            names == tool_names(input.tools@),
            forall|a: int, b: int| 0 <= a < b < n && a < i ==> names[a] != names[b],
    {
        for j in i + 1..n
            invariant
                n == input.tools@.len(),
                names == tool_names(input.tools@),
                i < n,
                forall|a: int, b: int| 0 <= a < b < n && a < i ==> names[a] != names[b],
                forall|b: int| i < b < j ==> names[i as int] != names[b],
        {
            if input.tools[i].name == input.tools[j].name {
                assert(names[i as int] == names[j as int]);
                return Some(SkipReason::DuplicateToolNames);
            }
        }
    }
    None
}

/// Why the request is not routed, if it is not (`Some` with the reported
/// reason).
pub fn skip_reason_kind(input: &DecideInput) -> (r: Option<SkipReason>)
    ensures
        r == skip_outcome(*input, safe_flags(input.tools@)),
{
    let n = input.tools.len();
    let decided_early = input.tool_choice_decided || n == 0 || n > MAX_TOOLS || (is_blank(
        input.last_user.as_str(),
    ) && is_blank(input.system.as_str()));
    let mut safe: Vec<bool> = Vec::new();
    if decided_early {
        // The name pattern is not consulted: an earlier check decides.
        for i in 0..n
            invariant
                n == input.tools@.len(),
                safe@.len() == i,
        {
            safe.push(false);
        }
        let r = skip_reason_given(input, &safe);
        assert(skip_outcome(*input, safe@) == skip_outcome(*input, safe_flags(input.tools@)));
        return r;
    }
    let compiled = compile_pattern(TOOL_NAME_PATTERN);
    for i in 0..n
        invariant
            n == input.tools@.len(),
            safe@.len() == i,
            compiled is Some <==> regex_compiles(TOOL_NAME_PATTERN@),
            compiled matches Some(c) ==> c@ == TOOL_NAME_PATTERN@,
            forall|k: int| 0 <= k < i ==> #[trigger] safe@[k] == safe_tool_name(input.tools@[k].name@),
    {
        let ok = match &compiled {
            Some(p) => pattern_is_match(p, input.tools[i].name.as_str()),
            None => false,
        };
        safe.push(ok);
    }
    assert(safe@ == safe_flags(input.tools@));
    skip_reason_given(input, &safe)
}

/// Why the request is not routed, as the reported text; `None` when it is
/// routed.
pub fn skip_reason(input: &DecideInput) -> (r: Option<&'static str>)
    ensures
        r is Some <==> skip_outcome(*input, safe_flags(input.tools@)) is Some,
        r matches Some(s) ==> s@ == skip_outcome(*input, safe_flags(input.tools@))->0.spec_text(),
{
    match skip_reason_kind(input) {
        Some(k) => Some(k.as_str()),
        None => None,
    }
}

/// The description of the plain-text option.
pub const NO_TOOL_DESCRIPTION: &'static str = "Reply in plain text; no tool call is needed.";

/// The instructions of the `tool` question.
pub const TOOL_QUESTION: &'static str = "Which tool should the coding agent call next? Pick __no_tool__ if the model should answer in text.";

/// The instructions of the `needs_tool` question.
pub const NEEDS_TOOL_QUESTION: &'static str = "Does the latest user turn require a tool call rather than a text reply?";

/// `s` cut to its first `max` characters, with `…` appended when cut.
pub open spec fn truncated(s: Seq<char>, max: nat) -> Seq<char> {
    if s.len() <= max {
        s
    } else {
        s.take(max as int) + "\u{2026}"@
    }
}

/// Truncation keeps short strings whole; a longer one becomes exactly its
/// first `max` characters and one `…`, so the result never exceeds `max + 1`
/// characters.
pub proof fn lemma_truncated_shape(s: Seq<char>, max: nat)
    ensures
        truncated(s, max).len() <= max + 1,
        s.len() <= max ==> truncated(s, max) == s,
        s.len() > max ==> truncated(s, max).len() == max + 1 && truncated(s, max).take(max as int)
            == s.take(max as int) && truncated(s, max)[max as int] == '\u{2026}',
{
    reveal_strlit("\u{2026}");
    if s.len() > max {
        let t = truncated(s, max);
        assert(t.take(max as int) == s.take(max as int));
    }
}

/// `s` cut to its first `max` characters, with `…` appended when anything was
/// cut.
pub fn truncate(s: &str, max: usize) -> (r: String)
    ensures
        r@ == truncated(s@, max as nat),
        r@.len() <= max + 1,
        s@.len() <= max ==> r@ == s@,
        s@.len() > max ==> r@.len() == max + 1 && r@.take(max as int) == s@.take(max as int)
            && r@[max as int] == '\u{2026}',
{
    proof {
        lemma_truncated_shape(s@, max as nat);
    }
    let n = s.unicode_len();
    if n <= max {
        String::from_str(s)
    } else {
        let mut r = String::from_str(s.substring_char(0, max));
        r.append("\u{2026}");
        r
    }
}

/// The view of an optional string.
pub open spec fn opt_view(o: Option<String>) -> Option<Seq<char>> {
    match o {
        Some(s) => Some(s@),
        None => None,
    }
}

/// The map that a list of (name, value) entries stands for; a later entry
/// wins over an earlier one with the same name.
pub open spec fn entries_map(e: Seq<(String, Option<String>)>) -> Map<Seq<char>, Option<Seq<char>>>
    decreases e.len(),
{
    if e.len() == 0 {
        Map::empty()
    } else {
        entries_map(e.drop_last()).insert(e.last().0@, opt_view(e.last().1))
    }
}

/// No two entries share a name.
pub open spec fn distinct_keys(e: Seq<(String, Option<String>)>) -> bool {
    forall|i: int, j: int| 0 <= i < j < e.len() ==> e[i].0@ != e[j].0@
}

/// A tool's description as a criterion: none when empty.
pub open spec fn description_option(d: Seq<char>) -> Option<Seq<char>> {
    if d.len() == 0 {
        None
    } else {
        Some(d)
    }
}

/// Each tool's name mapped to its description; a later tool wins.
pub open spec fn tool_criteria(tools: Seq<ToolInfo>) -> Map<Seq<char>, Option<Seq<char>>>
    decreases tools.len(),
{
    if tools.len() == 0 {
        Map::empty()
    } else {
        tool_criteria(tools.drop_last()).insert(
            tools.last().name@,
            description_option(tools.last().description@),
        )
    }
}

/// The options of the `tool` question: the tools, and the plain-text option
/// last (so it replaces a tool of that name).
pub open spec fn request_criteria(tools: Seq<ToolInfo>) -> Map<Seq<char>, Option<Seq<char>>> {
    tool_criteria(tools).insert(NO_TOOL@, Some(NO_TOOL_DESCRIPTION@))
}

/// The `tool` question offers exactly the tool names and the plain-text
/// option; a name's description is that of the last tool with the name
/// (none when empty), and the plain-text option always has its own
/// description, even over a tool of that name.
pub proof fn lemma_request_criteria(tools: Seq<ToolInfo>, k: Seq<char>)
    ensures
        request_criteria(tools).contains_key(k) <==> (k == NO_TOOL@ || exists|i: int|
            0 <= i < tools.len() && (#[trigger] tools[i]).name@ == k),
        request_criteria(tools).contains_key(NO_TOOL@) && request_criteria(tools)[NO_TOOL@] == Some(
            NO_TOOL_DESCRIPTION@,
        ),
        forall|i: int|
            0 <= i < tools.len() && (#[trigger] tools[i]).name@ == k && k != NO_TOOL@ && (forall|j: int|
                i < j < tools.len() ==> tools[j].name@ != k) ==> request_criteria(tools)[k] == (if tools[i].description@.len()
                == 0 {
                None
            } else {
                Some(tools[i].description@)
            }),
{
    lemma_tool_criteria(tools, k);
}

/// Each name maps to the description of the last tool with that name.
pub proof fn lemma_tool_criteria(tools: Seq<ToolInfo>, k: Seq<char>)
    ensures
        tool_criteria(tools).contains_key(k) <==> exists|i: int|
            0 <= i < tools.len() && (#[trigger] tools[i]).name@ == k,
        forall|i: int|
            0 <= i < tools.len() && (#[trigger] tools[i]).name@ == k && (forall|j: int|
                i < j < tools.len() ==> tools[j].name@ != k) ==> tool_criteria(tools)[k] == (if tools[i].description@.len()
                == 0 {
                None
            } else {
                Some(tools[i].description@)
            }),
    decreases tools.len(),
{
    if tools.len() > 0 {
        let p = tools.drop_last();
        let n = tools.len() - 1;
        lemma_tool_criteria(p, k);
        if tools[n].name@ != k {
            assert((exists|i: int| 0 <= i < tools.len() && (#[trigger] tools[i]).name@ == k) ==> (exists|
                i: int,
            | 0 <= i < p.len() && (#[trigger] p[i]).name@ == k)) by {
                if exists|i: int| 0 <= i < tools.len() && (#[trigger] tools[i]).name@ == k {
                    let i = choose|i: int| 0 <= i < tools.len() && (#[trigger] tools[i]).name@ == k;
                    assert(p[i] == tools[i]);
                }
            }
            assert((exists|i: int| 0 <= i < p.len() && (#[trigger] p[i]).name@ == k) ==> (exists|
                i: int,
            | 0 <= i < tools.len() && (#[trigger] tools[i]).name@ == k)) by {
                if exists|i: int| 0 <= i < p.len() && (#[trigger] p[i]).name@ == k {
                    let i = choose|i: int| 0 <= i < p.len() && (#[trigger] p[i]).name@ == k;
                    assert(p[i] == tools[i]);
                }
            }
            assert forall|i: int|
                0 <= i < tools.len() && (#[trigger] tools[i]).name@ == k && (forall|j: int|
                    i < j < tools.len() ==> tools[j].name@ != k) implies tool_criteria(tools)[k] == (if tools[i].description@.len()
                == 0 {
                None
            } else {
                Some(tools[i].description@)
            }) by {
                assert(i < n);
                assert(p[i] == tools[i]);
                assert forall|j: int| i < j < p.len() implies p[j].name@ != k by {
                    assert(p[j] == tools[j]);
                }
            }
        } else {
            assert(tools[n] == tools.last());
        }
    }
}

/// One line of the tool list in the state text.
pub open spec fn tool_line(t: ToolInfo) -> Seq<char> {
    "- "@ + t.name@ + ": "@ + truncated(t.description@, 200)
}

/// The state text shown to System One.
pub open spec fn state_body(input: DecideInput) -> Seq<char> {
    "system:\n"@ + truncated(input.system@, 2000) + "\n\nuser:\n"@ + truncated(input.last_user@, 4000)
        + "\n\ntools:\n"@ + join(input.tools@.map_values(|t: ToolInfo| tool_line(t)), "\n"@)
}

/// The state text: `system:`, the system text cut to 2000 characters, a
/// blank line, `user:`, the last user text cut to 4000 characters, a blank
/// line, `tools:`, and one `- name: description` line per tool with the
/// description cut to 200 characters (a cut text ends in `…`).
pub proof fn lemma_state_body_law(input: DecideInput)
    ensures
        state_body(input) == "system:\n"@ + (if input.system@.len() <= 2000 {
            input.system@
        } else {
            input.system@.take(2000) + seq!['\u{2026}']
        }) + "\n\nuser:\n"@ + (if input.last_user@.len() <= 4000 {
            input.last_user@
        } else {
            input.last_user@.take(4000) + seq!['\u{2026}']
        }) + "\n\ntools:\n"@ + join(
            input.tools@.map_values(
                |t: ToolInfo|
                    "- "@ + t.name@ + ": "@ + (if t.description@.len() <= 200 {
                        t.description@
                    } else {
                        t.description@.take(200) + seq!['\u{2026}']
                    }),
            ),
            "\n"@,
        ),
{
    reveal_strlit("\u{2026}");
    assert("\u{2026}"@ == seq!['\u{2026}']);
    let a = input.tools@.map_values(|t: ToolInfo| tool_line(t));
    let b = input.tools@.map_values(
        |t: ToolInfo|
            "- "@ + t.name@ + ": "@ + (if t.description@.len() <= 200 {
                t.description@
            } else {
                t.description@.take(200) + seq!['\u{2026}']
            }),
    );
    assert(a == b);
}

/// Parts that are not text parts with a string text leave the message text
/// unchanged, wherever they stand.
pub proof fn lemma_part_texts_skip(pre: Seq<JsonValue>, p: JsonValue, post: Seq<JsonValue>)
    requires
        !(str_member(p, "type"@) == Some("text"@) && str_member(p, "text"@) is Some),
    ensures
        part_texts(pre.push(p) + post) == part_texts(pre + post),
    decreases post.len(),
{
    if post.len() == 0 {
        assert(pre.push(p) + post == pre.push(p));
        assert(pre + post == pre);
        assert(pre.push(p).drop_last() == pre);
    } else {
        let q = post.drop_last();
        lemma_part_texts_skip(pre, p, q);
        assert((pre.push(p) + post).drop_last() == pre.push(p) + q);
        assert((pre + post).drop_last() == pre + q);
        assert((pre.push(p) + post).last() == post.last());
        assert((pre + post).last() == post.last());
    }
}

/// When every part is a text part, the message text is their texts joined
/// by newlines; a string content is the text itself.
pub proof fn lemma_content_text_law(parts: Seq<JsonValue>, s: String)
    ensures
        content_text(Some(JsonValue::String(s))) == s@,
        content_text(None) == Seq::<char>::empty(),
        forall|v: Vec<JsonValue>| #[trigger] content_text(Some(JsonValue::Array(v))) == join(
            part_texts(v@),
            seq!['\n'],
        ),
        (forall|i: int|
            0 <= i < parts.len() ==> str_member(#[trigger] parts[i], "type"@) == Some("text"@)
                && str_member(parts[i], "text"@) is Some) ==> part_texts(parts) == parts.map_values(
            |p: JsonValue| str_member(p, "text"@)->0,
        ),
    decreases parts.len(),
{
    assert("\n"@ == seq!['\n']) by {
        reveal_strlit("\n");
    }
    if parts.len() > 0 {
        let q = parts.drop_last();
        lemma_content_text_law(q, s);
        if forall|i: int|
            0 <= i < parts.len() ==> str_member(#[trigger] parts[i], "type"@) == Some("text"@)
                && str_member(parts[i], "text"@) is Some {
            assert forall|i: int|
                0 <= i < q.len() implies str_member(#[trigger] q[i], "type"@) == Some("text"@)
                && str_member(q[i], "text"@) is Some by {
                assert(q[i] == parts[i]);
            }
            assert(str_member(parts[parts.len() - 1], "type"@) == Some("text"@));
            assert(part_texts(parts) == parts.map_values(|p: JsonValue| str_member(p, "text"@)->0));
        }
    }
}

/// Whether the request already fixes `tool_choice`: no member, `auto`,
/// `required` or a non-string non-object value leave it open; any other string
/// or an object fixes it.
pub proof fn lemma_tool_choice_fixed_law(body: JsonValue)
    ensures
        body.spec_get("tool_choice"@) is None ==> !tool_choice_fixed(body),
        str_member(body, "tool_choice"@) == Some("auto"@) ==> !tool_choice_fixed(body),
        str_member(body, "tool_choice"@) == Some("required"@) ==> !tool_choice_fixed(body),
        (str_member(body, "tool_choice"@) matches Some(t) && t != "auto"@ && t != "required"@)
            ==> tool_choice_fixed(body),
        (body.spec_get("tool_choice"@) matches Some(v) && v is Object) ==> tool_choice_fixed(body),
        (body.spec_get("tool_choice"@) matches Some(v) && !(v is Object) && !(v is String)) ==> !tool_choice_fixed(body),
{
}

/// Replacing the value of an existing entry is an insert into the map.
pub proof fn lemma_entries_update(e: Seq<(String, Option<String>)>, j: int, x: (String, Option<String>))
    requires
        distinct_keys(e),
        0 <= j < e.len(),
        e[j].0@ == x.0@,
    ensures
        entries_map(e.update(j, x)) == entries_map(e).insert(x.0@, opt_view(x.1)),
        distinct_keys(e.update(j, x)),
    decreases e.len(),
{
    let u = e.update(j, x);
    if j == e.len() - 1 {
        assert(u.drop_last() == e.drop_last());
        assert(entries_map(u) == entries_map(e).insert(x.0@, opt_view(x.1)));
    } else {
        let d = e.drop_last();
        lemma_entries_update(d, j, x);
        assert(u.drop_last() == d.update(j, x));
        assert(e.last().0@ != x.0@) by {
            assert(e[j].0@ != e[e.len() - 1].0@);
        }
        assert(entries_map(u) == entries_map(e).insert(x.0@, opt_view(x.1)));
    }
}

/// Sets `key` to `value` in a list of distinct entries: the value of an
/// existing entry is replaced in place, a new key is appended.
pub fn insert_entry(entries: &mut Vec<(String, Option<String>)>, key: String, value: Option<String>)
    requires
        distinct_keys(old(entries)@),
    ensures
        distinct_keys(final(entries)@),
        entries_map(final(entries)@) == entries_map(old(entries)@).insert(key@, opt_view(value)),
{
    let n = entries.len();
    for j in 0..n
        invariant
            n == entries@.len(),
            entries@ == old(entries)@,
            distinct_keys(old(entries)@),
            forall|k: int| 0 <= k < j ==> entries@[k].0@ != key@,
    {
        if entries[j].0 == key {
            proof {
                lemma_entries_update(entries@, j as int, (key, value));
            }
            entries.set(j, (key, value));
            return;
        }
    }
    let ghost before = entries@;
    entries.push((key, value));
    assert(entries@.drop_last() == before);
}

/// The criteria of the `tool` question.
fn criteria_of(tools: &Vec<ToolInfo>) -> (r: Vec<(String, Option<String>)>)
    ensures
        distinct_keys(r@),
        entries_map(r@) == request_criteria(tools@),
{
    let mut criteria: Vec<(String, Option<String>)> = Vec::new();
    let n = tools.len();
    for i in 0..n
        invariant
            n == tools@.len(),
            distinct_keys(criteria@),
            entries_map(criteria@) == tool_criteria(tools@.take(i as int)),
    {
        let desc = if tools[i].description.as_str().is_empty() {
            None
        } else {
            Some(tools[i].description.clone())
        };
        proof {
            assert(tools@.take(i + 1).drop_last() == tools@.take(i as int));
        }
        insert_entry(&mut criteria, tools[i].name.clone(), desc);
    }
    assert(tools@.take(n as int) == tools@);
    insert_entry(&mut criteria, String::from_str(NO_TOOL), Some(String::from_str(NO_TOOL_DESCRIPTION)));
    criteria
}

/// The state text for `input`.
fn state_body_of(input: &DecideInput) -> (r: String)
    ensures
        r@ == state_body(*input),
{
    let mut s = String::from_str("system:\n");
    s.append(truncate(input.system.as_str(), 2000).as_str());
    s.append("\n\nuser:\n");
    s.append(truncate(input.last_user.as_str(), 4000).as_str());
    s.append("\n\ntools:\n");
    let ghost prefix = s@;
    let ghost lines = input.tools@.map_values(|t: ToolInfo| tool_line(t));
    let n = input.tools.len();
    for i in 0..n
        invariant
            n == input.tools@.len(),
            lines == input.tools@.map_values(|t: ToolInfo| tool_line(t)),
            s@ == prefix + join(lines.take(i as int), "\n"@),
    {
        let ghost before = s@;
        if i > 0 {
            s.append("\n");
        }
        s.append("- ");
        s.append(input.tools[i].name.as_str());
        s.append(": ");
        s.append(truncate(input.tools[i].description.as_str(), 200).as_str());
        proof {
            let l = lines.take(i + 1);
            assert(l.drop_last() == lines.take(i as int));
            assert(l.last() == tool_line(input.tools@[i as int]));
            if i == 0 {
                assert(join(lines.take(0), "\n"@) == Seq::<char>::empty());
                assert(s@ == prefix + l.last());
            } else {
                assert(s@ == prefix + (join(l.drop_last(), "\n"@) + "\n"@ + l.last()));
            }
        }
    }
    assert(lines.take(n as int) == lines);
    s
}

/// `q` is the System One request for `input` and `model`: the state text,
/// the `needs_tool` question (type `noul`, no criteria) and the `tool`
/// question (type `choice`) over the tools and the plain-text option.
pub open spec fn is_request_for(q: SystemOneRequest, input: DecideInput, model: Option<String>) -> bool {
    &&& q.state_body@ == state_body(input)
    &&& q.model == model
    &&& q.questions@.len() == 2
    &&& q.questions@[0].0@ == "needs_tool"@
    &&& q.questions@[0].1.kind@ == "noul"@
    &&& q.questions@[0].1.instructions@ == NEEDS_TOOL_QUESTION@
    &&& q.questions@[0].1.criteria is None
    &&& q.questions@[1].0@ == "tool"@
    &&& q.questions@[1].1.kind@ == "choice"@
    &&& q.questions@[1].1.instructions@ == TOOL_QUESTION@
    &&& (q.questions@[1].1.criteria matches Some(c) && distinct_keys(c@) && entries_map(c@)
        == request_criteria(input.tools@))
}

/// The System One request for `input`: the state text, a `choice` question
/// over the tools and the plain-text option, and a `noul` question on whether
/// a tool is needed.
pub fn build_request(input: &DecideInput, model: Option<String>) -> (r: SystemOneRequest)
    ensures
        is_request_for(r, *input, model),
{
    let criteria = criteria_of(&input.tools);
    let mut questions: Vec<(String, Question)> = Vec::new();
    questions.push(
        (
            String::from_str("needs_tool"),
            Question {
                kind: String::from_str("noul"),
                instructions: String::from_str(NEEDS_TOOL_QUESTION),
                criteria: None,
            },
        ),
    );
    questions.push(
        (
            String::from_str("tool"),
            Question {
                kind: String::from_str("choice"),
                instructions: String::from_str(TOOL_QUESTION),
                criteria: Some(criteria),
            },
        ),
    );
    SystemOneRequest { state_body: state_body_of(input), questions, model }
}

/// What the System One answers decide, once the confidence comparisons are
/// made.
#[derive(Debug, Clone, PartialEq, Eq)]
pub enum AnswerOutcome {
    /// No answer to the `tool` question came back.
    MissingToolAnswer,
    /// The `tool` answer's confidence is below the configured minimum.
    LowConfidence,
    /// Confident that no tool is needed.
    NoTool,
    /// Force the model to call this tool.
    Forced(String),
}

/// The decision on the answers: `has_tool_answer` when the `tool` question
/// was answered, `below_min_confidence` when its confidence is under the
/// minimum, `choice` the chosen option, `needs_tool_below_threshold` when the
/// `needs_tool` answer (0.5 when absent) is under 0.45.
pub open spec fn answer_outcome(
    has_tool_answer: bool,
    below_min_confidence: bool,
    choice: Option<Seq<char>>,
    needs_tool_below_threshold: bool,
) -> Option<Option<Seq<char>>> {
    if !has_tool_answer || below_min_confidence {
        None
    } else {
        let c = match choice {
            Some(c) => c,
            None => Seq::empty(),
        };
        if c.len() == 0 || c == NO_TOOL@ || needs_tool_below_threshold {
            Some(None)
        } else {
            Some(Some(c))
        }
    }
}

/// With a confident tool answer, a choice that is neither empty nor the
/// plain-text option and a `needs_tool` answer not below the threshold, the
/// tool is forced; a plain-text reply comes only from an empty or missing
/// choice, the plain-text option, or a low `needs_tool` answer.
pub proof fn lemma_answer_outcome_forced(
    has_tool_answer: bool,
    below_min_confidence: bool,
    choice: Option<Seq<char>>,
    needs_tool_below_threshold: bool,
)
    ensures
        (has_tool_answer && !below_min_confidence && !needs_tool_below_threshold && choice is Some
            && choice->0.len() > 0 && choice->0 != NO_TOOL@) ==> answer_outcome(
            has_tool_answer,
            below_min_confidence,
            choice,
            needs_tool_below_threshold,
        ) == Some(choice),
        answer_outcome(has_tool_answer, below_min_confidence, choice, needs_tool_below_threshold)
            == Some(None::<Seq<char>>) ==> has_tool_answer && !below_min_confidence && (
        needs_tool_below_threshold || choice is None || choice->0.len() == 0 || choice->0
            == NO_TOOL@),
        !has_tool_answer || below_min_confidence ==> answer_outcome(
            has_tool_answer,
            below_min_confidence,
            choice,
            needs_tool_below_threshold,
        ) is None,
{
}

/// Decides between passing the request through, answering in text, and
/// forcing a tool, from the answers of System One.
pub fn interpret_outcome(
    has_tool_answer: bool,
    below_min_confidence: bool,
    choice: Option<String>,
    needs_tool_below_threshold: bool,
) -> (r: AnswerOutcome)
    ensures
        !has_tool_answer ==> r == AnswerOutcome::MissingToolAnswer,
        has_tool_answer && below_min_confidence ==> r == AnswerOutcome::LowConfidence,
        has_tool_answer && !below_min_confidence ==> match answer_outcome(
            has_tool_answer,
            below_min_confidence,
            opt_view(choice),
            needs_tool_below_threshold,
        ) {
            Some(None) => r == AnswerOutcome::NoTool,
            Some(Some(t)) => r matches AnswerOutcome::Forced(f) && f@ == t,
            None => false,
        },
        (has_tool_answer && !below_min_confidence && !needs_tool_below_threshold && choice is Some
            && choice->0@.len() > 0 && choice->0@ != NO_TOOL@) ==> (r matches AnswerOutcome::Forced(f) && f@ == choice->0@),
        r == AnswerOutcome::NoTool ==> has_tool_answer && !below_min_confidence && (
        needs_tool_below_threshold || choice is None || choice->0@.len() == 0 || choice->0@ == NO_TOOL@),
{
    proof {
        lemma_answer_outcome_forced(has_tool_answer, below_min_confidence, opt_view(choice), needs_tool_below_threshold);
    }
    if !has_tool_answer {
        return AnswerOutcome::MissingToolAnswer;
    }
    if below_min_confidence {
        return AnswerOutcome::LowConfidence;
    }
    let c = match choice {
        Some(c) => c,
        None => String::new(),
    };
    if c.as_str().is_empty() || str_eq(c.as_str(), NO_TOOL) || needs_tool_below_threshold {
        AnswerOutcome::NoTool
    } else {
        AnswerOutcome::Forced(c)
    }
}

/// The string held by `v[key]`, if it is a string.
pub open spec fn str_member(v: JsonValue, key: Seq<char>) -> Option<Seq<char>> {
    match v.spec_get(key) {
        Some(x) => x.spec_as_str(),
        None => None,
    }
}

/// The elements of `v[key]`, or none when it is missing or not an array.
pub open spec fn array_member(v: JsonValue, key: Seq<char>) -> Seq<JsonValue> {
    match v.spec_get(key) {
        Some(x) => match x.spec_as_array() {
            Some(items) => items,
            None => Seq::empty(),
        },
        None => Seq::empty(),
    }
}

/// The texts of the content parts of type `text` that carry a string `text`.
pub open spec fn part_texts(parts: Seq<JsonValue>) -> Seq<Seq<char>>
    decreases parts.len(),
{
    if parts.len() == 0 {
        Seq::empty()
    } else {
        let prev = part_texts(parts.drop_last());
        let p = parts.last();
        if str_member(p, "type"@) == Some("text"@) && str_member(p, "text"@) is Some {
            prev.push(str_member(p, "text"@)->0)
        } else {
            prev
        }
    }
}

/// The text of a message's `content`: a string as it is, the text parts of
/// an array joined by newlines, nothing otherwise.
pub open spec fn content_text(content: Option<JsonValue>) -> Seq<char> {
    match content {
        Some(JsonValue::String(s)) => s@,
        Some(JsonValue::Array(parts)) => join(part_texts(parts@), "\n"@),
        _ => Seq::empty(),
    }
}

/// The role of a message; empty when missing or not a string.
pub open spec fn role_of(m: JsonValue) -> Seq<char> {
    match str_member(m, "role"@) {
        Some(r) => r,
        None => Seq::empty(),
    }
}

/// The text of a message.
pub open spec fn message_content(m: JsonValue) -> Seq<char> {
    content_text(m.spec_get("content"@))
}

/// The texts of the `system` and `developer` messages, separated by blank
/// lines where something came before.
pub open spec fn system_text(msgs: Seq<JsonValue>) -> Seq<char>
    decreases msgs.len(),
{
    if msgs.len() == 0 {
        Seq::empty()
    } else {
        let prev = system_text(msgs.drop_last());
        let m = msgs.last();
        if role_of(m) == "system"@ || role_of(m) == "developer"@ {
            if prev.len() == 0 {
                message_content(m)
            } else {
                prev + "\n\n"@ + message_content(m)
            }
        } else {
            prev
        }
    }
}

/// The text of the last `user` message; empty when there is none.
pub open spec fn last_user_text(msgs: Seq<JsonValue>) -> Seq<char>
    decreases msgs.len(),
{
    if msgs.len() == 0 {
        Seq::empty()
    } else if role_of(msgs.last()) == "user"@ {
        message_content(msgs.last())
    } else {
        last_user_text(msgs.drop_last())
    }
}

/// The last user text is the content of the last message whose role is
/// `user`, whatever messages of other roles follow it; with no user message
/// it is empty.
pub proof fn lemma_last_user_message(pre: Seq<JsonValue>, m: JsonValue, post: Seq<JsonValue>)
    requires
        role_of(m) == "user"@,
        forall|i: int| 0 <= i < post.len() ==> role_of(#[trigger] post[i]) != "user"@,
    ensures
        last_user_text(pre.push(m) + post) == message_content(m),
        last_user_text(post) == Seq::<char>::empty(),
    decreases post.len(),
{
    let all = pre.push(m) + post;
    if post.len() == 0 {
        assert(all == pre.push(m));
        assert(all.last() == m);
    } else {
        let p = post.drop_last();
        assert forall|i: int| 0 <= i < p.len() implies role_of(#[trigger] p[i]) != "user"@ by {
            assert(p[i] == post[i]);
        }
        lemma_last_user_message(pre, m, p);
        assert(all.drop_last() == pre.push(m) + p);
        assert(all.last() == post.last());
        assert(role_of(post[post.len() - 1]) != "user"@);
    }
}

/// Messages of roles other than `system` and `developer` leave the system
/// text unchanged, wherever they stand.
pub proof fn lemma_system_text_ignores(pre: Seq<JsonValue>, m: JsonValue, post: Seq<JsonValue>)
    requires
        role_of(m) != "system"@,
        role_of(m) != "developer"@,
    ensures
        system_text(pre.push(m) + post) == system_text(pre + post),
    decreases post.len(),
{
    if post.len() == 0 {
        assert(pre.push(m) + post == pre.push(m));
        assert(pre + post == pre);
        assert(pre.push(m).drop_last() == pre);
    } else {
        let p = post.drop_last();
        lemma_system_text_ignores(pre, m, p);
        assert((pre.push(m) + post).drop_last() == pre.push(m) + p);
        assert((pre + post).drop_last() == pre + p);
        assert((pre.push(m) + post).last() == post.last());
        assert((pre + post).last() == post.last());
    }
}

/// With only `system` messages of non-empty text, the system text is their
/// texts joined by blank lines, in order.
pub proof fn lemma_system_text_joined(msgs: Seq<JsonValue>)
    requires
        forall|i: int| 0 <= i < msgs.len() ==> role_of(#[trigger] msgs[i]) == "system"@,
        forall|i: int| 0 <= i < msgs.len() ==> message_content(#[trigger] msgs[i]).len() > 0,
    ensures
        system_text(msgs) == join(msgs.map_values(|m: JsonValue| message_content(m)), "\n\n"@),
    decreases msgs.len(),
{
    if msgs.len() > 0 {
        let p = msgs.drop_last();
        assert forall|i: int| 0 <= i < p.len() implies role_of(#[trigger] p[i]) == "system"@ by {
            assert(p[i] == msgs[i]);
        }
        assert forall|i: int| 0 <= i < p.len() implies message_content(#[trigger] p[i]).len() > 0 by {
            assert(p[i] == msgs[i]);
        }
        lemma_system_text_joined(p);
        let texts = msgs.map_values(|m: JsonValue| message_content(m));
        assert(texts.drop_last() == p.map_values(|m: JsonValue| message_content(m)));
        assert(texts.last() == message_content(msgs.last()));
        assert(role_of(msgs[msgs.len() - 1]) == "system"@);
        if p.len() > 0 {
            assert(message_content(p[0]).len() > 0);
            assert(p.map_values(|m: JsonValue| message_content(m))[0] == message_content(p[0]));
            lemma_join_nonempty(p.map_values(|m: JsonValue| message_content(m)), "\n\n"@);
        }
    }
}

/// Joining a list whose first string is non-empty gives a non-empty string.
pub proof fn lemma_join_nonempty(list: Seq<Seq<char>>, sep: Seq<char>)
    requires
        list.len() > 0,
        list[0].len() > 0,
    ensures
        join(list, sep).len() > 0,
    decreases list.len(),
{
    if list.len() > 1 {
        assert(list.drop_last()[0] == list[0]);
        lemma_join_nonempty(list.drop_last(), sep);
    }
}

/// A usable tool entry is of type `function` and carries the function's
/// string name, and its description when that is a string.
pub proof fn lemma_tool_entry_law(t: JsonValue)
    ensures
        tool_entry(t) matches Some(e) ==> {
            &&& str_member(t, "type"@) == Some("function"@)
            &&& t.spec_get("function"@) matches Some(f) && str_member(f, "name"@) == Some(e.0) && (
            str_member(f, "description"@) matches Some(d) ==> e.1 == d) && (str_member(
                f,
                "description"@,
            ) is None ==> e.1.len() == 0)
        },
        str_member(t, "type"@) == Some("function"@) && (t.spec_get("function"@) matches Some(f)
            && str_member(f, "name"@) is Some) ==> tool_entry(t) is Some,
{
}

/// Every usable entry is kept, in order, and every other entry dropped.
pub proof fn lemma_tool_entries_law(items: Seq<JsonValue>)
    ensures
        tool_entries(items).len() <= items.len(),
        (forall|i: int| 0 <= i < items.len() ==> tool_entry(#[trigger] items[i]) is Some) ==> (
        tool_entries(items).len() == items.len() && forall|i: int|
            0 <= i < items.len() ==> Some(#[trigger] tool_entries(items)[i]) == tool_entry(items[i])),
        (forall|i: int| 0 <= i < items.len() ==> tool_entry(#[trigger] items[i]) is None) ==> tool_entries(
            items,
        ).len() == 0,
    decreases items.len(),
{
    if items.len() > 0 {
        let p = items.drop_last();
        lemma_tool_entries_law(p);
        assert forall|i: int| 0 <= i < p.len() implies p[i] == items[i] by {}
        if forall|i: int| 0 <= i < items.len() ==> tool_entry(#[trigger] items[i]) is Some {
            assert forall|i: int| 0 <= i < p.len() implies tool_entry(#[trigger] p[i]) is Some by {
                assert(p[i] == items[i]);
            }
            assert(tool_entry(items[items.len() - 1]) is Some);
            assert forall|i: int| 0 <= i < items.len() implies Some(#[trigger] tool_entries(items)[i])
                == tool_entry(items[i]) by {
                if i < p.len() {
                    assert(p[i] == items[i]);
                    assert(Some(tool_entries(p)[i]) == tool_entry(p[i]));
                }
            }
        }
        if forall|i: int| 0 <= i < items.len() ==> tool_entry(#[trigger] items[i]) is None {
            assert forall|i: int| 0 <= i < p.len() implies tool_entry(#[trigger] p[i]) is None by {
                assert(p[i] == items[i]);
            }
            assert(tool_entry(items[items.len() - 1]) is None);
        }
    }
}

/// The (name, description) of a tool entry of type `function` whose
/// function has a string name.
pub open spec fn tool_entry(t: JsonValue) -> Option<(Seq<char>, Seq<char>)> {
    if str_member(t, "type"@) == Some("function"@) {
        match t.spec_get("function"@) {
            Some(f) => match str_member(f, "name"@) {
                Some(n) => Some(
                    (
                        n,
                        match str_member(f, "description"@) {
                            Some(d) => d,
                            None => Seq::empty(),
                        },
                    ),
                ),
                None => None,
            },
            None => None,
        }
    } else {
        None
    }
}

/// The usable tool entries, in order.
pub open spec fn tool_entries(items: Seq<JsonValue>) -> Seq<(Seq<char>, Seq<char>)>
    decreases items.len(),
{
    if items.len() == 0 {
        Seq::empty()
    } else {
        let prev = tool_entries(items.drop_last());
        match tool_entry(items.last()) {
            Some(e) => prev.push(e),
            None => prev,
        }
    }
}

/// Whether the request already fixes `tool_choice`: any string but `auto`
/// and `required`, or an object.
pub open spec fn tool_choice_fixed(body: JsonValue) -> bool {
    match body.spec_get("tool_choice"@) {
        Some(JsonValue::String(s)) => s@ != "auto"@ && s@ != "required"@,
        Some(JsonValue::Object(_)) => true,
        _ => false,
    }
}

/// The optional value behind an optional reference.
pub open spec fn deref_opt(o: Option<&JsonValue>) -> Option<JsonValue> {
    match o {
        Some(v) => Some(*v),
        None => None,
    }
}

/// Appending one string to a joined list.
pub proof fn lemma_join_push(list: Seq<Seq<char>>, sep: Seq<char>, x: Seq<char>)
    ensures
        join(list.push(x), sep) == if list.len() == 0 {
            x
        } else {
            join(list, sep) + sep + x
        },
{
    assert(list.push(x).drop_last() == list);
    assert(list.push(x).last() == x);
    if list.len() == 0 {
        assert(list.push(x).len() == 1);
        assert(list.push(x)[0] == x);
    }
}

/// The text of a message's content (`content` is the message's `content`
/// member, if any).
pub fn message_text(content: Option<&JsonValue>) -> (r: String)
    ensures
        r@ == content_text(deref_opt(content)),
{
    match content {
        Some(JsonValue::String(s)) => s.clone(),
        Some(JsonValue::Array(parts)) => {
            let mut out = String::new();
            let mut any = false;
            let n = parts.len();
            for i in 0..n
                invariant
                    n == parts@.len(),
                    out@ == join(part_texts(parts@.take(i as int)), "\n"@),
                    any == (part_texts(parts@.take(i as int)).len() > 0),
            {
                let p = &parts[i];
                let ghost pre = part_texts(parts@.take(i as int));
                proof {
                    assert(parts@.take(i + 1).drop_last() == parts@.take(i as int));
                    assert(parts@.take(i + 1).last() == parts@[i as int]);
                }
                let is_text = match p.get("type") {
                    Some(t) => match t.as_str() {
                        Some(ts) => str_eq(ts, "text"),
                        None => false,
                    },
                    None => false,
                };
                if is_text {
                    match p.get("text") {
                        Some(t) => match t.as_str() {
                            Some(text) => {
                                proof {
                                    lemma_join_push(pre, "\n"@, text@);
                                }
                                if any {
                                    out.append("\n");
                                }
                                out.append(text);
                                any = true;
                            },
                            None => {},
                        },
                        None => {},
                    }
                }
            }
            assert(parts@.take(n as int) == parts@);
            out
        },
        _ => String::new(),
    }
}

/// Whether `v` is a string equal to `s`.
fn member_str_is(v: &JsonValue, key: &str, s: &str) -> (r: bool)
    ensures
        r == (str_member(*v, key@) == Some(s@)),
{
    match v.get(key) {
        Some(x) => match x.as_str() {
            Some(t) => str_eq(t, s),
            None => false,
        },
        None => false,
    }
}

/// The tool described by one entry of `tools`, if it is usable.
fn tool_of(t: &JsonValue) -> (r: Option<ToolInfo>)
    ensures
        tool_entry(*t) is Some <==> r is Some,
        r matches Some(info) ==> tool_entry(*t) == Some((info.name@, info.description@)),
{
    if !member_str_is(t, "type", "function") {
        return None;
    }
    let f = match t.get("function") {
        Some(f) => f,
        None => {
            return None;
        },
    };
    let name = match f.get("name") {
        Some(n) => match n.as_str() {
            Some(n) => String::from_str(n),
            None => {
                return None;
            },
        },
        None => {
            return None;
        },
    };
    let description = match f.get("description") {
        Some(d) => match d.as_str() {
            Some(d) => String::from_str(d),
            None => String::new(),
        },
        None => String::new(),
    };
    Some(ToolInfo { name, description })
}

/// Extracts the tools, the system text and the last user text from an
/// OpenAI-style chat completions body.
#[verifier::loop_isolation(false)]
pub fn extract_from_chat(body: &JsonValue) -> (r: DecideInput)
    ensures
        r.system@ == system_text(array_member(*body, "messages"@)),
        r.last_user@ == last_user_text(array_member(*body, "messages"@)),
        r.tool_choice_decided == tool_choice_fixed(*body),
        r.tools@.len() == tool_entries(array_member(*body, "tools"@)).len(),
        forall|i: int|
            0 <= i < r.tools@.len() ==> (#[trigger] r.tools@[i]).name@ == tool_entries(
                array_member(*body, "tools"@),
            )[i].0 && r.tools@[i].description@ == tool_entries(array_member(*body, "tools"@))[i].1,
{
    let empty: Vec<JsonValue> = Vec::new();
    let messages: &Vec<JsonValue> = match body.get("messages") {
        Some(m) => match m.as_array() {
            Some(a) => a,
            None => &empty,
        },
        None => &empty,
    };
    let ghost msgs = array_member(*body, "messages"@);
    assert(messages@ == msgs);
    let mut system = String::new();
    let mut last_user = String::new();
    let n = messages.len();
    for i in 0..n
        invariant
            n == msgs.len(),
            messages@ == msgs,
            system@ == system_text(msgs.take(i as int)),
            last_user@ == last_user_text(msgs.take(i as int)),
    {
        let msg = &messages[i];
        proof {
            assert(msgs.take(i + 1).drop_last() == msgs.take(i as int));
            assert(msgs.take(i + 1).last() == msgs[i as int]);
        }
        let text = message_text(msg.get("content"));
        let is_system = member_str_is(msg, "role", "system") || member_str_is(msg, "role", "developer");
        let is_user = member_str_is(msg, "role", "user");
        proof {
            reveal_strlit("system");
            reveal_strlit("developer");
            reveal_strlit("user");
            assert(msgs[i as int] == *msg);
            assert("system"@.len() == 6 && "developer"@.len() == 9 && "user"@.len() == 4);
            assert("system"@ != "user"@ && "developer"@ != "user"@) by {
                assert("system"@[0] != "user"@[0]);
                assert("developer"@[0] != "user"@[0]);
            }
            assert(is_system == (role_of(msgs[i as int]) == "system"@ || role_of(msgs[i as int]) == "developer"@));
            assert(is_user == (role_of(msgs[i as int]) == "user"@));
        }
        if is_system {
            if !system.as_str().is_empty() {
                system.append("\n\n");
            }
            system.append(text.as_str());
        } else if is_user {
            last_user = text;
        }
    }
    assert(msgs.take(n as int) == msgs);
    let tool_items: &Vec<JsonValue> = match body.get("tools") {
        Some(t) => match t.as_array() {
            Some(a) => a,
            None => &empty,
        },
        None => &empty,
    };
    let ghost items = array_member(*body, "tools"@);
    assert(tool_items@ == items);
    let mut tools: Vec<ToolInfo> = Vec::new();
    let m = tool_items.len();
    for i in 0..m
        invariant
            m == items.len(),
            tool_items@ == items,
            tools@.len() == tool_entries(items.take(i as int)).len(),
            forall|k: int|
                0 <= k < tools@.len() ==> (#[trigger] tools@[k]).name@ == tool_entries(
                    items.take(i as int),
                )[k].0 && tools@[k].description@ == tool_entries(items.take(i as int))[k].1,
    {
        proof {
            assert(items.take(i + 1).drop_last() == items.take(i as int));
            assert(items.take(i + 1).last() == items[i as int]);
        }
        match tool_of(&tool_items[i]) {
            Some(info) => {
                tools.push(info);
            },
            None => {},
        }
    }
    assert(items.take(m as int) == items);
    let tool_choice_decided = match body.get("tool_choice") {
        Some(JsonValue::String(s)) => !str_eq(s.as_str(), "auto") && !str_eq(s.as_str(), "required"),
        Some(JsonValue::Object(_)) => true,
        _ => false,
    };
    DecideInput { system, last_user, tools, tool_choice_decided }
}

} // verus!
