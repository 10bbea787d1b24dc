//! Agent command parsing and prompt templating.
//!
//! Commands use a `//` prefix in the input buffer, e.g. `//翻译 hello world`
//! or `//润色 这段话有点生硬`. Parsing is pure and independent of any LLM;
//! execution delegates to an [`LlmBackend`].
use crate::llm::{LlmBackend, LlmResult};
use crate::text::{chars_of, is_ws, push_all, string_from, trim, trim_bounds, trim_end, trim_start};
use vstd::prelude::*;

verus! {

/// Supported agent actions.
#[derive(Debug, Clone, Copy, PartialEq, Eq, Structural)]
pub enum AgentAction {
    Translate,
    Polish,
    Reply,
    Summarize,
}

/// A parsed agent command.
#[derive(Debug, Clone, PartialEq, Eq)]
pub struct AgentCommand {
    pub action: AgentAction,
    pub payload: String,
}

/// The keyword a user types for `action`.
pub open spec fn keyword_of(action: AgentAction) -> Seq<char> {
    match action {
        AgentAction::Translate => "翻译"@,
        AgentAction::Polish => "润色"@,
        AgentAction::Reply => "回复"@,
        AgentAction::Summarize => "总结"@,
    }
}

/// The action named by `keyword`, by its Chinese keyword or English alias.
pub open spec fn action_named(keyword: Seq<char>) -> Option<AgentAction> {
    if keyword == "翻译"@ || keyword == "translate"@ {
        Some(AgentAction::Translate)
    } else if keyword == "润色"@ || keyword == "polish"@ {
        Some(AgentAction::Polish)
    } else if keyword == "回复"@ || keyword == "reply"@ {
        Some(AgentAction::Reply)
    } else if keyword == "总结"@ || keyword == "summarize"@ {
        Some(AgentAction::Summarize)
    } else {
        None
    }
}

/// The instruction that precedes the payload in the prompt for `action`.
pub open spec fn prompt_prefix(action: AgentAction) -> Seq<char> {
    match action {
        AgentAction::Translate => "你是输入法里的翻译助手。把下面的内容在中英文之间互译，只输出译文，不要解释：\n"@,
        AgentAction::Polish => "你是输入法里的润色助手。把下面这句话润色得自然、简洁，只输出润色后的文本：\n"@,
        AgentAction::Reply => "你是输入法里的回复助手。根据以下意图，写一句得体的中文回复，只输出回复文本：\n"@,
        AgentAction::Summarize => "你是输入法里的总结助手。用一句话总结以下内容，只输出总结：\n"@,
    }
}

/// Whether `c` separates the keyword from the payload (an ASCII or an
/// ideographic space).
pub open spec fn is_command_sep(c: char) -> bool {
    c == ' ' || c == '\u{3000}'
}

/// The index of the first separator in `s`, or its length when there is none.
pub open spec fn sep_index(s: Seq<char>) -> int
    decreases s.len(),
{
    if s.len() == 0 || is_command_sep(s[0]) {
        0
    } else {
        1 + sep_index(s.drop_first())
    }
}

/// What `parse` gives for `input`: the action and the payload, or nothing.
pub open spec fn parse_spec(input: Seq<char>) -> Option<(AgentAction, Seq<char>)> {
    if input.len() < 2 || input[0] != '/' || input[1] != '/' {
        None
    } else {
        let rest = input.subrange(2, input.len() as int);
        let k = sep_index(rest);
        let keyword = trim(rest.subrange(0, k));
        let payload = if k < rest.len() {
            trim(rest.subrange(k + 1, rest.len() as int))
        } else {
            Seq::<char>::empty()
        };
        match action_named(keyword) {
            None => None,
            Some(action) => if payload.len() == 0 {
                None
            } else {
                Some((action, payload))
            },
        }
    }
}

proof fn lemma_sep_index(s: Seq<char>, i: int)
    requires
        0 <= i <= s.len(),
        forall|j: int| 0 <= j < i ==> !is_command_sep(#[trigger] s[j]),
        i == s.len() || is_command_sep(s[i]),
    ensures
        sep_index(s) == i,
    decreases i,
{
    if i > 0 {
        assert forall|j: int| 0 <= j < i - 1 implies !is_command_sep(
            #[trigger] s.drop_first()[j],
        ) by {
            assert(s.drop_first()[j] == s[j + 1]);
        }
        lemma_sep_index(s.drop_first(), i - 1);
    }
}

fn range_equals(v: &Vec<char>, lo: usize, hi: usize, word: &str) -> (r: bool)
    requires
        lo <= hi <= v@.len(),
    ensures
        r == (v@.subrange(lo as int, hi as int) == word@),
{
    let w = chars_of(word);
    if hi - lo != w.len() {
        return false;
    }
    let mut i: usize = 0;
    while i < w.len()
        invariant
            lo <= hi <= v@.len(),
            hi - lo == w@.len(),
            w@ == word@,
            i <= w@.len(),
            forall|j: int| 0 <= j < i ==> v@[lo + j] == w@[j],
        decreases w@.len() - i,
    {
        if v[lo + i] != w[i] {
            assert(v@.subrange(lo as int, hi as int)[i as int] != w@[i as int]);
            return false;
        }
        i += 1;
    }
    assert(v@.subrange(lo as int, hi as int) =~= w@);
    true
}

fn action_in(v: &Vec<char>, lo: usize, hi: usize) -> (r: Option<AgentAction>)
    requires
        lo <= hi <= v@.len(),
    ensures
        r == action_named(v@.subrange(lo as int, hi as int)),
{
    if range_equals(v, lo, hi, "翻译") || range_equals(v, lo, hi, "translate") {
        Some(AgentAction::Translate)
    } else if range_equals(v, lo, hi, "润色") || range_equals(v, lo, hi, "polish") {
        Some(AgentAction::Polish)
    } else if range_equals(v, lo, hi, "回复") || range_equals(v, lo, hi, "reply") {
        Some(AgentAction::Reply)
    } else if range_equals(v, lo, hi, "总结") || range_equals(v, lo, hi, "summarize") {
        Some(AgentAction::Summarize)
    } else {
        None
    }
}

impl AgentAction {
    /// The command keyword as typed by the user.
    pub fn keyword(self) -> (r: &'static str)
        ensures
            r@ == keyword_of(self),
    {
        match self {
            AgentAction::Translate => "翻译",
            AgentAction::Polish => "润色",
            AgentAction::Reply => "回复",
            AgentAction::Summarize => "总结",
        }
    }

    /// The action a keyword names, by its Chinese keyword or English alias.
    pub fn from_keyword(keyword: &str) -> (r: Option<AgentAction>)
        ensures
            r == action_named(keyword@),
    {
        let v = chars_of(keyword);
        assert(v@.subrange(0, v@.len() as int) == v@);
        action_in(&v, 0, v.len())
    }

    /// Builds the prompt for this action: its instruction, then the payload.
    pub fn prompt(self, payload: &str) -> (r: String)
        ensures
            r@ == prompt_prefix(self) + payload@,
    {
        let mut s = match self {
            AgentAction::Translate => String::from_str(
                "你是输入法里的翻译助手。把下面的内容在中英文之间互译，只输出译文，不要解释：\n",
            ),
            AgentAction::Polish => String::from_str(
                "你是输入法里的润色助手。把下面这句话润色得自然、简洁，只输出润色后的文本：\n",
            ),
            AgentAction::Reply => String::from_str(
                "你是输入法里的回复助手。根据以下意图，写一句得体的中文回复，只输出回复文本：\n",
            ),
            AgentAction::Summarize => String::from_str(
                "你是输入法里的总结助手。用一句话总结以下内容，只输出总结：\n",
            ),
        };
        push_all(&mut s, payload);
        s
    }
}

/// Parses an input buffer into an agent command.
///
/// Returns `None` when the input is not an agent command (no `//` prefix,
/// unknown keyword, or empty payload).
pub fn parse(input: &str) -> (r: Option<AgentCommand>)
    ensures
        match parse_spec(input@) {
            None => r is None,
            Some((action, payload)) => r matches Some(c) && c.action == action && c.payload@
                == payload,
        },
{
    let v = chars_of(input);
    let n = v.len();
    if n < 2 || v[0] != '/' || v[1] != '/' {
        return None;
    }
    let ghost rest = v@.subrange(2, n as int);
    let mut k: usize = 2;
    while k < n && !(v[k] == ' ' || v[k] == '\u{3000}')
        invariant
            2 <= k <= n == v@.len(),
            rest == v@.subrange(2, n as int),
            forall|j: int| 0 <= j < k - 2 ==> !is_command_sep(#[trigger] rest[j]),
        decreases n - k,
    {
        assert(rest[k - 2] == v@[k as int]);
        k += 1;
    }
    proof {
        if k < n {
            assert(rest[k - 2] == v@[k as int]);
        }
        lemma_sep_index(rest, k - 2);
    }
    let (ka, kb) = trim_bounds(&v, 2, k);
    assert(v@.subrange(2, k as int) == rest.subrange(0, k - 2));
    let (pa, pb) = if k < n {
        assert(v@.subrange(k + 1, n as int) == rest.subrange(k - 1, rest.len() as int));
        trim_bounds(&v, k + 1, n)
    } else {
        (n, n)
    };
    match action_in(&v, ka, kb) {
        None => None,
        Some(action) => {
            if pa == pb {
                None
            } else {
                Some(AgentCommand { action, payload: string_from(&v, pa, pb) })
            }
        },
    }
}

/// Executes a parsed command against a backend: the backend completes the
/// command's prompt and its answer is returned unchanged.
pub fn execute<B: LlmBackend>(command: &AgentCommand, backend: &B) -> (r: LlmResult<String>)
    ensures
        exists|prompt: &str|
            prompt@ == prompt_prefix(command.action) + command.payload@ && call_ensures(
                B::complete,
                (backend, prompt),
                r,
            ),
{
    let prompt = command.action.prompt(command.payload.as_str());
    backend.complete(prompt.as_str())
}

/// `//`, a keyword, a space and a payload without surrounding white space
/// parse to the action the keyword names and that payload.
proof fn lemma_keyword_command_parses(kw: Seq<char>, payload: Seq<char>)
    requires
        kw.len() > 0,
        forall|j: int| 0 <= j < kw.len() ==> !is_command_sep(#[trigger] kw[j]),
        !is_ws(kw[0]),
        !is_ws(kw.last()),
        payload.len() > 0,
        trim(payload) == payload,
    ensures
        parse_spec(seq!['/', '/'] + kw + seq![' '] + payload) == match action_named(kw) {
            None => None,
            Some(a) => Some((a, payload)),
        },
{
    let input = seq!['/', '/'] + kw + seq![' '] + payload;
    let rest = input.subrange(2, input.len() as int);
    assert(rest =~= kw + seq![' '] + payload);
    assert forall|j: int| 0 <= j < kw.len() implies !is_command_sep(#[trigger] rest[j]) by {
        assert(rest[j] == kw[j]);
    }
    assert(rest[kw.len() as int] == ' ');
    lemma_sep_index(rest, kw.len() as int);
    assert(rest.subrange(0, kw.len() as int) =~= kw);
    assert(trim_start(kw) == kw);
    assert(trim_end(kw) == kw);
    assert(rest.subrange(kw.len() as int + 1, rest.len() as int) =~= payload);
}

/// A command typed as `//`, the action's keyword, a space and a payload
/// without surrounding white space parses back to that action and payload.
pub proof fn lemma_typed_command_parses(action: AgentAction, payload: Seq<char>)
    requires
        payload.len() > 0,
        trim(payload) == payload,
    ensures
        parse_spec(seq!['/', '/'] + keyword_of(action) + seq![' '] + payload) == Some(
            (action, payload),
        ),
{
    reveal_strlit("翻译");
    reveal_strlit("润色");
    reveal_strlit("回复");
    reveal_strlit("总结");
    reveal_strlit("translate");
    reveal_strlit("polish");
    reveal_strlit("reply");
    reveal_strlit("summarize");
    let kw = keyword_of(action);
    assert(kw.len() == 2);
    assert(!is_ws(kw[0]) && !is_ws(kw[1]));
    assert(kw.last() == kw[1]);
    assert(action_named(kw) == Some(action));
    lemma_keyword_command_parses(kw, payload);
}

/// The English name of an action, which the parser accepts as well as its
/// keyword.
pub open spec fn english_alias(action: AgentAction) -> Seq<char> {
    match action {
        AgentAction::Translate => seq!['t', 'r', 'a', 'n', 's', 'l', 'a', 't', 'e'],
        AgentAction::Polish => seq!['p', 'o', 'l', 'i', 's', 'h'],
        AgentAction::Reply => seq!['r', 'e', 'p', 'l', 'y'],
        AgentAction::Summarize => seq!['s', 'u', 'm', 'm', 'a', 'r', 'i', 'z', 'e'],
    }
}

/// A command typed as `//`, the action's English name, a space and a
/// payload without surrounding white space parses to that action and
/// payload, as the keyword does.
pub proof fn lemma_alias_command_parses(action: AgentAction, payload: Seq<char>)
    requires
        payload.len() > 0,
        trim(payload) == payload,
    ensures
        parse_spec(seq!['/', '/'] + english_alias(action) + seq![' '] + payload) == Some(
            (action, payload),
        ),
{
    reveal_strlit("翻译");
    reveal_strlit("润色");
    reveal_strlit("回复");
    reveal_strlit("总结");
    reveal_strlit("translate");
    reveal_strlit("polish");
    reveal_strlit("reply");
    reveal_strlit("summarize");
    let kw = english_alias(action);
    assert(kw.last() == kw[kw.len() - 1]);
    assert(forall|j: int| 0 <= j < kw.len() ==> !is_command_sep(#[trigger] kw[j]) && !is_ws(kw[j]));
    assert(action_named(kw) == Some(action)) by {
        assert(kw != "翻译"@ || action == AgentAction::Translate);
        assert(kw != "润色"@ || action == AgentAction::Polish);
        assert(kw != "回复"@ || action == AgentAction::Reply);
        assert(kw != "总结"@ || action == AgentAction::Summarize);
        match action {
            AgentAction::Translate => assert(kw =~= "translate"@),
            AgentAction::Polish => {
                assert(kw != "翻译"@ && kw != "translate"@);
                assert(kw =~= "polish"@);
            },
            AgentAction::Reply => {
                assert(kw != "翻译"@ && kw != "translate"@);
                assert(kw != "润色"@ && kw != "polish"@);
                assert(kw =~= "reply"@);
            },
            AgentAction::Summarize => {
                assert(kw != "翻译"@ && kw != "translate"@);
                assert(kw != "润色"@ && kw != "polish"@);
                assert(kw != "回复"@ && kw != "reply"@);
                assert(kw =~= "summarize"@);
            },
        }
    }
    lemma_keyword_command_parses(kw, payload);
}

} // verus!
