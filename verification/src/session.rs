//! Session-level helpers and state: token estimation, response filtering,
//! the free-standing tool extraction entry point, and the plain data the
//! orchestration loop keeps between turns.

use vstd::prelude::*;
use vstd::string::*;
use crate::parser::{pair_views, spec_extract_tools, ResponseParser};
use crate::text::{is_space, is_space_char, replace, replace_spec, trim, trim_spec};

verus! {

/// Number of indices of `s[i..]` that start a whitespace-separated word.
pub open spec fn word_starts(s: Seq<char>, i: int) -> int
    decreases s.len() - i,
{
    if i < 0 || i >= s.len() {
        0
    } else {
        (if !is_space(s[i]) && (i == 0 || is_space(s[i - 1])) {
            1int
        } else {
            0int
        }) + word_starts(s, i + 1)
    }
}

pub proof fn lemma_word_starts_bound(s: Seq<char>, i: int)
    requires
        0 <= i <= s.len(),
    ensures
        0 <= word_starts(s, i) <= s.len() - i,
    decreases s.len() - i,
{
    if i < s.len() {
        lemma_word_starts_bound(s, i + 1);
    }
}

/// The token estimate: a quarter of the byte length, or the number of
/// whitespace-separated words, whichever is larger.
pub open spec fn spec_count_tokens(s: Seq<char>, nbytes: int) -> int {
    let words = word_starts(s, 0);
    let quarter = nbytes / 4;
    if quarter >= words {
        quarter
    } else {
        words
    }
}

fn count_words(text: &str) -> (r: usize)
    ensures
        r == word_starts(text@, 0),
{
    let n = text.unicode_len();
    let mut acc: usize = 0;
    let mut prev_space = true;
    let mut i: usize = 0;
    while i < n
        invariant
            0 <= i <= n,
            n == text@.len(),
            acc <= i,
            prev_space == (i == 0 || is_space(text@[i - 1])),
            word_starts(text@, 0) == acc + word_starts(text@, i as int),
        decreases n - i,
    {
        let c = text.get_char(i);
        let sp = is_space_char(c);
        if !sp && prev_space {
            acc = acc + 1;
        }
        prev_space = sp;
        i = i + 1;
    }
    acc
}

/// Approximate token count of a text blob.
pub fn count_tokens(text: &str) -> (r: u32)
    requires
        text@.len() <= u32::MAX,
        text.spec_bytes().len() <= u32::MAX,
    ensures
        r == spec_count_tokens(text@, text.spec_bytes().len() as int),
{
    let quarter = text.len() / 4;
    let words = count_words(text);
    proof {
        lemma_word_starts_bound(text@, 0);
    }
    let m = if quarter >= words {
        quarter
    } else {
        words
    };
    m as u32
}

/// What `filter_thinking_tokens` leaves: the text with the chat-channel
/// markers removed and the remainder trimmed.
pub open spec fn spec_filter_thinking(s: Seq<char>) -> Seq<char> {
    trim_spec(replace_spec(replace_spec(replace_spec(s,
        "<|start|>assistant<|channel|>"@, Seq::empty()),
        "<|message|>"@, Seq::empty()),
        "<|end|>"@, Seq::empty()))
}

/// Strip the raw chat-channel markers a model may leak into its reply.
pub fn filter_thinking_tokens(text: &str) -> (r: String)
    ensures
        r@ == spec_filter_thinking(text@),
{
    proof {
        reveal_strlit("<|start|>assistant<|channel|>");
        reveal_strlit("<|message|>");
        reveal_strlit("<|end|>");
        reveal_strlit("");
        assert(""@ =~= Seq::<char>::empty());
    }
    let c1 = replace(text, "<|start|>assistant<|channel|>", "");
    let c2 = replace(c1.as_str(), "<|message|>", "");
    let c3 = replace(c2.as_str(), "<|end|>", "");
    let t = trim(c3.as_str());
    String::from_str(t)
}

/// The ordered, de-duplicated tool calls of one model response.
pub fn extract_tools(text: &str) -> (r: Vec<(String, String)>)
    ensures
        pair_views(r@) == spec_extract_tools(text@),
{
    let parser = ResponseParser::new();
    parser.extract_tools(text)
}

/// One turn of the conversation.
pub struct Message {
    pub role: String,
    pub content: String,
}

/// Counters shown alongside the conversation.
pub struct Stats {
    pub total_tokens: u32,
    pub current_tpm: u32,
    pub max_tpm: u32,
    pub input_tokens: u32,
    pub output_tokens: u32,
}

impl Default for Stats {
    fn default() -> (r: Stats)
        ensures
            r.total_tokens == 0,
            r.current_tpm == 0,
            r.max_tpm == 20000,
            r.input_tokens == 0,
            r.output_tokens == 0,
    {
        Stats {
            total_tokens: 0,
            current_tpm: 0,
            max_tpm: 20000,
            input_tokens: 0,
            output_tokens: 0,
        }
    }
}

/// Everything the interactive loop keeps between turns.
pub struct AppState {
    pub iteration: u32,
    pub conversation_history: Vec<String>,
    pub chat_input: String,
    pub current_thoughts: String,
    pub current_tools: Vec<(String, String, String)>,
    pub stats: Stats,
    pub should_quit: bool,
    pub success_achieved: bool,
    pub thoughts_scroll: u32,
    pub tools_scroll: u32,
    pub processing: bool,
}

impl Default for AppState {
    fn default() -> (r: AppState)
        ensures
            r.iteration == 0,
            r.conversation_history@ == Seq::<String>::empty(),
            r.chat_input@ == Seq::<char>::empty(),
            r.current_thoughts@ == Seq::<char>::empty(),
            r.current_tools@ == Seq::<(String, String, String)>::empty(),
            r.stats.max_tpm == 20000,
            !r.should_quit,
            !r.success_achieved,
            r.thoughts_scroll == 0,
            r.tools_scroll == 0,
            !r.processing,
    {
        AppState {
            iteration: 0,
            conversation_history: Vec::new(),
            chat_input: String::new(),
            current_thoughts: String::new(),
            current_tools: Vec::new(),
            stats: Stats::default(),
            should_quit: false,
            success_achieved: false,
            thoughts_scroll: 0,
            tools_scroll: 0,
            processing: false,
        }
    }
}

} // verus!
