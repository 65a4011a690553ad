//! Conversation summarization: the decision logic around the language
//! model call. Building the prompt, parsing the model's JSON reply, and
//! the heuristic fallback are all plain text work; the call itself happens
//! outside and its reply comes back in as a value.
use crate::discover::strings_view;
use crate::install::strings_contain;
use crate::source::opt_str_view;
use crate::strutil::{
    chars_to_string, find_char_idx, first_char_idx, join_seq, join_strings, lower_chars,
    lower_seq, str_chars, str_eq, subrange_vec, trim_chars, trim_seq, trim_str,
};
use vstd::prelude::*;
use vstd::seq_lib::*;

verus! {

/// One turn of a conversation.
pub struct ChatMessage {
    pub role: String,
    pub content: String,
}

/// Spec shape of a conversation turn.
pub struct ChatMessageV {
    pub role: Seq<char>,
    pub content: Seq<char>,
}

impl View for ChatMessage {
    type V = ChatMessageV;

    open spec fn view(&self) -> ChatMessageV {
        ChatMessageV { role: self.role@, content: self.content@ }
    }
}

pub open spec fn messages_view(v: Seq<ChatMessage>) -> Seq<ChatMessageV> {
    v.map_values(|m: ChatMessage| m@)
}

/// A produced summary. Importance is a score in hundredths: 90 for high,
/// 60 for medium, 30 for low.
#[derive(Debug)]
pub struct ConversationSummary {
    pub content: String,
    pub importance: u32,
    pub source: String,
}

/// Spec shape of a summary.
pub struct ConversationSummaryV {
    pub content: Seq<char>,
    pub importance: u32,
    pub source: Seq<char>,
}

impl View for ConversationSummary {
    type V = ConversationSummaryV;

    open spec fn view(&self) -> ConversationSummaryV {
        ConversationSummaryV {
            content: self.content@,
            importance: self.importance,
            source: self.source@,
        }
    }
}

pub open spec fn opt_summary_view(o: Option<ConversationSummary>) -> Option<
    ConversationSummaryV,
> {
    match o {
        Some(s) => Some(s@),
        None => None,
    }
}

/// The summarizer: the model name it asks for; the transport that carries
/// the request lives outside.
pub struct ConversationSummarizer {
    pub model: String,
}

impl ConversationSummarizer {
    /// A summarizer asking for the given model.
    pub fn new(model: String) -> (r: ConversationSummarizer)
        ensures
            r.model@ == model@,
    {
        ConversationSummarizer { model }
    }
}

/// The rendering of one turn in the conversation transcript, when its
/// content is not blank.
pub open spec fn spec_turn_line(m: ChatMessageV) -> Option<Seq<char>> {
    let c = trim_seq(m.content);
    if c.len() == 0 {
        None
    } else if m.role == "user"@ {
        Some("USER: "@ + c)
    } else {
        Some("ASSISTANT: "@ + c)
    }
}

pub open spec fn spec_turn_lines(msgs: Seq<ChatMessageV>) -> Seq<Seq<char>>
    decreases msgs.len(),
{
    if msgs.len() == 0 {
        Seq::empty()
    } else {
        let rest = spec_turn_lines(msgs.drop_last());
        match spec_turn_line(msgs.last()) {
            Some(l) => rest.push(l),
            None => rest,
        }
    }
}

/// The transcript handed to the model: each non-blank turn on its own
/// prefixed line.
pub open spec fn spec_format_conversation(msgs: Seq<ChatMessageV>) -> Seq<char> {
    join_seq(spec_turn_lines(msgs), seq!['\n'])
}

/// Renders the conversation transcript.
#[verifier::loop_isolation(false)]
pub fn format_conversation(messages: &Vec<ChatMessage>) -> (r: String)
    ensures
        r@ == spec_format_conversation(messages_view(messages@)),
{
    let ghost gm = messages_view(messages@);
    let mut lines: Vec<String> = Vec::new();
    let mut i: usize = 0;
    proof {
        assert(strings_view(lines@) =~= spec_turn_lines(gm.take(0)));
    }
    while i < messages.len()
        invariant
            i <= gm.len(),
            gm.len() == messages@.len(),
            strings_view(lines@) == spec_turn_lines(gm.take(i as int)),
        decreases gm.len() - i,
    {
        proof {
            assert(gm.take(i + 1).drop_last() =~= gm.take(i as int));
            assert(gm.take(i + 1).last() == gm[i as int]);
            assert(gm[i as int] == messages@[i as int]@);
        }
        let c = trim_str(messages[i].content.as_str());
        if c.as_str().unicode_len() > 0 {
            let mut line = if str_eq(messages[i].role.as_str(), "user") {
                String::from_str("USER: ")
            } else {
                String::from_str("ASSISTANT: ")
            };
            line.append(c.as_str());
            lines.push(line);
            proof {
                assert(strings_view(lines@) =~= strings_view(lines@).drop_last().push(
                    spec_turn_line(gm[i as int]).unwrap(),
                ));
            }
        }
        i = i + 1;
    }
    proof {
        assert(gm.take(gm.len() as int) =~= gm);
    }
    let sep = chars_to_string(&['\n']);
    proof {
        assert(sep@ =~= seq!['\n']);
    }
    join_strings(&lines, sep.as_str())
}

/// What summarization asks of the model: nothing for an empty or too-short
/// conversation, else the instruction block with the transcript appended.
pub open spec fn spec_summary_request(msgs: Seq<ChatMessageV>, prompt: Seq<char>) -> Option<
    Seq<char>,
> {
    if msgs.len() == 0 {
        None
    } else {
        let conversation = spec_format_conversation(msgs);
        if trim_seq(conversation).len() < 80 {
            None
        } else {
            Some(prompt + "\n\n<conversation>\n"@ + conversation + "\n</conversation>"@)
        }
    }
}

/// Builds the model request for a conversation, `None` when the
/// conversation is empty or too short to summarize.
pub fn prepare_summary_request(messages: &Vec<ChatMessage>, prompt: &str) -> (r: Option<String>)
    ensures
        opt_str_view(r) == spec_summary_request(messages_view(messages@), prompt@),
{
    if messages.len() == 0 {
        proof {
            assert(messages_view(messages@).len() == 0);
        }
        return None;
    }
    let conversation = format_conversation(messages);
    let trimmed = trim_str(conversation.as_str());
    if trimmed.as_str().unicode_len() < 80 {
        return None;
    }
    let mut p = String::from_str(prompt);
    p.append("\n\n<conversation>\n");
    p.append(conversation.as_str());
    p.append("\n</conversation>");
    Some(p)
}

/// Every leading copy of `json` removed, as the fence stripper does.
pub open spec fn strip_json_prefix(s: Seq<char>) -> Seq<char>
    decreases s.len(),
{
    if s.len() >= 4 && s.take(4) == "json"@ {
        strip_json_prefix(s.skip(4))
    } else {
        s
    }
}

/// What fence stripping yields: the fenced inner text (a leading `json`
/// tag and surrounding space removed) when the trimmed reply opens with a
/// code fence and closes one later, else the trimmed reply.
pub open spec fn spec_strip_code_fences(raw: Seq<char>) -> Seq<char> {
    let trimmed = trim_seq(raw);
    if trimmed.len() >= 3 && trimmed.take(3) == "```"@ {
        let rest = trimmed.skip(3);
        let end = crate::strutil::last_match_idx(rest, "```"@);
        if end >= 0 {
            trim_seq(strip_json_prefix(rest.take(end)))
        } else {
            trimmed
        }
    } else {
        trimmed
    }
}

/// Strips a wrapping code fence from a model reply.
#[verifier::loop_isolation(false)]
pub fn strip_code_fences(raw: &str) -> (r: String)
    ensures
        r@ == spec_strip_code_fences(raw@),
{
    let trimmed = trim_chars(str_chars(raw).as_slice());
    let fence = str_chars("```");
    proof {
        reveal_strlit("```");
    }
    if crate::strutil::chars_starts_with(trimmed.as_slice(), fence.as_slice()) {
        proof {
            assert(trimmed@.take(3) =~= "```"@);
        }
        let rest = subrange_vec(trimmed.as_slice(), 3, trimmed.len());
        proof {
            assert(rest@ =~= trim_seq(raw@).skip(3));
        }
        match crate::strutil::rfind_sub_idx(rest.as_slice(), fence.as_slice()) {
            Some(end) => {
                let mut inner = subrange_vec(rest.as_slice(), 0, end);
                proof {
                    assert(inner@ =~= rest@.take(end as int));
                }
                let tag = str_chars("json");
                proof {
                    reveal_strlit("json");
                }
                let ghost inner0 = inner@;
                while crate::strutil::chars_starts_with(inner.as_slice(), tag.as_slice())
                    invariant
                        strip_json_prefix(inner0) == strip_json_prefix(inner@),
                    decreases inner@.len(),
                {
                    proof {
                        assert(inner@.take(4) =~= "json"@);
                    }
                    let next = subrange_vec(inner.as_slice(), 4, inner.len());
                    proof {
                        assert(next@ =~= inner@.skip(4));
                    }
                    inner = next;
                }
                proof {
                    assert(strip_json_prefix(inner@) == inner@) by {
                        if inner@.len() >= 4 && inner@.take(4) == "json"@ {
                            assert(crate::strutil::starts_with_seq(inner@, "json"@)) by {
                                assert(inner@.subrange(0, 4) =~= inner@.take(4));
                            }
                        }
                    }
                }
                chars_to_string(trim_chars(inner.as_slice()).as_slice())
            },
            None => chars_to_string(trimmed.as_slice()),
        }
    } else {
        proof {
            if trim_seq(raw@).len() >= 3 && trim_seq(raw@).take(3) == "```"@ {
                assert(trimmed@.subrange(0, 3) =~= trim_seq(raw@).take(3));
            }
        }
        chars_to_string(trimmed.as_slice())
    }
}

/// What the model's JSON summary payload holds: its `summary` and
/// `importance` string fields when they are strings, or the parse error's
/// text; the result depends on the reply alone.
pub uninterp spec fn summary_fields_of(s: Seq<char>) -> Result<
    (Option<Seq<char>>, Option<Seq<char>>),
    Seq<char>,
>;

pub open spec fn summary_fields_view(
    r: Result<(Option<String>, Option<String>), String>,
) -> Result<(Option<Seq<char>>, Option<Seq<char>>), Seq<char>> {
    match r {
        Ok((a, b)) => Ok((opt_str_view(a), opt_str_view(b))),
        Err(e) => Err(e@),
    }
}

/// Relies on `serde_json::from_str::<Value>` and `Value::{get, as_str}`:
/// the `summary` and `importance` fields of the JSON reply, or the parse
/// error rendered as text.
#[verifier::external_body]
fn json_summary_fields(s: &str) -> (r: Result<(Option<String>, Option<String>), String>)
    ensures
        summary_fields_view(r) == summary_fields_of(s@),
{
    match serde_json::from_str::<serde_json::Value>(s) {
        Err(e) => Err(e.to_string()),
        Ok(v) => Ok(
            (
                v.get("summary").and_then(serde_json::Value::as_str).map(|x| x.to_string()),
                v.get("importance").and_then(serde_json::Value::as_str).map(|x| x.to_string()),
            ),
        ),
    }
}

/// The importance score of a declared level, in hundredths.
pub open spec fn spec_importance_score(value: Seq<char>) -> u32 {
    let t = lower_seq(trim_seq(value));
    if t == "high"@ {
        90u32
    } else if t == "low"@ {
        30u32
    } else {
        60u32
    }
}

/// Scores a declared importance level.
pub fn importance_to_score(value: &str) -> (r: u32)
    ensures
        r == spec_importance_score(value@),
{
    let t = lower_chars(trim_chars(str_chars(value).as_slice()).as_slice());
    if crate::strutil::chars_eq_str(t.as_slice(), "high") {
        90
    } else if crate::strutil::chars_eq_str(t.as_slice(), "low") {
        30
    } else {
        60
    }
}

/// The default importance level of a JSON reply that names none.
pub fn default_importance() -> (r: String)
    ensures
        r@ == "medium"@,
{
    String::from_str("medium")
}

/// What reply parsing yields: nothing for a blank reply; for a JSON
/// object, its summary (or nothing when blank) with its scored importance,
/// or the parse error under a fixed prefix; for plain text, its first
/// line.
pub open spec fn spec_parse_summary(raw: Seq<char>) -> Result<
    Option<ConversationSummaryV>,
    Seq<char>,
> {
    let cleaned = trim_seq(spec_strip_code_fences(raw));
    if cleaned.len() == 0 {
        Ok(None)
    } else if cleaned[0] == '{' {
        match summary_fields_of(cleaned) {
            Err(e) => Err("invalid summary response: "@ + e),
            Ok((summary, importance)) => {
                let content = trim_seq(
                    match summary {
                        Some(s) => s,
                        None => Seq::empty(),
                    },
                );
                if content.len() == 0 {
                    Ok(None)
                } else {
                    Ok(
                        Some(
                            ConversationSummaryV {
                                content,
                                importance: spec_importance_score(
                                    match importance {
                                        Some(v) => v,
                                        None => "medium"@,
                                    },
                                ),
                                source: "llm-summary"@,
                            },
                        ),
                    )
                }
            },
        }
    } else {
        let first_line = trim_seq(
            if crate::frontmatter::lines_seq(cleaned).len() == 0 {
                Seq::empty()
            } else {
                crate::frontmatter::lines_seq(cleaned)[0]
            },
        );
        if first_line.len() == 0 {
            Ok(None)
        } else {
            Ok(
                Some(
                    ConversationSummaryV {
                        content: first_line,
                        importance: 60u32,
                        source: "llm-summary-text"@,
                    },
                ),
            )
        }
    }
}

/// Parses the model's summary reply.
pub fn parse_summary_response(raw: &str) -> (r: Result<Option<ConversationSummary>, String>)
    ensures
        match r {
            Ok(o) => spec_parse_summary(raw@) == Ok::<
                Option<ConversationSummaryV>,
                Seq<char>,
            >(opt_summary_view(o)),
            Err(e) => spec_parse_summary(raw@) == Err::<
                Option<ConversationSummaryV>,
                Seq<char>,
            >(e@),
        },
{
    let cleaned_s = strip_code_fences(raw);
    let cleaned_t = trim_str(cleaned_s.as_str());
    let cleaned = str_chars(cleaned_t.as_str());
    if cleaned.len() == 0 {
        return Ok(None);
    }
    if cleaned[0] == '{' {
        match json_summary_fields(cleaned_t.as_str()) {
            Err(e) => {
                let mut m = String::from_str("invalid summary response: ");
                m.append(e.as_str());
                Err(m)
            },
            Ok((summary, importance)) => {
                let content = match summary {
                    Some(s) => trim_str(s.as_str()),
                    None => String::new(),
                };
                proof {
                    assert(trim_seq(Seq::<char>::empty()) =~= Seq::<char>::empty());
                }
                if content.as_str().unicode_len() == 0 {
                    Ok(None)
                } else {
                    let score = match &importance {
                        Some(v) => importance_to_score(v.as_str()),
                        None => importance_to_score("medium"),
                    };
                    Ok(
                        Some(
                            ConversationSummary {
                                content,
                                importance: score,
                                source: String::from_str("llm-summary"),
                            },
                        ),
                    )
                }
            },
        }
    } else {
        let ls = crate::frontmatter::lines_of(cleaned.as_slice());
        let first_line = if ls.len() == 0 {
            String::new()
        } else {
            proof {
                assert(ls@.map_values(|p: Vec<char>| p@)[0] == ls@[0]@);
            }
            chars_to_string(trim_chars(ls[0].as_slice()).as_slice())
        };
        proof {
            assert(trim_seq(Seq::<char>::empty()) =~= Seq::<char>::empty());
        }
        if first_line.as_str().unicode_len() == 0 {
            Ok(None)
        } else {
            Ok(
                Some(
                    ConversationSummary {
                        content: first_line,
                        importance: 60,
                        source: String::from_str("llm-summary-text"),
                    },
                ),
            )
        }
    }
}

/// The first sentence of a clipped input: cut after the earliest of each
/// tried terminator whose sentence is not blank, else the clipped text,
/// trimmed.
pub open spec fn spec_first_sentence(input: Seq<char>, max_chars: int) -> Seq<char> {
    let clipped = if input.len() <= max_chars {
        input
    } else {
        input.take(max_chars)
    };
    let p1 = first_char_idx(clipped, '.');
    let p2 = first_char_idx(clipped, '!');
    let p3 = first_char_idx(clipped, '?');
    let p4 = first_char_idx(clipped, '\n');
    if p1 >= 0 && trim_seq(clipped.take(p1 + 1)).len() > 0 {
        trim_seq(clipped.take(p1 + 1))
    } else if p2 >= 0 && trim_seq(clipped.take(p2 + 1)).len() > 0 {
        trim_seq(clipped.take(p2 + 1))
    } else if p3 >= 0 && trim_seq(clipped.take(p3 + 1)).len() > 0 {
        trim_seq(clipped.take(p3 + 1))
    } else if p4 >= 0 && trim_seq(clipped.take(p4 + 1)).len() > 0 {
        trim_seq(clipped.take(p4 + 1))
    } else {
        trim_seq(clipped)
    }
}

/// Clips an input and cuts it at its first sentence end.
pub fn first_sentence(input: &str, max_chars: usize) -> (r: String)
    ensures
        r@ == spec_first_sentence(input@, max_chars as int),
{
    let cs = str_chars(input);
    let n = cs.len();
    let clipped = if n <= max_chars {
        cs
    } else {
        subrange_vec(cs.as_slice(), 0, max_chars)
    };
    proof {
        if n > max_chars {
            assert(clipped@ =~= input@.take(max_chars as int));
        }
    }
    match try_sentence_end(clipped.as_slice(), '.') {
        Some(s) => {
            return s;
        },
        None => {
        },
    }
    match try_sentence_end(clipped.as_slice(), '!') {
        Some(s) => {
            return s;
        },
        None => {
        },
    }
    match try_sentence_end(clipped.as_slice(), '?') {
        Some(s) => {
            return s;
        },
        None => {
        },
    }
    match try_sentence_end(clipped.as_slice(), '\n') {
        Some(s) => {
            return s;
        },
        None => {
        },
    }
    chars_to_string(trim_chars(clipped.as_slice()).as_slice())
}

/// The collection pass of the heuristic: walking the conversation from
/// its end, gather up to the point where two user lines and one assistant
/// line are in hand.
pub open spec fn heur_collect(
    msgs: Seq<ChatMessageV>,
    i: int,
    users: Seq<Seq<char>>,
    assts: Seq<Seq<char>>,
) -> (Seq<Seq<char>>, Seq<Seq<char>>)
    decreases i + 1,
{
    if i < 0 || i >= msgs.len() {
        (users, assts)
    } else {
        let content = spec_first_sentence(trim_seq(msgs[i].content), 180);
        let picked: (Seq<Seq<char>>, Seq<Seq<char>>) = if content.len() == 0 {
            (users, assts)
        } else if msgs[i].role == "user"@ && content.len() >= 20 && !users.contains(content) {
            (users.push(content), assts)
        } else if msgs[i].role == "assistant"@ && content.len() >= 25 && !assts.contains(
            content,
        ) {
            (users, assts.push(content))
        } else {
            (users, assts)
        };
        if picked.0.len() >= 2 && picked.1.len() >= 1 {
            picked
        } else {
            heur_collect(msgs, i - 1, picked.0, picked.1)
        }
    }
}

/// What the heuristic summary yields: the latest substantial user lines
/// and assistant line, rendered as context and outcome sentences; nothing
/// when no line qualifies.
pub open spec fn spec_heuristic(msgs: Seq<ChatMessageV>) -> Option<ConversationSummaryV> {
    let collected = heur_collect(msgs, msgs.len() - 1, Seq::empty(), Seq::empty());
    let users = collected.0.reverse();
    let assts = collected.1.reverse();
    if users.len() == 0 && assts.len() == 0 {
        None
    } else {
        let upart: Seq<Seq<char>> = if users.len() > 0 {
            seq![
                "User context: "@ + join_seq(
                    if users.len() > 2 {
                        users.take(2)
                    } else {
                        users
                    },
                    "; "@,
                ),
            ]
        } else {
            Seq::empty()
        };
        let apart: Seq<Seq<char>> = if assts.len() > 0 {
            seq![
                "Assistant outcome: "@ + join_seq(
                    if assts.len() > 1 {
                        assts.take(1)
                    } else {
                        assts
                    },
                    "; "@,
                ),
            ]
        } else {
            Seq::empty()
        };
        let content = join_seq(upart + apart, ". "@);
        if trim_seq(content).len() == 0 {
            None
        } else {
            Some(
                ConversationSummaryV {
                    content,
                    importance: 50u32,
                    source: "heuristic-summary"@,
                },
            )
        }
    }
}

fn reverse_strings(v: &Vec<String>) -> (r: Vec<String>)
    ensures
        strings_view(r@) == strings_view(v@).reverse(),
{
    let mut r: Vec<String> = Vec::new();
    let mut i: usize = v.len();
    while i > 0
        invariant
            i <= v@.len(),
            r@.len() == v@.len() - i,
            forall|k: int| 0 <= k < r@.len() ==> r@[k]@ == v@[v@.len() - 1 - k]@,
        decreases i,
    {
        i = i - 1;
        r.push(String::from_str(v[i].as_str()));
    }
    proof {
        assert(strings_view(r@) =~= strings_view(v@).reverse());
    }
    r
}

/// Builds the heuristic fallback summary from the conversation itself.
#[verifier::loop_isolation(false)]
pub fn heuristic_summary(messages: &Vec<ChatMessage>) -> (r: Option<ConversationSummary>)
    ensures
        opt_summary_view(r) == spec_heuristic(messages_view(messages@)),
{
    let ghost gm = messages_view(messages@);
    let mut users: Vec<String> = Vec::new();
    let mut assts: Vec<String> = Vec::new();
    let mut i: usize = messages.len();
    proof {
        assert(strings_view(users@) =~= Seq::<Seq<char>>::empty());
        assert(strings_view(assts@) =~= Seq::<Seq<char>>::empty());
    }
    #[verifier::loop_isolation(true)]
    #[verifier::rlimit(80)]
    while i > 0
        invariant_except_break
            gm == messages_view(messages@),
            i <= gm.len(),
            gm.len() == messages@.len(),
            heur_collect(gm, gm.len() - 1, Seq::empty(), Seq::empty()) == heur_collect(
                gm,
                i as int - 1,
                strings_view(users@),
                strings_view(assts@),
            ),
            !(strings_view(users@).len() >= 2 && strings_view(assts@).len() >= 1),
        ensures
            heur_collect(gm, gm.len() - 1, Seq::empty(), Seq::empty()) == (
                strings_view(users@),
                strings_view(assts@),
            ),
        decreases i,
    {
        i = i - 1;
        let ghost u_pre = strings_view(users@);
        let ghost a_pre = strings_view(assts@);
        let ghost gc = spec_first_sentence(trim_seq(gm[i as int].content), 180);
        proof {
            assert(gm[i as int] == messages@[i as int]@);
        }
        let trimmed = trim_str(messages[i].content.as_str());
        let content = first_sentence(trimmed.as_str(), 180);
        let clen = content.as_str().unicode_len();
        if clen > 0 {
            if str_eq(messages[i].role.as_str(), "user") && clen >= 20 && !strings_contain(
                &users,
                content.as_str(),
            ) {
                users.push(content);
                proof {
                    assert(strings_view(users@) =~= u_pre.push(gc));
                }
            } else if str_eq(messages[i].role.as_str(), "assistant") && clen >= 25
                && !strings_contain(&assts, content.as_str()) {
                assts.push(content);
                proof {
                    assert(strings_view(assts@) =~= a_pre.push(gc));
                }
            }
        }
        proof {
            let picked: (Seq<Seq<char>>, Seq<Seq<char>>) = if gc.len() == 0 {
                (u_pre, a_pre)
            } else if gm[i as int].role == "user"@ && gc.len() >= 20 && !u_pre.contains(gc) {
                (u_pre.push(gc), a_pre)
            } else if gm[i as int].role == "assistant"@ && gc.len() >= 25 && !a_pre.contains(
                gc,
            ) {
                (u_pre, a_pre.push(gc))
            } else {
                (u_pre, a_pre)
            };
            assert(picked == (strings_view(users@), strings_view(assts@)));
            if picked.0.len() >= 2 && picked.1.len() >= 1 {
                assert(heur_collect(gm, i as int, u_pre, a_pre) == picked);
            } else {
                assert(heur_collect(gm, i as int, u_pre, a_pre) == heur_collect(
                    gm,
                    i as int - 1,
                    picked.0,
                    picked.1,
                ));
            }
        }
        if users.len() >= 2 && assts.len() >= 1 {
            break ;
        }
    }
    let users_rev = reverse_strings(&users);
    let assts_rev = reverse_strings(&assts);
    if users_rev.len() == 0 && assts_rev.len() == 0 {
        return None;
    }
    let sep = String::from_str("; ");
    let mut parts: Vec<String> = Vec::new();
    let ghost gusers = strings_view(users_rev@);
    let ghost gassts = strings_view(assts_rev@);
    if users_rev.len() > 0 {
        let taken = if users_rev.len() > 2 {
            let mut t = users_rev;
            t.truncate(2);
            t
        } else {
            users_rev
        };
        proof {
            if gusers.len() > 2 {
                assert(strings_view(taken@) =~= gusers.take(2));
            }
        }
        let mut p = String::from_str("User context: ");
        p.append(join_strings(&taken, sep.as_str()).as_str());
        parts.push(p);
    }
    if assts_rev.len() > 0 {
        let taken = if assts_rev.len() > 1 {
            let mut t = assts_rev;
            t.truncate(1);
            t
        } else {
            assts_rev
        };
        proof {
            if gassts.len() > 1 {
                assert(strings_view(taken@) =~= gassts.take(1));
            }
        }
        let mut p = String::from_str("Assistant outcome: ");
        p.append(join_strings(&taken, sep.as_str()).as_str());
        parts.push(p);
    }
    proof {
        let upart: Seq<Seq<char>> = if gusers.len() > 0 {
            seq![
                "User context: "@ + join_seq(
                    if gusers.len() > 2 {
                        gusers.take(2)
                    } else {
                        gusers
                    },
                    "; "@,
                ),
            ]
        } else {
            Seq::empty()
        };
        let apart: Seq<Seq<char>> = if gassts.len() > 0 {
            seq![
                "Assistant outcome: "@ + join_seq(
                    if gassts.len() > 1 {
                        gassts.take(1)
                    } else {
                        gassts
                    },
                    "; "@,
                ),
            ]
        } else {
            Seq::empty()
        };
        assert(strings_view(parts@) =~= upart + apart);
    }
    let dot_sep = String::from_str(". ");
    let content = join_strings(&parts, dot_sep.as_str());
    if trim_str(content.as_str()).as_str().unicode_len() == 0 {
        return None;
    }
    Some(
        ConversationSummary {
            content,
            importance: 50,
            source: String::from_str("heuristic-summary"),
        },
    )
}

/// What summarization resolves to: the parsed model reply; the heuristic
/// when the model failed or its reply did not parse.
pub open spec fn spec_resolve_summary(
    msgs: Seq<ChatMessageV>,
    response: Option<Seq<char>>,
) -> Option<ConversationSummaryV> {
    match response {
        Some(raw) => match spec_parse_summary(raw) {
            Ok(o) => o,
            Err(_) => spec_heuristic(msgs),
        },
        None => spec_heuristic(msgs),
    }
}

/// Resolves the summary from the model's reply, falling back to the
/// heuristic when the call failed or its reply did not parse.
pub fn resolve_summary(messages: &Vec<ChatMessage>, response: &Option<String>) -> (r: Option<
    ConversationSummary,
>)
    ensures
        opt_summary_view(r) == spec_resolve_summary(
            messages_view(messages@),
            opt_str_view(*response),
        ),
{
    match response {
        Some(raw) => match parse_summary_response(raw.as_str()) {
            Ok(o) => o,
            Err(_) => heuristic_summary(messages),
        },
        None => heuristic_summary(messages),
    }
}

/// The trimmed text up to and including the first occurrence of a
/// terminator, when present and not blank.
fn try_sentence_end(clipped: &[char], sep: char) -> (r: Option<String>)
    ensures
        match r {
            Some(s) => first_char_idx(clipped@, sep) >= 0 && s@ == trim_seq(
                clipped@.take(first_char_idx(clipped@, sep) + 1),
            ) && s@.len() > 0,
            None => !(first_char_idx(clipped@, sep) >= 0 && trim_seq(
                clipped@.take(first_char_idx(clipped@, sep) + 1),
            ).len() > 0),
        },
{
    let n = clipped.len();
    match find_char_idx(clipped, sep) {
        Some(pos) => {
            proof {
                assert(pos < n);
            }
            let sentence = trim_chars(subrange_vec(clipped, 0, pos + 1).as_slice());
            proof {
                assert(clipped@.subrange(0, pos + 1) =~= clipped@.take(pos + 1));
            }
            if sentence.len() > 0 {
                Some(chars_to_string(sentence.as_slice()))
            } else {
                None
            }
        },
        None => None,
    }
}

} // verus!
