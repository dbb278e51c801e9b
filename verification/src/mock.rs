//! What the mock provider answers: no network, a fixed shape of reply.
use vstd::prelude::*;
use vstd::string::*;
use crate::model::{Expert, MockProvider};
use crate::sse::StreamEvent;
use crate::text::{contains_spec, lemma_contains_occurrence, str_contains};
use crate::council::{reaction_prompt_text, Statements};
use crate::coding::repair_prompt_text;

verus! {

/// A prompt that shows an expert its peers' work: a reaction or closing round
/// of a discussion, or the repair round of a coding run.
pub open spec fn is_reaction_prompt(prompt: Seq<char>) -> bool {
    contains_spec(prompt, "the other panelists said"@) || contains_spec(
        prompt,
        "Other panel experts have generated"@,
    )
}

/// `n` occurs in a text that starts with `pre + lit`, where it occurs in
/// `lit` at `k`.
proof fn lemma_contains_in_middle(pre: Seq<char>, lit: Seq<char>, h: Seq<char>, n: Seq<char>, k: int)
    requires
        h.len() >= pre.len() + lit.len(),
        h.subrange(0, (pre.len() + lit.len()) as int) == pre + lit,
        0 <= k,
        k + n.len() <= lit.len(),
        lit.subrange(k, k + n.len()) == n,
    ensures
        contains_spec(h, n),
{
    let j = pre.len() + k;
    assert(h.subrange(j, j + n.len()) =~= (pre + lit).subrange(j, j + n.len()));
    assert((pre + lit).subrange(j, j + n.len()) =~= lit.subrange(k, k + n.len()));
    lemma_contains_occurrence(h, n, j);
}

/// Every reaction and closing prompt of a discussion shows the expert what
/// the other panelists said, so the mock provider answers it with a
/// critique rather than an opening draft.
pub proof fn lemma_mock_sees_reaction_rounds(
    style: Seq<char>,
    round: nat,
    total: nat,
    is_final: bool,
    prev: Statements,
    me: Seq<char>,
    prompt: Seq<char>,
)
    ensures
        is_reaction_prompt(reaction_prompt_text(style, round, total, is_final, prev, me, prompt)),
{
    let lit = "Here is what the other panelists said in the previous round:\n\n"@;
    let marker = "the other panelists said"@;
    reveal_strlit("Here is what the other panelists said in the previous round:\n\n");
    reveal_strlit("the other panelists said");
    assert(lit.subrange(13, 37) =~= marker);
    let h = reaction_prompt_text(style, round, total, is_final, prev, me, prompt);
    let own = crate::council::own_text(prev, me);
    let pre = if is_final {
        style + "\n\nThis is the FINAL round ("@ + crate::text::decimal(round) + " of "@
            + crate::text::decimal(total)
            + ") of the panel discussion. Give your CLOSING STATEMENT.\n\n"@ + own
    } else {
        style + "\n\nThis is round "@ + crate::text::decimal(round) + " of "@ + crate::text::decimal(total)
            + " of the panel discussion.\n\n"@ + own
    };
    assert(h.subrange(0, (pre.len() + lit.len()) as int) =~= pre + lit);
    lemma_contains_in_middle(pre, lit, h, marker, 13);
}

/// Every repair prompt of a coding run shows the expert the other experts'
/// drafts, so the mock provider answers it with a critique.
pub proof fn lemma_mock_sees_repair_rounds(prompt: Seq<char>, drafts: Statements, me: Seq<char>, log: Seq<char>)
    ensures
        is_reaction_prompt(repair_prompt_text(prompt, drafts, me, log)),
{
    let lit = "\"\n\nOther panel experts have generated the following initial drafts:\n\n"@;
    let marker = "Other panel experts have generated"@;
    reveal_strlit("\"\n\nOther panel experts have generated the following initial drafts:\n\n");
    reveal_strlit("Other panel experts have generated");
    assert(lit.subrange(3, 37) =~= marker);
    let h = repair_prompt_text(prompt, drafts, me, log);
    let pre = "You are an expert panelist in coding agent mode. Here is the original user query: \""@ + prompt;
    assert(h.subrange(0, (pre.len() + lit.len()) as int) =~= pre + lit);
    lemma_contains_in_middle(pre, lit, h, marker, 3);
}

impl MockProvider {
    /// The whole answer of a non-streaming request.
    pub fn reply(&self) -> (res: String)
        ensures
            res@ == "Mock response from expert"@,
    {
        String::from_str("Mock response from expert")
    }

    /// The events of a streaming request: a reasoning trace when the expert
    /// asked for thinking, then one chunk, a critique for a prompt that
    /// shows the peers' work and an initial draft for any other.
    pub fn stream_events(&self, prompt: &str, expert: &Expert) -> (res: Vec<StreamEvent>)
        ensures
            res@.len() == if expert.config.enable_thinking { 2int } else { 1int },
            expert.config.enable_thinking ==> (res@[0] matches StreamEvent::Thinking(t) && t@
                == "Mock reasoning trace from "@ + expert.name@ + "..."@),
            res@.last() matches StreamEvent::Chunk(c) && c@ == if is_reaction_prompt(prompt@) {
                "Mock critique and revised draft from "@ + expert.name@
            } else {
                "Mock initial draft from "@ + expert.name@
            },
    {
        let mut out: Vec<StreamEvent> = Vec::new();
        if expert.config.enable_thinking {
            let mut t = String::from_str("Mock reasoning trace from ");
            t.append(expert.name.as_str());
            t.append("...");
            out.push(StreamEvent::Thinking(t));
        }
        let is_reaction = str_contains(prompt, "the other panelists said") || str_contains(
            prompt,
            "Other panel experts have generated",
        );
        let mut c = if is_reaction {
            String::from_str("Mock critique and revised draft from ")
        } else {
            String::from_str("Mock initial draft from ")
        };
        c.append(expert.name.as_str());
        out.push(StreamEvent::Chunk(c));
        out
    }
}

} // verus!
