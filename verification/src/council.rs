//! The panel discussion: an opening round answered in isolation, reaction
//! rounds that show each expert the previous round, and a closing round.
//! The host runs each round's requests; this module decides what every round
//! asks and when the discussion ends.
use vstd::prelude::*;
use vstd::string::*;
use crate::model::{Council, PanelError};
use crate::text::{
    contains_spec, decimal, decimal_string, lemma_contains_piece, lemma_contains_trans,
    starts_with_spec,
};

verus! {

/// A round's statements: each expert's id and its full text.
pub type Statements = Seq<(Seq<char>, Seq<char>)>;

/// The views of a list of statements.
pub open spec fn statements_view(v: Seq<(String, String)>) -> Statements {
    v.map_values(|p: (String, String)| (p.0@, p.1@))
}

/// `items` joined with `sep` between neighbours.
pub open spec fn join_spec(items: Seq<Seq<char>>, sep: Seq<char>) -> Seq<char>
    decreases items.len(),
{
    if items.len() == 0 {
        Seq::empty()
    } else if items.len() == 1 {
        items[0]
    } else {
        join_spec(items.drop_last(), sep) + sep + items.last()
    }
}

/// The number of rounds a council discusses: fewer than two count as two.
pub open spec fn total_rounds_spec(rounds: u32) -> u32 {
    if rounds < 2 {
        2
    } else {
        rounds
    }
}

/// The word ceiling asked of each answer: zero means 300.
pub open spec fn max_words_spec(max_response_words: u32) -> u32 {
    if max_response_words == 0 {
        300
    } else {
        max_response_words
    }
}

/// The style instruction that opens every round's prompt.
pub open spec fn style_text(max_words: nat) -> Seq<char> {
    "Keep your response succinct and focused — no more than approximately "@ + decimal(max_words)
        + " words. Do not end your response with a question unless a clarifying question is truly necessary to proceed."@
}

/// The opening-round prompt: every expert answers alone.
pub open spec fn opening_prompt_text(style: Seq<char>, total: nat, prompt: Seq<char>) -> Seq<char> {
    style + "\n\nThis is a "@ + decimal(total)
        + "-round panel discussion. Give your OPENING STATEMENT (round 1 of "@ + decimal(total)
        + ") responding to the user's query below. You have not seen any other panelist's answer yet — answer based on your own reasoning alone.\n\nUser query: \""@
        + prompt + "\""@
}

/// How one other panelist's statement is shown.
pub open spec fn panelist_item(id: Seq<char>, text: Seq<char>) -> Seq<char> {
    "- Panelist ["@ + id + "]:\n"@ + text
}

/// The other panelists' statements, in order, as they are shown to `me`.
pub open spec fn others_items(prev: Statements, me: Seq<char>) -> Seq<Seq<char>>
    decreases prev.len(),
{
    if prev.len() == 0 {
        Seq::empty()
    } else {
        let rest = others_items(prev.drop_last(), me);
        if prev.last().0 == me {
            rest
        } else {
            rest.push(panelist_item(prev.last().0, prev.last().1))
        }
    }
}

/// The first statement of `me` in `prev`, if any.
pub open spec fn own_statement(prev: Statements, me: Seq<char>) -> Option<Seq<char>>
    decreases prev.len(),
{
    if prev.len() == 0 {
        None
    } else if prev[0].0 == me {
        Some(prev[0].1)
    } else {
        own_statement(prev.drop_first(), me)
    }
}

/// Each round is a fresh request, so an expert asked to refine its position
/// is shown what that position was.
pub open spec fn own_text(prev: Statements, me: Seq<char>) -> Seq<char> {
    match own_statement(prev, me) {
        Some(t) => "Your own statement in the previous round:\n"@ + t + "\n\n"@,
        None => Seq::empty(),
    }
}

/// The prompt of a reaction round (or, when `is_final`, the closing round)
/// for the expert `me`, given the previous round's statements.
pub open spec fn reaction_prompt_text(
    style: Seq<char>,
    round: nat,
    total: nat,
    is_final: bool,
    prev: Statements,
    me: Seq<char>,
    prompt: Seq<char>,
) -> Seq<char> {
    let others = join_spec(others_items(prev, me), "\n\n"@);
    if is_final {
        style + "\n\nThis is the FINAL round ("@ + decimal(round) + " of "@ + decimal(total)
            + ") of the panel discussion. Give your CLOSING STATEMENT.\n\n"@ + own_text(prev, me)
            + "Here is what the other panelists said in the previous round:\n\n"@ + others
            + "\n\nUser query: \""@ + prompt
            + "\"\n\nWrap up your position now — this is the last thing you'll say."@
    } else {
        style + "\n\nThis is round "@ + decimal(round) + " of "@ + decimal(total)
            + " of the panel discussion.\n\n"@ + own_text(prev, me)
            + "Here is what the other panelists said in the previous round:\n\n"@ + others
            + "\n\nUser query: \""@ + prompt
            + "\"\n\nRespond with a rebuttal, agreement, or refinement of your position based on what you just read."@
    }
}

/// How one expert's statement appears in the discussion's result.
pub open spec fn expert_item(id: Seq<char>, text: Seq<char>) -> Seq<char> {
    "- Expert ["@ + id + "]:\n"@ + text
}

/// The statements as items of the result.
pub open spec fn expert_items(s: Statements) -> Seq<Seq<char>> {
    s.map_values(|p: (Seq<char>, Seq<char>)| expert_item(p.0, p.1))
}

/// The result of a discussion: the last round's statements, in order.
pub open spec fn transcript_text(s: Statements) -> Seq<char> {
    join_spec(expert_items(s), "\n\n"@)
}

/// The error of a discussion whose opening round produced nothing.
pub open spec fn no_opening_text() -> Seq<char> {
    "No expert produced an opening statement — check provider credentials and model names."@
}

// ── What a round shows ──

/// Joining puts the separator between neighbours and nowhere else: no item
/// gives nothing, one item gives itself, and joining two non-empty lists
/// one after the other gives their joined texts with one separator between.
pub proof fn lemma_join_laws(a: Seq<Seq<char>>, b: Seq<Seq<char>>, sep: Seq<char>)
    ensures
        join_spec(Seq::empty(), sep) == Seq::<char>::empty(),
        a.len() == 1 ==> join_spec(a, sep) == a[0],
        a.len() > 0 && b.len() > 0 ==> join_spec(a + b, sep) == join_spec(a, sep) + sep + join_spec(b, sep),
    decreases b.len(),
{
    if a.len() > 0 && b.len() > 0 {
        let ab = a + b;
        if b.len() == 1 {
            assert(ab.drop_last() =~= a);
            assert(ab.last() == b[0]);
        } else {
            lemma_join_laws(a, b.drop_last(), sep);
            assert(ab.drop_last() =~= a + b.drop_last());
            assert(ab.last() == b.last());
            assert(join_spec(ab, sep) == join_spec(ab.drop_last(), sep) + sep + ab.last());
            assert(join_spec(b, sep) == join_spec(b.drop_last(), sep) + sep + b.last());
            assert(join_spec(a, sep) + sep + join_spec(b.drop_last(), sep) + sep + b.last() =~= join_spec(a, sep)
                + sep + (join_spec(b.drop_last(), sep) + sep + b.last()));
        }
    }
}

/// Each item of a joined list occurs in the joined text.
pub proof fn lemma_join_contains(items: Seq<Seq<char>>, sep: Seq<char>, k: int)
    requires
        0 <= k < items.len(),
    ensures
        contains_spec(join_spec(items, sep), items[k]),
    decreases items.len(),
{
    let e = Seq::<char>::empty();
    if items.len() == 1 {
        assert(e + items[0] + e =~= items[0]);
        lemma_contains_piece(e, items[0], e);
    } else {
        let j = join_spec(items.drop_last(), sep);
        if k == items.len() - 1 {
            assert((j + sep) + items.last() + e =~= join_spec(items, sep));
            lemma_contains_piece(j + sep, items.last(), e);
        } else {
            lemma_join_contains(items.drop_last(), sep, k);
            assert(items.drop_last()[k] == items[k]);
            assert(e + j + (sep + items.last()) =~= join_spec(items, sep));
            lemma_contains_piece(e, j, sep + items.last());
            lemma_contains_trans(join_spec(items, sep), j, items[k]);
        }
    }
}

proof fn lemma_others_item(prev: Statements, me: Seq<char>, i: int) -> (k: int)
    requires
        0 <= i < prev.len(),
        prev[i].0 != me,
    ensures
        0 <= k < others_items(prev, me).len(),
        others_items(prev, me)[k] == panelist_item(prev[i].0, prev[i].1),
    decreases prev.len(),
{
    let rest = others_items(prev.drop_last(), me);
    if i == prev.len() - 1 {
        rest.len() as int
    } else {
        assert(prev.drop_last()[i] == prev[i]);
        let k = lemma_others_item(prev.drop_last(), me, i);
        k
    }
}

/// In a reaction or closing round an expert is shown its own statement of
/// the previous round, under its own heading, and every other panelist's
/// statement of that round.
pub proof fn lemma_reaction_prompt_shows_previous_round(
    style: Seq<char>,
    round: nat,
    total: nat,
    is_final: bool,
    prev: Statements,
    me: Seq<char>,
    prompt: Seq<char>,
)
    ensures
        own_statement(prev, me) matches Some(t) ==> contains_spec(
            reaction_prompt_text(style, round, total, is_final, prev, me, prompt),
            "Your own statement in the previous round:\n"@ + t,
        ),
        forall|i: int|
            0 <= i < prev.len() && prev[i].0 != me ==> contains_spec(
                reaction_prompt_text(style, round, total, is_final, prev, me, prompt),
                panelist_item(#[trigger] prev[i].0, prev[i].1),
            ),
{
    let p = reaction_prompt_text(style, round, total, is_final, prev, me, prompt);
    let items = others_items(prev, me);
    let others = join_spec(items, "\n\n"@);
    let own = own_text(prev, me);
    let head = if is_final {
        style + "\n\nThis is the FINAL round ("@ + decimal(round) + " of "@ + decimal(total)
            + ") of the panel discussion. Give your CLOSING STATEMENT.\n\n"@
    } else {
        style + "\n\nThis is round "@ + decimal(round) + " of "@ + decimal(total)
            + " of the panel discussion.\n\n"@
    };
    let lit = "Here is what the other panelists said in the previous round:\n\n"@;
    let tail = if is_final {
        "\n\nUser query: \""@ + prompt
            + "\"\n\nWrap up your position now — this is the last thing you'll say."@
    } else {
        "\n\nUser query: \""@ + prompt
            + "\"\n\nRespond with a rebuttal, agreement, or refinement of your position based on what you just read."@
    };
    assert(p =~= head + own + (lit + others + tail));
    assert(p =~= (head + own + lit) + others + tail);
    match own_statement(prev, me) {
        Some(t) => {
            let labelled = "Your own statement in the previous round:\n"@ + t;
            let e = Seq::<char>::empty();
            assert(e + labelled + "\n\n"@ =~= own);
            lemma_contains_piece(e, labelled, "\n\n"@);
            lemma_contains_piece(head, own, lit + others + tail);
            lemma_contains_trans(p, own, labelled);
        },
        None => {},
    }
    assert forall|i: int| 0 <= i < prev.len() && prev[i].0 != me implies contains_spec(
        p,
        panelist_item(#[trigger] prev[i].0, prev[i].1),
    ) by {
        let k = lemma_others_item(prev, me, i);
        lemma_join_contains(items, "\n\n"@, k);
        lemma_contains_piece(head + own + lit, others, tail);
        lemma_contains_trans(p, others, items[k]);
    }
}

/// The other panelists' statements shown to `me` are exactly those of the
/// previous round whose author is not `me`, in the round's order, each as
/// `- Panelist [id]:` and its text.
pub proof fn lemma_others_are_the_other_panelists(prev: Statements, me: Seq<char>)
    ensures
        others_items(prev, me) == prev.filter(|p: (Seq<char>, Seq<char>)| p.0 != me).map_values(
            |p: (Seq<char>, Seq<char>)| "- Panelist ["@ + p.0 + "]:\n"@ + p.1,
        ),
    decreases prev.len(),
{
    reveal(Seq::filter);
    let pred = |p: (Seq<char>, Seq<char>)| p.0 != me;
    let f = |p: (Seq<char>, Seq<char>)| "- Panelist ["@ + p.0 + "]:\n"@ + p.1;
    if prev.len() == 0 {
        assert(prev.filter(pred) =~= Seq::<(Seq<char>, Seq<char>)>::empty());
        assert(prev.filter(pred).map_values(f) =~= Seq::<Seq<char>>::empty());
    } else {
        lemma_others_are_the_other_panelists(prev.drop_last(), me);
        let sub = prev.drop_last().filter(pred);
        if pred(prev.last()) {
            assert(prev.filter(pred) == sub.push(prev.last()));
            assert(sub.push(prev.last()).map_values(f) =~= sub.map_values(f).push(f(prev.last())));
        } else {
            assert(prev.filter(pred) == sub);
        }
    }
}

/// The result of a discussion lists every statement of the last round, in
/// order, each as `- Expert [id]:` and its text, separated by blank lines.
pub proof fn lemma_transcript_lists_every_statement(st: Statements)
    ensures
        transcript_text(st) == join_spec(
            st.map_values(|p: (Seq<char>, Seq<char>)| "- Expert ["@ + p.0 + "]:\n"@ + p.1),
            "\n\n"@,
        ),
{
    assert(expert_items(st) =~= st.map_values(
        |p: (Seq<char>, Seq<char>)| "- Expert ["@ + p.0 + "]:\n"@ + p.1,
    ));
}

/// A round keeps the statement of every expert whose request succeeded and
/// no other, in the order the outcomes came.
pub proof fn lemma_round_keeps_every_success(outcomes: Seq<(String, Option<String>)>)
    ensures
        successes(outcomes) == outcomes.filter(|o: (String, Option<String>)| o.1 is Some).map_values(
            |o: (String, Option<String>)| (o.0@, o.1.unwrap()@),
        ),
    decreases outcomes.len(),
{
    reveal(Seq::filter);
    let pred = |o: (String, Option<String>)| o.1 is Some;
    let f = |o: (String, Option<String>)| (o.0@, o.1.unwrap()@);
    if outcomes.len() == 0 {
        assert(outcomes.filter(pred) =~= Seq::<(String, Option<String>)>::empty());
        assert(outcomes.filter(pred).map_values(f) =~= Seq::<(Seq<char>, Seq<char>)>::empty());
    } else {
        lemma_round_keeps_every_success(outcomes.drop_last());
        let sub = outcomes.drop_last().filter(pred);
        if pred(outcomes.last()) {
            assert(outcomes.filter(pred) == sub.push(outcomes.last()));
            assert(sub.push(outcomes.last()).map_values(f) =~= sub.map_values(f).push(f(outcomes.last())));
        } else {
            assert(outcomes.filter(pred) == sub);
        }
    }
}

proof fn lemma_own_statement_first(prev: Statements, me: Seq<char>, i: int)
    requires
        0 <= i < prev.len(),
        prev[i].0 == me,
        forall|j: int| 0 <= j < i ==> #[trigger] prev[j].0 != me,
    ensures
        own_statement(prev, me) == Some(prev[i].1),
    decreases i,
{
    if i > 0 {
        assert(prev[0].0 != me);
        let rest = prev.drop_first();
        assert forall|j: int| 0 <= j < i - 1 implies #[trigger] rest[j].0 != me by {
            assert(rest[j] == prev[j + 1]);
        }
        assert(rest[i - 1] == prev[i]);
        lemma_own_statement_first(rest, me, i - 1);
    }
}

proof fn lemma_own_statement_none(prev: Statements, me: Seq<char>)
    requires
        forall|i: int| 0 <= i < prev.len() ==> #[trigger] prev[i].0 != me,
    ensures
        own_statement(prev, me) is None,
    decreases prev.len(),
{
    if prev.len() > 0 {
        let rest = prev.drop_first();
        assert forall|i: int| 0 <= i < rest.len() implies #[trigger] rest[i].0 != me by {
            assert(rest[i] == prev[i + 1]);
        }
        assert(prev[0].0 != me);
        lemma_own_statement_none(rest, me);
    }
}

/// A reaction or closing prompt opens with the round's heading, then reminds
/// the expert of its own statement in the previous round (its first one,
/// where it has several), and only then shows the other panelists. An
/// expert that said nothing in the previous round gets no reminder.
pub proof fn lemma_reaction_prompt_reminds_own_statement(
    style: Seq<char>,
    round: nat,
    total: nat,
    is_final: bool,
    prev: Statements,
    me: Seq<char>,
    prompt: Seq<char>,
)
    ensures
        ({
            let p = reaction_prompt_text(style, round, total, is_final, prev, me, prompt);
            let head = if is_final {
                style + "\n\nThis is the FINAL round ("@ + decimal(round) + " of "@ + decimal(total)
                    + ") of the panel discussion. Give your CLOSING STATEMENT.\n\n"@
            } else {
                style + "\n\nThis is round "@ + decimal(round) + " of "@ + decimal(total)
                    + " of the panel discussion.\n\n"@
            };
            let shown = "Here is what the other panelists said in the previous round:\n\n"@;
            &&& forall|i: int|
                0 <= i < prev.len() && #[trigger] prev[i].0 == me && (forall|j: int|
                    0 <= j < i ==> #[trigger] prev[j].0 != me) ==> starts_with_spec(
                    p,
                    head + "Your own statement in the previous round:\n"@ + prev[i].1 + "\n\n"@ + shown,
                )
            &&& (forall|i: int| 0 <= i < prev.len() ==> #[trigger] prev[i].0 != me) ==> starts_with_spec(
                p,
                head + shown,
            )
        }),
{
    let p = reaction_prompt_text(style, round, total, is_final, prev, me, prompt);
    let others = join_spec(others_items(prev, me), "\n\n"@);
    let head = if is_final {
        style + "\n\nThis is the FINAL round ("@ + decimal(round) + " of "@ + decimal(total)
            + ") of the panel discussion. Give your CLOSING STATEMENT.\n\n"@
    } else {
        style + "\n\nThis is round "@ + decimal(round) + " of "@ + decimal(total)
            + " of the panel discussion.\n\n"@
    };
    let shown = "Here is what the other panelists said in the previous round:\n\n"@;
    let tail = if is_final {
        "\n\nUser query: \""@ + prompt
            + "\"\n\nWrap up your position now — this is the last thing you'll say."@
    } else {
        "\n\nUser query: \""@ + prompt
            + "\"\n\nRespond with a rebuttal, agreement, or refinement of your position based on what you just read."@
    };
    let own = own_text(prev, me);
    assert(p =~= (head + own + shown) + (others + tail));
    assert forall|i: int|
        0 <= i < prev.len() && #[trigger] prev[i].0 == me && (forall|j: int|
            0 <= j < i ==> #[trigger] prev[j].0 != me) implies starts_with_spec(
        p,
        head + "Your own statement in the previous round:\n"@ + prev[i].1 + "\n\n"@ + shown,
    ) by {
        lemma_own_statement_first(prev, me, i);
        let x = head + "Your own statement in the previous round:\n"@ + prev[i].1 + "\n\n"@ + shown;
        assert(head + own + shown =~= x);
        assert(p.subrange(0, x.len() as int) =~= x);
    }
    if forall|i: int| 0 <= i < prev.len() ==> #[trigger] prev[i].0 != me {
        lemma_own_statement_none(prev, me);
        assert(head + own + shown =~= head + shown);
        assert(p.subrange(0, (head + shown).len() as int) =~= head + shown);
    }
}

// ── Building the texts ──

fn append_joined(acc: &mut String, first: bool, item: &str)
    ensures
        final(acc)@ == if first {
            old(acc)@ + item@
        } else {
            old(acc)@ + "\n\n"@ + item@
        },
{
    if !first {
        acc.append("\n\n");
    }
    acc.append(item);
}

/// The style instruction for a word ceiling.
pub fn style_instruction(max_words: u32) -> (res: String)
    ensures
        res@ == style_text(max_words as nat),
{
    let mut s = String::from_str(
        "Keep your response succinct and focused — no more than approximately ",
    );
    let n = decimal_string(max_words as u64);
    s.append(n.as_str());
    s.append(
        " words. Do not end your response with a question unless a clarifying question is truly necessary to proceed.",
    );
    s
}

/// The opening-round prompt.
pub fn opening_prompt(style: &str, total: u32, prompt: &str) -> (res: String)
    ensures
        res@ == opening_prompt_text(style@, total as nat, prompt@),
{
    let t = decimal_string(total as u64);
    let mut s = String::from_str(style);
    s.append("\n\nThis is a ");
    s.append(t.as_str());
    s.append("-round panel discussion. Give your OPENING STATEMENT (round 1 of ");
    s.append(t.as_str());
    s.append(
        ") responding to the user's query below. You have not seen any other panelist's answer yet — answer based on your own reasoning alone.\n\nUser query: \"",
    );
    s.append(prompt);
    s.append("\"");
    s
}

proof fn lemma_others_step(prev: Statements, me: Seq<char>, k: int)
    requires
        0 <= k < prev.len(),
    ensures
        others_items(prev.subrange(0, k + 1), me) == if prev[k].0 == me {
            others_items(prev.subrange(0, k), me)
        } else {
            others_items(prev.subrange(0, k), me).push(panelist_item(prev[k].0, prev[k].1))
        },
{
    assert(prev.subrange(0, k + 1).drop_last() =~= prev.subrange(0, k));
}

proof fn lemma_join_push(items: Seq<Seq<char>>, sep: Seq<char>, x: Seq<char>)
    ensures
        join_spec(items.push(x), sep) == if items.len() == 0 {
            x
        } else {
            join_spec(items, sep) + sep + x
        },
{
    assert(items.push(x).drop_last() =~= items);
}

/// The other panelists' statements as shown to `me`, joined by blank lines.
fn others_joined(prev: &Vec<(String, String)>, me: &str) -> (res: String)
    ensures
        res@ == join_spec(others_items(statements_view(prev@), me@), "\n\n"@),
{
    let ghost sv = statements_view(prev@);
    let me_s = String::from_str(me);
    let mut s = String::new();
    let mut k: usize = 0;
    let mut first = true;
    assert(sv.subrange(0, 0) =~= Seq::<(Seq<char>, Seq<char>)>::empty());
    while k < prev.len()
        invariant
            k <= prev.len(),
            sv == statements_view(prev@),
            me_s@ == me@,
            s@ == join_spec(others_items(sv.subrange(0, k as int), me@), "\n\n"@),
            first == (others_items(sv.subrange(0, k as int), me@).len() == 0),
        decreases prev.len() - k,
    {
        proof {
            lemma_others_step(sv, me@, k as int);
        }
        let is_me = prev[k].0 == me_s;
        if !is_me {
            let mut item = String::from_str("- Panelist [");
            item.append(prev[k].0.as_str());
            item.append("]:\n");
            item.append(prev[k].1.as_str());
            proof {
                lemma_join_push(
                    others_items(sv.subrange(0, k as int), me@),
                    "\n\n"@,
                    panelist_item(sv[k as int].0, sv[k as int].1),
                );
            }
            append_joined(&mut s, first, item.as_str());
            first = false;
        }
        k = k + 1;
    }
    assert(sv.subrange(0, prev.len() as int) =~= sv);
    s
}

/// What `me` is reminded of having said, or nothing.
fn own_previous(prev: &Vec<(String, String)>, me: &str) -> (res: String)
    ensures
        res@ == own_text(statements_view(prev@), me@),
{
    let ghost sv = statements_view(prev@);
    let me_s = String::from_str(me);
    let mut k: usize = 0;
    assert(sv.skip(0) =~= sv);
    while k < prev.len()
        invariant
            k <= prev.len(),
            sv == statements_view(prev@),
            me_s@ == me@,
            own_statement(sv, me@) == own_statement(sv.skip(k as int), me@),
        decreases prev.len() - k,
    {
        assert(sv.skip(k as int).drop_first() =~= sv.skip(k + 1));
        if prev[k].0 == me_s {
            let mut s = String::from_str("Your own statement in the previous round:\n");
            s.append(prev[k].1.as_str());
            s.append("\n\n");
            return s;
        }
        k = k + 1;
    }
    String::new()
}

/// The prompt of a reaction or closing round for the expert `me`.
pub fn reaction_prompt(
    style: &str,
    round: u32,
    total: u32,
    is_final: bool,
    prev: &Vec<(String, String)>,
    me: &str,
    prompt: &str,
) -> (res: String)
    ensures
        res@ == reaction_prompt_text(
            style@,
            round as nat,
            total as nat,
            is_final,
            statements_view(prev@),
            me@,
            prompt@,
        ),
{
    let others = others_joined(prev, me);
    let own = own_previous(prev, me);
    let r = decimal_string(round as u64);
    let t = decimal_string(total as u64);
    let mut s = String::from_str(style);
    if is_final {
        s.append("\n\nThis is the FINAL round (");
        s.append(r.as_str());
        s.append(" of ");
        s.append(t.as_str());
        s.append(") of the panel discussion. Give your CLOSING STATEMENT.\n\n");
    } else {
        s.append("\n\nThis is round ");
        s.append(r.as_str());
        s.append(" of ");
        s.append(t.as_str());
        s.append(" of the panel discussion.\n\n");
    }
    s.append(own.as_str());
    s.append("Here is what the other panelists said in the previous round:\n\n");
    s.append(others.as_str());
    s.append("\n\nUser query: \"");
    s.append(prompt);
    if is_final {
        s.append("\"\n\nWrap up your position now — this is the last thing you'll say.");
    } else {
        s.append(
            "\"\n\nRespond with a rebuttal, agreement, or refinement of your position based on what you just read.",
        );
    }
    s
}

/// The result of a discussion: each statement of the last round as
/// `- Expert [id]:` and its text, separated by blank lines.
pub fn transcript(statements: &Vec<(String, String)>) -> (res: String)
    ensures
        res@ == transcript_text(statements_view(statements@)),
{
    let ghost sv = statements_view(statements@);
    let mut s = String::new();
    let mut k: usize = 0;
    assert(expert_items(sv.subrange(0, 0)) =~= Seq::<Seq<char>>::empty());
    while k < statements.len()
        invariant
            k <= statements.len(),
            sv == statements_view(statements@),
            s@ == join_spec(expert_items(sv.subrange(0, k as int)), "\n\n"@),
        decreases statements.len() - k,
    {
        let mut item = String::from_str("- Expert [");
        item.append(statements[k].0.as_str());
        item.append("]:\n");
        item.append(statements[k].1.as_str());
        proof {
            assert(expert_items(sv.subrange(0, k + 1)) =~= expert_items(sv.subrange(0, k as int)).push(
                expert_item(sv[k as int].0, sv[k as int].1),
            ));
            lemma_join_push(
                expert_items(sv.subrange(0, k as int)),
                "\n\n"@,
                expert_item(sv[k as int].0, sv[k as int].1),
            );
        }
        append_joined(&mut s, k == 0, item.as_str());
        k = k + 1;
    }
    assert(sv.subrange(0, statements.len() as int) =~= sv);
    s
}


/// The round a discussion asks for after round `round` of `total`, given
/// whether the round produced any statement and whether a cancel came;
/// `None` when the discussion ends.
pub open spec fn next_round(round: u32, total: u32, produced: bool, cancelled: bool) -> Option<u32> {
    if round <= 1 && !produced {
        None
    } else if cancelled || round >= total {
        None
    } else {
        Some((round + 1) as u32)
    }
}

/// The rounds asked for after round `round`, when every round produces
/// statements and no cancel comes.
pub open spec fn rounds_requested(round: u32, total: u32) -> Seq<u32>
    decreases total - round,
{
    match next_round(round, total, true, false) {
        Some(r) => seq![r] + rounds_requested(r, total),
        None => Seq::empty(),
    }
}

/// A discussion where every round produces statements and nobody cancels
/// runs exactly `max(rounds, 2)` rounds: after the opening round it asks
/// for rounds 2, 3, ... up to the total, in order, and then ends.
pub proof fn lemma_discussion_length(rounds: u32)
    ensures
        rounds_requested(1, total_rounds_spec(rounds)) == Seq::new(
            (total_rounds_spec(rounds) - 1) as nat,
            |i: int| (i + 2) as u32,
        ),
{
    lemma_rounds_from(1, total_rounds_spec(rounds));
}

proof fn lemma_rounds_from(round: u32, total: u32)
    requires
        1 <= round <= total,
    ensures
        rounds_requested(round, total) == Seq::new((total - round) as nat, |i: int| (round + i + 1) as u32),
    decreases total - round,
{
    if round < total {
        lemma_rounds_from((round + 1) as u32, total);
        assert(rounds_requested(round, total) =~= Seq::new(
            (total - round) as nat,
            |i: int| (round + i + 1) as u32,
        ));
    } else {
        assert(rounds_requested(round, total) =~= Seq::new(
            (total - round) as nat,
            |i: int| (round + i + 1) as u32,
        ));
    }
}

// ── The discussion as a state machine ──

/// Which round is running and how its progress is reported: the opening
/// round through the `on_expert_*` callbacks, every later round through the
/// `on_expert_critique_*` callbacks with its number and whether it closes.
#[derive(Debug, Clone, Copy, PartialEq, Eq, Structural)]
pub struct RoundMeta {
    pub round_number: u32,
    pub is_final: bool,
    pub is_opening: bool,
}

/// A round to run: one prompt per expert, in council order.
#[derive(Debug)]
pub struct RoundRequest {
    pub meta: RoundMeta,
    pub prompts: Vec<String>,
}

/// What the host does after a round.
#[derive(Debug)]
pub enum CouncilStep {
    /// Run another round.
    RunRound(RoundRequest),
    /// The discussion is over, with this result.
    Finished(Result<String, PanelError>),
}

/// A discussion in progress.
#[derive(Debug)]
pub struct CouncilFlow {
    /// The user's query.
    pub prompt: String,
    /// The style instruction that opens every prompt.
    pub style: String,
    /// How many rounds the discussion has.
    pub total_rounds: u32,
    /// The round last handed to the host.
    pub round: u32,
    /// The latest round that produced any statement.
    pub previous: Vec<(String, String)>,
    /// The experts' ids, in council order.
    pub expert_ids: Vec<String>,
}

/// The ids of a council's experts.
pub open spec fn expert_ids_view(council: Council) -> Seq<Seq<char>> {
    council.experts@.map_values(|e: crate::model::Expert| e.id@)
}

/// The views of a list of ids.
pub open spec fn ids_view(v: Seq<String>) -> Seq<Seq<char>> {
    v.map_values(|s: String| s@)
}

/// The statements of the experts that answered, in the order given.
pub open spec fn successes(outcomes: Seq<(String, Option<String>)>) -> Statements
    decreases outcomes.len(),
{
    if outcomes.len() == 0 {
        Seq::empty()
    } else {
        let rest = successes(outcomes.drop_last());
        match outcomes.last().1 {
            Some(t) => rest.push((outcomes.last().0@, t@)),
            None => rest,
        }
    }
}

/// Keeps the statements of the experts whose request succeeded, in order; an
/// expert that failed simply drops out of the round.
pub fn collect_round(outcomes: Vec<(String, Option<String>)>) -> (res: Vec<(String, String)>)
    ensures
        statements_view(res@) == successes(outcomes@),
{
    let mut out: Vec<(String, String)> = Vec::new();
    let mut k: usize = 0;
    while k < outcomes.len()
        invariant
            k <= outcomes.len(),
            statements_view(out@) == successes(outcomes@.subrange(0, k as int)),
        decreases outcomes.len() - k,
    {
        assert(outcomes@.subrange(0, k + 1).drop_last() =~= outcomes@.subrange(0, k as int));
        let ghost prev = out@;
        match &outcomes[k].1 {
            Some(t) => {
                out.push((outcomes[k].0.clone(), t.clone()));
                assert(statements_view(out@) =~= statements_view(prev).push(
                    (outcomes@[k as int].0@, t@),
                ));
            },
            None => {},
        }
        k = k + 1;
    }
    assert(outcomes@.subrange(0, outcomes.len() as int) =~= outcomes@);
    out
}

impl CouncilFlow {
    /// Starts a discussion: the opening round, the same prompt for every
    /// expert. The discussion has `council.rounds` rounds, at least two, and
    /// asks for answers of about `max_response_words` words (300 when zero).
    pub fn start(prompt: &str, council: &Council) -> (res: (CouncilFlow, RoundRequest))
        ensures
            res.0.prompt@ == prompt@,
            res.0.style@ == style_text(max_words_spec(council.max_response_words) as nat),
            res.0.total_rounds == total_rounds_spec(council.rounds),
            res.0.round == 1,
            res.0.previous@.len() == 0,
            ids_view(res.0.expert_ids@) == expert_ids_view(*council),
            res.1.meta == (RoundMeta { round_number: 1, is_final: false, is_opening: true }),
            res.1.prompts@.len() == council.experts@.len(),
            forall|i: int|
                0 <= i < res.1.prompts@.len() ==> #[trigger] res.1.prompts@[i]@
                    == opening_prompt_text(res.0.style@, res.0.total_rounds as nat, prompt@),
    {
        let total: u32 = if council.rounds < 2 {
            2
        } else {
            council.rounds
        };
        let max_words: u32 = if council.max_response_words == 0 {
            300
        } else {
            council.max_response_words
        };
        let style = style_instruction(max_words);
        let opening = opening_prompt(style.as_str(), total, prompt);
        let mut ids: Vec<String> = Vec::new();
        let mut prompts: Vec<String> = Vec::new();
        let mut k: usize = 0;
        while k < council.experts.len()
            invariant
                k <= council.experts.len(),
                ids_view(ids@) == expert_ids_view(*council).subrange(0, k as int),
                prompts@.len() == k,
                forall|i: int| 0 <= i < k ==> #[trigger] prompts@[i]@ == opening@,
            decreases council.experts.len() - k,
        {
            let ghost prev = ids@;
            let id = council.experts[k].id.clone();
            assert(id@ == council.experts@[k as int].id@);
            ids.push(id);
            prompts.push(opening.clone());
            assert(ids_view(ids@) =~= ids_view(prev).push(council.experts@[k as int].id@));
            assert(expert_ids_view(*council).subrange(0, k + 1) =~= expert_ids_view(*council).subrange(0, k as int).push(council.experts@[k as int].id@));
            k = k + 1;
        }
        assert(expert_ids_view(*council).subrange(0, k as int) =~= expert_ids_view(*council));
        let flow = CouncilFlow {
            prompt: String::from_str(prompt),
            style,
            total_rounds: total,
            round: 1,
            previous: Vec::new(),
            expert_ids: ids,
        };
        let req = RoundRequest {
            meta: RoundMeta { round_number: 1, is_final: false, is_opening: true },
            prompts,
        };
        (flow, req)
    }

    /// Takes the statements of the round just run, and whether a cancel was
    /// requested, and says what comes next.
    ///
    /// An opening round where nobody answered ends the discussion with an
    /// error: there is nothing to react to. A later round where nobody
    /// answered keeps the previous round as the live transcript. After the
    /// last round, or on cancel, the discussion ends with the live
    /// transcript; otherwise every expert gets the next round's prompt.
    pub fn round_finished(&mut self, results: Vec<(String, String)>, cancelled: bool) -> (res:
        CouncilStep)
        ensures
            final(self).prompt@ == old(self).prompt@,
            final(self).style@ == old(self).style@,
            final(self).total_rounds == old(self).total_rounds,
            ids_view(final(self).expert_ids@) == ids_view(old(self).expert_ids@),
            match next_round(old(self).round, old(self).total_rounds, results@.len() > 0, cancelled) {
                Some(r) => final(self).round == r && res is RunRound,
                None => final(self).round == old(self).round && res is Finished,
            },
            if old(self).round <= 1 && results@.len() == 0 {
                &&& res matches CouncilStep::Finished(Err(PanelError::ApiError(m)))
                &&& m@ == no_opening_text()
                &&& final(self).round == old(self).round
                &&& statements_view(final(self).previous@) == statements_view(old(self).previous@)
            } else {
                &&& statements_view(final(self).previous@) == if results@.len() > 0 {
                    statements_view(results@)
                } else {
                    statements_view(old(self).previous@)
                }
                &&& if cancelled || old(self).round >= old(self).total_rounds {
                    &&& final(self).round == old(self).round
                    &&& res matches CouncilStep::Finished(Ok(t))
                    &&& t@ == transcript_text(statements_view(final(self).previous@))
                } else {
                    let r = old(self).round + 1;
                    let fin = r == old(self).total_rounds;
                    &&& final(self).round == r
                    &&& res matches CouncilStep::RunRound(req)
                    &&& req.meta == (RoundMeta { round_number: r as u32, is_final: fin, is_opening: false })
                    &&& req.prompts@.len() == old(self).expert_ids@.len()
                    &&& forall|i: int|
                        0 <= i < req.prompts@.len() ==> #[trigger] req.prompts@[i]@
                            == reaction_prompt_text(
                            old(self).style@,
                            r as nat,
                            old(self).total_rounds as nat,
                            fin,
                            statements_view(final(self).previous@),
                            old(self).expert_ids@[i]@,
                            old(self).prompt@,
                        )
                }
            },
    {
        if self.round <= 1 && results.len() == 0 {
            return CouncilStep::Finished(
                Err(
                    PanelError::ApiError(
                        String::from_str(
                            "No expert produced an opening statement — check provider credentials and model names.",
                        ),
                    ),
                ),
            );
        }
        if results.len() > 0 {
            self.previous = results;
        }
        if cancelled || self.round >= self.total_rounds {
            return CouncilStep::Finished(Ok(transcript(&self.previous)));
        }
        let r = self.round + 1;
        let fin = r == self.total_rounds;
        self.round = r;
        let mut prompts: Vec<String> = Vec::new();
        let mut k: usize = 0;
        while k < self.expert_ids.len()
            invariant
                k <= self.expert_ids.len(),
                prompts@.len() == k,
                forall|i: int|
                    0 <= i < k ==> #[trigger] prompts@[i]@ == reaction_prompt_text(
                        self.style@,
                        r as nat,
                        self.total_rounds as nat,
                        fin,
                        statements_view(self.previous@),
                        self.expert_ids@[i]@,
                        self.prompt@,
                    ),
            decreases self.expert_ids.len() - k,
        {
            let p = reaction_prompt(
                self.style.as_str(),
                r,
                self.total_rounds,
                fin,
                &self.previous,
                self.expert_ids[k].as_str(),
                self.prompt.as_str(),
            );
            prompts.push(p);
            k = k + 1;
        }
        CouncilStep::RunRound(
            RoundRequest { meta: RoundMeta { round_number: r, is_final: fin, is_opening: false }, prompts },
        )
    }
}

} // verus!
