//! Flattening a council session log into a user/assistant transcript.
use vstd::prelude::*;
use vstd::string::*;
use crate::model::{Message, Role};
use crate::text::{contains_spec, lemma_contains_piece, lemma_contains_trans};

verus! {

/// The API role name of a session-log role.
pub open spec fn role_text(role: Role) -> Seq<char> {
    match role {
        Role::User => "user"@,
        Role::System => "system"@,
        _ => "assistant"@,
    }
}

/// The text a session-log entry contributes to the transcript: a panelist's
/// statement carries its author's label.
pub open spec fn entry_text(m: Message) -> Seq<char> {
    match m.role {
        Role::ExpertDraft { expert_id } => "["@ + expert_id@ + "]: "@ + m.content@,
        Role::ExpertCritique { expert_id } => "["@ + expert_id@ + "]: "@ + m.content@,
        _ => m.content@,
    }
}

/// A transcript turn: its role and its text.
pub type Turn = (Seq<char>, Seq<char>);

/// The transcript after one more log entry.
pub open spec fn normalize_step(out: Seq<Turn>, m: Message) -> Seq<Turn> {
    if m.role is System {
        out
    } else if out.len() == 0 && !(m.role is User) {
        out
    } else if out.len() > 0 && out.last().0 == role_text(m.role) {
        out.update(
            out.len() - 1,
            (out.last().0, out.last().1 + "\n\n"@ + entry_text(m)),
        )
    } else {
        out.push((role_text(m.role), entry_text(m)))
    }
}

/// The transcript of a whole log: system entries dropped, everything before the
/// first user entry dropped, consecutive same-role entries merged.
pub open spec fn normalize_spec(history: Seq<Message>) -> Seq<Turn>
    decreases history.len(),
{
    if history.len() == 0 {
        Seq::empty()
    } else {
        normalize_step(normalize_spec(history.drop_last()), history.last())
    }
}

/// The views of a transcript built from strings.
pub open spec fn turns_view(v: Seq<(String, String)>) -> Seq<Turn> {
    v.map_values(|p: (String, String)| (p.0@, p.1@))
}

/// A transcript the chat APIs accept: every role is `user` or `assistant`,
/// it opens with `user`, and no two neighbouring turns share a role.
pub open spec fn well_alternating(t: Seq<Turn>) -> bool {
    &&& forall|i: int| 0 <= i < t.len() ==> (#[trigger] t[i].0 == "user"@ || t[i].0 == "assistant"@)
    &&& t.len() > 0 ==> t[0].0 == "user"@
    &&& forall|i: int| 0 <= i < t.len() - 1 ==> #[trigger] t[i].0 != t[i + 1].0
}

/// The API role name of a session-log role.
pub fn role_to_string(role: &Role) -> (res: String)
    ensures
        res@ == role_text(*role),
{
    match role {
        Role::User => String::from_str("user"),
        Role::Assistant | Role::ExpertDraft { .. } | Role::ExpertCritique { .. } => String::from_str(
            "assistant",
        ),
        Role::System => String::from_str("system"),
    }
}

fn entry_string(m: &Message) -> (res: String)
    ensures
        res@ == entry_text(*m),
{
    match &m.role {
        Role::ExpertDraft { expert_id } | Role::ExpertCritique { expert_id } => {
            let mut s = String::from_str("[");
            s.append(expert_id.as_str());
            s.append("]: ");
            s.append(m.content.as_str());
            s
        },
        _ => String::from_str(m.content.as_str()),
    }
}

/// Every transcript that `normalize_spec` builds is one the chat APIs accept.
pub proof fn lemma_normalize_alternates(history: Seq<Message>)
    ensures
        well_alternating(normalize_spec(history)),
    decreases history.len(),
{
    reveal_strlit("user");
    reveal_strlit("assistant");
    reveal_strlit("system");
    if history.len() > 0 {
        let prev = normalize_spec(history.drop_last());
        lemma_normalize_alternates(history.drop_last());
        let m = history.last();
        let out = normalize_step(prev, m);
        assert(well_alternating(out));
    }
}

/// What a transcript turn shows of a log entry: the entry's role (`user`
/// for the user, `assistant` for the assistant and for every panelist) and,
/// within its text, the entry's content, a panelist's under its label.
pub open spec fn turn_shows(t: Turn, m: Message) -> bool {
    match m.role {
        Role::User => t.0 == "user"@ && contains_spec(t.1, m.content@),
        Role::Assistant => t.0 == "assistant"@ && contains_spec(t.1, m.content@),
        Role::ExpertDraft { expert_id } => t.0 == "assistant"@ && contains_spec(
            t.1,
            "["@ + expert_id@ + "]: "@ + m.content@,
        ),
        Role::ExpertCritique { expert_id } => t.0 == "assistant"@ && contains_spec(
            t.1,
            "["@ + expert_id@ + "]: "@ + m.content@,
        ),
        Role::System => true,
    }
}

proof fn lemma_contains_prefix(x: Seq<char>, y: Seq<char>, n: Seq<char>)
    requires
        contains_spec(x, n),
    ensures
        contains_spec(x + y, n),
{
    let e = Seq::<char>::empty();
    lemma_contains_piece(e, x, y);
    assert(e + x + y =~= x + y);
    lemma_contains_trans(x + y, x, n);
}

proof fn lemma_turn_shows_extend(t: Turn, m: Message, y: Seq<char>)
    requires
        turn_shows(t, m),
    ensures
        turn_shows((t.0, t.1 + y), m),
{
    match m.role {
        Role::User => lemma_contains_prefix(t.1, y, m.content@),
        Role::Assistant => lemma_contains_prefix(t.1, y, m.content@),
        Role::ExpertDraft { expert_id } => lemma_contains_prefix(
            t.1,
            y,
            "["@ + expert_id@ + "]: "@ + m.content@,
        ),
        Role::ExpertCritique { expert_id } => lemma_contains_prefix(
            t.1,
            y,
            "["@ + expert_id@ + "]: "@ + m.content@,
        ),
        Role::System => {},
    }
}

proof fn lemma_turn_shows_entry(x: Seq<char>, m: Message)
    requires
        contains_spec(x, entry_text(m)),
    ensures
        turn_shows((role_text(m.role), x), m),
{
}

proof fn lemma_normalize_nonempty(history: Seq<Message>, j: int)
    requires
        0 <= j < history.len(),
        history[j].role is User,
    ensures
        normalize_spec(history).len() > 0,
    decreases history.len(),
{
    let h = history.drop_last();
    if j < history.len() - 1 {
        assert(h[j] == history[j]);
        lemma_normalize_nonempty(h, j);
    }
}

proof fn lemma_step_keeps(prev: Seq<Turn>, m: Message, k: int, x: Message)
    requires
        0 <= k < prev.len(),
        turn_shows(prev[k], x),
    ensures
        k < normalize_step(prev, m).len(),
        turn_shows(normalize_step(prev, m)[k], x),
{
    if !(m.role is System) && !(prev.len() == 0 && !(m.role is User)) && prev.len() > 0
        && prev.last().0 == role_text(m.role) && k == prev.len() - 1 {
        lemma_turn_shows_extend(prev[k], x, "\n\n"@ + entry_text(m));
        assert(prev.last().1 + "\n\n"@ + entry_text(m) =~= prev[k].1 + ("\n\n"@ + entry_text(m)));
    }
}

proof fn lemma_entry_kept(history: Seq<Message>, i: int, j: int) -> (k: int)
    requires
        0 <= j <= i < history.len(),
        history[j].role is User,
        !(history[i].role is System),
    ensures
        0 <= k < normalize_spec(history).len(),
        turn_shows(normalize_spec(history)[k], history[i]),
        i == history.len() - 1 ==> k == normalize_spec(history).len() - 1,
    decreases history.len(),
{
    let h = history.drop_last();
    let prev = normalize_spec(h);
    let m = history.last();
    assert(normalize_spec(history) == normalize_step(prev, m));
    if i < history.len() - 1 {
        assert(h[i] == history[i]);
        assert(h[j] == history[j]);
        let k = lemma_entry_kept(h, i, j);
        lemma_step_keeps(prev, m, k, history[i]);
        k
    } else {
        if j < i {
            assert(h[j] == history[j]);
            lemma_normalize_nonempty(h, j);
        }
        if prev.len() > 0 && prev.last().0 == role_text(m.role) {
            let x = prev.last().1 + "\n\n"@;
            lemma_contains_piece(x, entry_text(m), Seq::empty());
            assert(x + entry_text(m) + Seq::<char>::empty() =~= prev.last().1 + "\n\n"@ + entry_text(m));
            lemma_turn_shows_entry(prev.last().1 + "\n\n"@ + entry_text(m), m);
            (prev.len() - 1) as int
        } else {
            let e = Seq::<char>::empty();
            lemma_contains_piece(e, entry_text(m), e);
            assert(e + entry_text(m) + e =~= entry_text(m));
            lemma_turn_shows_entry(entry_text(m), m);
            prev.len() as int
        }
    }
}

proof fn lemma_entries_in_order(history: Seq<Message>, i1: int, i2: int, j: int) -> (ks: (int, int))
    requires
        0 <= j <= i1 < i2 < history.len(),
        history[j].role is User,
        !(history[i1].role is System),
        !(history[i2].role is System),
    ensures
        0 <= ks.0 <= ks.1 < normalize_spec(history).len(),
        turn_shows(normalize_spec(history)[ks.0], history[i1]),
        turn_shows(normalize_spec(history)[ks.1], history[i2]),
    decreases history.len(),
{
    if i2 == history.len() - 1 {
        let k1 = lemma_entry_kept(history, i1, j);
        let k2 = lemma_entry_kept(history, i2, j);
        (k1, k2)
    } else {
        let h = history.drop_last();
        assert(h[i1] == history[i1]);
        assert(h[i2] == history[i2]);
        assert(h[j] == history[j]);
        let ks = lemma_entries_in_order(h, i1, i2, j);
        let prev = normalize_spec(h);
        assert(normalize_spec(history) == normalize_step(prev, history.last()));
        lemma_step_keeps(prev, history.last(), ks.0, history[i1]);
        lemma_step_keeps(prev, history.last(), ks.1, history[i2]);
        ks
    }
}

/// Nothing of the conversation is lost but system entries, and nothing is
/// reordered: every entry from the first user entry on, other than a system
/// entry, appears in some turn of the transcript, under its role (`user`, or
/// `assistant` for the assistant and for every panelist) and with its
/// content, a panelist's under its label; and of two such entries the later
/// one appears in the same turn as the earlier one or in a later turn.
pub proof fn lemma_normalize_keeps_every_entry(history: Seq<Message>)
    ensures
        forall|i: int, j: int|
            0 <= j <= i < history.len() && (#[trigger] history[j]).role is User && !((
            #[trigger] history[i]).role is System) ==> exists|k: int|
                0 <= k < normalize_spec(history).len() && turn_shows(
                    #[trigger] normalize_spec(history)[k],
                    history[i],
                ),
        forall|i1: int, i2: int, j: int|
            0 <= j <= i1 < i2 < history.len() && (#[trigger] history[j]).role is User && !((
            #[trigger] history[i1]).role is System) && !((#[trigger] history[i2]).role is System)
                ==> exists|k1: int, k2: int|
                0 <= k1 <= k2 < normalize_spec(history).len() && turn_shows(
                    #[trigger] normalize_spec(history)[k1],
                    history[i1],
                ) && turn_shows(#[trigger] normalize_spec(history)[k2], history[i2]),
{
    assert forall|i: int, j: int|
        0 <= j <= i < history.len() && (#[trigger] history[j]).role is User && !((
        #[trigger] history[i]).role is System) implies exists|k: int|
            0 <= k < normalize_spec(history).len() && turn_shows(
                #[trigger] normalize_spec(history)[k],
                history[i],
            ) by {
        let k = lemma_entry_kept(history, i, j);
        assert(turn_shows(normalize_spec(history)[k], history[i]));
    }
    assert forall|i1: int, i2: int, j: int|
        0 <= j <= i1 < i2 < history.len() && (#[trigger] history[j]).role is User && !((
        #[trigger] history[i1]).role is System) && !((#[trigger] history[i2]).role is System)
            implies exists|k1: int, k2: int|
            0 <= k1 <= k2 < normalize_spec(history).len() && turn_shows(
                #[trigger] normalize_spec(history)[k1],
                history[i1],
            ) && turn_shows(#[trigger] normalize_spec(history)[k2], history[i2]) by {
        let ks = lemma_entries_in_order(history, i1, i2, j);
        assert(turn_shows(normalize_spec(history)[ks.0], history[i1]));
        assert(turn_shows(normalize_spec(history)[ks.1], history[i2]));
    }
}

/// Flattens a session log into a strictly alternating user/assistant
/// transcript: system entries are dropped, the transcript starts at the first
/// user entry, panelists' statements are labelled with their author, and
/// consecutive same-role entries are merged with a blank line between them.
pub fn normalize_history(history: &[Message]) -> (res: Vec<(String, String)>)
    ensures
        turns_view(res@) == normalize_spec(history@),
        well_alternating(turns_view(res@)),
{
    let mut out: Vec<(String, String)> = Vec::new();
    let mut k: usize = 0;
    while k < history.len()
        invariant
            k <= history.len(),
            turns_view(out@) == normalize_spec(history@.subrange(0, k as int)),
        decreases history.len() - k,
    {
        let msg = &history[k];
        let ghost prev = turns_view(out@);
        assert(history@.subrange(0, k + 1).drop_last() =~= history@.subrange(0, k as int));
        assert(history@.subrange(0, k + 1).last() == history@[k as int]);
        let is_system = match msg.role {
            Role::System => true,
            _ => false,
        };
        let is_user = match msg.role {
            Role::User => true,
            _ => false,
        };
        if is_system {
        } else if out.len() == 0 && !is_user {
        } else {
            let role = role_to_string(&msg.role);
            let content = entry_string(msg);
            let n = out.len();
            let same = n > 0 && out[n - 1].0 == role;
            if same {
                let (last_role, mut last_content) = out.pop().unwrap();
                proof {
                    assert(prev.last() == (last_role@, last_content@));
                }
                last_content.append("\n\n");
                last_content.append(content.as_str());
                out.push((last_role, last_content));
                proof {
                    assert(turns_view(out@) =~= prev.update(
                        prev.len() - 1,
                        (prev.last().0, prev.last().1 + "\n\n"@ + entry_text(*msg)),
                    ));
                }
            } else {
                out.push((role, content));
                proof {
                    assert(turns_view(out@) =~= prev.push((role_text(msg.role), entry_text(*msg))));
                }
            }
        }
        k = k + 1;
    }
    assert(history@.subrange(0, history.len() as int) =~= history@);
    proof {
        lemma_normalize_alternates(history@);
    }
    out
}

} // verus!
